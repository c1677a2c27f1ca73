use codesync::jobs::{command_environment, last_line, take_lines, Output};

#[test]
fn strips_terminal_sequences_across_reads() {
    let mut output = Output::default();
    output.append(b"\x1b[3");
    output.append(b"1mHello\x1b[0m\r\n");
    assert_eq!(output.text, "Hello\n");
}

#[test]
fn osc_titles_backspace_and_invalid_bytes() {
    let mut output = Output::default();
    output.append(b"\x1b]0;title\x07ab\x08c\tz\x1b]2;t\x1b\\!");
    assert_eq!(output.text, "ac\tz!");
    output.append(&[0xff, b'\n']);
    assert_eq!(output.text, "ac\tz!\u{fffd}\n");
}

#[test]
fn long_logs_keep_the_last_part() {
    let mut output = Output::default();
    let line = vec![b'a'; 100_000];
    output.append(&line);
    output.append(&line);
    assert_eq!(output.text.len(), 200_000);
    output.append(b"b");
    assert_eq!(output.text.len(), 150_000);
    assert!(output.text.ends_with("ab"));
}

#[test]
fn tailscale_output_is_shown_line_by_line() {
    let mut pending = Vec::new();
    let lines = take_lines(&mut pending, b"first\nsec");
    assert_eq!(lines, vec![b"first\n".to_vec()]);
    assert_eq!(pending, b"sec".to_vec());
    let lines = take_lines(&mut pending, b"ond\n\nthird");
    assert_eq!(lines, vec![b"second\n".to_vec(), b"\n".to_vec()]);
    assert_eq!(last_line(pending), Some(b"third".to_vec()));
    assert_eq!(last_line(Vec::new()), None);
    let mut pending = Vec::new();
    let long = vec![b'x'; 16385];
    let lines = take_lines(&mut pending, &long);
    assert_eq!(lines, vec![long.clone()]);
    assert!(pending.is_empty());
    let lines = take_lines(&mut pending, &long[..16384]);
    assert!(lines.is_empty());
    assert_eq!(pending.len(), 16384);
}

#[test]
fn commands_run_with_the_askpass_environment() {
    let env = command_environment("/usr/bin/codesync", "/tmp/sock", None);
    let expected: Vec<(String, String)> = [
        ("SSH_ASKPASS", "/usr/bin/codesync"),
        ("SSH_ASKPASS_REQUIRE", "force"),
        ("CODESYNC_ASKPASS", "1"),
        ("CODESYNC_AUTH_SOCKET", "/tmp/sock"),
        ("LC_ALL", "C"),
        ("TERM", "dumb"),
        ("NO_COLOR", "1"),
    ]
    .iter()
    .map(|(k, v)| (k.to_string(), v.to_string()))
    .collect();
    assert_eq!(env, expected);
    let env = command_environment("a", "127.0.0.1:4000", Some("abcd"));
    assert_eq!(env.last().unwrap(), &("CODESYNC_AUTH_TOKEN".to_string(), "abcd".to_string()));
    assert_eq!(env.len(), 8);
}

use codesync::browser::{remote_listing, remote_path, remote_preview, remote_script, Kind};

#[test]
fn remote_listing_and_preview_handle_quoted_names_without_changes() {
    let script = remote_script("folder ' with spaces", false).unwrap();
    assert!(script.contains("$HOME/codesync"));
    assert!(remote_script("../outside", false).is_err());
    assert!(remote_script("/tmp", false).is_err());

    let output = [
        "PATH",
        "folder ' with spaces",
        "dir",
        "0",
        "subfolder",
        "file",
        "15",
        "note ' quoted\n.txt",
        "link",
        "0",
        "link",
        "END",
    ]
    .join("\0");
    let listing = remote_listing(&output, false).unwrap();
    assert_eq!(listing.relative, "folder ' with spaces");
    assert_eq!(listing.entries.len(), 3);
    assert!(listing.entries[0].kind == Kind::Directory);
    assert!(listing
        .entries
        .iter()
        .any(|entry| entry.name == "note ' quoted\n.txt"));
    assert_eq!(
        remote_preview("file", "remote contents".into()).text,
        "remote contents"
    );
    assert!(remote_listing(&["PATH", "/tmp", "END"].join("\0"), false).is_err());
    assert!(remote_listing(&["PATH", "../tmp", "END"].join("\0"), false).is_err());
    assert!(remote_listing(&["PATH", "", "file", "1", "incomplete"].join("\0"), false).is_err());
}

#[test]
fn listing_sorts_by_kind_then_name_and_reports_limits() {
    let output = [
        "PATH", "notes\n", "file", "3", "b", "other", "0", "fifo", "dir", "0", "z", "file", "1",
        "a", "link", "0", "l", "dir", "0", "c", "LIMIT",
    ]
    .join("\0");
    let listing = remote_listing(&output, false).unwrap();
    assert_eq!(listing.relative, "notes");
    assert!(listing.limited);
    let names: Vec<&str> = listing.entries.iter().map(|e| e.name.as_str()).collect();
    assert_eq!(names, vec!["c", "z", "a", "b", "l", "fifo"]);
    assert_eq!(listing.entries[2].size, 1);
    assert_eq!(listing.entries[3].size, 3);
}

#[test]
fn listing_errors_name_the_problem() {
    let err = |parts: &[&str]| remote_listing(&parts.join("\0"), false).err().unwrap();
    assert_eq!(err(&["LIST"]), "Cannot read remote directory listing.");
    assert_eq!(err(&["PATH"]), "Missing remote path");
    assert_eq!(err(&["PATH", "./x", "END"]), "Invalid remote directory.");
    assert_eq!(err(&["PATH", "", "dir", "x", "a", "END"]), "Invalid file size");
    assert_eq!(err(&["PATH", "", "dir", "0"]), "Missing filename");
    assert_eq!(err(&["PATH", "", "dir", "0", "a/b", "END"]), "Remote filenames must be valid UTF-8.");
    assert_eq!(err(&["PATH", "", "dir", "0", "..", "END"]), "Remote filenames must be valid UTF-8.");
    assert_eq!(
        err(&["PATH", "", "socket", "0", "a", "END"]),
        "Incomplete remote listing. Refresh to try again."
    );
    assert!(remote_listing(&["PATH", "", "file", "1", "aux.txt", "END"].join("\0"), true).is_err());
    assert!(remote_listing(&["PATH", "", "file", "1", "aux.txt", "END"].join("\0"), false).is_ok());
}

#[test]
fn scripts_refuse_paths_outside_the_root() {
    assert!(remote_script("", false).is_ok());
    assert!(remote_script("a/./b", true).is_ok());
    assert!(remote_script("./a", false).is_err());
    assert!(remote_script("a/../b", false).is_err());
    assert!(remote_script("a\0b", false).is_err());
    assert_eq!(
        remote_script("notes/a b", true).unwrap(),
        "set -eu; root=$HOME/codesync; mkdir -p -- \"$root\"; cd -- \"$root\"; test -n 'notes/a b'; \
         test -f 'notes/a b'; test ! -L 'notes/a b'; head -c 262145 -- 'notes/a b'"
    );
    assert_eq!(
        remote_script("..", true).err().unwrap(),
        "Choose a location inside ~/codesync."
    );
}

#[test]
fn previews_are_cut_at_a_character_boundary_and_binary_is_refused() {
    let mut text = "a".repeat(262_143);
    text.push('é');
    let preview = remote_preview("large.txt", text);
    assert!(preview.truncated);
    assert_eq!(preview.text.len(), 262_143);
    assert_eq!(preview.name, "large.txt");
    let exact = "b".repeat(262_144);
    let preview = remote_preview("exact.txt", exact.clone());
    assert!(!preview.truncated);
    assert_eq!(preview.text, exact);
    let binary = remote_preview("data.bin", "a\u{0}b".into());
    assert!(binary.text.contains("Binary"));
    let lossy = remote_preview("bad.txt", "x\u{fffd}".into());
    assert!(lossy.text.contains("Binary"));
    assert_eq!(remote_preview("t", "a\r\n\tb".into()).text, "a\r\n\tb");
}

#[test]
fn remote_paths_use_forward_slashes() {
    assert_eq!(remote_path("a\\b", true), "a/b");
    assert_eq!(remote_path("a\\b", false), "a\\b");
}

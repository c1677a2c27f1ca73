use codesync::auth::Credentials;
use codesync::commands::{Action, Task};
use codesync::ip::{ip_to_string, ipv6_to_string, parse_ip, parse_ipv4, parse_ipv6, same_ip};
use codesync::store::{NetworkSettings, Server};
use codesync::sync_job::{changed_error, group_tasks, merged_push_args, participant_names, unchanged};

fn v(s: &str) -> Vec<char> {
    s.chars().collect()
}

fn text(cs: Vec<char>) -> String {
    cs.into_iter().collect()
}

#[test]
fn ipv4_needs_four_plain_octets() {
    assert_eq!(parse_ipv4(&v("192.168.1.42")), Some(0xc0a8012a));
    assert_eq!(parse_ipv4(&v("0.0.0.0")), Some(0));
    assert_eq!(parse_ipv4(&v("256.0.0.1")), None);
    assert_eq!(parse_ipv4(&v("01.2.3.4")), None);
    assert_eq!(parse_ipv4(&v("1.2.3")), None);
    assert_eq!(parse_ipv4(&v("1.2.3.4 ")), None);
}

#[test]
fn ipv6_reads_and_writes_like_std() {
    let g = parse_ipv6(&v("fd7a:115c:a1e0::1")).unwrap();
    assert_eq!(g, vec![0xfd7a, 0x115c, 0xa1e0, 0, 0, 0, 0, 1]);
    assert_eq!(text(ipv6_to_string(&g)), "fd7a:115c:a1e0::1");
    let g = parse_ipv6(&v("::ffff:192.168.1.1")).unwrap();
    assert_eq!(text(ipv6_to_string(&g)), "::ffff:192.168.1.1");
    let g = parse_ipv6(&v("1:0:0:2:0:0:0:3")).unwrap();
    assert_eq!(text(ipv6_to_string(&g)), "1:0:0:2::3");
    assert_eq!(parse_ipv6(&v("1::2::3")), None);
    assert_eq!(parse_ipv6(&v("12345::")), None);
    let cases: [(&str, [u16; 8]); 4] = [
        ("::", [0; 8]),
        ("::1", [0, 0, 0, 0, 0, 0, 0, 1]),
        ("2001:db8::8", [0x2001, 0xdb8, 0, 0, 0, 0, 0, 8]),
        ("1:2:3:4:5:6:7:8", [1, 2, 3, 4, 5, 6, 7, 8]),
    ];
    for (s, groups) in cases {
        let ours = parse_ipv6(&v(s)).unwrap();
        assert_eq!(ours, groups.to_vec());
        assert_eq!(text(ipv6_to_string(&ours)), s);
    }
}

#[test]
fn addresses_compare_by_value() {
    let a = parse_ip(&v("2001:db8::1")).unwrap();
    let b = parse_ip(&v("2001:0db8:0:0:0:0:0:1")).unwrap();
    assert!(same_ip(&a, &b));
    let c = parse_ip(&v("100.100.1.2")).unwrap();
    assert!(!same_ip(&a, &c));
    assert_eq!(text(ip_to_string(&b)), "2001:db8::1");
    assert_eq!(text(ip_to_string(&c)), "100.100.1.2");
    assert!(parse_ip(&v("host")).is_none());
}

fn task(id: u64, local: &str) -> Task {
    Task {
        server: Server {
            id,
            name: format!(" Server {id} "),
            host: format!("server{id}"),
            user: "user".into(),
            port: 22,
            network: NetworkSettings::default(),
        },
        credentials: Credentials::default(),
        local: local.into(),
        remote: "/srv/notes".into(),
        action: Action::Sync,
    }
}

#[test]
fn sync_tasks_group_by_local_folder() {
    let tasks = vec![task(1, "/b"), task(2, "/a"), task(3, "/b")];
    let (keys, groups) = group_tasks(&tasks);
    let keys: Vec<String> = keys.into_iter().map(text).collect();
    assert_eq!(keys, vec!["/a", "/b"]);
    assert_eq!(groups[0].len(), 1);
    assert_eq!(groups[0][0].server.id, 2);
    assert_eq!(groups[1].iter().map(|t| t.server.id).collect::<Vec<_>>(), vec![1, 3]);

    let names = participant_names(None, &groups[1]);
    assert_eq!(names[0], "Host");
    assert_eq!(names.len(), 3);
    let names = participant_names(Some(" laptop\n".into()), &groups[0]);
    assert_eq!(names[0], "laptop");
}

#[test]
fn final_comparison_and_push_arguments() {
    assert!(unchanged(""));
    assert!(unchanged("  \n"));
    assert!(!unchanged(">f+++++++++ notes.txt\n"));
    assert!(changed_error(None).starts_with("Local files changed during sync."));
    assert_eq!(
        changed_error(Some("Home")),
        "Files on Home changed during sync. Run Sync again after edits finish."
    );
    let args = merged_push_args(&vec!["-a".to_string(), "src/".to_string(), "dst/".to_string()]);
    assert!(args.contains(&"--ignore-existing".to_string()));
    assert!(args.contains(&"--omit-dir-times".to_string()));
    assert!(args.contains(&"src/".to_string()));
}

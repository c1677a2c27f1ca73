use codesync::auth::Credentials;
use codesync::commands::{
    capture, command_outcome, copy_args, failure_reason, first_contact_args, host_password_step,
    host_setup_script, host_ssh_status, login_url, privileged_remote, remote_rename_script,
    setup_script, ssh_args, stop_ssh_helper, stop_ssh_policy, sync_args, tailscale_line,
    transport, verify_args, Action, PasswordPoll, Task,
};
use codesync::merge::Rename;
use codesync::store::{NetworkSettings, Server};
use codesync::tailscale::{
    peer_address, tailscale_address, tailscale_membership, tailscale_running, Peer,
    TailscaleStatus,
};

fn task() -> Task {
    Task {
        server: Server {
            id: 1,
            name: "Test".into(),
            host: "host".into(),
            user: "user".into(),
            port: 2222,
            network: NetworkSettings::default(),
        },
        credentials: Credentials::default(),
        local: "/tmp".into(),
        remote: "/home/user/class notes".into(),
        action: Action::Test,
    }
}

fn status(state: &str, peers: Vec<Peer>) -> TailscaleStatus {
    TailscaleStatus {
        backend_state: Some(state.into()),
        self_ips: None,
        peers: Some(peers),
    }
}

fn peer(host: &str, dns: &str, ips: &[&str]) -> Peer {
    Peer {
        ips: Some(ips.iter().map(|s| s.to_string()).collect()),
        dns_name: dns.into(),
        host_name: host.into(),
    }
}

#[test]
fn all_endpoints_are_bound_to_the_same_server_identity() {
    let mut task = task();
    let local = ssh_args(&task.server, false, None);
    task.server.host = "public.example.com".into();
    task.server.port = 2200;
    let remote = ssh_args(&task.server, false, None);
    for args in [&local, &remote] {
        assert!(args.contains(&"StrictHostKeyChecking=yes".into()));
        assert!(args.contains(&"HostKeyAlias=codesync-server-1".into()));
        assert!(args.contains(&"UserKnownHostsFile=~/.ssh/codesync_known_hosts".into()));
        assert!(args.contains(&"ControlPath=~/.ssh/codesync-server-1-%C".into()));
    }
    task.server.id = 2;
    assert!(ssh_args(&task.server, false, None).contains(&"HostKeyAlias=codesync-server-2".into()));
}

#[test]
fn sync_routes_each_mapping_without_touching_folder_config() {
    let mut task = task();
    let ssh = ssh_args(&task.server, false, None);
    let args = sync_args(&task.server, &task.remote, false, true, false, &ssh);
    assert_eq!(
        &args[args.len() - 2..],
        ["./", "user@host:/home/user/class notes/"]
    );
    assert!(args.contains(&"--dry-run".to_owned()));
    assert!(args.iter().any(|a| a.contains("2222")));
    task.server.host = "other".into();
    task.remote = "/backup".into();
    let ssh = ssh_args(&task.server, false, None);
    let args = sync_args(&task.server, &task.remote, true, false, false, &ssh);
    assert_eq!(&args[args.len() - 2..], ["user@other:/backup/", "./"]);
}

#[test]
fn host_authorization_handles_submit_cancel_and_stop() {
    assert_eq!(
        host_password_step(false, PasswordPoll::Entered("test-password".into()), 0).unwrap(),
        Some("test-password".to_string())
    );
    assert!(host_password_step(false, PasswordPoll::Closed, 0)
        .unwrap_err()
        .contains("cancelled"));
    assert!(host_password_step(true, PasswordPoll::Nothing, 0)
        .unwrap_err()
        .contains("Stopped"));
    assert!(tailscale_running(&status("Running", vec![])));
    assert!(!tailscale_running(&status("NeedsLogin", vec![])));
    assert!(
        failure_reason("ssh: connect to host private.example port 22: Connection refused")
            .contains("port refused")
    );
    assert!(!failure_reason("private.example: Permission denied").contains("private.example"));
}

#[test]
fn tailscale_matching_uses_peer_addresses_and_unique_names_not_lan_guesses() {
    let one = || {
        status(
            "Running",
            vec![peer(
                "workstation",
                "workstation.example.ts.net.",
                &["fd7a:115c:a1e0::1", "100.100.1.2"],
            )],
        )
    };
    for configured in [
        "workstation",
        "WORKSTATION.EXAMPLE.TS.NET.",
        "100.100.1.2",
        "[fd7a:115c:a1e0::1]",
    ] {
        assert_eq!(
            peer_address(&one(), configured).as_deref(),
            Some("100.100.1.2")
        );
    }
    assert!(peer_address(&one(), "192.168.1.2").is_none());
    let mut stopped = one();
    stopped.backend_state = Some("Stopped".into());
    assert!(peer_address(&stopped, "workstation").is_none());
    let duplicate = status(
        "Running",
        vec![
            peer("same", "", &["100.100.1.2"]),
            peer("same", "", &["100.100.1.3"]),
        ],
    );
    assert!(peer_address(&duplicate, "same").is_none());
    assert!(!tailscale_membership(&one(), "100.100.9.9"));
}

#[test]
fn peers_without_ipv4_are_written_as_std_writes_them() {
    let only_v6 = status(
        "Running",
        vec![peer("box", "box.example.ts.net.", &["FD7A:115C:A1E0:0:0:0:0:1", "junk"])],
    );
    assert_eq!(
        peer_address(&only_v6, "box").as_deref(),
        Some("fd7a:115c:a1e0::1")
    );
    let mapped = status("Running", vec![peer("m", "", &["::ffff:192.0.2.1"])]);
    assert_eq!(peer_address(&mapped, "m").as_deref(), Some("::ffff:192.0.2.1"));
    let plain = status("Running", vec![peer("p", "", &["1:0:2:0:0:3:0:4"])]);
    assert_eq!(peer_address(&plain, "p").as_deref(), Some("1:0:2::3:0:4"));
    let first_label = status("Running", vec![peer("x", "laptop.tail.ts.net", &["100.1.2.3"])]);
    assert_eq!(peer_address(&first_label, "laptop").as_deref(), Some("100.1.2.3"));
}

#[test]
fn tailscale_login_and_status_are_handled_without_showing_private_details() {
    assert_eq!(
        login_url("Visit https://login.tailscale.com/a/test123\n").as_deref(),
        Some("https://login.tailscale.com/a/test123")
    );
    assert!(login_url("https://login.tailscale.com.evil.example/a/test").is_none());
    let (url, notice) = tailscale_line(b"https://login.tailscale.com/a/test123\n", "Server").unwrap();
    assert_eq!(url, "https://login.tailscale.com/a/test123");
    assert!(!notice.contains("test123"));
    assert!(tailscale_line(b"Starting...\n", "Server").is_none());
    let mut me = status("Running", vec![]);
    me.self_ips = Some(vec!["fd7a:115c:a1e0::1".into(), "100.100.1.2".into()]);
    assert_eq!(tailscale_address(&me).unwrap(), "100.100.1.2");
    me.backend_state = Some("NeedsLogin".into());
    assert!(tailscale_address(&me).is_err());
}

#[test]
fn login_links_are_unwrapped_and_checked() {
    assert_eq!(
        login_url("  (\"<https://login.tailscale.com/a/x?y=1&z=2>\")  ").as_deref(),
        Some("https://login.tailscale.com/a/x?y=1&z=2")
    );
    assert!(login_url("https://login.tailscale.com/").is_none());
    assert_eq!(
        login_url("https://login.tailscale.com/a b").as_deref(),
        Some("https://login.tailscale.com/a")
    );
    assert!(login_url("https://login.tailscale.com/a<b").is_none());
    assert!(login_url("https://login.tailscale.com/a#frag").is_none());
}

#[test]
fn passwordless_stop_policy_is_limited_to_one_helper_without_arguments() {
    let policy = stop_ssh_policy(1000);
    assert!(policy.contains(
        "#1000 ALL=(root) NOPASSWD: NOSETENV: /usr/local/libexec/codesync-stop-ssh \"\""
    ));
    assert!(!policy.contains("ALL=(ALL)"));
    let helper = stop_ssh_helper("echo control");
    assert!(helper.starts_with("#!/bin/sh\n"));
    assert!(helper.contains("[ \"$#\" -eq 0 ] || exit 2\nset -- disable\necho control"));
    let setup = host_setup_script(1000, "echo control", "echo setup");
    assert!(setup.starts_with("set -eu\n\ncommand -v sudo"));
    assert!(setup.contains("/etc/sudoers.d/codesync-stop-ssh-1000"));
    assert!(setup.ends_with("\necho setup"));
    assert_eq!(host_setup_script(0, "x", "echo setup"), "set -eu\n\necho setup");
}

#[test]
fn escalation_scripts_quote_the_payload() {
    let script = privileged_remote("echo 'hi'");
    assert!(script.starts_with("if [ \"$(id -u)\" = 0 ]; then sh -c 'echo '\\''hi'\\'''; elif"));
    assert!(script.ends_with("'Server setup requires root, sudo, or passwordless doas.' >&2; exit 1; fi"));
    let setup = setup_script("apt-get install rsync");
    assert!(setup.starts_with("if command -v rsync >/dev/null 2>&1; then rsync --version;"));
    assert_eq!(setup.matches("sh -c 'apt-get install rsync'").count(), 3);
}

#[test]
fn first_contact_asks_and_avoids_shared_connections() {
    let args = first_contact_args(&ssh_args(&task().server, false, None));
    assert!(args.contains(&"StrictHostKeyChecking=ask".into()));
    assert!(args.contains(&"ControlMaster=no".into()));
    assert!(args.contains(&"ControlPath=none".into()));
    assert!(!args.iter().any(|a| a == "StrictHostKeyChecking=yes"));
    let windows = ssh_args(&task().server, true, Some("/cygdrive/c/Users/me/.ssh/codesync_known_hosts"));
    assert!(windows.contains(&"UserKnownHostsFile=\"/cygdrive/c/Users/me/.ssh/codesync_known_hosts\"".into()));
    assert!(windows.contains(&"ControlMaster=no".into()));
    assert_eq!(transport(&vec!["-p".to_string(), "22".to_string()]), "'ssh' '-p' '22'");
}

#[test]
fn copy_and_verify_arguments() {
    let copy = copy_args("/a", "/b", true, false);
    assert_eq!(&copy[..3], ["-a", "--itemize-changes", "--omit-dir-times"]);
    assert!(copy.contains(&"--ignore-existing".to_string()));
    assert!(copy.contains(&"--exclude=.git".to_string()));
    assert_eq!(&copy[copy.len() - 3..], ["--", "/a/", "/b"]);
    let windows = copy_args("C:\\a", "C:\\b", false, true);
    assert_eq!(&windows[windows.len() - 2..], ["/cygdrive/c/a/", "/cygdrive/c/b"]);
    assert!(windows.contains(&"--no-perms".to_string()));
    let local = verify_args("/m", "/l", None, false);
    assert_eq!(&local[local.len() - 2..], ["/m/", "/l"]);
    let ssh = vec!["-p".to_string(), "22".to_string()];
    let remote = verify_args("/m", "u@h:/r/", Some(&ssh), false);
    assert!(remote.contains(&"-e".to_string()));
    assert_eq!(&remote[remote.len() - 2..], ["/m/", "u@h:/r/"]);
}

#[test]
fn remote_rename_script_checks_every_parent_and_the_digest() {
    let rename = Rename {
        participant: 1,
        from: "notes/file with ' quote.txt".into(),
        to: "notes/Server_file with ' quote.txt".into(),
        hash: "abc".into(),
    };
    let script = remote_rename_script("/srv/x", &rename, false);
    assert!(script.starts_with(
        "set -eu; cd -- '/srv/x'; test ! -L 'notes/file with '\\'' quote.txt' || exit 1; test ! -L 'notes' || exit 1; test -f "
    ));
    assert!(script.contains("test \"${actual%% *}\" = 'abc' ||"));
    assert!(script.contains("mv -nT -- 'notes/file with '\\'' quote.txt' 'notes/Server_file with '\\'' quote.txt'"));
}

#[test]
fn command_results_and_host_status() {
    assert_eq!(host_ssh_status(false, true, b" enabled\n"), Ok(true));
    assert_eq!(host_ssh_status(false, true, b"disabled"), Ok(false));
    assert!(host_ssh_status(false, true, b"maybe").unwrap_err().contains("Unexpected"));
    assert!(host_ssh_status(false, false, b"enabled").unwrap_err().contains("service manager"));
    assert!(host_ssh_status(true, true, b"enabled").unwrap_err().contains("Linux-only"));
    assert_eq!(command_outcome(false, true, "sh", "exit status: 0", b"ok", b""), Ok("ok".into()));
    assert_eq!(
        command_outcome(false, false, "sh", "exit status: 7", b"", b"nothing useful"),
        Err("sh failed (exit status: 7). Check the activity output for this step.".into())
    );
    assert!(command_outcome(true, true, "sh", "", b"", b"").unwrap_err().contains("Stopped"));
    let mut kept = vec![1u8; 1_999_999];
    capture(&mut kept, &[2, 3]);
    assert_eq!(kept.len(), 2_000_001);
    capture(&mut kept, &[4]);
    assert_eq!(kept.len(), 2_000_001);
    assert!(host_password_step(false, PasswordPoll::Nothing, 300_001)
        .unwrap_err()
        .contains("timed out"));
    assert_eq!(host_password_step(false, PasswordPoll::Nothing, 1000), Ok(None));
}

#[test]
fn failure_reasons_never_echo_the_error_output() {
    for stderr in ["", "secret-host.example: weird failure", "HOST KEY VERIFICATION FAILED", "sudo: a password is required"] {
        let reason = failure_reason(stderr);
        assert!(!reason.contains("secret-host"));
        assert!(reason.ends_with('.'));
    }
    assert_eq!(failure_reason("zzz"), "Check the activity output for this step.");
}

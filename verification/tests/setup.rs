use codesync::setup::{
    disable_command, disable_error, HostAction, HostEvent, HostSetup, OutputMode, TailscaleAction,
    TailscaleEvent, TailscaleSetup, TailscaleStep,
};
use codesync::endpoint::Notice;
use codesync::store::{ConnectionMode, NetworkSettings, Server};
use codesync::tailscale::TailscaleStatus;

fn setup(windows: bool, root: bool, sudo: bool, pkexec: bool) -> HostSetup {
    HostSetup::new(
        "echo hi".to_string(),
        "incoming SSH connections".to_string(),
        OutputMode::Live,
        windows,
        root,
        sudo,
        pkexec,
    )
}

fn run(a: &HostAction) -> (String, Vec<String>, Option<String>) {
    match a {
        HostAction::Run { program, args, input, .. } => (program.clone(), args.clone(), input.clone()),
        _ => panic!("expected a command"),
    }
}

fn err(a: &HostAction) -> String {
    match a {
        HostAction::Finish(Err(e)) => e.clone(),
        _ => panic!("expected a failure"),
    }
}

#[test]
fn root_runs_the_script_directly() {
    let mut s = setup(false, true, true, true);
    let a = s.step(false, HostEvent::Resume);
    assert_eq!(run(&a), ("sh".to_string(), vec!["-c".to_string(), "echo hi".to_string()], None));
    assert_eq!(err(&s.step(false, HostEvent::Ran(Err("exit status 1".into())))), "exit status 1");
    assert!(matches!(s.step(false, HostEvent::Resume), HostAction::Idle));
}

#[test]
fn sudo_with_cached_credentials_needs_no_password() {
    let mut s = setup(false, false, true, true);
    let a = s.step(false, HostEvent::Resume);
    assert_eq!(run(&a), ("sudo".to_string(), vec!["-n".to_string(), "-v".to_string()], None));
    assert!(matches!(&a, HostAction::Run { mode: OutputMode::Capture, .. }));
    let a = s.step(false, HostEvent::Ran(Ok(String::new())));
    assert_eq!(
        run(&a),
        ("sudo".to_string(), vec!["-n", "--", "sh", "-c", "echo hi"].into_iter().map(String::from).collect(), None)
    );
    assert!(matches!(s.step(false, HostEvent::Ran(Ok(String::new()))), HostAction::Finish(Ok(()))));
}

#[test]
fn sudo_without_cached_credentials_asks_for_the_password() {
    let mut s = setup(false, false, true, false);
    s.step(false, HostEvent::Resume);
    let a = s.step(false, HostEvent::Ran(Err("a password is required".into())));
    assert!(matches!(&a, HostAction::AskPassword(p) if p == "incoming SSH connections"));
    let a = s.step(false, HostEvent::Password(Ok("pw".into())));
    assert_eq!(
        run(&a),
        (
            "sudo".to_string(),
            vec!["-S", "-p", "", "--", "sh", "-c", "echo hi"].into_iter().map(String::from).collect(),
            Some("pw".to_string())
        )
    );
    assert_eq!(
        err(&s.step(false, HostEvent::Ran(Err("Authentication failed.".into())))),
        "Host setup (incoming SSH connections): Authentication failed."
    );
}

#[test]
fn a_stop_during_the_sudo_check_ends_the_setup() {
    let mut s = setup(false, false, true, false);
    s.step(false, HostEvent::Resume);
    assert_eq!(err(&s.step(true, HostEvent::Ran(Ok(String::new())))), "Stopped.");
}

#[test]
fn a_closed_password_dialog_ends_the_setup() {
    let mut s = setup(false, false, true, false);
    s.step(false, HostEvent::Resume);
    s.step(false, HostEvent::Ran(Err("no".into())));
    assert_eq!(
        err(&s.step(false, HostEvent::Password(Err("Host authorization cancelled.".into())))),
        "Host authorization cancelled."
    );
}

#[test]
fn pkexec_failures_suggest_sudo_or_an_agent() {
    let mut s = setup(false, false, false, true);
    let a = s.step(false, HostEvent::Resume);
    assert_eq!(
        run(&a),
        (
            "pkexec".to_string(),
            vec!["--disable-internal-agent", "sh", "-c", "echo hi"].into_iter().map(String::from).collect(),
            None
        )
    );
    assert_eq!(
        err(&s.step(false, HostEvent::Ran(Err("Not authorized.".into())))),
        "Host setup (incoming SSH connections): Not authorized. Install sudo to use the in-app password dialog, or start a desktop Polkit agent."
    );
}

#[test]
fn without_sudo_or_pkexec_or_on_windows_setup_fails() {
    let mut s = setup(false, false, false, false);
    assert_eq!(
        err(&s.step(false, HostEvent::Resume)),
        "Host setup requires sudo or pkexec. Install sudo, then retry host setup."
    );
    let mut s = setup(true, true, true, true);
    assert_eq!(
        err(&s.step(false, HostEvent::Resume)),
        "For incoming SSH connections, install and sign in to the Windows Tailscale app, then retry. Incoming SSH setup is Linux-only."
    );
}

#[test]
fn turning_ssh_off_never_prompts() {
    assert_eq!(
        disable_command(false, false, "script"),
        Ok((
            "sudo".to_string(),
            vec!["-n".to_string(), "--".to_string(), "/usr/local/libexec/codesync-stop-ssh".to_string()]
        ))
    );
    assert_eq!(
        disable_command(false, true, "body"),
        Ok(("sh".to_string(), vec!["-c".to_string(), "set -- disable\nbody".to_string()]))
    );
    assert_eq!(
        disable_command(true, false, "body"),
        Err("Incoming SSH setup is supported on Linux only.".to_string())
    );
    assert_eq!(
        disable_error("sudo: a password is required"),
        "Could not turn SSH off without a password: sudo: a password is required Run Connections > Prepare this host once to install the limited shutdown permission, then retry."
    );
}

fn server() -> Server {
    Server {
        id: 7,
        name: "Box".into(),
        host: "192.168.1.20".into(),
        user: "me".into(),
        port: 22,
        network: NetworkSettings {
            mode: ConnectionMode::Automatic,
            public_host: String::new(),
            public_port: 22,
            tailscale_host: String::new(),
            tailscale_port: 22,
        },
    }
}

fn status(running: bool, ips: &[&str]) -> TailscaleStatus {
    TailscaleStatus {
        backend_state: Some(if running { "Running" } else { "NeedsLogin" }.to_string()),
        self_ips: Some(ips.iter().map(|s| s.to_string()).collect()),
        peers: None,
    }
}

fn lines(step: &TailscaleStep) -> Vec<String> {
    step.notices
        .iter()
        .map(|n| match n {
            Notice::Line(l) => l.clone(),
            Notice::TailscaleReady { server, host, port } => format!("ready {server} {host}:{port}"),
        })
        .collect()
}

fn ts(tailscale: bool) -> TailscaleSetup {
    TailscaleSetup::new(server(), "sudo-pw".into(), "install".into(), false, None, tailscale, false, true, false)
}

#[test]
fn both_ends_connected_are_verified_at_the_tailscale_address() {
    let mut s = ts(true);
    let step = s.step(false, TailscaleEvent::Resume);
    assert!(matches!(step.action, TailscaleAction::LocalStatus));
    let step = s.step(false, TailscaleEvent::Status(Ok(Some(status(true, &["100.64.0.1"])))));
    assert_eq!(lines(&step), vec!["This host is already connected to Tailscale.\n"]);
    match &step.action {
        TailscaleAction::ReadStatus(args) => {
            assert_eq!(&args[args.len() - 2..], &["me@192.168.1.20".to_string(), "tailscale status --json".to_string()])
        }
        _ => panic!("expected a status read"),
    }
    let step = s.step(false, TailscaleEvent::Status(Ok(Some(status(true, &["100.64.0.9"])))));
    assert_eq!(lines(&step), vec!["The server is already connected to Tailscale.\n"]);
    let step = s.step(false, TailscaleEvent::Status(Ok(Some(status(true, &["fd7a::9", "100.64.0.9"])))));
    match &step.action {
        TailscaleAction::Ssh { args, input: None, .. } => {
            assert_eq!(args[args.len() - 1], "printf '%s' \"${SSH_CONNECTION##* }\"")
        }
        _ => panic!("expected the port question"),
    }
    let step = s.step(false, TailscaleEvent::Ran(Ok(" 2222\n".into())));
    assert_eq!(lines(&step), vec!["Verifying SSH over Tailscale using the saved server identity...\n"]);
    match &step.action {
        TailscaleAction::Ssh { args, .. } => {
            assert_eq!(&args[args.len() - 2..], &["me@100.64.0.9".to_string(), "true".to_string()]);
            assert!(args.contains(&"2222".to_string()));
        }
        _ => panic!("expected the SSH test"),
    }
    let step = s.step(false, TailscaleEvent::Ran(Ok(String::new())));
    assert_eq!(lines(&step), vec!["ready 7 100.64.0.9:2222"]);
    assert!(matches!(step.action, TailscaleAction::Finish(Ok(()))));
}

#[test]
fn this_host_is_prepared_then_the_server_with_its_password() {
    let mut s = ts(false);
    let step = s.step(false, TailscaleEvent::Resume);
    assert_eq!(lines(&step), vec!["Preparing Tailscale on this host...\n"]);
    assert!(matches!(&step.action, TailscaleAction::Host(HostAction::Run { program, .. }) if program == "sudo"));
    let step = s.step(false, TailscaleEvent::Host(HostEvent::Ran(Ok(String::new()))));
    assert!(matches!(
        &step.action,
        TailscaleAction::Host(HostAction::Run { program, mode: OutputMode::Tailscale(l), .. }) if program == "sudo" && l == "This host"
    ));
    let step = s.step(false, TailscaleEvent::Host(HostEvent::Ran(Ok(String::new()))));
    assert!(matches!(step.action, TailscaleAction::ReadStatus(_)));
    let step = s.step(false, TailscaleEvent::Status(Err("ssh: connect failed".into())));
    assert_eq!(
        lines(&step),
        vec!["Preparing Tailscale on the server with its saved administrator credentials...\n"]
    );
    match &step.action {
        TailscaleAction::Ssh { input, mode: OutputMode::Tailscale(l), .. } => {
            assert_eq!(input.as_deref(), Some("sudo-pw"));
            assert_eq!(l, "Server");
        }
        _ => panic!("expected the server setup"),
    }
    let step = s.step(false, TailscaleEvent::Ran(Err("exit status 1".into())));
    assert!(matches!(&step.action, TailscaleAction::Finish(Err(e)) if e == "Server Tailscale setup: exit status 1"));
}

#[test]
fn tailscale_setup_failures() {
    let mut s = ts(true);
    s.step(false, TailscaleEvent::Resume);
    s.step(false, TailscaleEvent::Status(Ok(Some(status(true, &[])))));
    s.step(false, TailscaleEvent::Status(Ok(Some(status(true, &[])))));
    let step = s.step(false, TailscaleEvent::Status(Ok(None)));
    assert!(matches!(&step.action, TailscaleAction::Finish(Err(e)) if e == "Cannot read Tailscale status."));

    let mut s = ts(true);
    s.step(false, TailscaleEvent::Resume);
    s.step(false, TailscaleEvent::Status(Ok(Some(status(true, &[])))));
    s.step(false, TailscaleEvent::Status(Ok(Some(status(true, &[])))));
    let step = s.step(false, TailscaleEvent::Status(Ok(Some(status(false, &["100.64.0.9"])))));
    assert!(matches!(&step.action, TailscaleAction::Finish(Err(e)) if e == "Tailscale is not connected. Finish signing in and retry setup."));

    let mut s = ts(true);
    s.step(false, TailscaleEvent::Resume);
    s.step(false, TailscaleEvent::Status(Ok(Some(status(true, &[])))));
    s.step(false, TailscaleEvent::Status(Ok(Some(status(true, &[])))));
    s.step(false, TailscaleEvent::Status(Ok(Some(status(true, &["100.64.0.9"])))));
    let step = s.step(false, TailscaleEvent::Ran(Ok("0".into())));
    assert!(matches!(&step.action, TailscaleAction::Finish(Err(e)) if e == "Cannot determine the server's SSH listening port."));

    let mut s = ts(true);
    s.step(false, TailscaleEvent::Resume);
    s.step(false, TailscaleEvent::Status(Ok(Some(status(true, &[])))));
    s.step(false, TailscaleEvent::Status(Ok(Some(status(true, &[])))));
    s.step(false, TailscaleEvent::Status(Ok(Some(status(true, &["100.64.0.9"])))));
    s.step(false, TailscaleEvent::Ran(Ok("22".into())));
    let step = s.step(false, TailscaleEvent::Ran(Err("Permission denied".into())));
    assert!(matches!(&step.action, TailscaleAction::Finish(Err(e)) if e.starts_with("Tailscale is installed, but SSH over it could not be verified.")));
}

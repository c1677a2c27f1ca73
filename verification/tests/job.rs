use codesync::auth::Credentials;
use codesync::commands::{Action, Task};
use codesync::endpoint::{Action as SearchAction, Event, Notice};
use codesync::job::{BrowserReply, JobAction, JobEvent, JobRun, JobStep};
use codesync::setup::{HostAction, HostEvent};
use codesync::store::{ConnectionMode, NetworkSettings, Server};

fn server() -> Server {
    Server {
        id: 4,
        name: "Lab".into(),
        host: "192.168.1.40".into(),
        user: "me".into(),
        port: 22,
        network: NetworkSettings {
            mode: ConnectionMode::LocalOnly,
            public_host: String::new(),
            public_port: 22,
            tailscale_host: String::new(),
            tailscale_port: 22,
        },
    }
}

fn task(action: Action) -> Task {
    Task {
        server: server(),
        credentials: Credentials { login: "pw".into(), sudo: "root-pw".into(), same_password: false },
        local: "/home/me/notes".into(),
        remote: "notes".into(),
        action,
    }
}

fn job(tasks: Vec<Task>) -> JobRun {
    JobRun::new(
        tasks,
        false,
        None,
        Some("laptop".into()),
        "host setup".into(),
        "host control".into(),
        "tailscale setup".into(),
        "installer".into(),
        false,
        true,
        false,
        false,
    )
}

fn lines(step: &JobStep) -> Vec<String> {
    step.notices
        .iter()
        .map(|n| match n {
            Notice::Line(l) => l.clone(),
            Notice::TailscaleReady { server, host, port } => format!("ready {server} {host}:{port}"),
        })
        .collect()
}

/// Walks a job through the address search of its current task, which
/// connects at once with a saved identity.
fn choose_server(j: &mut JobRun) {
    let step = j.step(false, JobEvent::Resume);
    assert!(matches!(&step.action, JobAction::Describe(s) if s.id == 4));
    let step = j.step(false, JobEvent::Described(Ok(true), None));
    assert!(matches!(step.action, JobAction::Continue));
    let step = j.step(false, JobEvent::Resume);
    assert!(matches!(&step.action, JobAction::Endpoint(st) if matches!(st.action, SearchAction::Ssh(_))));
    let step = j.step(false, JobEvent::Endpoint(Event::Ran(Ok(String::new()))));
    assert!(matches!(&step.action, JobAction::Endpoint(st) if matches!(st.action, SearchAction::CheckIdentity(_))));
    let step = j.step(false, JobEvent::Endpoint(Event::IdentitySaved(true)));
    match &step.action {
        JobAction::Endpoint(st) => assert!(matches!(st.action, SearchAction::Finish(Ok(_)))),
        _ => panic!("expected the search's end"),
    }
}

#[test]
fn a_connection_test_runs_on_the_chosen_address() {
    let mut j = job(vec![task(Action::Test)]);
    choose_server(&mut j);
    let step = j.step(false, JobEvent::Resume);
    assert_eq!(lines(&step), vec!["\n--- Lab ---\n"]);
    match &step.action {
        JobAction::Run { program, args, input: None, .. } => {
            assert_eq!(program, "ssh");
            assert_eq!(args[args.len() - 2], "me@192.168.1.40");
            assert_eq!(args[args.len() - 1], "printf '%s\\n' 'Connected successfully.'");
        }
        _ => panic!("expected ssh"),
    }
    let step = j.step(false, JobEvent::Ran(Ok("Connected successfully.\n".into())));
    assert_eq!(lines(&step), vec!["Completed.\n"]);
    assert!(matches!(j.step(false, JobEvent::Resume).action, JobAction::Continue));
    assert!(matches!(j.step(false, JobEvent::Resume).action, JobAction::Finish(Ok(()))));
    assert!(matches!(j.step(false, JobEvent::Resume).action, JobAction::Idle));
}

#[test]
fn a_stop_between_tasks_ends_the_job() {
    let mut j = job(vec![task(Action::Test)]);
    match j.step(true, JobEvent::Resume).action {
        JobAction::Finish(Err(e)) => assert_eq!(e, "Stopped. Completed transfers remain in place."),
        _ => panic!("expected a stop"),
    }
}

#[test]
fn an_invalid_server_or_unknown_identity_ends_the_job() {
    let mut bad = task(Action::Test);
    bad.server.port = 0;
    let mut j = job(vec![bad]);
    match j.step(false, JobEvent::Resume).action {
        JobAction::Finish(Err(e)) => assert_eq!(e, "Enter a server name, address, and a port between 1 and 65535."),
        _ => panic!("expected a validation error"),
    }
    let mut j = job(vec![task(Action::Sync)]);
    j.step(false, JobEvent::Resume);
    match j.step(false, JobEvent::Described(Ok(false), None)).action {
        JobAction::Finish(Err(e)) => assert!(e.starts_with("Confirm this server's identity first")),
        _ => panic!("expected the identity to be asked for"),
    }
}

#[test]
fn server_setup_sends_the_administrator_password() {
    let mut j = job(vec![task(Action::Setup)]);
    choose_server(&mut j);
    match j.step(false, JobEvent::Resume).action {
        JobAction::Run { input, args, .. } => {
            assert_eq!(input.as_deref(), Some("root-pw"));
            assert!(args[args.len() - 1].starts_with("if command -v rsync >/dev/null 2>&1; then rsync --version;"));
        }
        _ => panic!("expected ssh"),
    }
    match j.step(false, JobEvent::Ran(Err("exit status 1".into()))).action {
        JobAction::Finish(Err(e)) => assert_eq!(e, "exit status 1"),
        _ => panic!("expected the failure"),
    }
}

#[test]
fn a_preview_goes_to_the_viewer() {
    let mut j = job(vec![task(Action::Browse { path: "docs/a.txt".into(), preview: true })]);
    choose_server(&mut j);
    assert!(matches!(j.step(false, JobEvent::Resume).action, JobAction::Run { .. }));
    let step = j.step(false, JobEvent::Ran(Ok("hello".into())));
    assert_eq!(lines(&step), vec!["Completed.\n"]);
    match step.reply {
        Some(BrowserReply::Preview(id, p)) => {
            assert_eq!(id, 4);
            assert_eq!(p.name, "docs/a.txt");
            assert_eq!(p.text, "hello");
            assert!(!p.truncated);
        }
        _ => panic!("expected a preview"),
    }
    let mut j = job(vec![task(Action::Browse { path: "../etc".into(), preview: false })]);
    choose_server(&mut j);
    match j.step(false, JobEvent::Resume).action {
        JobAction::Finish(Err(e)) => assert_eq!(e, "Choose a location inside ~/codesync."),
        _ => panic!("expected a refusal"),
    }
}

#[test]
fn turning_incoming_ssh_on_and_off() {
    let mut j = job(vec![task(Action::PrepareHost), task(Action::DisableHost)]);
    assert!(matches!(j.step(false, JobEvent::Resume).action, JobAction::Continue));
    match j.step(false, JobEvent::Resume).action {
        JobAction::Host(HostAction::Run { program, .. }) => assert_eq!(program, "sudo"),
        _ => panic!("expected the sudo check"),
    }
    assert!(matches!(
        j.step(false, JobEvent::Host(HostEvent::Ran(Ok(String::new())))).action,
        JobAction::Host(HostAction::Run { .. })
    ));
    assert!(matches!(
        j.step(false, JobEvent::Host(HostEvent::Ran(Ok(String::new())))).action,
        JobAction::Host(HostAction::Finish(Ok(())))
    ));
    match j.step(false, JobEvent::Resume).action {
        JobAction::RunWithoutPrompt { program, args } => {
            assert_eq!(program, "sudo");
            assert_eq!(args, vec!["-n", "--", "/usr/local/libexec/codesync-stop-ssh"]);
        }
        _ => panic!("expected the stop helper"),
    }
    match j.step(false, JobEvent::Ran(Err("sudo: a password is required".into()))).action {
        JobAction::Finish(Err(e)) => assert!(e.starts_with("Could not turn SSH off without a password: sudo: a password is required")),
        _ => panic!("expected the failure"),
    }
}

#[test]
fn sync_tasks_wait_for_the_syncs() {
    let mut j = job(vec![task(Action::Sync)]);
    choose_server(&mut j);
    let step = j.step(false, JobEvent::Resume);
    assert_eq!(lines(&step), vec!["\n--- Lab ---\n"]);
    assert!(matches!(step.action, JobAction::Continue));
    assert!(matches!(j.step(false, JobEvent::Resume).action, JobAction::Continue));
    assert_eq!(j.group_keys.len(), 1);
    assert!(matches!(j.step(false, JobEvent::Resume).action, JobAction::Continue));
    match j.step(true, JobEvent::Resume).action {
        JobAction::Sync(st) => assert!(matches!(st.action, codesync::sync_run::SyncAction::Finish(Err(_)))),
        _ => panic!("expected the sync run"),
    }
    assert!(matches!(j.step(false, JobEvent::Resume).action, JobAction::Finish(Err(_))));
}

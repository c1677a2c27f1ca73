use codesync::endpoint::identity_status;
use codesync::endpoint::{Action, EndpointSearch, Event, Notice, Step};
use codesync::store::{ConnectionMode, NetworkSettings, Server};
use codesync::tailscale::{Peer, TailscaleStatus};

fn server() -> Server {
    Server {
        id: 3,
        name: "Home".into(),
        host: "192.168.1.10".into(),
        user: "me".into(),
        port: 22,
        network: NetworkSettings {
            mode: ConnectionMode::Automatic,
            public_host: "home.example.com".into(),
            public_port: 2222,
            tailscale_host: String::new(),
            tailscale_port: 22,
        },
    }
}

fn lines(step: &Step) -> Vec<String> {
    step.notices
        .iter()
        .map(|n| match n {
            Notice::Line(l) => l.clone(),
            Notice::TailscaleReady { server, host, port } => format!("ready {server} {host}:{port}"),
        })
        .collect()
}

fn ssh_args(step: &Step) -> Vec<String> {
    match &step.action {
        Action::Ssh(args) | Action::ReadStatus(args) => args.clone(),
        _ => panic!("expected an ssh action"),
    }
}

#[test]
fn a_failed_address_is_reported_and_the_next_one_tried() {
    let mut search = EndpointSearch::new(server(), true, true, None, false, None).unwrap();
    assert_eq!(search.endpoints.len(), 2);
    let step = search.step(false, Event::Resume);
    assert_eq!(
        lines(&step),
        vec!["Checking Local / primary connection against this server's SSH identity...\n"]
    );
    let args = ssh_args(&step);
    assert_eq!(&args[args.len() - 2..], &["me@192.168.1.10".to_string(), "true".to_string()]);
    assert!(args.contains(&"StrictHostKeyChecking=yes".to_string()));

    let step = search.step(false, Event::Ran(Err("Connection timed out".into())));
    assert_eq!(lines(&step), vec!["Local / primary: Connection timed out\n"]);
    assert!(matches!(step.action, Action::Continue));

    let step = search.step(false, Event::Resume);
    let args = ssh_args(&step);
    assert!(args.contains(&"2222".to_string()));
    assert_eq!(args[args.len() - 2], "me@home.example.com");

    let step = search.step(false, Event::Ran(Ok(String::new())));
    match &step.action {
        Action::CheckIdentity(c) => assert_eq!(c.host, "home.example.com"),
        _ => panic!("expected an identity check"),
    }
    let step = search.step(false, Event::IdentitySaved(true));
    assert_eq!(lines(&step), vec!["Using Public; server identity verified.\n"]);
    match step.action {
        Action::Finish(Ok(c)) => {
            assert_eq!(c.host, "home.example.com");
            assert_eq!(c.port, 2222);
            assert_eq!(c.id, 3);
        }
        _ => panic!("expected the public address"),
    }
    // Events after the end change nothing.
    assert!(matches!(search.step(false, Event::Resume).action, Action::Idle));
}

#[test]
fn first_contact_asks_once_and_stops_on_failure() {
    assert_eq!(
        EndpointSearch::new(server(), true, false, None, false, None)
            .err()
            .unwrap(),
        "Confirm this server's identity first: select the server and use Test connection. Check its fingerprint against the intended server."
    );
    let mut search = EndpointSearch::new(server(), false, false, None, false, None).unwrap();
    let args = ssh_args(&search.step(false, Event::Resume));
    assert!(args.contains(&"StrictHostKeyChecking=ask".to_string()));
    assert!(args.contains(&"ControlPath=none".to_string()));
    let step = search.step(false, Event::Ran(Err("Host key verification failed.".into())));
    match step.action {
        Action::Finish(Err(e)) => assert_eq!(
            e,
            "Initial server connection failed: Host key verification failed. Select Local only or Remote only to choose where to confirm its fingerprint."
        ),
        _ => panic!("expected the search to end"),
    }
}

#[test]
fn stopping_and_unsaved_identities_end_the_search() {
    let mut search = EndpointSearch::new(server(), false, true, None, false, None).unwrap();
    match search.step(true, Event::Resume).action {
        Action::Finish(Err(e)) => assert_eq!(e, "Stopped."),
        _ => panic!("expected a stop"),
    }
    let mut search = EndpointSearch::new(server(), false, true, None, false, None).unwrap();
    search.step(false, Event::Resume);
    search.step(false, Event::Ran(Ok(String::new())));
    match search.step(false, Event::IdentitySaved(false)).action {
        Action::Finish(Err(e)) => assert_eq!(
            e,
            "The server's SSH identity was not saved. Check ~/.ssh permissions and retry Test connection."
        ),
        _ => panic!("expected a failure"),
    }
    let mut remote_only = server();
    remote_only.network.mode = ConnectionMode::RemoteOnly;
    remote_only.network.public_host = String::new();
    assert_eq!(
        EndpointSearch::new(remote_only, false, true, None, false, None)
            .err()
            .unwrap(),
        "Remote only needs a public address or completed Tailscale setup. Edit the server's connection settings."
    );
}

#[test]
fn a_verified_lan_connection_moves_to_the_servers_tailscale_address() {
    let local = TailscaleStatus {
        backend_state: Some("Running".into()),
        self_ips: Some(vec!["100.100.1.1".into()]),
        peers: Some(vec![Peer {
            ips: Some(vec!["100.100.1.2".into()]),
            dns_name: "other.example.ts.net.".into(),
            host_name: "other".into(),
        }]),
    };
    let remote = TailscaleStatus {
        backend_state: Some("Running".into()),
        self_ips: Some(vec!["100.100.1.2".into()]),
        peers: None,
    };
    let mut search = EndpointSearch::new(server(), false, true, Some(local), false, None).unwrap();
    search.step(false, Event::Resume);
    search.step(false, Event::Ran(Ok(String::new())));
    let step = search.step(false, Event::IdentitySaved(true));
    let args = ssh_args(&step);
    assert_eq!(args.last().unwrap(), "tailscale status --json");
    let step = search.step(false, Event::Status(Some(remote)));
    let args = ssh_args(&step);
    assert_eq!(args.last().unwrap(), "printf '%s' \"${SSH_CONNECTION##* }\"");
    let step = search.step(false, Event::Ran(Ok("2200\n".into())));
    let args = ssh_args(&step);
    assert_eq!(args[args.len() - 2], "me@100.100.1.2");
    assert!(args.contains(&"2200".to_string()));
    let step = search.step(false, Event::Ran(Ok(String::new())));
    assert_eq!(
        lines(&step),
        vec![
            "ready 3 100.100.1.2:2200".to_string(),
            "Using Tailscale; server identity verified.\n".to_string()
        ]
    );
    match step.action {
        Action::Finish(Ok(c)) => {
            assert_eq!(c.host, "100.100.1.2");
            assert_eq!(c.port, 2200);
        }
        _ => panic!("expected the Tailscale address"),
    }
}

#[test]
fn a_failed_tailscale_test_keeps_the_verified_address() {
    let local = TailscaleStatus {
        backend_state: Some("Running".into()),
        self_ips: None,
        peers: Some(vec![Peer {
            ips: Some(vec!["100.100.1.2".into()]),
            dns_name: String::new(),
            host_name: "other".into(),
        }]),
    };
    let remote = TailscaleStatus {
        backend_state: Some("Running".into()),
        self_ips: Some(vec!["100.100.1.2".into()]),
        peers: None,
    };
    let mut search = EndpointSearch::new(server(), false, true, Some(local), false, None).unwrap();
    search.step(false, Event::Resume);
    search.step(false, Event::Ran(Ok(String::new())));
    search.step(false, Event::IdentitySaved(true));
    search.step(false, Event::Status(Some(remote)));
    search.step(false, Event::Ran(Ok("22".into())));
    let step = search.step(false, Event::Ran(Err("refused".into())));
    assert_eq!(
        lines(&step),
        vec![
            "Tailscale SSH is unavailable or its identity did not match; keeping the verified fallback connection.\n",
            "Using Local / primary; server identity verified.\n"
        ]
    );
    match step.action {
        Action::Finish(Ok(c)) => assert_eq!(c.host, "192.168.1.10"),
        _ => panic!("expected the fallback address"),
    }
}

#[test]
fn saved_identities_are_read_from_the_exit_status() {
    assert_eq!(identity_status(Some(0)), Ok(true));
    assert_eq!(identity_status(Some(1)), Ok(false));
    assert_eq!(
        identity_status(Some(255)),
        Err("Cannot read the saved SSH server identities.".to_string())
    );
    assert!(identity_status(None).is_err());
}

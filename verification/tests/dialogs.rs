use codesync::dialogs::{
    add_folder, after_server_saved, edit_folder, edit_link, edit_server, expand_new_folder,
    expand_path, folder_choice, host_password_text, mode_label, server_choice,
};
use codesync::auth::Credentials;
use codesync::commands::Action;
use codesync::home::{
    add_login, batch_tasks, discovered_label, new_link, record_tailscale, remove_item, scan_finished,
    scan_progress, server_for_editor, transfers_line, visible_links, Selection,
};
use codesync::home::{
    activity_text, can_add_link, counts_line, host_connections_job, host_status_due, link_label,
    server_job_title, sign_in_caption, unlink,
};
use codesync::store::{save, ConnectionMode, Data, Folder, Link, Server};
use codesync::sync_job::{Created, Scratch, ScratchStep};
use codesync::Config;

fn server(id: u64) -> Server {
    Server {
        id,
        name: format!("Server {id}"),
        host: format!("server{id}"),
        user: "user".into(),
        port: 22,
        network: Default::default(),
    }
}

fn folder(id: u64, path: &str) -> Folder {
    Folder {
        id,
        name: format!("Folder {id}"),
        path: path.into(),
    }
}

fn sample() -> Data {
    let mut data = Data::default();
    data.servers.push(server(1));
    data.folders.push(folder(2, "/home/user/notes"));
    data.folders.push(folder(3, "/home/user/code"));
    data.links.push(Link {
        id: 4,
        folder: 2,
        server: 1,
        remote: "".into(),
    });
    data
}

#[test]
fn typed_directories_expand_home_and_drop_blanks() {
    assert_eq!(expand_path("  ~/notes ", "/home/user"), "/home/user/notes");
    assert_eq!(expand_path("~/notes", "/home/user/"), "/home/user/notes");
    assert_eq!(expand_path("~/notes", ""), "notes");
    assert_eq!(expand_path("~//etc", "/home/user"), "/etc");
    assert_eq!(expand_path(" /srv/a ", "/home/user"), "/srv/a");
    assert_eq!(expand_new_folder("~/x", None), "~/x");
    assert_eq!(expand_new_folder("~/x", Some("/h".into())), "/h/x");
}

#[test]
fn folder_editor_checks_name_directory_and_duplicates() {
    let data = sample();
    let e = edit_folder(&data, 2, "Notes", None).unwrap_err();
    assert_eq!(e, "Enter a name and an existing local directory.");
    let e = edit_folder(&data, 2, "  ", Some("/srv/notes".into())).unwrap_err();
    assert_eq!(e, "Enter a name and an existing local directory.");
    let e = edit_folder(&data, 2, "Notes", Some("/home/user/code".into())).unwrap_err();
    assert_eq!(e, "That directory is already in the folder list.");
    // Keeping its own directory is fine.
    let saved = edit_folder(&data, 2, " Notes ", Some("/home/user/notes".into())).unwrap();
    assert_eq!(saved.folders[0].name, "Notes");
    let moved = edit_folder(&data, 2, "Notes", Some("/srv/notes".into())).unwrap();
    assert_eq!(moved.folders[0].path, "/srv/notes");
    assert_eq!(moved.folders[1].path, "/home/user/code");
    assert_eq!(moved.links.len(), 1);
    assert_eq!(data.folders[0].path, "/home/user/notes");
}

#[test]
fn server_editor_trims_validates_and_replaces_or_adds() {
    let mut data = sample();
    let mut edited = server(1);
    edited.name = "  Home  ".into();
    edited.host = " 192.168.1.10 ".into();
    edited.user = " me ".into();
    edit_server(&mut data, &mut edited).unwrap();
    assert_eq!(edited.name, "Home");
    assert_eq!(data.servers.len(), 1);
    assert_eq!(data.servers[0].host, "192.168.1.10");
    assert_eq!(data.servers[0].user, "me");

    let mut fresh = server(9);
    edit_server(&mut data, &mut fresh).unwrap();
    assert_eq!(data.servers.len(), 2);
    assert_eq!(data.servers[1].id, 9);

    let mut bad = server(10);
    bad.host = "me@host".into();
    let e = edit_server(&mut data, &mut bad).unwrap_err();
    assert_eq!(e, "Enter the IP / hostname and username in their separate fields.");
    let mut blank = server(11);
    blank.name = "   ".into();
    assert_eq!(
        edit_server(&mut data, &mut blank).unwrap_err(),
        "Enter a server name, address, and a port between 1 and 65535."
    );
    assert_eq!(data.servers.len(), 2);
}

#[test]
fn link_editor_trims_and_validates_before_saving() {
    let mut data = sample();
    let mut link = Link {
        id: 5,
        folder: 3,
        server: 1,
        remote: "  /srv/code  ".into(),
    };
    edit_link(&mut data, &mut link).unwrap();
    assert_eq!(link.remote, "/srv/code");
    assert_eq!(data.links.len(), 2);
    let mut unknown = Link {
        id: 6,
        folder: 99,
        server: 1,
        remote: "".into(),
    };
    assert!(edit_link(&mut data, &mut unknown).is_err());
    assert_eq!(data.links.len(), 2);
    let mut changed = Link {
        id: 5,
        folder: 3,
        server: 1,
        remote: "/srv/other".into(),
    };
    edit_link(&mut data, &mut changed).unwrap();
    assert_eq!(data.links.len(), 2);
    assert_eq!(data.links[1].remote, "/srv/other");
}

#[test]
fn adding_a_folder_imports_its_destination_once() {
    let mut data = Data::default();
    assert_eq!(
        add_folder(&mut data, "", None, false, None).unwrap_err(),
        "Choose an existing local directory."
    );
    assert_eq!(
        add_folder(&mut data, "", Some("/etc/passwd".into()), false, None).unwrap_err(),
        "The local path must be a directory."
    );
    let config = Config {
        host: "me@server".into(),
        dir: "/srv/notes".into(),
    };
    let id = add_folder(&mut data, "", Some("/home/me/notes".into()), true, Some(config)).unwrap();
    assert_eq!(data.folders.len(), 1);
    assert_eq!(data.folders[0].id, id);
    assert_eq!(data.folders[0].name, "notes");
    assert_eq!(data.servers.len(), 1);
    assert_eq!(data.servers[0].host, "server");
    assert_eq!(data.servers[0].user, "me");
    assert_eq!(data.servers[0].port, 22);
    assert!(data.servers[0].network.mode == ConnectionMode::Automatic);
    assert_eq!(data.links.len(), 1);
    assert_eq!(data.links[0].folder, id);
    assert_eq!(data.links[0].server, data.servers[0].id);
    assert_eq!(data.links[0].remote, "/srv/notes");

    // The same directory again returns the saved folder.
    let again = add_folder(&mut data, "Other", Some("/home/me/notes".into()), true, None).unwrap();
    assert_eq!(again, id);
    assert_eq!(data.folders.len(), 1);

    // A second folder for the same server reuses it.
    let config = Config {
        host: "me@server".into(),
        dir: "/srv/code".into(),
    };
    let second = data.import_folder("Code".into(), "/home/me/code".into(), Some(config));
    assert!(second > id);
    assert_eq!(data.servers.len(), 1);
    assert_eq!(data.links.len(), 2);
    assert_eq!(data.folders[1].name, "Code");
}

#[test]
fn profiles_are_written_through_a_temporary_file() {
    let plan = save(Some("/xdg".into()), Some("/home/me".into()), 42).unwrap();
    assert_eq!(plan.directory, "/xdg/codesync");
    assert_eq!(plan.target, "/xdg/codesync/profiles.json");
    assert_eq!(plan.temp, "/xdg/codesync/profiles.42.tmp");
    let plan = save(None, Some("/home/me".into()), 7).unwrap();
    assert_eq!(plan.target, "/home/me/.config/codesync/profiles.json");
    assert_eq!(
        save(None, None, 1).unwrap_err(),
        "Cannot locate your configuration directory."
    );
}

#[test]
fn scratch_names_retry_taken_names_a_bounded_number_of_times() {
    assert_eq!(Scratch::candidate("/tmp", 12, 3), "/tmp/codesync-merge-12-3");
    assert_eq!(Scratch::candidate("/tmp/", 12, 0), "/tmp/codesync-merge-12-0");
    match Scratch::next_step(1, "/tmp/x".into(), Created::Done) {
        ScratchStep::Ready(s) => assert_eq!(s.0, "/tmp/x"),
        _ => panic!("expected a workspace"),
    }
    assert!(matches!(
        Scratch::next_step(99, "/tmp/x".into(), Created::AlreadyExists),
        ScratchStep::Retry
    ));
    match Scratch::next_step(100, "/tmp/x".into(), Created::AlreadyExists) {
        ScratchStep::Fail(m) => assert_eq!(m, "Cannot create sync workspace."),
        _ => panic!("expected the search to end"),
    }
    match Scratch::next_step(1, "/tmp/x".into(), Created::Failed("denied".into())) {
        ScratchStep::Fail(m) => assert_eq!(m, "denied"),
        _ => panic!("expected the error"),
    }
}

#[test]
fn home_removal_editors_and_scan_messages() {
    let data = sample();
    let removed = remove_item(&data, Selection::Folder(2));
    assert_eq!(removed.folders.len(), 1);
    assert!(removed.links.is_empty());
    let removed = remove_item(&data, Selection::Server(1));
    assert!(removed.servers.is_empty());
    assert!(removed.links.is_empty());
    assert_eq!(removed.folders.len(), 2);

    assert_eq!(visible_links(&data, Selection::Folder(2)).len(), 1);
    assert!(visible_links(&data, Selection::Folder(3)).is_empty());

    let link = new_link(&data, Selection::Folder(3));
    assert_eq!(link.folder, 3);
    assert_eq!(link.server, 1);
    assert!(link.id > 4);
    let editor = server_for_editor(&data, Some(1));
    assert_eq!(editor.host, "server1");
    let fresh = server_for_editor(&data, None);
    assert!(fresh.id > 4);
    assert_eq!(fresh.port, 22);

    let mut data = data;
    assert!(record_tailscale(&mut data, 1, "100.100.1.2".into(), 22));
    assert!(!record_tailscale(&mut data, 1, "100.100.1.2".into(), 22));
    assert_eq!(data.servers[0].network.tailscale_host, "100.100.1.2");

    let mut logins = Vec::new();
    add_login(&mut logins, "A".into(), "https://x/1".into());
    add_login(&mut logins, "B".into(), "https://x/2".into());
    add_login(&mut logins, "A".into(), "https://x/3".into());
    assert_eq!(
        logins,
        vec![
            ("B".to_string(), "https://x/2".to_string()),
            ("A".to_string(), "https://x/3".to_string())
        ]
    );

    assert_eq!(
        scan_progress(3, 10, 1),
        "Scanning: 3/10 addresses; 1 SSH hosts found"
    );
    assert_eq!(scan_finished(true, 2), "Scan stopped: 2 SSH hosts found");
    assert_eq!(scan_finished(false, 0), "Scan complete: 0 SSH hosts found");
}

#[test]
fn a_home_sync_tests_each_server_once_then_syncs_every_link() {
    let mut data = sample();
    data.servers.push(server(7));
    data.links.push(Link {
        id: 8,
        folder: 3,
        server: 1,
        remote: "/srv/code".into(),
    });
    data.links.push(Link {
        id: 9,
        folder: 2,
        server: 7,
        remote: "".into(),
    });
    let kept = Credentials {
        login: "pw".into(),
        sudo: String::new(),
        same_password: true,
    };
    let tasks = batch_tasks(&data, &data.links, &vec![(7, kept)]);
    let summary: Vec<(u64, String, String, bool)> = tasks
        .iter()
        .map(|t| (t.server.id, t.local.clone(), t.remote.clone(), matches!(t.action, Action::Test)))
        .collect();
    assert_eq!(
        summary,
        vec![
            (1, "/home/user/notes".to_string(), "codesync/notes".to_string(), true),
            (7, "/home/user/notes".to_string(), "codesync/notes".to_string(), true),
            (1, "/home/user/notes".to_string(), "codesync/notes".to_string(), false),
            (1, "/home/user/code".to_string(), "/srv/code".to_string(), false),
            (7, "/home/user/notes".to_string(), "codesync/notes".to_string(), false),
        ]
    );
    assert_eq!(tasks[1].credentials.login, "pw");
    assert!(tasks[0].credentials.login.is_empty());
}

#[test]
fn home_lines_and_discovered_hosts() {
    assert_eq!(transfers_line(2, 3), "2 folders \u{d7} 3 servers = 6 transfers");
    let mut data = sample();
    data.servers[0].host = "192.168.1.7".into();
    assert_eq!(discovered_label(&data, "192.168.1.7", 22, 0), ("Server 1".to_string(), Some(1)));
    assert_eq!(discovered_label(&data, "192.168.1.7", 2222, 4), ("SSH host 5".to_string(), None));
}

#[test]
fn status_bar_and_activity_texts() {
    let data = sample();
    assert_eq!(
        counts_line(&data),
        format!("{} servers | {} folders | {} links", data.servers.len(), data.folders.len(), data.links.len())
    );
    assert_eq!(activity_text(""), "No operations yet.");
    assert_eq!(activity_text("Done\n"), "Done\n");
    assert_eq!(sign_in_caption("Server"), "Sign in to Tailscale - Server");
    assert_eq!(server_job_title(&Action::Setup), "Setting up server");
    assert_eq!(server_job_title(&Action::Tailscale), "Setting up Tailscale");
    assert_eq!(server_job_title(&Action::Test), "Testing connection");
}

#[test]
fn host_status_is_read_every_fifteen_seconds_when_idle() {
    assert!(host_status_due(false, None));
    assert!(!host_status_due(false, Some(15000)));
    assert!(host_status_due(false, Some(15001)));
    assert!(!host_status_due(true, None));
}

#[test]
fn incoming_ssh_jobs_run_on_this_host() {
    let (task, title) = host_connections_job(true, "/tmp".to_string());
    assert_eq!(title, "Enabling incoming SSH");
    assert!(matches!(task.action, Action::PrepareHost));
    assert_eq!(task.server.name, "This host");
    assert_eq!(task.server.host, "localhost");
    assert_eq!(task.local, "/tmp");
    let (task, title) = host_connections_job(false, "/tmp".to_string());
    assert_eq!(title, "Disabling incoming SSH");
    assert!(matches!(task.action, Action::DisableHost));
}

#[test]
fn links_are_named_by_their_other_side_and_unlinked_by_id() {
    let mut data = sample();
    let link = data.links[0].clone();
    assert_eq!(link_label(&data, &link, Selection::Folder(2)), data.servers[0].name);
    assert_eq!(link_label(&data, &link, Selection::Server(1)), "Folder 2");
    let orphan = Link { id: 9, folder: 77, server: 78, remote: "".into() };
    assert_eq!(link_label(&data, &orphan, Selection::Folder(2)), "Missing item");
    assert_eq!(link_label(&data, &orphan, Selection::Server(1)), "Missing item");
    assert!(can_add_link(&data));
    assert!(!can_add_link(&Data::default()));
    unlink(&mut data, 5);
    assert_eq!(data.links.len(), 1);
    unlink(&mut data, 4);
    assert!(data.links.is_empty());
    assert_eq!(data.folders.len(), 2);
    assert_eq!(data.servers.len(), 1);
}

#[test]
fn server_editor_follow_ups_and_labels() {
    assert!(matches!(after_server_saved(true, true, true), Some(Action::Tailscale)));
    assert!(matches!(after_server_saved(false, true, true), Some(Action::Setup)));
    assert!(matches!(after_server_saved(false, false, true), Some(Action::Test)));
    assert!(after_server_saved(false, false, false).is_none());
    assert_eq!(mode_label(ConnectionMode::Automatic), "Automatic");
    assert_eq!(mode_label(ConnectionMode::LocalOnly), "Local only");
    assert_eq!(mode_label(ConnectionMode::RemoteOnly), "Remote only");
    let data = sample();
    assert_eq!(folder_choice(&data, 3), "Folder 3");
    assert_eq!(folder_choice(&data, 99), "Choose folder");
    assert_eq!(server_choice(&data, 1), data.servers[0].name);
    assert_eq!(server_choice(&data, 99), "Choose server");
    assert_eq!(
        host_password_text("Tailscale"),
        "Enter this host's sudo password to authorize Tailscale. It is used only for this step and is not saved."
    );
}

use codesync::store::{
    remote_directory, ConnectionMode, Data, Folder, Link, NetworkSettings, Server,
};
use codesync::{rsync_destination, Config};
use std::collections::HashSet;

fn server(id: u64) -> Server {
    Server {
        id,
        name: format!("Server {id}"),
        host: format!("server{id}"),
        user: "user".into(),
        port: 22,
        network: Default::default(),
    }
}

fn folder(id: u64) -> Folder {
    Folder {
        id,
        name: format!("Folder {id}"),
        path: format!("/tmp/folder{id}"),
    }
}

#[test]
fn home_share_builds_all_pairs_preserves_links_and_rejects_collisions() {
    let mut data = Data::default();
    for id in 1..=3 {
        data.servers.push(server(id));
    }
    for id in 4..=5 {
        data.folders.push(folder(id));
    }
    data.links.push(Link {
        id: 6,
        folder: 4,
        server: 1,
        remote: "/srv/existing".into(),
    });
    let folders: HashSet<u64> = [4, 5].into_iter().collect();
    let servers: HashSet<u64> = [1, 2, 3].into_iter().collect();
    let (shared, links) = data.share_links(&folders, &servers).unwrap();
    assert_eq!(links.len(), 6);
    assert_eq!(shared.links.len(), 6);
    assert_eq!(links[0].remote, "/srv/existing");
    assert_eq!(links[1].remote, "codesync/folder4");
    assert_eq!(links.iter().map(|l| l.id).collect::<HashSet<_>>().len(), 6);
    assert_eq!(
        shared.share_links(&folders, &servers).unwrap().0.links.len(),
        6
    );
    assert_eq!(data.links.len(), 1);
    data.folders[1].path = "/other/folder4".into();
    assert!(data.share_links(&folders, &servers).is_err());
    assert_eq!(data.links.len(), 1);
    assert!(data
        .share_links(&[99].into_iter().collect(), &servers)
        .is_err());
}

#[test]
fn codesync_parent_keeps_the_local_directory_name() {
    let local = "/work/test4";
    for input in ["", "   ", "codesync", "codesync/", "~/codesync"] {
        let dir = remote_directory(input, local).unwrap();
        assert_eq!(dir, "codesync/test4");
        assert!(Config {
            host: "user@server".into(),
            dir
        }
        .validate()
        .is_ok());
    }
    assert_eq!(
        remote_directory("/srv/codesync/", local).unwrap(),
        "/srv/codesync/test4"
    );
    assert_eq!(
        remote_directory("codesync/test4", local).unwrap(),
        "codesync/test4"
    );
    assert_eq!(
        remote_directory(" /srv/notes ", local).unwrap(),
        "/srv/notes"
    );
    assert_eq!(remote_directory("/", local).unwrap(), "/");
    assert!(remote_directory("codesync", "/").is_err());
    assert_eq!(
        rsync_destination("user@server", &remote_directory("", local).unwrap()),
        "user@server:codesync/test4/"
    );
}

#[test]
fn old_profiles_migrate_and_connection_modes_restrict_fallback() {
    let mut server = Server {
        id: 1,
        name: "Home".into(),
        host: "192.168.1.10".into(),
        user: "user".into(),
        port: 22,
        network: NetworkSettings::default(),
    };
    assert_eq!(
        server.endpoints(),
        vec![("192.168.1.10", 22, "Local / primary")]
    );
    server.network.public_host = "home.example.com".into();
    server.network.public_port = 2222;
    server.network.tailscale_host = "100.100.1.2".into();
    assert_eq!(
        server.endpoints(),
        vec![
            ("100.100.1.2", 22, "Tailscale"),
            ("192.168.1.10", 22, "Local / primary"),
            ("home.example.com", 2222, "Public")
        ]
    );
    server.network.mode = ConnectionMode::RemoteOnly;
    assert_eq!(server.endpoints().len(), 2);
    assert!(server
        .endpoints()
        .iter()
        .all(|(host, _, _)| *host != server.host));
    server.network.mode = ConnectionMode::LocalOnly;
    assert_eq!(
        server.endpoints(),
        vec![("192.168.1.10", 22, "Local / primary")]
    );
}

#[test]
fn supports_many_to_many_links_and_roundtrip() {
    let mut data = Data::default();
    for id in 1..=3 {
        data.servers.push(server(id));
    }
    for id in 4..=6 {
        data.folders.push(folder(id));
    }
    for (folder, server) in [(4, 1), (4, 2), (4, 3), (5, 1), (6, 1)] {
        let link = Link {
            id: data.next_id(),
            folder,
            server,
            remote: format!("/home/user/folder{folder}"),
        };
        data.validate_link(&link).unwrap();
        data.links.push(link);
    }
    let restored = data.clone();
    assert_eq!(restored.links.iter().filter(|l| l.folder == 4).count(), 3);
    assert_eq!(restored.links.iter().filter(|l| l.server == 1).count(), 3);
    let duplicate = Link {
        id: 100,
        folder: 5,
        server: 2,
        remote: "/home/user/folder4/".into(),
    };
    assert!(restored.validate_link(&duplicate).is_err());
}

#[test]
fn server_identity_and_validation() {
    let mut s = server(42);
    assert_eq!(s.identity_alias(), "codesync-server-42");
    assert_eq!(s.destination(), "user@server42");
    assert!(s.validate().is_ok());
    s.port = 0;
    assert_eq!(
        s.validate().unwrap_err(),
        "Enter a server name, address, and a port between 1 and 65535."
    );
    s.port = 22;
    s.host = "user@server".into();
    assert_eq!(
        s.validate().unwrap_err(),
        "Enter the IP / hostname and username in their separate fields."
    );
    s.host = "server".into();
    s.network.public_host = "public.example.com".into();
    s.network.public_port = 0;
    assert_eq!(
        s.validate().unwrap_err(),
        "Enter the remote address and port separately."
    );
    s.network.public_port = 2222;
    assert!(s.validate().is_ok());
    s.user.clear();
    s.host = "[2001:db8::8]".into();
    assert_eq!(s.destination(), "2001:db8::8");
}

#[test]
fn next_id_exceeds_every_saved_id() {
    let mut data = Data::default();
    data.servers.push(server(7));
    data.links.push(Link {
        id: 9,
        folder: 1,
        server: 7,
        remote: String::new(),
    });
    assert!(data.next_id() >= 10);
    assert_eq!(data.next_id_from(3), 10);
    assert_eq!(data.next_id_from(500), 500);
}

#[test]
fn links_need_known_folders_and_servers() {
    let mut data = Data::default();
    data.servers.push(server(1));
    data.folders.push(folder(2));
    let mut link = Link {
        id: 3,
        folder: 9,
        server: 1,
        remote: String::new(),
    };
    assert_eq!(data.validate_link(&link).unwrap_err(), "Choose a local folder.");
    link.folder = 2;
    link.server = 9;
    assert_eq!(data.validate_link(&link).unwrap_err(), "Choose a server.");
    link.server = 1;
    assert!(data.validate_link(&link).is_ok());
    data.links.push(link.clone());
    link.id = 4;
    assert_eq!(
        data.validate_link(&link).unwrap_err(),
        "This folder is already linked to that server. Edit the existing link."
    );
    let empty: HashSet<u64> = HashSet::new();
    assert_eq!(
        data.share_links(&empty, &[1].into_iter().collect())
            .err()
            .unwrap(),
        "Select at least one folder and one server."
    );
}

#[test]
fn a_resolved_remote_directory_resolves_to_itself() {
    for input in ["", " codesync/ ", "~/codesync", "/srv/codesync", "projects/x", " /data/y "] {
        let once = remote_directory(input, "/home/me/notes").unwrap();
        assert_eq!(remote_directory(&once, "/home/me/notes").unwrap(), once);
    }
    assert_eq!(remote_directory("", "/home/me/notes").unwrap(), "codesync/notes");
    assert_eq!(remote_directory("/srv/codesync", "/home/me/notes").unwrap(), "/srv/codesync/notes");
}

use codesync::standalone::Config;

#[test]
fn main_reject_unsafe_destinations() {
    for (host, dir) in [
        ("-oProxyCommand=evil", "/work"),
        ("host;evil", "/work"),
        ("host", "/"),
        ("host", "relative"),
        ("host", "/work\nother"),
    ] {
        assert!(Config {
            host: host.into(),
            dir: dir.into()
        }
        .validate()
        .is_err());
    }
    assert!(Config {
        host: "me@my-server".into(),
        dir: "/home/me/class notes".into()
    }
    .validate()
    .is_ok());
}

#[test]
fn standalone_config_reads_two_lines() {
    let config = Config::parse("me@my-server\n/home/me/notes\n").unwrap();
    assert_eq!(config.host, "me@my-server");
    assert_eq!(config.dir, "/home/me/notes");
    assert!(Config::parse("me@[::1]\n/work\n").is_err());
    assert!(Config::parse("only-one-line").is_err());
}

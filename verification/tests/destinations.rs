use codesync::{quote, rsync_destination, ssh_destination, Config};

#[test]
fn public_addresses_use_correct_ssh_and_rsync_syntax() {
    for (input, ssh, rsync) in [
        (
            "user@203.0.113.8",
            "user@203.0.113.8",
            "user@203.0.113.8:/work/",
        ),
        (
            "user@server.example.com",
            "user@server.example.com",
            "user@server.example.com:/work/",
        ),
        (
            "user@2001:db8::8",
            "user@2001:db8::8",
            "user@[2001:db8::8]:/work/",
        ),
        (
            "user@[2001:db8::8]",
            "user@2001:db8::8",
            "user@[2001:db8::8]:/work/",
        ),
        ("2001:db8::8", "2001:db8::8", "[2001:db8::8]:/work/"),
    ] {
        assert!(Config {
            host: input.into(),
            dir: "/work".into()
        }
        .validate()
        .is_ok());
        assert_eq!(ssh_destination(input), ssh);
        assert_eq!(rsync_destination(input, "/work/"), rsync);
    }
    for input in [
        "user@host:22",
        "user@203.0.113.8:22",
        "user@[broken]",
        "user@host@other",
        "@host",
        "user@",
        "user@::;id",
    ] {
        assert!(Config {
            host: input.into(),
            dir: "/work".into()
        }
        .validate()
        .is_err());
    }
}

#[test]
fn lib_reject_unsafe_destinations() {
    for (host, dir) in [
        ("-oProxyCommand=evil", "/work"),
        ("host;evil", "/work"),
        ("host", "/"),
        ("host", "relative"),
        ("host", "codesync/../other"),
        ("host", "codesync//other"),
        ("host", "/work\nother"),
    ] {
        assert!(Config {
            host: host.into(),
            dir: dir.into()
        }
        .validate()
        .is_err());
    }
    assert!(Config {
        host: "me@my-server".into(),
        dir: "/home/me/class notes".into()
    }
    .validate()
    .is_ok());
}

#[test]
fn quoting_escapes_single_quotes_only() {
    assert_eq!(quote(""), "''");
    assert_eq!(quote("hello world"), "'hello world'");
    assert_eq!(quote("it's a note"), "'it'\\''s a note'");
    assert_eq!(quote("; $(whoami)\n*"), "'; $(whoami)\n*'");
}

#[test]
fn destination_errors_name_the_broken_part() {
    let host_error = Config {
        host: "host;evil".into(),
        dir: "relative".into(),
    }
    .validate()
    .unwrap_err();
    assert!(host_error.starts_with("Use an IPv4/IPv6 address"));
    let dir_error = Config {
        host: "host".into(),
        dir: "relative".into(),
    }
    .validate()
    .unwrap_err();
    assert!(dir_error.starts_with("Remote directory must be"));
    assert!(Config {
        host: "user@server".into(),
        dir: "codesync/test4".into()
    }
    .validate()
    .is_ok());
    assert!(Config {
        host: "user@server".into(),
        dir: "codesync/".into()
    }
    .validate()
    .is_err());
}

#[test]
fn config_file_needs_exactly_two_lines() {
    let config = Config::parse("user@host\n/work\n").unwrap();
    assert_eq!(config.host, "user@host");
    assert_eq!(config.dir, "/work");
    let config = Config::parse("user@host\r\n/work").unwrap();
    assert_eq!(config.host, "user@host");
    assert!(Config::parse("user@host\n").unwrap_err().starts_with("Invalid .codesync"));
    assert!(Config::parse("user@host\n/work\nextra\n").is_err());
    assert!(Config::parse("user@host\nrelative\n").unwrap_err().starts_with("Remote directory"));
}

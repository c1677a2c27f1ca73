use codesync::discovery::{
    banner_seen, default_range, interface_network_list, sort_found, network_label, prefix_length, scan_targets, targets,
    windows_network_list,
};

fn ipv4(a: u32, b: u32, c: u32, d: u32) -> u32 {
    (a << 24) | (b << 16) | (c << 8) | d
}

#[test]
fn subnet_bounds_and_validation() {
    let hosts = targets("192.168.1.42/24").unwrap();
    assert_eq!(hosts.len(), 254);
    assert_eq!(hosts[0], ipv4(192, 168, 1, 1));
    assert_eq!(hosts[253], ipv4(192, 168, 1, 254));
    assert_eq!(targets("192.168.1.0/31").unwrap().len(), 2);
    assert_eq!(targets("192.168.1.1/32").unwrap().len(), 1);
    for invalid in [
        "10.0.0.0/8",
        "1.2.3.4/33",
        "::1/128",
        "bad",
        "0.0.0.0/32",
        "224.0.0.1/32",
    ] {
        assert!(targets(invalid).is_err());
    }
}

#[test]
fn scan_messages_name_the_problem() {
    assert_eq!(
        targets("bad").unwrap_err(),
        "Enter an IPv4 network, for example 192.168.1.0/24."
    );
    assert_eq!(targets("300.1.1.1/24").unwrap_err(), "Enter a valid IPv4 network.");
    assert_eq!(targets("10.0.0.1/x").unwrap_err(), "Invalid network prefix.");
    assert_eq!(
        targets("255.255.255.255/32").unwrap_err(),
        "This network has no scannable IPv4 addresses."
    );
    assert_eq!(targets(" 10.1.2.3/20 ").unwrap().len(), 4094);
    assert_eq!(
        scan_targets("192.168.1.0/24", 0).unwrap_err(),
        "Choose an SSH port from 1 to 65535."
    );
    assert_eq!(scan_targets("192.168.1.0/30", 22).unwrap(), vec![ipv4(192, 168, 1, 1), ipv4(192, 168, 1, 2)]);
}

#[test]
fn identifies_ssh_greetings_only_on_complete_lines() {
    assert!(banner_seen(b"SSH-2.0-Test\r\n"));
    assert!(banner_seen(b"Welcome\r\nSSH-1.99-Test\r\n"));
    assert!(!banner_seen(b"HTTP/1.1 200 OK\r\n"));
    assert!(!banner_seen(b"SSH-2.0-Test"));
    assert!(!banner_seen(b"xSSH-2.0-Test\n"));
    assert!(!banner_seen(b"SSH-1.5-Old\n"));
    assert!(!banner_seen(b""));
}

#[test]
fn netmask_prefix_lengths() {
    assert_eq!(prefix_length(0), 0);
    assert_eq!(prefix_length(0xffff_ffff), 32);
    assert_eq!(prefix_length(0xffff_f000), 20);
    assert_eq!(prefix_length(0x8000_0000), 1);
    let label: String = network_label(ipv4(192, 168, 1, 77), 0xffff_ff00).into_iter().collect();
    assert_eq!(label, "192.168.1.0/24");
}

#[test]
fn interface_networks_sorted_once() {
    let list = interface_network_list(&vec![
        (ipv4(192, 168, 1, 5), 0xffff_ff00),
        (ipv4(10, 0, 0, 1), 0xff00_0000),
        (ipv4(192, 168, 1, 99), 0xffff_ff00),
    ]);
    assert_eq!(list, vec!["10.0.0.0/8".to_string(), "192.168.1.0/24".to_string()]);
    assert!(interface_network_list(&vec![]).is_empty());
}

#[test]
fn windows_address_listing_networks() {
    let out = b"192.168.1.5/24\r\n  10.1.2.3/+8 \nbad\n1.2.3.4/33\n0.0.0.0/0\n192.168.1.77/24\n172.16.5.4/12\n";
    assert_eq!(
        windows_network_list(out),
        vec![
            "0.0.0.0/0".to_string(),
            "10.0.0.0/8".to_string(),
            "172.16.0.0/12".to_string(),
            "192.168.1.0/24".to_string(),
        ]
    );
    assert!(windows_network_list(b"").is_empty());
    assert_eq!(windows_network_list(b"10.9.8.7/32"), vec!["10.9.8.7/32".to_string()]);
}

#[test]
fn found_hosts_in_address_order() {
    let mut hosts = vec![
        (ipv4(192, 168, 1, 30), 22),
        (ipv4(192, 168, 1, 4), 22),
        (ipv4(192, 168, 1, 200), 2222),
        (ipv4(10, 0, 0, 1), 22),
    ];
    sort_found(&mut hosts);
    assert_eq!(
        hosts,
        vec![
            (ipv4(10, 0, 0, 1), 22),
            (ipv4(192, 168, 1, 4), 22),
            (ipv4(192, 168, 1, 30), 22),
            (ipv4(192, 168, 1, 200), 2222),
        ]
    );
    let mut none: Vec<(u32, u16)> = vec![];
    sort_found(&mut none);
    assert!(none.is_empty());
}

#[test]
fn a_scan_starts_on_the_first_scannable_network() {
    let nets = vec!["10.0.0.0/8".to_string(), "192.168.1.0/24".to_string()];
    assert_eq!(default_range(&nets), "192.168.1.0/24");
    assert_eq!(default_range(&vec!["10.0.0.0/8".to_string()]), "10.0.0.0/8");
    assert_eq!(default_range(&vec![]), "");
}

use netninja::ip::{ip_qualifies, parse_ipv4, parse_ipv6_groups};
use netninja::network::{get_primary_interface, get_vpn_status, NetworkInterface};

fn iface(name: &str, up: bool, ips: &[&str]) -> NetworkInterface {
    NetworkInterface {
        name: name.to_string(),
        ip_addresses: ips.iter().map(|s| s.to_string()).collect(),
        is_up: up,
        mac_address: None,
    }
}

#[test]
fn vpn_detects_wireguard_first_match() {
    let interfaces = vec![
        iface("eth0", true, &["10.0.0.2"]),
        iface("wg0", true, &["10.8.0.2"]),
    ];
    let vpn = get_vpn_status(&interfaces);
    assert!(vpn.is_connected);
    assert_eq!(vpn.interface.as_deref(), Some("wg0"));
    assert_eq!(vpn.ip_address.as_deref(), Some("10.8.0.2"));
    assert_eq!(vpn.vpn_type.as_deref(), Some("WireGuard"));
}

#[test]
fn vpn_none_detected() {
    let interfaces = vec![iface("eth0", true, &["10.0.0.2"]), iface("lo", true, &["127.0.0.1"])];
    let vpn = get_vpn_status(&interfaces);
    assert!(!vpn.is_connected);
    assert_eq!(vpn.interface, None);
    assert_eq!(vpn.ip_address, None);
    assert_eq!(vpn.vpn_type, None);
}

#[test]
fn vpn_down_interface_skipped() {
    let interfaces = vec![iface("wg0", false, &["10.8.0.2"]), iface("tun0", true, &["10.9.0.2"])];
    let vpn = get_vpn_status(&interfaces);
    assert_eq!(vpn.interface.as_deref(), Some("tun0"));
    assert_eq!(vpn.vpn_type.as_deref(), Some("OpenVPN/Generic"));
}

#[test]
fn vpn_type_unknown_for_ppp() {
    let interfaces = vec![iface("ppp0", true, &[])];
    let vpn = get_vpn_status(&interfaces);
    assert!(vpn.is_connected);
    assert_eq!(vpn.ip_address, None);
    assert_eq!(vpn.vpn_type.as_deref(), Some("Unknown"));
}

#[test]
fn primary_skips_loopback_and_link_local() {
    let interfaces = vec![
        iface("lo", true, &["127.0.0.1"]),
        iface("dummy0", true, &["169.254.1.5"]),
        iface("virt0", true, &["::1"]),
        iface("eth0", true, &["10.0.0.2"]),
    ];
    let primary = get_primary_interface(&interfaces).unwrap();
    assert_eq!(primary.name, "eth0");
    assert_eq!(primary.ip_addresses, vec!["10.0.0.2".to_string()]);
}

#[test]
fn primary_accepts_ipv6_global() {
    let interfaces = vec![iface("eth1", true, &["2001:db8::5"])];
    let primary = get_primary_interface(&interfaces).unwrap();
    assert_eq!(primary.name, "eth1");
}

#[test]
fn primary_not_found_reports_error() {
    let interfaces = vec![
        iface("lo", true, &["127.0.0.1"]),
        iface("eth0", false, &["10.0.0.2"]),
        iface("dummy0", true, &[]),
    ];
    let err = get_primary_interface(&interfaces).unwrap_err();
    assert_eq!(err.message(), "No suitable network interface found");
}

#[test]
fn primary_skips_down_interfaces() {
    let interfaces = vec![iface("eth0", false, &["10.0.0.2"]), iface("eth1", true, &["10.0.0.3"])];
    let primary = get_primary_interface(&interfaces).unwrap();
    assert_eq!(primary.name, "eth1");
}

#[test]
fn ipv4_parsing_accepts_valid_quads() {
    assert_eq!(parse_ipv4("192.168.1.1"), Some((192, 168, 1, 1)));
    assert_eq!(parse_ipv4("0.0.0.0"), Some((0, 0, 0, 0)));
    assert_eq!(parse_ipv4("255.255.255.255"), Some((255, 255, 255, 255)));
}

#[test]
fn ipv4_parsing_rejects_bad_quads() {
    assert_eq!(parse_ipv4("256.1.1.1"), None);
    assert_eq!(parse_ipv4("01.2.3.4"), None);
    assert_eq!(parse_ipv4("1.2.3"), None);
    assert_eq!(parse_ipv4("1.2.3.4.5"), None);
    assert_eq!(parse_ipv4("a.b.c.d"), None);
    assert_eq!(parse_ipv4(""), None);
}

#[test]
fn ipv6_parsing_groups() {
    assert_eq!(parse_ipv6_groups("::1"), Some(vec![0, 0, 0, 0, 0, 0, 0, 1]));
    assert_eq!(parse_ipv6_groups("::"), Some(vec![0, 0, 0, 0, 0, 0, 0, 0]));
    assert_eq!(
        parse_ipv6_groups("1:2:3:4:5:6:7:8"),
        Some(vec![1, 2, 3, 4, 5, 6, 7, 8])
    );
    assert_eq!(
        parse_ipv6_groups("2001:db8::5"),
        Some(vec![0x2001, 0xdb8, 0, 0, 0, 0, 0, 5])
    );
    assert_eq!(
        parse_ipv6_groups("::ffff:192.168.1.1"),
        Some(vec![0, 0, 0, 0, 0, 0xffff, 0xc0a8, 0x0101])
    );
}

#[test]
fn ipv6_parsing_rejects_malformed() {
    assert_eq!(parse_ipv6_groups("1::2::3"), None);
    assert_eq!(parse_ipv6_groups(":::"), None);
    assert_eq!(parse_ipv6_groups("1:2:3:4:5:6:7"), None);
    assert_eq!(parse_ipv6_groups("1:2:3:4:5:6:7:8:9"), None);
    assert_eq!(parse_ipv6_groups("12345::1"), None);
    assert_eq!(parse_ipv6_groups("zz::1"), None);
    assert_eq!(parse_ipv6_groups("10.0.0.2"), None);
}

#[test]
fn qualifying_addresses() {
    assert!(ip_qualifies("10.0.0.2"));
    assert!(ip_qualifies("2001:db8::5"));
    assert!(ip_qualifies("fe80::1"));
    assert!(!ip_qualifies("127.0.0.1"));
    assert!(!ip_qualifies("127.1.2.3"));
    assert!(!ip_qualifies("169.254.1.5"));
    assert!(!ip_qualifies("::1"));
    assert!(!ip_qualifies("not an ip"));
}

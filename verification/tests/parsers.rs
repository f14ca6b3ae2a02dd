use netninja::network::{
    format_mac, get_network_peers, get_open_ports, guess_device_from_mac, parse_neighbor_line,
    parse_port_line,
};

#[test]
fn port_table_basic() {
    let text = "Netid State  Recv-Q Send-Q Local Address:Port Peer Address:Port\n\
                tcp   LISTEN 0      128    0.0.0.0:22 0.0.0.0:*\n\
                udp   UNCONN 0      0      127.0.0.1:323 0.0.0.0:*\n";
    let ports = get_open_ports(text);
    assert_eq!(ports.len(), 2);
    assert_eq!(ports[0].protocol, "tcp");
    assert_eq!(ports[0].port, 22);
    assert_eq!(ports[0].state, "LISTEN");
    assert_eq!(ports[1].protocol, "udp");
    assert_eq!(ports[1].port, 323);
    assert_eq!(ports[1].state, "UNCONN");
}

#[test]
fn port_line_five_fields_defaults_to_listen() {
    let entry = parse_port_line("tcp X Y Z 10.0.0.1:8080").unwrap();
    assert_eq!(entry.protocol, "tcp");
    assert_eq!(entry.port, 8080);
    assert_eq!(entry.state, "LISTEN");
}

#[test]
fn port_line_unparsable_port_is_dropped() {
    assert!(parse_port_line("tcp LISTEN 0 128 0.0.0.0:http 0.0.0.0:*").is_none());
    assert!(parse_port_line("tcp LISTEN 0 128 0.0.0.0:99999 0.0.0.0:*").is_none());
    assert!(parse_port_line("tcp LISTEN 0 128 0.0.0.0: 0.0.0.0:*").is_none());
}

#[test]
fn port_line_short_line_is_dropped() {
    assert!(parse_port_line("tcp LISTEN 0 128").is_none());
    assert!(parse_port_line("").is_none());
}

#[test]
fn port_count_drops_exactly_unparsable_lines() {
    let text = "header\n\
                tcp LISTEN 0 128 0.0.0.0:22 x\n\
                tcp LISTEN 0 128 0.0.0.0:bad x\n\
                tcp LISTEN 0 128 0.0.0.0:80 x\n";
    let ports = get_open_ports(text);
    assert_eq!(ports.len(), 2);
    assert_eq!(ports[0].port, 22);
    assert_eq!(ports[1].port, 80);
}

#[test]
fn neighbor_line_with_lladdr() {
    let peer =
        parse_neighbor_line("192.168.1.10 dev eth0 lladdr 08:00:27:aa:bb:cc REACHABLE").unwrap();
    assert_eq!(peer.ip, "192.168.1.10");
    assert_eq!(peer.interface, "eth0");
    assert_eq!(peer.mac.as_deref(), Some("08:00:27:aa:bb:cc"));
    assert_eq!(peer.state, "REACHABLE");
    assert_eq!(peer.device_type, "Virtual Machine");
    assert_eq!(peer.os_guess, "VirtualBox");
}

#[test]
fn neighbor_line_without_lladdr() {
    let peer = parse_neighbor_line("10.0.0.7 dev wlan0 INCOMPLETE").unwrap();
    assert_eq!(peer.ip, "10.0.0.7");
    assert_eq!(peer.interface, "wlan0");
    assert_eq!(peer.mac, None);
    assert_eq!(peer.state, "UNKNOWN");
    assert_eq!(peer.device_type, "Unknown");
    assert_eq!(peer.os_guess, "Unknown");
}

#[test]
fn neighbor_line_state_tokens() {
    let stale = parse_neighbor_line("10.0.0.8 dev eth0 lladdr b8:27:eb:00:11:22 STALE").unwrap();
    assert_eq!(stale.state, "STALE");
    assert_eq!(stale.device_type, "IoT Device");
    assert_eq!(stale.os_guess, "Raspberry Pi");
    let delay = parse_neighbor_line("10.0.0.9 dev eth0 lladdr 00:1b:63:44:55:66 DELAY").unwrap();
    assert_eq!(delay.state, "DELAY");
    assert_eq!(delay.device_type, "Computer");
    assert_eq!(delay.os_guess, "Apple");
}

#[test]
fn neighbor_line_too_short() {
    assert!(parse_neighbor_line("10.0.0.9 dev eth0").is_none());
    assert!(parse_neighbor_line("").is_none());
}

#[test]
fn neighbor_table_whole_listing() {
    let text = "192.168.1.1 dev eth0 lladdr 00:50:56:11:22:33 REACHABLE\n\
                short line\n\
                192.168.1.2 dev eth0 FAILED\n";
    let peers = get_network_peers(text);
    assert_eq!(peers.len(), 2);
    assert_eq!(peers[0].ip, "192.168.1.1");
    assert_eq!(peers[0].os_guess, "VMware");
    assert_eq!(peers[1].ip, "192.168.1.2");
    assert_eq!(peers[1].state, "UNKNOWN");
}

#[test]
fn fingerprint_case_insensitive() {
    let r = guess_device_from_mac(&Some("08:00:27:AA:BB:CC".to_string()));
    assert_eq!(r.0, "Virtual Machine");
    assert_eq!(r.1, "VirtualBox");
}

#[test]
fn fingerprint_unknown_prefix() {
    let r = guess_device_from_mac(&Some("de:ad:be:ef:00:01".to_string()));
    assert_eq!(r.0, "Unknown");
    assert_eq!(r.1, "Unknown");
}

#[test]
fn fingerprint_absent_mac() {
    let r = guess_device_from_mac(&None);
    assert_eq!(r.0, "Unknown");
    assert_eq!(r.1, "Unknown");
}

#[test]
fn fingerprint_vmware_second_prefix() {
    let r = guess_device_from_mac(&Some("00:0C:29:12:34:56".to_string()));
    assert_eq!(r.0, "Virtual Machine");
    assert_eq!(r.1, "VMware");
}

#[test]
fn mac_formatting_is_lowercase_colon_hex() {
    assert_eq!(format_mac(0x08, 0x00, 0x27, 0xAA, 0xBB, 0xCC), "08:00:27:aa:bb:cc");
    assert_eq!(format_mac(0, 1, 2, 3, 4, 255), "00:01:02:03:04:ff");
}

#[test]
fn parsers_are_idempotent() {
    let port_text = "header\ntcp LISTEN 0 128 0.0.0.0:22 x\ntcp LISTEN 0 128 0.0.0.0:bad x\n";
    let a = get_open_ports(port_text);
    let b = get_open_ports(port_text);
    assert_eq!(a.len(), b.len());
    for (x, y) in a.iter().zip(b.iter()) {
        assert_eq!(x.protocol, y.protocol);
        assert_eq!(x.port, y.port);
        assert_eq!(x.state, y.state);
    }
    let peer_text = "192.168.1.1 dev eth0 lladdr 00:50:56:11:22:33 REACHABLE\n";
    let p = get_network_peers(peer_text);
    let q = get_network_peers(peer_text);
    assert_eq!(p.len(), q.len());
    for (x, y) in p.iter().zip(q.iter()) {
        assert_eq!(x.ip, y.ip);
        assert_eq!(x.mac, y.mac);
        assert_eq!(x.interface, y.interface);
        assert_eq!(x.state, y.state);
        assert_eq!(x.device_type, y.device_type);
        assert_eq!(x.os_guess, y.os_guess);
    }
}

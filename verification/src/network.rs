//! Network data model and the decision rules over it: interface records,
//! VPN detection, primary-interface selection, the listening-port table,
//! and neighbor peers with device fingerprinting.

use vstd::prelude::*;

use crate::text::ascii_lowercase;
use crate::text::clone_strings;
use crate::text::contains_seq;
use crate::text::contains_str;
use crate::ip::find_sub_from;
use crate::ip::hex_group_vals;
use crate::ip::is_dec_octet;
use crate::ip::spec_ip_qualifies;
use crate::ip::spec_ipv4_link_local;
use crate::ip::spec_ipv4_loopback;
use crate::ip::spec_ipv6_loopback;
use crate::ip::spec_is_ipv4;
use crate::ip::spec_is_ipv6;
use crate::ip::tail_group_vals;
use crate::text::lines_of;
use crate::text::lower_seq;
use crate::text::parse_u16;
use crate::text::parse_u16_spec;
use crate::text::sep_pieces;
use crate::text::seq_views;
use crate::text::starts_with_seq;
use crate::text::split_lines;
use crate::text::split_on;
use crate::text::split_whitespace_tokens;
use crate::text::starts_with_str;
use crate::text::str_eq;
use crate::text::ws_tokens;

verus! {

/// A snapshot of one network interface, as enumerated by the platform.
#[derive(Debug, Clone)]
pub struct NetworkInterface {
    pub name: String,
    pub ip_addresses: Vec<String>,
    pub is_up: bool,
    pub mac_address: Option<String>,
}

/// The mathematical model of a [`NetworkInterface`].
#[verifier::ext_equal]
pub struct IfaceModel {
    pub name: Seq<char>,
    pub ip_addresses: Seq<Seq<char>>,
    pub is_up: bool,
    pub mac_address: Option<Seq<char>>,
}

impl View for NetworkInterface {
    type V = IfaceModel;

    open spec fn view(&self) -> IfaceModel {
        IfaceModel {
            name: self.name@,
            ip_addresses: seq_views(self.ip_addresses@),
            is_up: self.is_up,
            mac_address: match self.mac_address {
                Some(m) => Some(m@),
                None => None,
            },
        }
    }
}

/// The models of a sequence of interfaces.
pub open spec fn iface_models(v: Seq<NetworkInterface>) -> Seq<IfaceModel> {
    v.map_values(|x: NetworkInterface| x@)
}

impl NetworkInterface {
    /// A field-by-field copy whose model equals this one's.
    pub fn duplicate(&self) -> (r: NetworkInterface)
        ensures
            r@ == self@,
    {
        let mac = match &self.mac_address {
            Some(m) => Some(m.clone()),
            None => None,
        };
        NetworkInterface {
            name: self.name.clone(),
            ip_addresses: clone_strings(&self.ip_addresses),
            is_up: self.is_up,
            mac_address: mac,
        }
    }
}

/// The outcome of VPN detection.
#[derive(Debug, Clone)]
pub struct VpnStatus {
    pub is_connected: bool,
    pub interface: Option<String>,
    pub ip_address: Option<String>,
    pub vpn_type: Option<String>,
}

/// The mathematical model of a [`VpnStatus`].
#[verifier::ext_equal]
pub struct VpnModel {
    pub is_connected: bool,
    pub interface: Option<Seq<char>>,
    pub ip_address: Option<Seq<char>>,
    pub vpn_type: Option<Seq<char>>,
}

impl View for VpnStatus {
    type V = VpnModel;

    open spec fn view(&self) -> VpnModel {
        VpnModel {
            is_connected: self.is_connected,
            interface: match self.interface {
                Some(s) => Some(s@),
                None => None,
            },
            ip_address: match self.ip_address {
                Some(s) => Some(s@),
                None => None,
            },
            vpn_type: match self.vpn_type {
                Some(s) => Some(s@),
                None => None,
            },
        }
    }
}

/// An interface name that marks a VPN: it contains one of the fixed
/// name fragments.
pub open spec fn spec_is_vpn_name(name: Seq<char>) -> bool {
    ||| contains_seq(name, "tun"@)
    ||| contains_seq(name, "tap"@)
    ||| contains_seq(name, "wg"@)
    ||| contains_seq(name, "ppp"@)
    ||| contains_seq(name, "vpn"@)
}

/// The VPN type guessed from the interface name prefix.
pub open spec fn spec_vpn_type(name: Seq<char>) -> Seq<char> {
    if starts_with_seq(name, "wg"@) {
        "WireGuard"@
    } else if starts_with_seq(name, "tun"@) || starts_with_seq(name, "tap"@) {
        "OpenVPN/Generic"@
    } else {
        "Unknown"@
    }
}

/// The VPN status for an interface list: the first interface that is up
/// and has a VPN-marking name wins; none means not connected.
pub open spec fn spec_vpn_status(ifaces: Seq<IfaceModel>) -> VpnModel
    decreases ifaces.len(),
{
    if ifaces.len() == 0 {
        VpnModel { is_connected: false, interface: None, ip_address: None, vpn_type: None }
    } else {
        let f = ifaces.first();
        if f.is_up && spec_is_vpn_name(f.name) {
            VpnModel {
                is_connected: true,
                interface: Some(f.name),
                ip_address: if f.ip_addresses.len() > 0 {
                    Some(f.ip_addresses.first())
                } else {
                    None
                },
                vpn_type: Some(spec_vpn_type(f.name)),
            }
        } else {
            spec_vpn_status(ifaces.drop_first())
        }
    }
}

/// Detects a VPN from the interface list: the first interface that is up
/// and whose name contains one of `tun`, `tap`, `wg`, `ppp`, `vpn` is
/// reported, with its first address and a name-prefix type guess.
pub fn get_vpn_status(interfaces: &Vec<NetworkInterface>) -> (r: VpnStatus)
    ensures
        r@ == spec_vpn_status(iface_models(interfaces@)),
{
    let ghost all = iface_models(interfaces@);
    let mut j: usize = 0;
    proof {
        assert(all.skip(0) =~= all);
    }
    while j < interfaces.len()
        invariant
            j <= interfaces@.len(),
            all == iface_models(interfaces@),
            spec_vpn_status(all) == spec_vpn_status(all.skip(j as int)),
        decreases interfaces@.len() - j,
    {
        proof {
            assert(all.skip(j as int).first() == all[j as int]);
            assert(all.skip(j as int).drop_first() =~= all.skip(j as int + 1));
        }
        let iface = &interfaces[j];
        let is_vpn = contains_str(iface.name.as_str(), "tun") || contains_str(
            iface.name.as_str(),
            "tap",
        ) || contains_str(iface.name.as_str(), "wg") || contains_str(iface.name.as_str(), "ppp")
            || contains_str(iface.name.as_str(), "vpn");
        if iface.is_up && is_vpn {
            let vpn_type = if starts_with_str(iface.name.as_str(), "wg") {
                String::from_str("WireGuard")
            } else if starts_with_str(iface.name.as_str(), "tun") || starts_with_str(
                iface.name.as_str(),
                "tap",
            ) {
                String::from_str("OpenVPN/Generic")
            } else {
                String::from_str("Unknown")
            };
            let ip_address = if iface.ip_addresses.len() > 0 {
                Some(iface.ip_addresses[0].clone())
            } else {
                None
            };
            let r = VpnStatus {
                is_connected: true,
                interface: Some(iface.name.clone()),
                ip_address,
                vpn_type: Some(vpn_type),
            };
            proof {
                assert(r@ =~= spec_vpn_status(all.skip(j as int)));
            }
            return r;
        }
        j += 1;
    }
    proof {
        assert(all.skip(interfaces@.len() as int) =~= Seq::<IfaceModel>::empty());
    }
    let r = VpnStatus { is_connected: false, interface: None, ip_address: None, vpn_type: None };
    proof {
        assert(r@ =~= spec_vpn_status(all.skip(interfaces@.len() as int)));
    }
    r
}

/// The character for a hexadecimal digit value, lowercase.
pub open spec fn hex_char(d: nat) -> char {
    if d == 0 {
        '0'
    } else if d == 1 {
        '1'
    } else if d == 2 {
        '2'
    } else if d == 3 {
        '3'
    } else if d == 4 {
        '4'
    } else if d == 5 {
        '5'
    } else if d == 6 {
        '6'
    } else if d == 7 {
        '7'
    } else if d == 8 {
        '8'
    } else if d == 9 {
        '9'
    } else if d == 10 {
        'a'
    } else if d == 11 {
        'b'
    } else if d == 12 {
        'c'
    } else if d == 13 {
        'd'
    } else if d == 14 {
        'e'
    } else {
        'f'
    }
}

/// The two lowercase hexadecimal digits of a byte.
pub open spec fn hex_byte(b: u8) -> Seq<char> {
    seq![hex_char((b / 16) as nat), hex_char((b % 16) as nat)]
}

/// A one-character string for a hexadecimal digit value.
fn hex_str(d: u8) -> (r: &'static str)
    requires
        d < 16,
    ensures
        r@ == seq![hex_char(d as nat)],
{
    match d {
        0 => {
            proof {
                reveal_strlit("0");
            }
            "0"
        },
        1 => {
            proof {
                reveal_strlit("1");
            }
            "1"
        },
        2 => {
            proof {
                reveal_strlit("2");
            }
            "2"
        },
        3 => {
            proof {
                reveal_strlit("3");
            }
            "3"
        },
        4 => {
            proof {
                reveal_strlit("4");
            }
            "4"
        },
        5 => {
            proof {
                reveal_strlit("5");
            }
            "5"
        },
        6 => {
            proof {
                reveal_strlit("6");
            }
            "6"
        },
        7 => {
            proof {
                reveal_strlit("7");
            }
            "7"
        },
        8 => {
            proof {
                reveal_strlit("8");
            }
            "8"
        },
        9 => {
            proof {
                reveal_strlit("9");
            }
            "9"
        },
        10 => {
            proof {
                reveal_strlit("a");
            }
            "a"
        },
        11 => {
            proof {
                reveal_strlit("b");
            }
            "b"
        },
        12 => {
            proof {
                reveal_strlit("c");
            }
            "c"
        },
        13 => {
            proof {
                reveal_strlit("d");
            }
            "d"
        },
        14 => {
            proof {
                reveal_strlit("e");
            }
            "e"
        },
        _ => {
            proof {
                reveal_strlit("f");
            }
            "f"
        },
    }
}

/// A hardware address as the canonical lowercase colon-hex string of
/// its six octets.
pub open spec fn spec_mac_string(b0: u8, b1: u8, b2: u8, b3: u8, b4: u8, b5: u8) -> Seq<char> {
    hex_byte(b0) + seq![':'] + hex_byte(b1) + seq![':'] + hex_byte(b2) + seq![':'] + hex_byte(b3)
        + seq![':'] + hex_byte(b4) + seq![':'] + hex_byte(b5)
}

/// Appends the two lowercase hex digits of `b`.
fn push_hex_byte(s: &mut String, b: u8)
    ensures
        final(s)@ == old(s)@ + hex_byte(b),
{
    s.append(hex_str(b / 16));
    s.append(hex_str(b % 16));
    proof {
        assert(s@ =~= old(s)@ + hex_byte(b));
    }
}

/// Formats six hardware-address octets as lowercase colon-hex.
pub fn format_mac(b0: u8, b1: u8, b2: u8, b3: u8, b4: u8, b5: u8) -> (r: String)
    ensures
        r@ == spec_mac_string(b0, b1, b2, b3, b4, b5),
{
    let mut s = String::new();
    proof {
        reveal_strlit(":");
    }
    push_hex_byte(&mut s, b0);
    s.append(":");
    push_hex_byte(&mut s, b1);
    s.append(":");
    push_hex_byte(&mut s, b2);
    s.append(":");
    push_hex_byte(&mut s, b3);
    s.append(":");
    push_hex_byte(&mut s, b4);
    s.append(":");
    push_hex_byte(&mut s, b5);
    proof {
        assert(s@ =~= spec_mac_string(b0, b1, b2, b3, b4, b5));
    }
    s
}


/// One listening-socket table row.
#[derive(Debug, Clone)]
pub struct PortEntry {
    pub protocol: String,
    pub port: u16,
    pub state: String,
}

/// The mathematical model of a [`PortEntry`].
#[verifier::ext_equal]
pub struct PortModel {
    pub protocol: Seq<char>,
    pub port: u16,
    pub state: Seq<char>,
}

impl View for PortEntry {
    type V = PortModel;

    open spec fn view(&self) -> PortModel {
        PortModel { protocol: self.protocol@, port: self.port, state: self.state@ }
    }
}

/// The models of a sequence of port entries.
pub open spec fn port_models(v: Seq<PortEntry>) -> Seq<PortModel> {
    v.map_values(|x: PortEntry| x@)
}

/// What one socket-table line yields: lines with fewer than five
/// whitespace fields, or whose local-address segment after the last
/// colon is not a 16-bit number, yield nothing.
pub open spec fn spec_parse_port_line(line: Seq<char>) -> Option<PortModel> {
    let ts = ws_tokens(line);
    if ts.len() < 5 {
        None
    } else {
        let segs = sep_pieces(ts[4], ':');
        match parse_u16_spec(segs.last()) {
            Some(p) => Some(
                PortModel {
                    protocol: ts[0],
                    port: p,
                    state: if ts.len() > 5 {
                        ts[1]
                    } else {
                        "LISTEN"@
                    },
                },
            ),
            None => None,
        }
    }
}

/// The port entries of a sequence of lines, in order, unparsable lines
/// skipped.
pub open spec fn spec_port_entries(lines: Seq<Seq<char>>) -> Seq<PortModel>
    decreases lines.len(),
{
    if lines.len() == 0 {
        Seq::empty()
    } else {
        let rest = spec_port_entries(lines.drop_last());
        match spec_parse_port_line(lines.last()) {
            Some(e) => rest.push(e),
            None => rest,
        }
    }
}

/// The port entries of a whole socket-table listing: the header line is
/// skipped, the rest parsed in order.
pub open spec fn spec_open_ports(text: Seq<char>) -> Seq<PortModel> {
    let ls = lines_of(text);
    if ls.len() == 0 {
        Seq::empty()
    } else {
        spec_port_entries(ls.skip(1))
    }
}

/// Parses one socket-table line into a port entry.
pub fn parse_port_line(line: &str) -> (r: Option<PortEntry>)
    ensures
        match r {
            Some(e) => spec_parse_port_line(line@) == Some(e@),
            None => spec_parse_port_line(line@) is None,
        },
{
    let tokens = split_whitespace_tokens(line);
    if tokens.len() < 5 {
        return None;
    }
    let segs = split_on(tokens[4].as_str(), ':');
    let seg = &segs[segs.len() - 1];
    proof {
        assert(seg@ == sep_pieces(ws_tokens(line@)[4], ':').last());
    }
    match parse_u16(seg.as_str()) {
        Some(p) => {
            let state = if tokens.len() > 5 {
                tokens[1].clone()
            } else {
                String::from_str("LISTEN")
            };
            let e = PortEntry { protocol: tokens[0].clone(), port: p, state };
            proof {
                assert(spec_parse_port_line(line@) == Some(e@)) by {
                    assert(e@ =~= spec_parse_port_line(line@)->Some_0);
                }
            }
            Some(e)
        },
        None => None,
    }
}

/// Parses a whole socket-table listing, header line skipped.
pub fn get_open_ports(output: &str) -> (r: Vec<PortEntry>)
    ensures
        port_models(r@) == spec_open_ports(output@),
{
    let lines = split_lines(output);
    let mut r: Vec<PortEntry> = Vec::new();
    if lines.len() == 0 {
        proof {
            assert(port_models(r@) =~= spec_open_ports(output@));
        }
        return r;
    }
    let ghost body = lines_of(output@).skip(1);
    let mut i: usize = 1;
    proof {
        assert(body.take(0) =~= Seq::<Seq<char>>::empty());
        assert(port_models(r@) =~= spec_port_entries(body.take(0)));
    }
    while i < lines.len()
        invariant
            1 <= i <= lines@.len(),
            seq_views(lines@) == lines_of(output@),
            lines@.len() >= 1,
            body == lines_of(output@).skip(1),
            port_models(r@) == spec_port_entries(body.take(i as int - 1)),
        decreases lines@.len() - i,
    {
        proof {
            assert(body.take(i as int).drop_last() =~= body.take(i as int - 1));
            assert(body.take(i as int).last() == body[i as int - 1]);
            assert(body[i as int - 1] == lines@[i as int]@);
        }
        match parse_port_line(lines[i].as_str()) {
            Some(e) => {
                let ghost old_r = r@;
                r.push(e);
                proof {
                    assert(port_models(r@) =~= port_models(old_r).push(e@));
                }
            },
            None => {},
        }
        i += 1;
    }
    proof {
        assert(body.take(lines@.len() - 1) =~= body);
    }
    r
}

/// One neighbor-table peer, with its device fingerprint.
#[derive(Debug, Clone)]
pub struct NetworkPeer {
    pub ip: String,
    pub mac: Option<String>,
    pub interface: String,
    pub state: String,
    pub device_type: String,
    pub os_guess: String,
}

/// The mathematical model of a [`NetworkPeer`].
#[verifier::ext_equal]
pub struct PeerModel {
    pub ip: Seq<char>,
    pub mac: Option<Seq<char>>,
    pub interface: Seq<char>,
    pub state: Seq<char>,
    pub device_type: Seq<char>,
    pub os_guess: Seq<char>,
}

impl View for NetworkPeer {
    type V = PeerModel;

    open spec fn view(&self) -> PeerModel {
        PeerModel {
            ip: self.ip@,
            mac: match self.mac {
                Some(m) => Some(m@),
                None => None,
            },
            interface: self.interface@,
            state: self.state@,
            device_type: self.device_type@,
            os_guess: self.os_guess@,
        }
    }
}

/// The models of a sequence of peers.
pub open spec fn peer_models(v: Seq<NetworkPeer>) -> Seq<PeerModel> {
    v.map_values(|x: NetworkPeer| x@)
}

/// The hardware address named by a token list: the token after the last
/// `lladdr` token that has one.
pub open spec fn spec_mac_of(ts: Seq<Seq<char>>) -> Option<Seq<char>>
    decreases ts.len(),
{
    if ts.len() < 2 {
        None
    } else if ts[ts.len() - 2] == "lladdr"@ {
        Some(ts.last())
    } else {
        spec_mac_of(ts.drop_last())
    }
}

/// The reachability state named by a token list: the last token equal to
/// `REACHABLE`, `STALE` or `DELAY`, defaulting to `UNKNOWN`.
pub open spec fn spec_state_of(ts: Seq<Seq<char>>) -> Seq<char>
    decreases ts.len(),
{
    if ts.len() == 0 {
        "UNKNOWN"@
    } else if ts.last() == "REACHABLE"@ || ts.last() == "STALE"@ || ts.last() == "DELAY"@ {
        ts.last()
    } else {
        spec_state_of(ts.drop_last())
    }
}

/// The first three colon-separated pieces of a hardware address, joined
/// with colons (fewer if the address has fewer pieces).
pub open spec fn spec_oui(mac: Seq<char>) -> Seq<char> {
    let ps = sep_pieces(mac, ':');
    if ps.len() >= 3 {
        ps[0] + seq![':'] + ps[1] + seq![':'] + ps[2]
    } else if ps.len() == 2 {
        ps[0] + seq![':'] + ps[1]
    } else {
        ps[0]
    }
}

/// The fingerprint table: a hardware-address prefix and the device type
/// and vendor guess it stands for.
pub open spec fn spec_fingerprint_table() -> Seq<(Seq<char>, Seq<char>, Seq<char>)> {
    seq![
        ("00:50:56"@, "Virtual Machine"@, "VMware"@),
        ("00:0c:29"@, "Virtual Machine"@, "VMware"@),
        ("08:00:27"@, "Virtual Machine"@, "VirtualBox"@),
        ("dc:a6:32"@, "IoT Device"@, "Raspberry Pi"@),
        ("b8:27:eb"@, "IoT Device"@, "Raspberry Pi"@),
        ("00:1b:63"@, "Computer"@, "Apple"@),
    ]
}

/// Table lookup: the first entry whose prefix starts the folded prefix
/// wins; an unmatched prefix yields the Unknown pair.
pub open spec fn spec_lookup_fingerprint(
    oui: Seq<char>,
    table: Seq<(Seq<char>, Seq<char>, Seq<char>)>,
) -> (Seq<char>, Seq<char>)
    decreases table.len(),
{
    if table.len() == 0 {
        ("Unknown"@, "Unknown"@)
    } else if starts_with_seq(oui, table.first().0) {
        (table.first().1, table.first().2)
    } else {
        spec_lookup_fingerprint(oui, table.drop_first())
    }
}

/// The device-type and vendor guess for an optional hardware address:
/// its lowercased three-octet prefix looked up in the fingerprint table;
/// no address, or an unknown prefix, gives the Unknown pair.
pub open spec fn spec_fingerprint(mac: Option<Seq<char>>) -> (Seq<char>, Seq<char>) {
    match mac {
        Some(m) => spec_lookup_fingerprint(lower_seq(spec_oui(m)), spec_fingerprint_table()),
        None => ("Unknown"@, "Unknown"@),
    }
}

/// The models of the executable fingerprint table.
pub open spec fn fingerprint_models(t: Seq<(String, String, String)>) -> Seq<
    (Seq<char>, Seq<char>, Seq<char>),
> {
    t.map_values(|e: (String, String, String)| (e.0@, e.1@, e.2@))
}

/// Builds the fingerprint table. New prefixes extend the table without
/// touching the lookup logic.
pub fn fingerprint_table() -> (t: Vec<(String, String, String)>)
    ensures
        fingerprint_models(t@) == spec_fingerprint_table(),
{
    let mut t: Vec<(String, String, String)> = Vec::new();
    t.push(
        (
            String::from_str("00:50:56"),
            String::from_str("Virtual Machine"),
            String::from_str("VMware"),
        ),
    );
    t.push(
        (
            String::from_str("00:0c:29"),
            String::from_str("Virtual Machine"),
            String::from_str("VMware"),
        ),
    );
    t.push(
        (
            String::from_str("08:00:27"),
            String::from_str("Virtual Machine"),
            String::from_str("VirtualBox"),
        ),
    );
    t.push(
        (
            String::from_str("dc:a6:32"),
            String::from_str("IoT Device"),
            String::from_str("Raspberry Pi"),
        ),
    );
    t.push(
        (
            String::from_str("b8:27:eb"),
            String::from_str("IoT Device"),
            String::from_str("Raspberry Pi"),
        ),
    );
    t.push(
        (
            String::from_str("00:1b:63"),
            String::from_str("Computer"),
            String::from_str("Apple"),
        ),
    );
    proof {
        assert(fingerprint_models(t@) =~= spec_fingerprint_table());
    }
    t
}

/// Guesses device type and vendor from an optional hardware address.
pub fn guess_device_from_mac(mac: &Option<String>) -> (r: (String, String))
    ensures
        r.0@ == spec_fingerprint(
            match *mac {
                Some(m) => Some(m@),
                None => None,
            },
        ).0,
        r.1@ == spec_fingerprint(
            match *mac {
                Some(m) => Some(m@),
                None => None,
            },
        ).1,
{
    match mac {
        None => (String::from_str("Unknown"), String::from_str("Unknown")),
        Some(m) => {
            let pieces = split_on(m.as_str(), ':');
            proof {
                reveal_strlit(":");
            }
            let mut oui = pieces[0].clone();
            if pieces.len() >= 2 {
                oui.append(":");
                oui.append(pieces[1].as_str());
            }
            if pieces.len() >= 3 {
                oui.append(":");
                oui.append(pieces[2].as_str());
            }
            proof {
                assert(oui@ == spec_oui(m@));
            }
            let low = ascii_lowercase(oui.as_str());
            let table = fingerprint_table();
            let ghost spec_table = spec_fingerprint_table();
            let mut k: usize = 0;
            proof {
                assert(spec_table.skip(0) =~= spec_table);
            }
            while k < table.len()
                invariant
                    k <= table@.len(),
                    mac is Some,
                    m@ == mac->Some_0@,
                    low@ == lower_seq(spec_oui(m@)),
                    fingerprint_models(table@) == spec_table,
                    spec_table == spec_fingerprint_table(),
                    spec_lookup_fingerprint(low@, spec_table) == spec_lookup_fingerprint(
                        low@,
                        spec_table.skip(k as int),
                    ),
                decreases table@.len() - k,
            {
                proof {
                    assert(spec_table.skip(k as int).first() == spec_table[k as int]);
                    assert(spec_table.skip(k as int).drop_first() =~= spec_table.skip(
                        k as int + 1,
                    ));
                }
                let entry = &table[k];
                proof {
                    assert(spec_table[k as int] == (
                        table@[k as int].0@,
                        table@[k as int].1@,
                        table@[k as int].2@,
                    ));
                }
                if starts_with_str(low.as_str(), entry.0.as_str()) {
                    proof {
                        assert(starts_with_seq(low@, spec_table.skip(k as int).first().0));
                        assert(spec_lookup_fingerprint(low@, spec_table.skip(k as int)) == (
                            spec_table[k as int].1,
                            spec_table[k as int].2,
                        ));
                        assert(spec_fingerprint(Some(m@)) == spec_lookup_fingerprint(
                            low@,
                            spec_table,
                        ));
                        assert(spec_fingerprint(Some(m@)).0 == entry.1@);
                        assert(spec_fingerprint(Some(m@)).1 == entry.2@);
                    }
                    return (entry.1.clone(), entry.2.clone());
                }
                k += 1;
            }
            proof {
                assert(spec_table.skip(table@.len() as int) =~= Seq::<
                    (Seq<char>, Seq<char>, Seq<char>),
                >::empty());
            }
            (String::from_str("Unknown"), String::from_str("Unknown"))
        },
    }
}

/// What one neighbor-table line yields: lines with fewer than four
/// whitespace fields yield nothing; otherwise the first field is the
/// address, the third the interface, and `lladdr` and state tokens are
/// scanned with the last occurrence winning.
pub open spec fn spec_parse_neighbor_line(line: Seq<char>) -> Option<PeerModel> {
    let ts = ws_tokens(line);
    if ts.len() < 4 {
        None
    } else {
        Some(
            PeerModel {
                ip: ts[0],
                mac: spec_mac_of(ts),
                interface: ts[2],
                state: spec_state_of(ts),
                device_type: spec_fingerprint(spec_mac_of(ts)).0,
                os_guess: spec_fingerprint(spec_mac_of(ts)).1,
            },
        )
    }
}

/// Parses one neighbor-table line into a peer record.
pub fn parse_neighbor_line(line: &str) -> (r: Option<NetworkPeer>)
    ensures
        match r {
            Some(p) => spec_parse_neighbor_line(line@) == Some(p@),
            None => spec_parse_neighbor_line(line@) is None,
        },
{
    let tokens = split_whitespace_tokens(line);
    let ghost ts = ws_tokens(line@);
    if tokens.len() < 4 {
        return None;
    }
    let mut mac: Option<String> = None;
    let mut state = String::from_str("UNKNOWN");
    let mut i: usize = 0;
    proof {
        assert(ts.take(0) =~= Seq::<Seq<char>>::empty());
    }
    while i < tokens.len()
        invariant
            i <= tokens@.len(),
            ts == ws_tokens(line@),
            seq_views(tokens@) == ts,
            (match mac {
                Some(m) => Some(m@),
                None => None,
            }) == spec_mac_of(ts.take(i as int)),
            state@ == spec_state_of(ts.take(i as int)),
        decreases tokens@.len() - i,
    {
        proof {
            assert(ts.take(i as int + 1).drop_last() =~= ts.take(i as int));
            assert(ts.take(i as int + 1).last() == ts[i as int]);
        }
        if i >= 1 && str_eq(tokens[i - 1].as_str(), "lladdr") {
            mac = Some(tokens[i].clone());
        }
        if str_eq(tokens[i].as_str(), "REACHABLE") || str_eq(tokens[i].as_str(), "STALE")
            || str_eq(tokens[i].as_str(), "DELAY") {
            state = tokens[i].clone();
        }
        i += 1;
    }
    proof {
        assert(ts.take(tokens@.len() as int) =~= ts);
    }
    let fp = guess_device_from_mac(&mac);
    let peer = NetworkPeer {
        ip: tokens[0].clone(),
        mac,
        interface: tokens[2].clone(),
        state,
        device_type: fp.0,
        os_guess: fp.1,
    };
    proof {
        assert(spec_parse_neighbor_line(line@) == Some(peer@)) by {
            assert(peer@ =~= spec_parse_neighbor_line(line@)->Some_0);
        }
    }
    Some(peer)
}

/// The peers of a sequence of lines, in order, unparsable lines skipped.
pub open spec fn spec_peer_entries(lines: Seq<Seq<char>>) -> Seq<PeerModel>
    decreases lines.len(),
{
    if lines.len() == 0 {
        Seq::empty()
    } else {
        let rest = spec_peer_entries(lines.drop_last());
        match spec_parse_neighbor_line(lines.last()) {
            Some(p) => rest.push(p),
            None => rest,
        }
    }
}

/// The peers of a whole neighbor-table listing, every line parsed.
pub open spec fn spec_network_peers(text: Seq<char>) -> Seq<PeerModel> {
    spec_peer_entries(lines_of(text))
}

/// Parses a whole neighbor-table listing.
pub fn get_network_peers(output: &str) -> (r: Vec<NetworkPeer>)
    ensures
        peer_models(r@) == spec_network_peers(output@),
{
    let lines = split_lines(output);
    let ghost all = lines_of(output@);
    let mut r: Vec<NetworkPeer> = Vec::new();
    let mut i: usize = 0;
    proof {
        assert(all.take(0) =~= Seq::<Seq<char>>::empty());
        assert(peer_models(r@) =~= spec_peer_entries(all.take(0)));
    }
    while i < lines.len()
        invariant
            i <= lines@.len(),
            seq_views(lines@) == all,
            all == lines_of(output@),
            peer_models(r@) == spec_peer_entries(all.take(i as int)),
        decreases lines@.len() - i,
    {
        proof {
            assert(all.take(i as int + 1).drop_last() =~= all.take(i as int));
            assert(all.take(i as int + 1).last() == all[i as int]);
        }
        match parse_neighbor_line(lines[i].as_str()) {
            Some(p) => {
                let ghost old_r = r@;
                r.push(p);
                proof {
                    assert(peer_models(r@) =~= peer_models(old_r).push(p@));
                }
            },
            None => {},
        }
        i += 1;
    }
    proof {
        assert(all.take(lines@.len() as int) =~= all);
    }
    r
}


/// Why a primary interface could not be selected.
#[derive(Debug, Clone, Copy, PartialEq, Eq, Structural)]
pub enum NetError {
    NoSuitableInterface,
}

impl NetError {
    /// A human-readable description of the error.
    pub fn message(&self) -> (r: String)
        ensures
            r@ == "No suitable network interface found"@,
    {
        String::from_str("No suitable network interface found")
    }
}

/// An interface that can be primary: not the loopback name, up, and
/// with at least one qualifying address.
pub open spec fn spec_iface_qualifies(m: IfaceModel) -> bool {
    m.name != "lo"@ && m.ip_addresses.len() > 0 && m.is_up && (exists|j: int|
        0 <= j < m.ip_addresses.len() && spec_ip_qualifies(#[trigger] m.ip_addresses[j]))
}

/// The primary interface of a list: the first qualifying one.
pub open spec fn spec_primary(ifaces: Seq<IfaceModel>) -> Option<IfaceModel>
    decreases ifaces.len(),
{
    if ifaces.len() == 0 {
        None
    } else if spec_iface_qualifies(ifaces.first()) {
        Some(ifaces.first())
    } else {
        spec_primary(ifaces.drop_first())
    }
}

/// Selects the primary interface: the first one that is not the
/// loopback, has an address, is up, and owns at least one address that
/// is neither loopback nor link-local.
pub fn get_primary_interface(interfaces: &Vec<NetworkInterface>) -> (r: Result<
    NetworkInterface,
    NetError,
>)
    ensures
        match r {
            Ok(m) => spec_primary(iface_models(interfaces@)) == Some(m@),
            Err(e) => spec_primary(iface_models(interfaces@)) is None && e
                == NetError::NoSuitableInterface,
        },
{
    let ghost all = iface_models(interfaces@);
    let mut j: usize = 0;
    proof {
        assert(all.skip(0) =~= all);
    }
    while j < interfaces.len()
        invariant
            j <= interfaces@.len(),
            all == iface_models(interfaces@),
            spec_primary(all) == spec_primary(all.skip(j as int)),
        decreases interfaces@.len() - j,
    {
        proof {
            assert(all.skip(j as int).first() == all[j as int]);
            assert(all.skip(j as int).drop_first() =~= all.skip(j as int + 1));
        }
        let iface = &interfaces[j];
        if !str_eq(iface.name.as_str(), "lo") && iface.ip_addresses.len() > 0 && iface.is_up {
            let mut k: usize = 0;
            let ghost ips = all[j as int].ip_addresses;
            while k < iface.ip_addresses.len()
                invariant
                    k <= iface.ip_addresses@.len(),
                    all == iface_models(interfaces@),
                    j < interfaces@.len(),
                    iface == &interfaces@[j as int],
                    ips == all[j as int].ip_addresses,
                    ips == seq_views(iface.ip_addresses@),
                    all[j as int].name != "lo"@,
                    all[j as int].ip_addresses.len() > 0,
                    all[j as int].is_up,
                    spec_primary(all) == spec_primary(all.skip(j as int)),
                    forall|t: int| 0 <= t < k ==> !spec_ip_qualifies(#[trigger] ips[t]),
                decreases iface.ip_addresses@.len() - k,
            {
                if crate::ip::ip_qualifies(iface.ip_addresses[k].as_str()) {
                    proof {
                        assert(spec_ip_qualifies(ips[k as int]));
                        assert(spec_iface_qualifies(all[j as int]));
                        assert(all.skip(j as int).first() == all[j as int]);
                        assert(spec_primary(all.skip(j as int)) == Some(all[j as int]));
                    }
                    let copy = iface.duplicate();
                    return Ok(copy);
                }
                k += 1;
            }
            proof {
                assert(!spec_iface_qualifies(all[j as int]));
            }
        } else {
            proof {
                assert(!spec_iface_qualifies(all[j as int]));
            }
        }
        j += 1;
    }
    proof {
        assert(all.skip(interfaces@.len() as int) =~= Seq::<IfaceModel>::empty());
    }
    Err(NetError::NoSuitableInterface)
}

/// For any neighbor-table token list, the parsed hardware address is the
/// token that follows the last `lladdr` token which has one.
pub proof fn lemma_mac_follows_lladdr(ts: Seq<Seq<char>>, i: int)
    requires
        0 <= i,
        i + 2 <= ts.len(),
        ts[i] == "lladdr"@,
        forall|j: int| i < j < ts.len() - 1 ==> ts[j] != "lladdr"@,
    ensures
        spec_mac_of(ts) == Some(ts[i + 1]),
    decreases ts.len(),
{
    if i == ts.len() - 2 {
    } else {
        assert(ts[ts.len() - 2] != "lladdr"@);
        lemma_mac_follows_lladdr(ts.drop_last(), i);
        assert(ts.drop_last()[i] == ts[i]);
        assert(ts.drop_last()[i + 1] == ts[i + 1]);
    }
}

/// For any neighbor-table line with a `lladdr` token followed by another
/// token, the parsed peer's hardware address equals that following
/// token (the last such pair winning).
pub proof fn lemma_neighbor_lladdr(line: Seq<char>, i: int)
    requires
        ws_tokens(line).len() >= 4,
        0 <= i,
        i + 2 <= ws_tokens(line).len(),
        ws_tokens(line)[i] == "lladdr"@,
        forall|j: int| i < j < ws_tokens(line).len() - 1 ==> ws_tokens(line)[j] != "lladdr"@,
    ensures
        spec_parse_neighbor_line(line) matches Some(p) && p.mac == Some(ws_tokens(line)[i + 1]),
{
    lemma_mac_follows_lladdr(ws_tokens(line), i);
}

/// A port line whose trailing port segment does not parse yields no
/// entry.
pub proof fn lemma_unparsable_port_dropped(line: Seq<char>)
    requires
        parse_u16_spec(sep_pieces(ws_tokens(line)[4], ':').last()) is None,
    ensures
        spec_parse_port_line(line) is None,
{
}

/// The number of entries the port parser yields plus the number of
/// lines it drops equals the number of lines given to it.
pub proof fn lemma_port_count(lines: Seq<Seq<char>>)
    ensures
        spec_port_entries(lines).len() + count_unparsable_port_lines(lines) == lines.len(),
    decreases lines.len(),
{
    if lines.len() > 0 {
        lemma_port_count(lines.drop_last());
    }
}

/// How many of the given lines the port parser drops.
pub open spec fn count_unparsable_port_lines(lines: Seq<Seq<char>>) -> nat
    decreases lines.len(),
{
    if lines.len() == 0 {
        0
    } else {
        count_unparsable_port_lines(lines.drop_last()) + (
        if spec_parse_port_line(lines.last()) is None {
            1nat
        } else {
            0nat
        })
    }
}

/// A selected primary interface is never loopback-only: it is up, not
/// named `lo`, and one of its addresses is a valid, routable address --
/// neither IPv4 loopback (first octet 127), IPv4 link-local (169.254),
/// nor IPv6 loopback.
pub proof fn lemma_primary_is_routable(ifaces: Seq<IfaceModel>, m: IfaceModel)
    requires
        spec_primary(ifaces) == Some(m),
    ensures
        m.is_up,
        m.name != "lo"@,
        exists|j: int|
            0 <= j < m.ip_addresses.len() && spec_ip_qualifies(#[trigger] m.ip_addresses[j]),
        forall|j: int|
            0 <= j < m.ip_addresses.len() && spec_ip_qualifies(#[trigger] m.ip_addresses[j])
                ==> !spec_ipv4_loopback(m.ip_addresses[j]) && !spec_ipv4_link_local(
                m.ip_addresses[j],
            ) && !spec_ipv6_loopback(m.ip_addresses[j]),
    decreases ifaces.len(),
{
    if ifaces.len() > 0 {
        if spec_iface_qualifies(ifaces.first()) {
            assert forall|j: int|
                0 <= j < m.ip_addresses.len() && spec_ip_qualifies(
                    #[trigger] m.ip_addresses[j],
                ) implies !spec_ipv4_loopback(m.ip_addresses[j]) && !spec_ipv4_link_local(
                m.ip_addresses[j],
            ) && !spec_ipv6_loopback(m.ip_addresses[j]) by {
                lemma_qualifying_ip_routable(m.ip_addresses[j]);
            }
        } else {
            lemma_primary_is_routable(ifaces.drop_first(), m);
        }
    }
}

/// A qualifying address is not loopback and not link-local.
pub proof fn lemma_qualifying_ip_routable(ip: Seq<char>)
    requires
        spec_ip_qualifies(ip),
    ensures
        !spec_ipv4_loopback(ip),
        !spec_ipv4_link_local(ip),
        !spec_ipv6_loopback(ip),
{
    lemma_ipv4_not_ipv6(ip);
}

/// No string is both a dotted-quad IPv4 address and an IPv6 address: a
/// dotted quad splits on colons into a single piece, which as an
/// embedded IPv4 tail makes only two groups of the eight required.
pub proof fn lemma_ipv4_not_ipv6(s: Seq<char>)
    ensures
        spec_is_ipv4(s) ==> !spec_is_ipv6(s),
{
    if spec_is_ipv4(s) {
        lemma_ipv4_has_no_colon(s);
        assert(forall|i: int| 0 <= i < s.len() ==> s[i] != ':');
        crate::text::lemma_no_sep_single_piece(s, ':');
        assert(sep_pieces(s, ':') == seq![s]);
        lemma_ipv4_no_double_colon(s, 0);
        assert(find_sub_from(s, "::"@, 0) is None);
        let ps = sep_pieces(s, ':');
        assert(ps.last() == s);
        assert(ps.drop_last() =~= Seq::<Seq<char>>::empty());
        assert(hex_group_vals(ps.drop_last()) == Some(Seq::<u16>::empty()));
        assert(tail_group_vals(ps) == Some(
            Seq::<u16>::empty() + crate::ip::spec_ipv4_group_pair(s),
        ));
        assert((Seq::<u16>::empty() + crate::ip::spec_ipv4_group_pair(s)).len() == 2);
    }
}

/// Every character of a dotted-quad IPv4 address is a digit or a dot.
proof fn lemma_ipv4_has_no_colon(s: Seq<char>)
    requires
        spec_is_ipv4(s),
    ensures
        forall|i: int| 0 <= i < s.len() ==> s[i] != ':',
{
    crate::text::lemma_pieces_cover(s, '.');
    assert forall|i: int| 0 <= i < s.len() implies s[i] != ':' by {
        if s[i] != '.' {
            let ps = sep_pieces(s, '.');
            assert(exists|a: int, b: int|
                0 <= a < ps.len() && 0 <= b < ps[a].len() && ps[a][b] == s[i]);
            let (a, b) = choose|a: int, b: int|
                0 <= a < ps.len() && 0 <= b < ps[a].len() && ps[a][b] == s[i];
            assert(is_dec_octet(ps[a]));
            assert(crate::text::is_digit(ps[a][b]));
        }
    }
}

/// In a colon-free string the double-colon pattern never occurs.
proof fn lemma_ipv4_no_double_colon(s: Seq<char>, i: int)
    requires
        0 <= i,
        forall|t: int| 0 <= t < s.len() ==> s[t] != ':',
    ensures
        find_sub_from(s, "::"@, i) is None,
    decreases s.len() - i,
{
    reveal_strlit("::");
    if i + 2 <= s.len() {
        assert(s.subrange(i, i + 2)[0] == s[i]);
        assert(s[i] != ':');
        assert("::"@[0] == ':');
        assert(s.subrange(i, i + 2) != "::"@);
        lemma_ipv4_no_double_colon(s, i + 1);
    }
}


/// Port parsing is a pure function of the listing text: two parses of
/// the same text yield the same entries.
pub proof fn lemma_ports_deterministic(text: Seq<char>, a: Seq<PortModel>, b: Seq<PortModel>)
    requires
        a == spec_open_ports(text),
        b == spec_open_ports(text),
    ensures
        a == b,
{
}

/// Peer parsing is a pure function of the listing text: two parses of
/// the same text yield the same peers.
pub proof fn lemma_peers_deterministic(text: Seq<char>, a: Seq<PeerModel>, b: Seq<PeerModel>)
    requires
        a == spec_network_peers(text),
        b == spec_network_peers(text),
    ensures
        a == b,
{
}

} // verus!

//! Security classification: scanning authentication-log, connection-table
//! and kernel-log text for events, the firewall activity decision, and the
//! alert summary.

use vstd::pervasive::VecAdditionalExecFns;
use vstd::prelude::*;

use crate::text::contains_seq;
use crate::text::contains_str;
use crate::text::dec_str;
use crate::text::lines_of;
use crate::text::sep_pieces;
use crate::text::seq_views;
use crate::text::split_lines;
use crate::text::split_on;
use crate::text::split_whitespace_tokens;
use crate::text::starts_with_seq;
use crate::text::starts_with_str;
use crate::text::str_eq;
use crate::text::u64_to_string;
use crate::text::ws_tokens;

verus! {

/// How serious an alert is, ordered `Critical` over `High` over `Medium`
/// over `Low` over `Info`.
#[derive(Debug, Clone, Copy, PartialEq, Eq, Structural)]
pub enum AlertSeverity {
    Critical,
    High,
    Medium,
    Low,
    Info,
}

impl AlertSeverity {
    /// The fixed label of this severity.
    pub open spec fn spec_label(self) -> Seq<char> {
        match self {
            AlertSeverity::Critical => "CRITICAL"@,
            AlertSeverity::High => "HIGH"@,
            AlertSeverity::Medium => "MEDIUM"@,
            AlertSeverity::Low => "LOW"@,
            AlertSeverity::Info => "INFO"@,
        }
    }

    /// Formats this severity as its fixed uppercase label.
    pub fn label(&self) -> (r: String)
        ensures
            r@ == self.spec_label(),
    {
        match self {
            AlertSeverity::Critical => String::from_str("CRITICAL"),
            AlertSeverity::High => String::from_str("HIGH"),
            AlertSeverity::Medium => String::from_str("MEDIUM"),
            AlertSeverity::Low => String::from_str("LOW"),
            AlertSeverity::Info => String::from_str("INFO"),
        }
    }
}

/// What kind of event an alert reports.
#[derive(Debug, Clone, Copy, PartialEq, Eq, Structural)]
pub enum AlertCategory {
    FailedLogin,
    PortScan,
    UnusualTraffic,
    FirewallBlock,
    SuspiciousProcess,
    SystemChange,
}

/// One security alert: when it was raised, how serious it is, what kind
/// of event it reports, a fixed message, and the raw evidence line.
#[derive(Debug, Clone)]
pub struct SecurityAlert {
    pub timestamp: i64,
    pub severity: AlertSeverity,
    pub category: AlertCategory,
    pub message: String,
    pub details: Option<String>,
}

/// The mathematical model of a [`SecurityAlert`].
#[verifier::ext_equal]
pub struct AlertModel {
    pub timestamp: i64,
    pub severity: AlertSeverity,
    pub category: AlertCategory,
    pub message: Seq<char>,
    pub details: Option<Seq<char>>,
}

impl View for SecurityAlert {
    type V = AlertModel;

    open spec fn view(&self) -> AlertModel {
        AlertModel {
            timestamp: self.timestamp,
            severity: self.severity,
            category: self.category,
            message: self.message@,
            details: match self.details {
                Some(d) => Some(d@),
                None => None,
            },
        }
    }
}

/// The models of a sequence of alerts.
pub open spec fn alert_models(v: Seq<SecurityAlert>) -> Seq<AlertModel> {
    v.map_values(|x: SecurityAlert| x@)
}

/// A line that reports a failed login attempt.
pub open spec fn spec_failed_login_line(line: Seq<char>) -> bool {
    contains_seq(line, "Failed password"@) || contains_seq(line, "Invalid user"@)
}

/// One Medium / failed-login alert per matching line, in order; the
/// line itself is kept as the evidence detail.
pub open spec fn spec_failed_login_alerts(lines: Seq<Seq<char>>, ts: i64) -> Seq<AlertModel>
    decreases lines.len(),
{
    if lines.len() == 0 {
        Seq::empty()
    } else {
        let rest = spec_failed_login_alerts(lines.drop_last(), ts);
        if spec_failed_login_line(lines.last()) {
            rest.push(
                AlertModel {
                    timestamp: ts,
                    severity: AlertSeverity::Medium,
                    category: AlertCategory::FailedLogin,
                    message: "Failed SSH login attempt detected"@,
                    details: Some(lines.last()),
                },
            )
        } else {
            rest
        }
    }
}

/// Scans authentication-log text for failed login attempts.
pub fn check_failed_logins(output: &str, timestamp: i64) -> (r: Vec<SecurityAlert>)
    ensures
        alert_models(r@) == spec_failed_login_alerts(lines_of(output@), timestamp),
{
    let lines = split_lines(output);
    let ghost all = lines_of(output@);
    let mut r: Vec<SecurityAlert> = Vec::new();
    let mut i: usize = 0;
    proof {
        assert(all.take(0) =~= Seq::<Seq<char>>::empty());
        assert(alert_models(r@) =~= spec_failed_login_alerts(all.take(0), timestamp));
    }
    while i < lines.len()
        invariant
            i <= lines@.len(),
            seq_views(lines@) == all,
            all == lines_of(output@),
            alert_models(r@) == spec_failed_login_alerts(all.take(i as int), timestamp),
        decreases lines@.len() - i,
    {
        proof {
            assert(all.take(i as int + 1).drop_last() =~= all.take(i as int));
            assert(all.take(i as int + 1).last() == all[i as int]);
        }
        let line = &lines[i];
        if contains_str(line.as_str(), "Failed password") || contains_str(
            line.as_str(),
            "Invalid user",
        ) {
            let ghost old_r = r@;
            let a = SecurityAlert {
                timestamp,
                severity: AlertSeverity::Medium,
                category: AlertCategory::FailedLogin,
                message: String::from_str("Failed SSH login attempt detected"),
                details: Some(line.clone()),
            };
            r.push(a);
            proof {
                assert(alert_models(r@) =~= alert_models(old_r).push(
                    spec_failed_login_alerts(all.take(i as int + 1), timestamp).last(),
                ));
            }
        }
        i += 1;
    }
    proof {
        assert(all.take(lines@.len() as int) =~= all);
    }
    r
}

/// A line that reports a firewall block.
pub open spec fn spec_firewall_log_line(line: Seq<char>) -> bool {
    contains_seq(line, "UFW BLOCK"@) || contains_seq(line, "iptables"@)
}

/// One Info / firewall-block alert per matching line, in order.
pub open spec fn spec_firewall_log_alerts(lines: Seq<Seq<char>>, ts: i64) -> Seq<AlertModel>
    decreases lines.len(),
{
    if lines.len() == 0 {
        Seq::empty()
    } else {
        let rest = spec_firewall_log_alerts(lines.drop_last(), ts);
        if spec_firewall_log_line(lines.last()) {
            rest.push(
                AlertModel {
                    timestamp: ts,
                    severity: AlertSeverity::Info,
                    category: AlertCategory::FirewallBlock,
                    message: "Firewall block detected"@,
                    details: Some(lines.last()),
                },
            )
        } else {
            rest
        }
    }
}

/// Scans kernel-log text for firewall block entries.
pub fn check_firewall_logs(output: &str, timestamp: i64) -> (r: Vec<SecurityAlert>)
    ensures
        alert_models(r@) == spec_firewall_log_alerts(lines_of(output@), timestamp),
{
    let lines = split_lines(output);
    let ghost all = lines_of(output@);
    let mut r: Vec<SecurityAlert> = Vec::new();
    let mut i: usize = 0;
    proof {
        assert(all.take(0) =~= Seq::<Seq<char>>::empty());
        assert(alert_models(r@) =~= spec_firewall_log_alerts(all.take(0), timestamp));
    }
    while i < lines.len()
        invariant
            i <= lines@.len(),
            seq_views(lines@) == all,
            all == lines_of(output@),
            alert_models(r@) == spec_firewall_log_alerts(all.take(i as int), timestamp),
        decreases lines@.len() - i,
    {
        proof {
            assert(all.take(i as int + 1).drop_last() =~= all.take(i as int));
            assert(all.take(i as int + 1).last() == all[i as int]);
        }
        let line = &lines[i];
        if contains_str(line.as_str(), "UFW BLOCK") || contains_str(line.as_str(), "iptables") {
            let ghost old_r = r@;
            let a = SecurityAlert {
                timestamp,
                severity: AlertSeverity::Info,
                category: AlertCategory::FirewallBlock,
                message: String::from_str("Firewall block detected"),
                details: Some(line.clone()),
            };
            r.push(a);
            proof {
                assert(alert_models(r@) =~= alert_models(old_r).push(
                    spec_firewall_log_alerts(all.take(i as int + 1), timestamp).last(),
                ));
            }
        }
        i += 1;
    }
    proof {
        assert(all.take(lines@.len() as int) =~= all);
    }
    r
}

/// The source address a connection-table line counts toward: the part
/// of the fifth field before its first colon, unless empty, loopback
/// (`127.` prefix) or the IPv6 loopback prefix.
pub open spec fn spec_conn_ip(line: Seq<char>) -> Option<Seq<char>> {
    let ts = ws_tokens(line);
    if ts.len() > 4 {
        let ip = sep_pieces(ts[4], ':').first();
        if ip.len() > 0 && !starts_with_seq(ip, "127."@) && !starts_with_seq(ip, "::1"@) {
            Some(ip)
        } else {
            None
        }
    } else {
        None
    }
}

/// The index of an address in a tally, if present.
pub open spec fn find_ip(t: Seq<(Seq<char>, nat)>, ip: Seq<char>) -> Option<int>
    decreases t.len(),
{
    if t.len() == 0 {
        None
    } else if t.first().0 == ip {
        Some(0)
    } else {
        match find_ip(t.drop_first(), ip) {
            Some(j) => Some(j + 1),
            None => None,
        }
    }
}

/// A tally with one more occurrence of `ip`: the existing entry is
/// incremented, or a new entry appended.
pub open spec fn spec_bump(t: Seq<(Seq<char>, nat)>, ip: Seq<char>) -> Seq<(Seq<char>, nat)> {
    match find_ip(t, ip) {
        Some(j) => t.update(j, (ip, (t[j].1 + 1) as nat)),
        None => t.push((ip, 1nat)),
    }
}

/// The per-address connection tally of a sequence of lines, entries in
/// first-seen order.
pub open spec fn spec_tally(lines: Seq<Seq<char>>) -> Seq<(Seq<char>, nat)>
    decreases lines.len(),
{
    if lines.len() == 0 {
        Seq::empty()
    } else {
        let rest = spec_tally(lines.drop_last());
        match spec_conn_ip(lines.last()) {
            Some(ip) => spec_bump(rest, ip),
            None => rest,
        }
    }
}

/// The connection-volume threshold: counts above this raise an alert.
pub open spec fn spec_connection_threshold() -> nat {
    50
}

/// One High / unusual-traffic alert per tally entry above the
/// threshold, in tally order, the message naming address and count.
pub open spec fn spec_conn_alerts_of(t: Seq<(Seq<char>, nat)>, ts: i64) -> Seq<AlertModel>
    decreases t.len(),
{
    if t.len() == 0 {
        Seq::empty()
    } else {
        let rest = spec_conn_alerts_of(t.drop_last(), ts);
        if t.last().1 > spec_connection_threshold() {
            rest.push(
                AlertModel {
                    timestamp: ts,
                    severity: AlertSeverity::High,
                    category: AlertCategory::UnusualTraffic,
                    message: "High connection count from "@ + t.last().0 + ": "@ + dec_str(
                        t.last().1,
                    ) + " connections"@,
                    details: Some("Possible port scan or DDoS attempt"@),
                },
            )
        } else {
            rest
        }
    }
}

/// The unusual-traffic alerts of a whole connection-table listing: the
/// header line is skipped, the rest tallied per source address.
pub open spec fn spec_connection_alerts(text: Seq<char>, ts: i64) -> Seq<AlertModel> {
    let ls = lines_of(text);
    if ls.len() == 0 {
        Seq::empty()
    } else {
        spec_conn_alerts_of(spec_tally(ls.skip(1)), ts)
    }
}

/// The tally modelled by the parallel address and count vectors.
pub open spec fn tally_model(a: Seq<String>, c: Seq<u64>) -> Seq<(Seq<char>, nat)> {
    Seq::new(a.len(), |i: int| (a[i]@, c[i] as nat))
}

/// `ip` is at index `k`, and nowhere earlier, so lookup finds it there.
proof fn lemma_find_ip_at(t: Seq<(Seq<char>, nat)>, ip: Seq<char>, k: int)
    requires
        0 <= k < t.len(),
        t[k].0 == ip,
        forall|j: int| 0 <= j < k ==> (#[trigger] t[j]).0 != ip,
    ensures
        find_ip(t, ip) == Some(k),
    decreases k,
{
    if k == 0 {
    } else {
        assert(t.first().0 != ip);
        lemma_find_ip_at(t.drop_first(), ip, k - 1);
    }
}

/// An address in no entry is not found.
proof fn lemma_find_ip_none(t: Seq<(Seq<char>, nat)>, ip: Seq<char>)
    requires
        forall|j: int| 0 <= j < t.len() ==> (#[trigger] t[j]).0 != ip,
    ensures
        find_ip(t, ip) is None,
    decreases t.len(),
{
    if t.len() > 0 {
        lemma_find_ip_none(t.drop_first(), ip);
    }
}

/// Scans active-connection-table text and raises one alert per source
/// address with more connections than the threshold.
pub fn check_network_connections(output: &str, timestamp: i64) -> (r: Vec<SecurityAlert>)
    ensures
        alert_models(r@) == spec_connection_alerts(output@, timestamp),
{
    let lines = split_lines(output);
    let mut r: Vec<SecurityAlert> = Vec::new();
    if lines.len() == 0 {
        proof {
            assert(alert_models(r@) =~= spec_connection_alerts(output@, timestamp));
        }
        return r;
    }
    let ghost body = lines_of(output@).skip(1);
    let mut ips: Vec<String> = Vec::new();
    let mut counts: Vec<u64> = Vec::new();
    let mut i: usize = 1;
    proof {
        assert(body.take(0) =~= Seq::<Seq<char>>::empty());
        assert(tally_model(ips@, counts@) =~= spec_tally(body.take(0)));
    }
    while i < lines.len()
        invariant
            1 <= i <= lines@.len(),
            lines@.len() >= 1,
            seq_views(lines@) == lines_of(output@),
            body == lines_of(output@).skip(1),
            ips@.len() == counts@.len(),
            tally_model(ips@, counts@) == spec_tally(body.take(i as int - 1)),
            forall|t: int| 0 <= t < counts@.len() ==> (#[trigger] counts@[t]) as nat <= i - 1,
        decreases lines@.len() - i,
    {
        proof {
            assert(body.take(i as int).drop_last() =~= body.take(i as int - 1));
            assert(body.take(i as int).last() == body[i as int - 1]);
            assert(body[i as int - 1] == lines@[i as int]@);
        }
        let tokens = split_whitespace_tokens(lines[i].as_str());
        if tokens.len() > 4 {
            let segs = split_on(tokens[4].as_str(), ':');
            let ip = &segs[0];
            proof {
                assert(ip@ == sep_pieces(ws_tokens(lines@[i as int]@)[4], ':').first());
            }
            if !starts_with_str(ip.as_str(), "127.") && !starts_with_str(ip.as_str(), "::1")
                && ip.as_str().unicode_len() > 0 {
                let ghost old_tally = tally_model(ips@, counts@);
                let mut k: usize = 0;
                while k < ips.len() && !str_eq(ips[k].as_str(), ip.as_str())
                    invariant
                        k <= ips@.len(),
                        ips@.len() == counts@.len(),
                        forall|j: int| 0 <= j < k ==> (#[trigger] ips@[j])@ != ip@,
                    decreases ips@.len() - k,
                {
                    k += 1;
                }
                if k < ips.len() {
                    proof {
                        assert(old_tally[k as int].0 == ip@);
                        assert forall|j: int| 0 <= j < k implies (#[trigger] old_tally[j]).0
                            != ip@ by {
                            assert(old_tally[j].0 == ips@[j]@);
                        }
                        lemma_find_ip_at(old_tally, ip@, k as int);
                    }
                    let c = counts[k];
                    counts.set(k, c + 1);
                    proof {
                        assert(tally_model(ips@, counts@) =~= spec_bump(old_tally, ip@));
                    }
                } else {
                    proof {
                        assert forall|j: int| 0 <= j < old_tally.len() implies (
                        #[trigger] old_tally[j]).0 != ip@ by {
                            assert(old_tally[j].0 == ips@[j]@);
                        }
                        lemma_find_ip_none(old_tally, ip@);
                    }
                    ips.push(ip.clone());
                    counts.push(1);
                    proof {
                        assert(tally_model(ips@, counts@) =~= spec_bump(old_tally, ip@));
                    }
                }
            }
        }
        i += 1;
    }
    proof {
        assert(body.take(lines@.len() - 1) =~= body);
    }
    let ghost tally = spec_tally(body);
    let mut e: usize = 0;
    proof {
        assert(tally.take(0) =~= Seq::<(Seq<char>, nat)>::empty());
        assert(alert_models(r@) =~= spec_conn_alerts_of(tally.take(0), timestamp));
    }
    while e < ips.len()
        invariant
            e <= ips@.len(),
            ips@.len() == counts@.len(),
            tally == tally_model(ips@, counts@),
            alert_models(r@) == spec_conn_alerts_of(tally.take(e as int), timestamp),
        decreases ips@.len() - e,
    {
        proof {
            assert(tally.take(e as int + 1).drop_last() =~= tally.take(e as int));
            assert(tally.take(e as int + 1).last() == tally[e as int]);
        }
        let c = counts[e];
        if c > 50 {
            let mut message = String::from_str("High connection count from ");
            message.append(ips[e].as_str());
            message.append(": ");
            let num = u64_to_string(c);
            message.append(num.as_str());
            message.append(" connections");
            let a = SecurityAlert {
                timestamp,
                severity: AlertSeverity::High,
                category: AlertCategory::UnusualTraffic,
                message,
                details: Some(String::from_str("Possible port scan or DDoS attempt")),
            };
            let ghost old_r = r@;
            r.push(a);
            proof {
                assert(alert_models(r@) =~= alert_models(old_r).push(
                    spec_conn_alerts_of(tally.take(e as int + 1), timestamp).last(),
                ));
            }
        }
        e += 1;
    }
    proof {
        assert(tally.take(ips@.len() as int) =~= tally);
    }
    r
}

/// The texts that the three scan passes read, each absent when its
/// source was unavailable.
pub open spec fn opt_text(o: Option<&str>) -> Option<Seq<char>> {
    match o {
        Some(s) => Some(s@),
        None => None,
    }
}

/// The alerts of a full scan at one capture time: failed-login,
/// connection-volume and firewall-log alerts concatenated in that
/// order; an unavailable source contributes none.
pub open spec fn spec_scan(
    auth: Option<Seq<char>>,
    conn: Option<Seq<char>>,
    kern: Option<Seq<char>>,
    ts: i64,
) -> Seq<AlertModel> {
    (match auth {
        Some(a) => spec_failed_login_alerts(lines_of(a), ts),
        None => Seq::empty(),
    }) + (match conn {
        Some(c) => spec_connection_alerts(c, ts),
        None => Seq::empty(),
    }) + (match kern {
        Some(k) => spec_firewall_log_alerts(lines_of(k), ts),
        None => Seq::empty(),
    })
}

/// Runs the three scan passes over the given texts with an explicit
/// capture time. A pass whose text is absent is skipped, never failing
/// the others.
pub fn scan_security_logs_at(
    auth: Option<&str>,
    conn: Option<&str>,
    kern: Option<&str>,
    timestamp: i64,
) -> (r: Vec<SecurityAlert>)
    ensures
        alert_models(r@) == spec_scan(opt_text(auth), opt_text(conn), opt_text(kern), timestamp),
{
    let mut r = match auth {
        Some(a) => check_failed_logins(a, timestamp),
        None => Vec::new(),
    };
    let mut second = match conn {
        Some(c) => check_network_connections(c, timestamp),
        None => Vec::new(),
    };
    let mut third = match kern {
        Some(k) => check_firewall_logs(k, timestamp),
        None => Vec::new(),
    };
    let ghost first_m = alert_models(r@);
    let ghost second_m = alert_models(second@);
    let ghost third_m = alert_models(third@);
    r.append(&mut second);
    r.append(&mut third);
    proof {
        assert(alert_models(r@) =~= first_m + second_m + third_m);
    }
    r
}

/// Relies on `chrono::Utc::now` for the current time as a Unix
/// timestamp in seconds; nothing is assumed of the value.
#[verifier::external_body]
fn now_utc_timestamp() -> i64 {
    chrono::Utc::now().timestamp()
}

/// Runs the three scan passes, stamping every alert with the capture
/// time read from the system clock.
pub fn scan_security_logs(auth: Option<&str>, conn: Option<&str>, kern: Option<&str>) -> (r: Vec<
    SecurityAlert,
>)
    ensures
        exists|ts: i64|
            alert_models(r@) == spec_scan(opt_text(auth), opt_text(conn), opt_text(kern), ts),
{
    let ts = now_utc_timestamp();
    let r = scan_security_logs_at(auth, conn, kern, ts);
    proof {
        assert(alert_models(r@) == spec_scan(opt_text(auth), opt_text(conn), opt_text(kern), ts));
    }
    r
}

/// Whether the firewall is active: the primary check's output decides
/// when available; otherwise the fallback command's success; otherwise
/// inactive.
pub open spec fn spec_firewall_active(ufw: Option<Seq<char>>, fallback: Option<bool>) -> bool {
    match ufw {
        Some(t) => contains_seq(t, "Status: active"@),
        None => match fallback {
            Some(ok) => ok,
            None => false,
        },
    }
}

/// Decides firewall activity from the primary status text, or, when
/// that command could not run, from whether the fallback listing
/// command succeeded; with neither, reports inactive.
pub fn check_firewall_status(ufw_output: Option<&str>, fallback_succeeded: Option<bool>) -> (r:
    bool)
    ensures
        r == spec_firewall_active(opt_text(ufw_output), fallback_succeeded),
{
    match ufw_output {
        Some(t) => contains_str(t, "Status: active"),
        None => match fallback_succeeded {
            Some(ok) => ok,
            None => false,
        },
    }
}

/// How many alerts have the given severity.
pub open spec fn spec_count_severity(s: Seq<AlertModel>, sev: AlertSeverity) -> nat
    decreases s.len(),
{
    if s.len() == 0 {
        0
    } else {
        spec_count_severity(s.drop_last(), sev) + (if s.last().severity == sev {
            1nat
        } else {
            0nat
        })
    }
}

/// Counts the alerts with the given severity.
pub fn count_severity(alerts: &Vec<SecurityAlert>, sev: AlertSeverity) -> (r: usize)
    ensures
        r as nat == spec_count_severity(alert_models(alerts@), sev),
{
    let ghost all = alert_models(alerts@);
    let mut n: usize = 0;
    let mut i: usize = 0;
    proof {
        assert(all.take(0) =~= Seq::<AlertModel>::empty());
    }
    while i < alerts.len()
        invariant
            i <= alerts@.len(),
            all == alert_models(alerts@),
            n as nat == spec_count_severity(all.take(i as int), sev),
            n <= i,
        decreases alerts@.len() - i,
    {
        proof {
            assert(all.take(i as int + 1).drop_last() =~= all.take(i as int));
            assert(all.take(i as int + 1).last() == all[i as int]);
        }
        if alerts[i].severity == sev {
            n += 1;
        }
        i += 1;
    }
    proof {
        assert(all.take(alerts@.len() as int) =~= all);
    }
    n
}

/// The fixed summary text for an alert list and firewall state.
pub open spec fn spec_summary(alerts: Seq<AlertModel>, firewall_active: bool) -> Seq<char> {
    "Firewall: "@ + (if firewall_active {
        "Active"@
    } else {
        "Inactive"@
    }) + "\nAlerts - Critical: "@ + dec_str(spec_count_severity(alerts, AlertSeverity::Critical))
        + ", High: "@ + dec_str(spec_count_severity(alerts, AlertSeverity::High)) + ", Medium: "@
        + dec_str(spec_count_severity(alerts, AlertSeverity::Medium))
}

/// Renders the security summary: the firewall state and the alert
/// counts by severity.
pub fn get_security_summary(alerts: &Vec<SecurityAlert>, firewall_active: bool) -> (r: String)
    ensures
        r@ == spec_summary(alert_models(alerts@), firewall_active),
{
    let critical = count_severity(alerts, AlertSeverity::Critical);
    let high = count_severity(alerts, AlertSeverity::High);
    let medium = count_severity(alerts, AlertSeverity::Medium);
    let mut s = String::from_str("Firewall: ");
    if firewall_active {
        s.append("Active");
    } else {
        s.append("Inactive");
    }
    s.append("\nAlerts - Critical: ");
    let c = u64_to_string(critical as u64);
    s.append(c.as_str());
    s.append(", High: ");
    let h = u64_to_string(high as u64);
    s.append(h.as_str());
    s.append(", Medium: ");
    let m = u64_to_string(medium as u64);
    s.append(m.as_str());
    proof {
        assert(s@ =~= spec_summary(alert_models(alerts@), firewall_active));
    }
    s
}

/// A scan is a pure function of its input texts and capture time: two
/// scans of the same sources at the same time yield the same alerts.
pub proof fn lemma_scan_deterministic(
    auth: Option<Seq<char>>,
    conn: Option<Seq<char>>,
    kern: Option<Seq<char>>,
    ts: i64,
    a: Seq<AlertModel>,
    b: Seq<AlertModel>,
)
    requires
        a == spec_scan(auth, conn, kern, ts),
        b == spec_scan(auth, conn, kern, ts),
    ensures
        a == b,
{
}

} // verus!

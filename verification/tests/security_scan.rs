use netninja::security::{
    check_failed_logins, check_firewall_logs, check_firewall_status, check_network_connections,
    get_security_summary, scan_security_logs, scan_security_logs_at, AlertCategory, AlertSeverity,
    SecurityAlert,
};

#[test]
fn failed_logins_one_alert_per_matching_line() {
    let text = "Jan 01 sshd[1]: Failed password for root from 10.0.0.1\n\
                Jan 01 sshd[2]: Accepted password for alice\n\
                Jan 01 sshd[3]: Invalid user bob from 10.0.0.2\n";
    let alerts = check_failed_logins(text, 1000);
    assert_eq!(alerts.len(), 2);
    for a in &alerts {
        assert_eq!(a.timestamp, 1000);
        assert!(matches!(a.severity, AlertSeverity::Medium));
        assert!(matches!(a.category, AlertCategory::FailedLogin));
        assert_eq!(a.message, "Failed SSH login attempt detected");
    }
    assert_eq!(
        alerts[0].details.as_deref(),
        Some("Jan 01 sshd[1]: Failed password for root from 10.0.0.1")
    );
    assert_eq!(
        alerts[1].details.as_deref(),
        Some("Jan 01 sshd[3]: Invalid user bob from 10.0.0.2")
    );
}

#[test]
fn firewall_logs_match_block_lines() {
    let text = "[ 10.0] usb 1-1: new device\n\
                [ 11.0] [UFW BLOCK] IN=eth0 SRC=203.0.113.9\n\
                [ 12.0] iptables denied: IN=eth0\n";
    let alerts = check_firewall_logs(text, 5);
    assert_eq!(alerts.len(), 2);
    for a in &alerts {
        assert!(matches!(a.severity, AlertSeverity::Info));
        assert!(matches!(a.category, AlertCategory::FirewallBlock));
        assert_eq!(a.message, "Firewall block detected");
    }
}

#[test]
fn connection_volume_sixty_rows_one_alert() {
    let mut text = String::from("State Recv-Q Send-Q Local Address:Port Peer Address:Port\n");
    for port in 0..60 {
        text.push_str(&format!(
            "tcp ESTAB 0 0 203.0.113.5:{} 198.51.100.7:80\n",
            40000 + port
        ));
    }
    for port in 0..10 {
        text.push_str(&format!(
            "tcp ESTAB 0 0 127.0.0.1:{} 127.0.0.1:80\n",
            50000 + port
        ));
    }
    let alerts = check_network_connections(&text, 7);
    assert_eq!(alerts.len(), 1);
    let a = &alerts[0];
    assert!(matches!(a.severity, AlertSeverity::High));
    assert!(matches!(a.category, AlertCategory::UnusualTraffic));
    assert_eq!(a.message, "High connection count from 203.0.113.5: 60 connections");
    assert_eq!(a.details.as_deref(), Some("Possible port scan or DDoS attempt"));
}

#[test]
fn connection_volume_below_threshold_is_quiet() {
    let mut text = String::from("header\n");
    for port in 0..50 {
        text.push_str(&format!("tcp ESTAB 0 0 198.51.100.9:{} x:80\n", 40000 + port));
    }
    let alerts = check_network_connections(&text, 7);
    assert!(alerts.is_empty());
}

#[test]
fn connection_volume_ignores_loopback_sources() {
    let mut text = String::from("header\n");
    for port in 0..60 {
        text.push_str(&format!("tcp ESTAB 0 0 127.0.0.1:{} x:80\n", 40000 + port));
    }
    for port in 0..60 {
        text.push_str(&format!("tcp ESTAB 0 0 ::1:{} x:80\n", 40000 + port));
    }
    let alerts = check_network_connections(&text, 7);
    assert!(alerts.is_empty());
}

#[test]
fn scan_concatenates_passes_and_isolates_missing_sources() {
    let auth = "x: Failed password for root\n";
    let kern = "[UFW BLOCK] IN=eth0\n";
    let alerts = scan_security_logs_at(Some(auth), None, Some(kern), 42);
    assert_eq!(alerts.len(), 2);
    assert!(matches!(alerts[0].category, AlertCategory::FailedLogin));
    assert!(matches!(alerts[1].category, AlertCategory::FirewallBlock));
    assert_eq!(alerts[0].timestamp, 42);
    assert_eq!(alerts[1].timestamp, 42);
    let none = scan_security_logs_at(None, None, None, 42);
    assert!(none.is_empty());
}

#[test]
fn scan_is_idempotent_for_fixed_time() {
    let auth = "a: Invalid user eve\n";
    let a = scan_security_logs_at(Some(auth), None, None, 9);
    let b = scan_security_logs_at(Some(auth), None, None, 9);
    assert_eq!(a.len(), b.len());
    for (x, y) in a.iter().zip(b.iter()) {
        assert_eq!(x.timestamp, y.timestamp);
        assert_eq!(x.message, y.message);
        assert_eq!(x.details, y.details);
    }
}

#[test]
fn firewall_status_from_primary_text() {
    assert!(check_firewall_status(Some("Status: active\nTo  Action  From\n"), None));
    assert!(!check_firewall_status(Some("Status: inactive\n"), None));
    assert!(!check_firewall_status(Some(""), Some(true)));
}

#[test]
fn firewall_status_fallback_and_default() {
    assert!(check_firewall_status(None, Some(true)));
    assert!(!check_firewall_status(None, Some(false)));
    assert!(!check_firewall_status(None, None));
}

fn alert(sev: AlertSeverity) -> SecurityAlert {
    SecurityAlert {
        timestamp: 0,
        severity: sev,
        category: AlertCategory::SystemChange,
        message: String::new(),
        details: None,
    }
}

#[test]
fn summary_counts_by_severity() {
    let alerts = vec![
        alert(AlertSeverity::High),
        alert(AlertSeverity::Medium),
        alert(AlertSeverity::Medium),
        alert(AlertSeverity::Low),
        alert(AlertSeverity::Info),
    ];
    let s = get_security_summary(&alerts, true);
    assert_eq!(s, "Firewall: Active\nAlerts - Critical: 0, High: 1, Medium: 2");
    let t = get_security_summary(&Vec::new(), false);
    assert_eq!(t, "Firewall: Inactive\nAlerts - Critical: 0, High: 0, Medium: 0");
}

#[test]
fn severity_labels() {
    assert_eq!(AlertSeverity::Critical.label(), "CRITICAL");
    assert_eq!(AlertSeverity::High.label(), "HIGH");
    assert_eq!(AlertSeverity::Medium.label(), "MEDIUM");
    assert_eq!(AlertSeverity::Low.label(), "LOW");
    assert_eq!(AlertSeverity::Info.label(), "INFO");
}

#[test]
fn scan_with_system_clock_yields_same_content() {
    let auth = "x: Failed password for root\n";
    let stamped = scan_security_logs(Some(auth), None, None);
    let fixed = scan_security_logs_at(Some(auth), None, None, 0);
    assert_eq!(stamped.len(), fixed.len());
    for (a, b) in stamped.iter().zip(fixed.iter()) {
        assert_eq!(a.message, b.message);
        assert_eq!(a.details, b.details);
    }
}

use netninja::tmux::{populate_panes, setup_dashboard_layout, TmuxSession};

#[test]
fn layout_command_sequence() {
    let session = TmuxSession::new("netninja-monitor");
    let plan = setup_dashboard_layout(&session);
    assert_eq!(plan.len(), 8);
    assert_eq!(plan[0], vec!["new-session", "-d", "-s", "netninja-monitor"]);
    assert_eq!(
        plan[1],
        vec!["rename-window", "-t", "netninja-monitor:0", "NetNinja Monitor"]
    );
    assert_eq!(plan[2], vec!["split-window", "-h", "-t", "netninja-monitor"]);
    assert_eq!(plan[3], vec!["split-window", "-v", "-t", "netninja-monitor", "0"]);
    assert_eq!(plan[7], vec!["select-layout", "-t", "netninja-monitor", "tiled"]);
}

#[test]
fn pane_population_targets_all_six_panes() {
    let session = TmuxSession::new("netninja-monitor");
    let plan = populate_panes(&session);
    assert_eq!(plan.len(), 12);
    for args in &plan {
        assert_eq!(args[0], "send-keys");
        assert_eq!(args[1], "-t");
        assert!(args[2].starts_with("netninja-monitor:"));
        assert_eq!(args[4], "C-m");
    }
    assert_eq!(plan[0][2], "netninja-monitor:0");
    assert_eq!(plan[0][3], "clear");
    assert_eq!(plan[11][2], "netninja-monitor:5");
    assert!(plan[11][3].contains("ip neigh show"));
}

#[test]
fn pane_title_uses_printf_escape() {
    let session = TmuxSession::new("mon");
    let args = session.set_pane_title("2", "Security");
    assert_eq!(args[0], "send-keys");
    assert_eq!(args[2], "mon:2");
    assert_eq!(args[3], "printf '\\033]2;Security\\033\\\\'");
    assert_eq!(args[4], "C-m");
}

#[test]
fn session_command_builders() {
    let session = TmuxSession::new("mon");
    assert_eq!(session.create(), vec!["new-session", "-d", "-s", "mon"]);
    assert_eq!(session.has_session(), vec!["has-session", "-t", "mon"]);
    assert_eq!(session.kill(), vec!["kill-session", "-t", "mon"]);
    assert_eq!(session.attach(), vec!["attach-session", "-t", "mon"]);
    assert_eq!(session.send_keys("1", "clear"), vec!["send-keys", "-t", "mon:1", "clear", "C-m"]);
}

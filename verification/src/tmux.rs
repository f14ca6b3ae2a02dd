//! The dashboard's terminal-multiplexer command plan: each method builds
//! the exact argument list for one `tmux` invocation, and the layout
//! functions build the ordered sequence of invocations that create and
//! fill the six-pane dashboard. Running the commands is the caller's job.

use vstd::prelude::*;

use crate::text::seq_views;

verus! {

/// A named terminal-multiplexer session that commands are built for.
#[derive(Debug, Clone)]
pub struct TmuxSession {
    pub name: String,
}

impl View for TmuxSession {
    type V = Seq<char>;

    open spec fn view(&self) -> Seq<char> {
        self.name@
    }
}

/// The views of a sequence of argument lists.
pub open spec fn argv_views(v: Seq<Vec<String>>) -> Seq<Seq<Seq<char>>> {
    v.map_values(|a: Vec<String>| seq_views(a@))
}

/// The arguments that create a detached session.
pub open spec fn spec_create_args(name: Seq<char>) -> Seq<Seq<char>> {
    seq!["new-session"@, "-d"@, "-s"@, name]
}

/// The arguments that test whether the session exists.
pub open spec fn spec_has_session_args(name: Seq<char>) -> Seq<Seq<char>> {
    seq!["has-session"@, "-t"@, name]
}

/// The arguments that kill the session.
pub open spec fn spec_kill_args(name: Seq<char>) -> Seq<Seq<char>> {
    seq!["kill-session"@, "-t"@, name]
}

/// The arguments that attach to the session.
pub open spec fn spec_attach_args(name: Seq<char>) -> Seq<Seq<char>> {
    seq!["attach-session"@, "-t"@, name]
}

/// The arguments that split a window, horizontally or vertically, with
/// an optional target pane after the session target.
pub open spec fn spec_split_args(name: Seq<char>, flag: Seq<char>, pane: Option<Seq<char>>) -> Seq<
    Seq<char>,
> {
    match pane {
        Some(p) => seq!["split-window"@, flag, "-t"@, name, p],
        None => seq!["split-window"@, flag, "-t"@, name],
    }
}

/// The arguments that send one command line to a pane of the session.
pub open spec fn spec_send_keys_args(name: Seq<char>, pane: Seq<char>, command: Seq<char>) -> Seq<
    Seq<char>,
> {
    seq!["send-keys"@, "-t"@, name + ":"@ + pane, command, "C-m"@]
}

/// The arguments that select a pane layout.
pub open spec fn spec_select_layout_args(name: Seq<char>, layout: Seq<char>) -> Seq<Seq<char>> {
    seq!["select-layout"@, "-t"@, name, layout]
}

/// The arguments that rename a window of the session.
pub open spec fn spec_rename_window_args(
    name: Seq<char>,
    window: Seq<char>,
    new_name: Seq<char>,
) -> Seq<Seq<char>> {
    seq!["rename-window"@, "-t"@, name + ":"@ + window, new_name]
}

/// The pane-title escape line sent through `send-keys`.
pub open spec fn spec_pane_title_command(title: Seq<char>) -> Seq<char> {
    "printf '\\033]2;"@ + title + "\\033\\\\'"@
}

impl TmuxSession {
    /// A session plan under the given name.
    pub fn new(name: &str) -> (r: TmuxSession)
        ensures
            r@ == name@,
    {
        TmuxSession { name: String::from_str(name) }
    }

    /// Builds the session-creation command.
    pub fn create(&self) -> (r: Vec<String>)
        ensures
            seq_views(r@) == spec_create_args(self@),
    {
        let mut r: Vec<String> = Vec::new();
        r.push(String::from_str("new-session"));
        r.push(String::from_str("-d"));
        r.push(String::from_str("-s"));
        r.push(self.name.clone());
        proof {
            assert(seq_views(r@) =~= spec_create_args(self@));
        }
        r
    }

    /// Builds the session-existence test command.
    pub fn has_session(&self) -> (r: Vec<String>)
        ensures
            seq_views(r@) == spec_has_session_args(self@),
    {
        let mut r: Vec<String> = Vec::new();
        r.push(String::from_str("has-session"));
        r.push(String::from_str("-t"));
        r.push(self.name.clone());
        proof {
            assert(seq_views(r@) =~= spec_has_session_args(self@));
        }
        r
    }

    /// Builds the session-kill command.
    pub fn kill(&self) -> (r: Vec<String>)
        ensures
            seq_views(r@) == spec_kill_args(self@),
    {
        let mut r: Vec<String> = Vec::new();
        r.push(String::from_str("kill-session"));
        r.push(String::from_str("-t"));
        r.push(self.name.clone());
        proof {
            assert(seq_views(r@) =~= spec_kill_args(self@));
        }
        r
    }

    /// Builds the session-attach command.
    pub fn attach(&self) -> (r: Vec<String>)
        ensures
            seq_views(r@) == spec_attach_args(self@),
    {
        let mut r: Vec<String> = Vec::new();
        r.push(String::from_str("attach-session"));
        r.push(String::from_str("-t"));
        r.push(self.name.clone());
        proof {
            assert(seq_views(r@) =~= spec_attach_args(self@));
        }
        r
    }

    /// Builds a horizontal split command, optionally aimed at a pane.
    pub fn split_horizontal(&self, pane_id: Option<&str>) -> (r: Vec<String>)
        ensures
            seq_views(r@) == spec_split_args(
                self@,
                "-h"@,
                match pane_id {
                    Some(p) => Some(p@),
                    None => None,
                },
            ),
    {
        self.split_with_flag("-h", pane_id)
    }

    /// Builds a vertical split command, optionally aimed at a pane.
    pub fn split_vertical(&self, pane_id: Option<&str>) -> (r: Vec<String>)
        ensures
            seq_views(r@) == spec_split_args(
                self@,
                "-v"@,
                match pane_id {
                    Some(p) => Some(p@),
                    None => None,
                },
            ),
    {
        self.split_with_flag("-v", pane_id)
    }

    /// Builds a split command with the given direction flag.
    fn split_with_flag(&self, flag: &str, pane_id: Option<&str>) -> (r: Vec<String>)
        ensures
            seq_views(r@) == spec_split_args(
                self@,
                flag@,
                match pane_id {
                    Some(p) => Some(p@),
                    None => None,
                },
            ),
    {
        let mut r: Vec<String> = Vec::new();
        r.push(String::from_str("split-window"));
        r.push(String::from_str(flag));
        r.push(String::from_str("-t"));
        r.push(self.name.clone());
        match pane_id {
            Some(p) => {
                r.push(String::from_str(p));
                proof {
                    assert(seq_views(r@) =~= spec_split_args(self@, flag@, Some(p@)));
                }
            },
            None => {
                proof {
                    assert(seq_views(r@) =~= spec_split_args(
                        self@,
                        flag@,
                        None::<Seq<char>>,
                    ));
                }
            },
        }
        r
    }

    /// Builds the command that sends one line to a pane.
    pub fn send_keys(&self, pane: &str, command: &str) -> (r: Vec<String>)
        ensures
            seq_views(r@) == spec_send_keys_args(self@, pane@, command@),
    {
        let mut target = self.name.clone();
        target.append(":");
        target.append(pane);
        let mut r: Vec<String> = Vec::new();
        r.push(String::from_str("send-keys"));
        r.push(String::from_str("-t"));
        r.push(target);
        r.push(String::from_str(command));
        r.push(String::from_str("C-m"));
        proof {
            assert(seq_views(r@) =~= spec_send_keys_args(self@, pane@, command@));
        }
        r
    }

    /// Builds the command that selects a pane layout.
    pub fn select_layout(&self, layout: &str) -> (r: Vec<String>)
        ensures
            seq_views(r@) == spec_select_layout_args(self@, layout@),
    {
        let mut r: Vec<String> = Vec::new();
        r.push(String::from_str("select-layout"));
        r.push(String::from_str("-t"));
        r.push(self.name.clone());
        r.push(String::from_str(layout));
        proof {
            assert(seq_views(r@) =~= spec_select_layout_args(self@, layout@));
        }
        r
    }

    /// Builds the command that renames a window.
    pub fn rename_window(&self, window: &str, name: &str) -> (r: Vec<String>)
        ensures
            seq_views(r@) == spec_rename_window_args(self@, window@, name@),
    {
        let mut target = self.name.clone();
        target.append(":");
        target.append(window);
        let mut r: Vec<String> = Vec::new();
        r.push(String::from_str("rename-window"));
        r.push(String::from_str("-t"));
        r.push(target);
        r.push(String::from_str(name));
        proof {
            assert(seq_views(r@) =~= spec_rename_window_args(self@, window@, name@));
        }
        r
    }

    /// Builds the send-keys command that sets a pane's title through the
    /// terminal title escape.
    pub fn set_pane_title(&self, pane: &str, title: &str) -> (r: Vec<String>)
        ensures
            seq_views(r@) == spec_send_keys_args(self@, pane@, spec_pane_title_command(title@)),
    {
        let mut command = String::from_str("printf '\\033]2;");
        command.append(title);
        command.append("\\033\\\\'");
        self.send_keys(pane, command.as_str())
    }
}

/// The commands, in order, that build the six-pane dashboard layout:
/// create the session, name its window, split into two columns of three
/// panes, and balance with the tiled layout.
pub fn setup_dashboard_layout(session: &TmuxSession) -> (r: Vec<Vec<String>>)
    ensures
        argv_views(r@) == seq![
            spec_create_args(session@),
            spec_rename_window_args(session@, "0"@, "NetNinja Monitor"@),
            spec_split_args(session@, "-h"@, None::<Seq<char>>),
            spec_split_args(session@, "-v"@, Some("0"@)),
            spec_split_args(session@, "-v"@, Some("1"@)),
            spec_split_args(session@, "-v"@, Some("3"@)),
            spec_split_args(session@, "-v"@, Some("4"@)),
            spec_select_layout_args(session@, "tiled"@),
        ],
{
    let mut r: Vec<Vec<String>> = Vec::new();
    r.push(session.create());
    r.push(session.rename_window("0", "NetNinja Monitor"));
    r.push(session.split_horizontal(None));
    r.push(session.split_vertical(Some("0")));
    r.push(session.split_vertical(Some("1")));
    r.push(session.split_vertical(Some("3")));
    r.push(session.split_vertical(Some("4")));
    r.push(session.select_layout("tiled"));
    proof {
        assert(argv_views(r@) =~= seq![
            spec_create_args(session@),
            spec_rename_window_args(session@, "0"@, "NetNinja Monitor"@),
            spec_split_args(session@, "-h"@, None::<Seq<char>>),
            spec_split_args(session@, "-v"@, Some("0"@)),
            spec_split_args(session@, "-v"@, Some("1"@)),
            spec_split_args(session@, "-v"@, Some("3"@)),
            spec_split_args(session@, "-v"@, Some("4"@)),
            spec_select_layout_args(session@, "tiled"@),
        ]);
    }
    r
}

/// The send-keys commands, in order, that fill the six dashboard panes
/// with their monitoring command lines.
pub fn populate_panes(session: &TmuxSession) -> (r: Vec<Vec<String>>)
    ensures
        argv_views(r@) == seq![
            spec_send_keys_args(session@, "0"@, "clear"@),
            spec_send_keys_args(
                session@,
                "0"@,
                "watch -n 2 'ip addr show | grep -E \"^[0-9]|inet \" | head -20'"@,
            ),
            spec_send_keys_args(session@, "1"@, "clear"@),
            spec_send_keys_args(
                session@,
                "1"@,
                "if command -v iftop &> /dev/null; then sudo iftop -t -s 2; else while true; do clear; echo 'iftop not installed. Install with: sudo apt-get install iftop'; echo ''; echo 'Alternative: Showing network stats'; cat /proc/net/dev | head -10; sleep 10; done; fi"@,
            ),
            spec_send_keys_args(session@, "2"@, "clear"@),
            spec_send_keys_args(
                session@,
                "2"@,
                "watch -n 5 'echo \"=== Security Status ===\"  && netninja-cli status 2>/dev/null | grep -A20 \"Security\" || journalctl -u ssh -n 10 --no-pager | tail -5'"@,
            ),
            spec_send_keys_args(session@, "3"@, "clear"@),
            spec_send_keys_args(
                session@,
                "3"@,
                "watch -n 5 'echo \"=== VPN Status ===\" && ip addr show | grep -E \"tun|tap|wg\" || echo \"No VPN detected\"'"@,
            ),
            spec_send_keys_args(session@, "4"@, "clear"@),
            spec_send_keys_args(
                session@,
                "4"@,
                "watch -n 5 'echo \"=== Open Ports ===\" && ss -tuln | head -20'"@,
            ),
            spec_send_keys_args(session@, "5"@, "clear"@),
            spec_send_keys_args(
                session@,
                "5"@,
                "watch -n 10 'echo \"=== Network Peers ===\" && ip neigh show | head -15'"@,
            ),
        ],
{
    let mut r: Vec<Vec<String>> = Vec::new();
    r.push(session.send_keys("0", "clear"));
    r.push(
        session.send_keys("0", "watch -n 2 'ip addr show | grep -E \"^[0-9]|inet \" | head -20'"),
    );
    r.push(session.send_keys("1", "clear"));
    r.push(
        session.send_keys(
            "1",
            "if command -v iftop &> /dev/null; then sudo iftop -t -s 2; else while true; do clear; echo 'iftop not installed. Install with: sudo apt-get install iftop'; echo ''; echo 'Alternative: Showing network stats'; cat /proc/net/dev | head -10; sleep 10; done; fi",
        ),
    );
    r.push(session.send_keys("2", "clear"));
    r.push(
        session.send_keys(
            "2",
            "watch -n 5 'echo \"=== Security Status ===\"  && netninja-cli status 2>/dev/null | grep -A20 \"Security\" || journalctl -u ssh -n 10 --no-pager | tail -5'",
        ),
    );
    r.push(session.send_keys("3", "clear"));
    r.push(
        session.send_keys(
            "3",
            "watch -n 5 'echo \"=== VPN Status ===\" && ip addr show | grep -E \"tun|tap|wg\" || echo \"No VPN detected\"'",
        ),
    );
    r.push(session.send_keys("4", "clear"));
    r.push(
        session.send_keys("4", "watch -n 5 'echo \"=== Open Ports ===\" && ss -tuln | head -20'"),
    );
    r.push(session.send_keys("5", "clear"));
    r.push(
        session.send_keys(
            "5",
            "watch -n 10 'echo \"=== Network Peers ===\" && ip neigh show | head -15'",
        ),
    );
    proof {
        assert(argv_views(r@) =~= seq![
            spec_send_keys_args(session@, "0"@, "clear"@),
            spec_send_keys_args(
                session@,
                "0"@,
                "watch -n 2 'ip addr show | grep -E \"^[0-9]|inet \" | head -20'"@,
            ),
            spec_send_keys_args(session@, "1"@, "clear"@),
            spec_send_keys_args(
                session@,
                "1"@,
                "if command -v iftop &> /dev/null; then sudo iftop -t -s 2; else while true; do clear; echo 'iftop not installed. Install with: sudo apt-get install iftop'; echo ''; echo 'Alternative: Showing network stats'; cat /proc/net/dev | head -10; sleep 10; done; fi"@,
            ),
            spec_send_keys_args(session@, "2"@, "clear"@),
            spec_send_keys_args(
                session@,
                "2"@,
                "watch -n 5 'echo \"=== Security Status ===\"  && netninja-cli status 2>/dev/null | grep -A20 \"Security\" || journalctl -u ssh -n 10 --no-pager | tail -5'"@,
            ),
            spec_send_keys_args(session@, "3"@, "clear"@),
            spec_send_keys_args(
                session@,
                "3"@,
                "watch -n 5 'echo \"=== VPN Status ===\" && ip addr show | grep -E \"tun|tap|wg\" || echo \"No VPN detected\"'"@,
            ),
            spec_send_keys_args(session@, "4"@, "clear"@),
            spec_send_keys_args(
                session@,
                "4"@,
                "watch -n 5 'echo \"=== Open Ports ===\" && ss -tuln | head -20'"@,
            ),
            spec_send_keys_args(session@, "5"@, "clear"@),
            spec_send_keys_args(
                session@,
                "5"@,
                "watch -n 10 'echo \"=== Network Peers ===\" && ip neigh show | head -15'"@,
            ),
        ]);
    }
    r
}

} // verus!

//! Network and security status core: parsers that turn the textual output of
//! system tools (`ss`, `ip neigh`, `journalctl`, `dmesg`, `ufw`) into typed
//! records, plus the decision rules built on them (primary-interface
//! selection, VPN detection, device fingerprinting, security alert
//! classification).

pub mod ip;
pub mod network;
pub mod security;
pub mod text;
pub mod tmux;

//! The server's program: its configuration, its firewall, the knocks it listens for.
pub mod config;
pub mod daemon;
pub mod firewall;
pub mod paths;
pub mod sniffer;

//! An administrator's tunnel into servers whose firewalls drop all inbound traffic.
//!
//! The crate holds the rules of the tunnel: single-packet authorization, the Noise transport,
//! the stream protocol, the connection pool, and the configuration of both ends.
use vstd::prelude::*;

pub mod bytes;
pub mod client;
pub mod common;
pub mod failure;
pub mod net;
pub mod secret;
pub mod server;
pub mod text;
pub mod tunnel;

verus! {

/// The version of the wire protocol, bound into the handshake and into every knock.
pub const PROTOCOL_VERSION: u16 = 1;

/// The port a server listens on when none is named.
pub const DEFAULT_LISTEN_PORT: u16 = 8443;

} // verus!

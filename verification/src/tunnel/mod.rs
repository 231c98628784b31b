//! The tunnel itself: keys, knocks, transport, stream protocol, both ends.
pub mod crypto;
pub mod encoding;
pub mod error;
pub mod keys;
pub mod psk;
pub mod noise;
pub mod handshake;
pub mod knock;
pub mod packet;
pub mod protocol;
pub mod mux;
pub mod server;
pub mod client;

//! The admin's program: its configuration, its background process, its routes.
pub mod addresses;
pub mod config;
pub mod daemon;
pub mod paths;
pub mod routes;
pub mod tun;

//! Where the server's files live.
use crate::common::{self, Environment, PathParts};
use vstd::prelude::*;

verus! {

pub fn config_file(e: &Environment) -> (r: PathParts)
    ensures
        r@ == common::child(common::config_dir_of(*e), "server.toml"@),
{
    common::config_dir(e).join("server.toml")
}

pub fn server_key_file(e: &Environment) -> (r: PathParts)
    ensures
        r@ == common::child(common::config_dir_of(*e), "server.key"@),
{
    common::config_dir(e).join("server.key")
}

pub fn pid_file(e: &Environment) -> (r: PathParts)
    ensures
        r@ == common::child(common::config_dir_of(*e), "hyperion-server.pid"@),
{
    common::config_dir(e).join("hyperion-server.pid")
}

pub fn log_file(e: &Environment) -> (r: PathParts)
    ensures
        r@ == common::child(common::config_dir_of(*e), "hyperion-server.log"@),
{
    common::config_dir(e).join("hyperion-server.log")
}

/// The directory that must exist before anything is written.
pub fn ensure_config_dir(e: &Environment) -> (r: PathParts)
    ensures
        r@ == common::config_dir_of(*e),
{
    common::config_dir(e)
}

/// The configuration file that is used when none is named.
pub fn default_config_path(e: &Environment) -> (r: PathParts)
    ensures
        r@ == common::child(common::config_dir_of(*e), "server.toml"@),
{
    config_file(e)
}

} // verus!

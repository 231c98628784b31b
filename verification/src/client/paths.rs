//! Where the admin's files live.
use crate::common::{self, Environment, PathParts};
use vstd::prelude::*;

verus! {

pub fn config_dir(e: &Environment) -> (r: PathParts)
    ensures
        r@ == common::config_dir_of(*e),
{
    common::config_dir(e)
}

pub fn config_file(e: &Environment) -> (r: PathParts)
    ensures
        r@ == common::child(common::config_dir_of(*e), "hyperion.toml"@),
{
    config_dir(e).join("hyperion.toml")
}

pub fn admin_key_file(e: &Environment) -> (r: PathParts)
    ensures
        r@ == common::child(common::config_dir_of(*e), "admin.key"@),
{
    config_dir(e).join("admin.key")
}

pub fn pid_file(e: &Environment) -> (r: PathParts)
    ensures
        r@ == common::child(common::config_dir_of(*e), "hyperion.pid"@),
{
    config_dir(e).join("hyperion.pid")
}

pub fn log_file(e: &Environment) -> (r: PathParts)
    ensures
        r@ == common::child(common::config_dir_of(*e), "hyperion.log"@),
{
    config_dir(e).join("hyperion.log")
}

/// The directory that must exist before anything is written.
pub fn ensure_config_dir(e: &Environment) -> (r: PathParts)
    ensures
        r@ == common::config_dir_of(*e),
{
    config_dir(e)
}

/// The configuration file that is used when none is named.
pub fn default_config_path(e: &Environment) -> (r: PathParts)
    ensures
        r@ == common::child(common::config_dir_of(*e), "hyperion.toml"@),
{
    config_file(e)
}

} // verus!

//! Driver configuration.

use vstd::prelude::*;
use vstd::string::StringExecFns;
use std::collections::HashMap;
use crate::node::default_mount_options;

verus! {

/// The version this driver reports.
pub const DRIVER_VERSION: &'static str = "0.1.0";

/// Main configuration of the driver.
#[derive(Debug, Clone)]
pub struct Config {
    /// Driver identity.
    pub driver: DriverConfig,
    /// Filesystem-specific settings.
    pub lustre: LustreConfig,
}

/// Identity of this driver instance.
#[derive(Debug, Clone)]
pub struct DriverConfig {
    /// The driver's advertised name.
    pub name: String,
    /// The driver's version.
    pub version: String,
    /// The node this instance runs on.
    pub node_id: String,
}

/// Filesystem-specific settings.
#[derive(Debug, Clone)]
pub struct LustreConfig {
    /// Mount options used when a request names none.
    pub default_mount_options: Vec<String>,
    /// Mapping of filesystem names to management-server addresses.
    pub filesystem_mapping: HashMap<String, String>,
}

impl Config {
    /// A configuration with the given identity and the default filesystem
    /// settings: the standard option pair and no filesystem mapping.
    pub fn new(driver_name: String, node_id: String) -> (r: Self)
        ensures
            r.driver.name == driver_name,
            r.driver.node_id == node_id,
            r.driver.version@ == DRIVER_VERSION@,
            r.lustre.default_mount_options.deep_view() == default_mount_options(),
            r.lustre.filesystem_mapping@ == Map::<String, String>::empty(),
    {
        let mut opts: Vec<String> = Vec::new();
        opts.push(String::from_str("flock"));
        opts.push(String::from_str("user_xattr"));
        proof {
            assert(opts.deep_view() =~~= default_mount_options());
        }
        Config {
            driver: DriverConfig {
                name: driver_name,
                version: String::from_str(DRIVER_VERSION),
                node_id,
            },
            lustre: LustreConfig {
                default_mount_options: opts,
                filesystem_mapping: HashMap::new(),
            },
        }
    }
}

} // verus!

//! The identity service: fixed answers about the driver itself.

use vstd::prelude::*;

verus! {

/// What the plugin reports about itself.
#[derive(Debug, Clone)]
pub struct PluginInfo {
    pub name: String,
    pub vendor_version: String,
}

/// The one capability the plugin advertises.
#[derive(Debug, Clone, Copy, PartialEq, Eq, Structural)]
pub enum PluginCapability {
    VolumeAccessibilityConstraints,
}

/// Answers identity queries about the driver.
#[derive(Debug, Clone)]
pub struct IdentityService {
    pub driver_name: String,
    pub driver_version: String,
}

impl IdentityService {
    pub fn new(driver_name: String, driver_version: String) -> (r: Self)
        ensures
            r.driver_name == driver_name,
            r.driver_version == driver_version,
    {
        IdentityService { driver_name, driver_version }
    }

    /// The plugin's name and version, as configured.
    pub fn get_plugin_info(&self) -> (info: PluginInfo)
        ensures
            info.name == self.driver_name,
            info.vendor_version == self.driver_version,
    {
        PluginInfo {
            name: self.driver_name.clone(),
            vendor_version: self.driver_version.clone(),
        }
    }

    /// The advertised capabilities: volume accessibility constraints only.
    pub fn get_plugin_capabilities(&self) -> (caps: Vec<PluginCapability>)
        ensures
            caps@.len() == 1,
            caps@[0] == PluginCapability::VolumeAccessibilityConstraints,
    {
        let mut caps: Vec<PluginCapability> = Vec::new();
        caps.push(PluginCapability::VolumeAccessibilityConstraints);
        caps
    }

    /// The health probe: this driver is always ready.
    pub fn probe(&self) -> (ready: bool)
        ensures
            ready,
    {
        true
    }
}

} // verus!

//! The assembled server: the three services built from one configuration.
//! Binding them to a transport is the surrounding binary's work.

use vstd::prelude::*;
use crate::config::Config;
use crate::controller::ControllerService;
use crate::identity::IdentityService;
use crate::node::NodeService;

verus! {

/// The three services a running driver exposes.
#[derive(Debug, Clone)]
pub struct CSIServer {
    pub identity_service: IdentityService,
    pub node_service: NodeService,
    pub controller_service: ControllerService,
}

impl CSIServer {
    /// Build the services from a configuration: identity from the driver's
    /// name and version, the node service from its node id.
    pub fn new(config: Config) -> (r: Self)
        ensures
            r.identity_service.driver_name == config.driver.name,
            r.identity_service.driver_version == config.driver.version,
            r.node_service.node_id == config.driver.node_id,
    {
        let identity_service = IdentityService::new(
            config.driver.name.clone(),
            config.driver.version.clone(),
        );
        let node_service = NodeService::new(config.driver.node_id.clone());
        let controller_service = ControllerService::new();
        CSIServer { identity_service, node_service, controller_service }
    }
}

} // verus!

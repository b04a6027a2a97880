//! The controller service. This driver implements no controller
//! operation: the remote filesystem is provisioned elsewhere, and every
//! controller call is answered as unimplemented by the transport layer.

use vstd::prelude::*;

verus! {

/// The (stateless) controller service.
#[derive(Debug, Clone, Copy, PartialEq, Eq, Structural)]
pub struct ControllerService;

impl ControllerService {
    pub fn new() -> (r: Self) {
        ControllerService
    }
}

} // verus!

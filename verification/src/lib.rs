//! Node-local volume lifecycle manager for a Lustre-backed CSI driver.
//!
//! The library holds the verified core: capacity-string parsing, source
//! address validation, `lfs df` output aggregation, idempotent mount and
//! unmount state machines, and the publish/unpublish orchestration that
//! maps caller requests onto them. Command execution against the host is
//! left to the surrounding binary, which feeds each command's result back
//! into the state machines defined here.

use vstd::prelude::*;

pub mod chars;
pub mod client;
pub mod command;
pub mod config;
pub mod controller;
pub mod digits;
pub mod identity;
pub mod mount;
pub mod node;
pub mod path;
pub mod server;
pub mod size;
pub mod strutil;

verus! {

} // verus!

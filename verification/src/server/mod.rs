pub mod classify;
pub mod ingress;
pub mod monitor;
pub mod route;
pub mod server;
pub mod text;

use crate::classification::model::TrafficType;
use vstd::prelude::*;

verus! {

/// Represents a kernel-level conntrack ID for a given flow.
pub type ConntrackId = u32;

/// Classification work item of the packet-buffering pipeline: the first packets of a flow.
pub struct ClassifyTask {
    pub id: ConntrackId,
    pub buf: Vec<Vec<u8>>,
}

/// Classification result of the packet-buffering pipeline; an inference failure is carried
/// as its message.
pub struct ClassifyResult {
    pub id: ConntrackId,
    pub classification: Result<TrafficType, String>,
}

} // verus!

//! The events that the components of the model receive.

use vstd::prelude::*;

verus! {

/// Tells a balancer to refresh its view of the hosts.
#[derive(Clone, Copy, Debug, PartialEq, Eq, Structural)]
pub struct SyncEvent {}

/// A request reaches a balancer. `processing_time` is the nominal service
/// time of the request in ticks, before any host's slowdown; `sender` is the
/// id of the requester.
#[derive(Clone, Copy, Debug, PartialEq, Eq, Structural)]
pub struct RequestArrivalEvent {
    pub processing_time: u32,
    pub sender: usize,
}

/// Tells a host that the request at the head of its queue is finished.
#[derive(Clone, Copy, Debug, PartialEq, Eq, Structural)]
pub struct RequestEndEvent {}

} // verus!

//! A discrete-event model of a dispatch tier that routes requests to a pool of
//! single-queue hosts, where the router may act on a stale view of host load.
//!
//! Simulated time is counted in whole ticks; how long a tick is, is for the
//! caller to say. The model holds no clock and no event queue of its own: an
//! event scheduler delivers events to the handlers of [`balancer`], [`pool`]
//! and [`host`], and each handler says what is to be scheduled next.
//!
//! - [`host`] and [`pool`]: the hosts, their queues and the trace they write.
//! - [`selector`] and [`sampling`]: the routing policies and the random draws
//!   they make.
//! - [`balancer`]: the view of the hosts, its refresh and the routing.
//! - [`naming`] and [`config`]: how a run is set up.
//! - [`workload`]: the stream of requests.
//! - [`analysis`] and [`log`]: the trace and what is read from it.
//! - [`guarantees`]: what the policies guarantee over many requests.

pub mod analysis;
pub mod balancer;
pub mod config;
pub mod events;
pub mod guarantees;
pub mod host;
pub mod log;
pub mod naming;
pub mod pool;
pub mod sampling;
pub mod selector;
pub mod workload;

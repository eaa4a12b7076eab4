//! What a run is set up with, and what can be wrong with it.

use crate::balancer::blank_view;
use crate::balancer::LoadBalancer;
use crate::balancer::SyncState;
use crate::naming::parse_selector_name;
use crate::naming::selector_named;
use crate::selector::HostSelector;
use crate::selector::SelectorKind;
use vstd::prelude::*;

verus! {

/// The balancing tier of one run: the name of the routing policy, the number
/// of balancers, and the number of ticks between two refreshes of a
/// balancer's view.
pub struct Config {
    pub balancer: String,
    pub n_balancers: u32,
    pub sync_interval: u64,
}

/// Why a run cannot be set up.
#[derive(Copy, Clone, Debug, PartialEq, Eq, Structural)]
pub enum ConfigError {
    /// The policy's name is none of the known ones.
    UnknownSelector,
    /// The name is that of a sampling policy, but what stands for the number
    /// of hosts to draw is no number.
    BadSampleSize,
    /// A sampling policy is to draw no host at all, or more hosts than there
    /// are.
    DegenerateSampling,
    /// The view would never be refreshed again: the interval is zero.
    NonPositiveSyncInterval,
    /// There is no host to route to.
    NoHosts,
}

/// What is wrong with a policy name, a pool of `hosts` hosts and a sync
/// interval taken together, if anything is. Of several faults the first in
/// this order is given: the name, no host, no interval, a draw that the pool
/// cannot fill.
pub open spec fn config_error(name: Seq<char>, hosts: nat, sync_interval: u64) -> Option<
    ConfigError,
> {
    match selector_named(name) {
        Err(error) => Some(error),
        Ok(kind) => if hosts == 0 {
            Some(ConfigError::NoHosts)
        } else if sync_interval == 0 {
            Some(ConfigError::NonPositiveSyncInterval)
        } else if !kind.suits(hosts) {
            Some(ConfigError::DegenerateSampling)
        } else {
            None
        },
    }
}

/// `balancer` is as it is made for a run: for `hosts` hosts, with a fresh
/// policy of kind `kind`, and not yet in step with the hosts.
pub open spec fn is_fresh_balancer(
    balancer: LoadBalancer,
    kind: SelectorKind,
    hosts: nat,
    sync_interval: u64,
) -> bool {
    &&& balancer.wf()
    &&& balancer.snapshots() == blank_view(hosts)
    &&& balancer.selector().kind() == kind
    &&& balancer.selector().cursor() == 0
    &&& balancer.interval() == sync_interval
    &&& balancer.phase() == SyncState::Uninitialized
}

impl Config {
    /// The balancers of a run over `hosts` hosts, as many as the
    /// configuration asks for, each with a policy of its own. A configuration
    /// with a fault gives no balancer, also where it asks for none.
    pub fn build_balancers(&self, hosts: usize) -> (made: Result<Vec<LoadBalancer>, ConfigError>)
        ensures
            match made {
                Ok(balancers) => {
                    &&& config_error(self.balancer@, hosts as nat, self.sync_interval) is None
                    &&& balancers@.len() == self.n_balancers
                    &&& forall|i: int|
                        0 <= i < balancers@.len() ==> is_fresh_balancer(
                            #[trigger] balancers@[i],
                            selector_named(self.balancer@)->Ok_0,
                            hosts as nat,
                            self.sync_interval,
                        )
                },
                Err(error) => config_error(self.balancer@, hosts as nat, self.sync_interval)
                    == Some(error),
            },
    {
        let kind = match parse_selector_name(self.balancer.as_str()) {
            Ok(kind) => kind,
            Err(error) => {
                return Err(error);
            },
        };
        if hosts == 0 {
            return Err(ConfigError::NoHosts);
        }
        if self.sync_interval == 0 {
            return Err(ConfigError::NonPositiveSyncInterval);
        }
        if !kind.suits_pool(hosts) {
            return Err(ConfigError::DegenerateSampling);
        }
        let mut balancers: Vec<LoadBalancer> = Vec::new();
        let mut i: u32 = 0;
        while i < self.n_balancers
            invariant
                i <= self.n_balancers,
                hosts > 0,
                self.sync_interval > 0,
                kind.suits(hosts as nat),
                selector_named(self.balancer@) == Ok::<SelectorKind, ConfigError>(kind),
                balancers@.len() == i,
                forall|j: int|
                    0 <= j < balancers@.len() ==> is_fresh_balancer(
                        #[trigger] balancers@[j],
                        kind,
                        hosts as nat,
                        self.sync_interval,
                    ),
            decreases self.n_balancers - i,
        {
            match LoadBalancer::new(hosts, HostSelector::from_kind(kind), self.sync_interval) {
                Ok(balancer) => {
                    balancers.push(balancer);
                },
                Err(error) => {
                    return Err(error);
                },
            }
            i += 1;
        }
        Ok(balancers)
    }
}

} // verus!

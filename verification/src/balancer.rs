//! A balancer: it keeps a view of the hosts' load that it refreshes at a
//! fixed interval, and routes each request it receives by its policy.

use crate::config::ConfigError;
use crate::events::RequestArrivalEvent;
use crate::events::SyncEvent;
use crate::host::stretched;
use crate::host::Host;
use crate::pool::HostPool;
use crate::selector::is_view;
use crate::selector::HostSelector;
use crate::selector::HostSnapshot;
use crate::selector::SelectorKind;
use vstd::prelude::*;

verus! {

/// Where a balancer stands with its refreshes: it has not seen the hosts yet,
/// or it last refreshed its view at the time `since` and is due the next
/// refresh one interval later.
#[derive(Copy, Clone, Debug, PartialEq, Eq, Structural)]
pub enum SyncState {
    Uninitialized,
    Syncing { since: u64 },
}

/// What a balancer can receive.
#[derive(Copy, Clone, Debug, PartialEq, Eq, Structural)]
pub enum BalancerEvent {
    RequestArrival(RequestArrivalEvent),
    Sync(SyncEvent),
}

/// What a balancer did with an event, and what is to be scheduled for it.
#[derive(Copy, Clone, Debug, PartialEq, Eq, Structural)]
pub enum BalancerAction {
    /// The request went to host `host`. Where `due` is `Some`, that host is
    /// due a `RequestEndEvent` after that many ticks.
    Forward { host: usize, due: Option<u64> },
    /// The view is fresh. The balancer is due its next `SyncEvent` after
    /// `after` ticks.
    Resync { after: u64 },
}

/// The view of a pool that nobody has looked at yet: every host with no
/// request.
pub open spec fn blank_view(hosts: nat) -> Seq<HostSnapshot> {
    Seq::new(hosts, |i: int| HostSnapshot { id: i as usize, requests: 0 })
}

/// The view of the hosts as they are now.
pub open spec fn snapshots_of(hosts: Seq<Host>) -> Seq<HostSnapshot> {
    Seq::new(
        hosts.len(),
        |i: int| HostSnapshot { id: i as usize, requests: hosts[i].requests@.len() as usize },
    )
}

/// Why a balancer with this policy and this interval cannot be set up for a
/// pool of `hosts` hosts, if it cannot. Of several reasons the first in this
/// order is given: no host, no interval, a draw that the pool cannot fill.
pub open spec fn setup_error(hosts: nat, selector: HostSelector, sync_interval: u64) -> Option<
    ConfigError,
> {
    if hosts == 0 {
        Some(ConfigError::NoHosts)
    } else if sync_interval == 0 {
        Some(ConfigError::NonPositiveSyncInterval)
    } else if !selector.fits(hosts) {
        Some(ConfigError::DegenerateSampling)
    } else {
        None
    }
}

/// A dispatcher in front of a pool of hosts.
pub struct LoadBalancer {
    state: Vec<HostSnapshot>,
    selector: HostSelector,
    sync_interval: u64,
    phase: SyncState,
}

impl LoadBalancer {
    /// The view: one snapshot per host, as of the last refresh.
    pub closed spec fn snapshots(&self) -> Seq<HostSnapshot> {
        self.state@
    }

    /// The routing policy.
    pub closed spec fn selector(&self) -> HostSelector {
        self.selector
    }

    /// The number of ticks from one refresh to the next.
    pub closed spec fn interval(&self) -> u64 {
        self.sync_interval
    }

    /// Where the balancer stands with its refreshes.
    pub closed spec fn phase(&self) -> SyncState {
        self.phase
    }

    /// What holds of a balancer at all times: its view has a snapshot for
    /// each host of a pool that is not empty, host `i` at position `i`; its
    /// policy can route in that pool; its interval is positive.
    pub open spec fn wf(&self) -> bool {
        &&& self.snapshots().len() > 0
        &&& is_view(self.snapshots())
        &&& self.selector().fits(self.snapshots().len())
        &&& self.interval() > 0
    }

    /// A balancer for a pool of `hosts` hosts, not yet in step with them: its
    /// view shows every host idle. A round-robin cursor has to point at one
    /// of the hosts.
    pub fn new(hosts: usize, selector: HostSelector, sync_interval: u64) -> (made: Result<
        LoadBalancer,
        ConfigError,
    >)
        requires
            hosts > 0 ==> selector.cursor() < hosts,
        ensures
            match made {
                Ok(balancer) => {
                    &&& setup_error(hosts as nat, selector, sync_interval) is None
                    &&& balancer.wf()
                    &&& balancer.snapshots() == blank_view(hosts as nat)
                    &&& balancer.selector() == selector
                    &&& balancer.interval() == sync_interval
                    &&& balancer.phase() == SyncState::Uninitialized
                },
                Err(error) => setup_error(hosts as nat, selector, sync_interval) == Some(error),
            },
    {
        if hosts == 0 {
            return Err(ConfigError::NoHosts);
        }
        if sync_interval == 0 {
            return Err(ConfigError::NonPositiveSyncInterval);
        }
        if !selector.fits_pool(hosts) {
            return Err(ConfigError::DegenerateSampling);
        }
        let mut state: Vec<HostSnapshot> = Vec::new();
        let mut i: usize = 0;
        while i < hosts
            invariant
                i <= hosts,
                state@ == blank_view(i as nat),
            decreases hosts - i,
        {
            state.push(HostSnapshot { id: i, requests: 0 });
            assert(state@ =~= blank_view((i + 1) as nat));
            i += 1;
        }
        Ok(LoadBalancer { state, selector, sync_interval, phase: SyncState::Uninitialized })
    }

    /// The number of hosts that the balancer routes to.
    pub fn pool_size(&self) -> (n: usize)
        ensures
            n == self.snapshots().len(),
    {
        self.state.len()
    }

    /// The number of ticks from one refresh to the next.
    pub fn sync_interval(&self) -> (ticks: u64)
        ensures
            ticks == self.interval(),
    {
        self.sync_interval
    }

    /// Where the balancer stands with its refreshes.
    pub fn sync_state(&self) -> (phase: SyncState)
        ensures
            phase == self.phase(),
    {
        self.phase
    }

    /// What the view says of host `host`.
    pub fn snapshot(&self, host: usize) -> (seen: HostSnapshot)
        requires
            host < self.snapshots().len(),
        ensures
            seen == self.snapshots()[host as int],
    {
        self.state[host]
    }

    /// Routes a request that arrived at time `time`, which the pool has not
    /// left behind: the policy names a host from the view as it stands, or
    /// from the hosts as they are where it reads them itself, and that host
    /// of the pool takes the request. The view stays as it was.
    pub fn on_request_arrival(
        &mut self,
        request: RequestArrivalEvent,
        time: u64,
        pool: &mut HostPool,
    ) -> (action: BalancerAction)
        requires
            old(self).wf(),
            old(pool).wf(),
            old(self).snapshots().len() == old(pool).hosts().len(),
            time >= old(pool).clock(),
        ensures
            final(self).wf(),
            final(pool).wf(),
            final(self).snapshots() == old(self).snapshots(),
            final(self).interval() == old(self).interval(),
            final(self).phase() == old(self).phase(),
            final(self).selector().kind() == old(self).selector().kind(),
            final(self).selector().cursor() == if old(self).selector().kind()
                == SelectorKind::RoundRobin {
                (old(self).selector().cursor() + 1) % (old(self).snapshots().len() as int)
            } else {
                0
            },
            action matches BalancerAction::Forward { host, due } && {
                &&& host < old(pool).hosts().len()
                &&& old(self).selector().may_choose(
                    old(self).snapshots(),
                    old(pool).hosts(),
                    request.sender,
                    old(self).snapshots()[host as int],
                )
                &&& final(pool).has_taken(*old(pool), host as int, request.processing_time, time)
                &&& due == if old(pool).hosts()[host as int].requests@.len() == 0 {
                    Some(
                        stretched(request.processing_time, old(pool).hosts()[host as int].slowdown),
                    )
                } else {
                    None
                }
            },
    {
        let chosen = self.selector.select(self.state.as_slice(), pool.hosts_now(), request.sender);
        proof {
            let at = choose|at: int| 0 <= at < self.state@.len() && self.state@[at] == chosen;
            assert(self.state@[at].id == at);
        }
        let due = pool.on_new_request(chosen.id, request.processing_time, time);
        BalancerAction::Forward { host: chosen.id, due }
    }

    /// Refreshes the view at time `time`: every snapshot takes the number of
    /// requests that its host holds now. The next refresh is due one interval
    /// later.
    pub fn on_sync(&mut self, time: u64, pool: &HostPool) -> (action: BalancerAction)
        requires
            old(self).wf(),
            pool.wf(),
            old(self).snapshots().len() == pool.hosts().len(),
        ensures
            final(self).wf(),
            final(self).snapshots() == snapshots_of(pool.hosts()),
            final(self).interval() == old(self).interval(),
            final(self).selector() == old(self).selector(),
            final(self).phase() == (SyncState::Syncing { since: time }),
            action == (BalancerAction::Resync { after: old(self).interval() }),
    {
        let hosts = pool.hosts_now();
        let mut i: usize = 0;
        while i < hosts.len()
            invariant
                i <= hosts@.len(),
                hosts@.len() == self.state@.len(),
                is_view(self.state@),
                self.selector == old(self).selector,
                self.sync_interval == old(self).sync_interval,
                forall|h: int|
                    0 <= h < i ==> (#[trigger] self.state@[h]).requests
                        == hosts@[h].requests@.len(),
            decreases hosts@.len() - i,
        {
            let id = self.state[i].id;
            self.state.set(i, HostSnapshot { id, requests: hosts[i].requests.len() });
            i += 1;
        }
        assert(self.state@ =~= snapshots_of(hosts@));
        self.phase = SyncState::Syncing { since: time };
        BalancerAction::Resync { after: self.sync_interval }
    }

    /// Handles an event delivered at time `time`. A request is not delivered
    /// at a time that the pool has left behind.
    pub fn on(&mut self, event: BalancerEvent, time: u64, pool: &mut HostPool) -> (action:
        BalancerAction)
        requires
            old(self).wf(),
            old(pool).wf(),
            old(self).snapshots().len() == old(pool).hosts().len(),
            event is RequestArrival ==> time >= old(pool).clock(),
        ensures
            final(self).wf(),
            final(pool).wf(),
            final(self).snapshots().len() == old(self).snapshots().len(),
            final(pool).hosts().len() == old(pool).hosts().len(),
            final(self).interval() == old(self).interval(),
            final(self).selector().kind() == old(self).selector().kind(),
            final(self).phase() == phase_after(old(self).phase(), seq![(time, event)]),
            match event {
                BalancerEvent::Sync(_) => {
                    &&& action == (BalancerAction::Resync { after: old(self).interval() })
                    &&& final(self).snapshots() == snapshots_of(old(pool).hosts())
                    &&& final(self).phase() == (SyncState::Syncing { since: time })
                    &&& final(self).selector() == old(self).selector()
                    &&& *final(pool) == *old(pool)
                },
                BalancerEvent::RequestArrival(request) => {
                    &&& final(self).snapshots() == old(self).snapshots()
                    &&& final(self).phase() == old(self).phase()
                    &&& final(self).selector().cursor() == if old(self).selector().kind()
                        == SelectorKind::RoundRobin {
                        (old(self).selector().cursor() + 1) % (old(self).snapshots().len() as int)
                    } else {
                        0
                    }
                    &&& action matches BalancerAction::Forward { host, due }
                    &&& host < old(pool).hosts().len()
                    &&& old(self).selector().may_choose(
                        old(self).snapshots(),
                        old(pool).hosts(),
                        request.sender,
                        old(self).snapshots()[host as int],
                    )
                    &&& final(pool).has_taken(
                        *old(pool),
                        host as int,
                        request.processing_time,
                        time,
                    )
                    &&& due == if old(pool).hosts()[host as int].requests@.len() == 0 {
                        Some(
                            stretched(
                                request.processing_time,
                                old(pool).hosts()[host as int].slowdown,
                            ),
                        )
                    } else {
                        None
                    }
                },
            },
    {
        proof {
            let delivery = seq![(time, event)];
            assert(delivery.drop_last() =~= Seq::<(u64, BalancerEvent)>::empty());
            assert(phase_after(self.phase, delivery.drop_last()) == self.phase);
        }
        match event {
            BalancerEvent::RequestArrival(request) => self.on_request_arrival(request, time, pool),
            BalancerEvent::Sync(_) => self.on_sync(time, pool),
        }
    }
}

/// Where a balancer that starts in `phase` stands after the deliveries, each
/// an event with the time at which it is delivered.
pub open spec fn phase_after(phase: SyncState, deliveries: Seq<(u64, BalancerEvent)>) -> SyncState
    decreases deliveries.len(),
{
    if deliveries.len() == 0 {
        phase
    } else {
        match deliveries.last().1 {
            BalancerEvent::Sync(_) => SyncState::Syncing { since: deliveries.last().0 },
            BalancerEvent::RequestArrival(_) => phase_after(phase, deliveries.drop_last()),
        }
    }
}

/// Taking one row of deliveries and then another is taking both in a row.
pub proof fn lemma_phase_after_then(
    phase: SyncState,
    first: Seq<(u64, BalancerEvent)>,
    second: Seq<(u64, BalancerEvent)>,
)
    ensures
        phase_after(phase, first + second) == phase_after(phase_after(phase, first), second),
    decreases second.len(),
{
    if second.len() == 0 {
        assert(first + second =~= first);
    } else {
        lemma_phase_after_then(phase, first, second.drop_last());
        assert((first + second).drop_last() =~= first + second.drop_last());
    }
}

/// The deliveries to a balancer that starts out uninitialised come as its
/// schedule has them: the first is a refresh, each later refresh comes one
/// interval after the one before it, and each request comes no earlier than
/// the last refresh and before the time at which the next one is due.
pub open spec fn on_schedule(interval: u64, deliveries: Seq<(u64, BalancerEvent)>) -> bool
    decreases deliveries.len(),
{
    deliveries.len() == 0 || {
        &&& on_schedule(interval, deliveries.drop_last())
        &&& match phase_after(SyncState::Uninitialized, deliveries.drop_last()) {
            SyncState::Uninitialized => deliveries.last().1 is Sync,
            SyncState::Syncing { since } => match deliveries.last().1 {
                BalancerEvent::Sync(_) => deliveries.last().0 == since + interval,
                BalancerEvent::RequestArrival(_) => since <= deliveries.last().0 < since + interval,
            },
        }
    }
}

/// The phase after some deliveries names the time of the last refresh among
/// them.
proof fn lemma_phase_names_last_refresh(deliveries: Seq<(u64, BalancerEvent)>)
    ensures
        match phase_after(SyncState::Uninitialized, deliveries) {
            SyncState::Uninitialized => forall|k: int|
                0 <= k < deliveries.len() ==> (#[trigger] deliveries[k]).1 is RequestArrival,
            SyncState::Syncing { since } => exists|j: int|
                {
                    &&& 0 <= j < deliveries.len()
                    &&& (#[trigger] deliveries[j]).1 is Sync
                    &&& deliveries[j].0 == since
                    &&& forall|k: int|
                        j < k < deliveries.len() ==> (#[trigger] deliveries[k]).1 is RequestArrival
                },
        },
    decreases deliveries.len(),
{
    if deliveries.len() > 0 {
        let earlier = deliveries.drop_last();
        lemma_phase_names_last_refresh(earlier);
        match deliveries.last().1 {
            BalancerEvent::Sync(_) => {
                assert(deliveries[deliveries.len() - 1].1 is Sync);
            },
            BalancerEvent::RequestArrival(_) => {
                match phase_after(SyncState::Uninitialized, earlier) {
                    SyncState::Uninitialized => {
                        assert forall|k: int| 0 <= k < deliveries.len() implies (
                        #[trigger] deliveries[k]).1 is RequestArrival by {
                            if k < earlier.len() {
                                assert(earlier[k] == deliveries[k]);
                            }
                        }
                    },
                    SyncState::Syncing { since } => {
                        let j = choose|j: int|
                            {
                                &&& 0 <= j < earlier.len()
                                &&& (#[trigger] earlier[j]).1 is Sync
                                &&& earlier[j].0 == since
                                &&& forall|k: int|
                                    j < k < earlier.len() ==> (#[trigger] earlier[k]).1
                                        is RequestArrival
                            };
                        assert(deliveries[j] == earlier[j]);
                        assert forall|k: int| j < k < deliveries.len() implies (
                        #[trigger] deliveries[k]).1 is RequestArrival by {
                            if k < earlier.len() {
                                assert(earlier[k] == deliveries[k]);
                            }
                        }
                    },
                }
            },
        }
    }
}

/// Every beginning of deliveries that are on schedule is on schedule.
proof fn lemma_on_schedule_prefix(interval: u64, deliveries: Seq<(u64, BalancerEvent)>, n: int)
    requires
        on_schedule(interval, deliveries),
        0 <= n <= deliveries.len(),
    ensures
        on_schedule(interval, deliveries.take(n)),
    decreases deliveries.len(),
{
    if n == deliveries.len() {
        assert(deliveries.take(n) =~= deliveries);
    } else {
        lemma_on_schedule_prefix(interval, deliveries.drop_last(), n);
        assert(deliveries.drop_last().take(n) =~= deliveries.take(n));
    }
}

/// The staleness bound: where the deliveries to a balancer are on schedule,
/// a request is routed by a view that is younger than one interval. Before
/// the request `at` there is a refresh, at some position `j`, with nothing
/// but requests between the two, so that the view in use is the one taken
/// there; the refresh is no later than the request, and less than one
/// interval lies between them.
pub proof fn lemma_view_is_younger_than_interval(
    interval: u64,
    deliveries: Seq<(u64, BalancerEvent)>,
    at: int,
)
    requires
        on_schedule(interval, deliveries),
        0 <= at < deliveries.len(),
        deliveries[at].1 is RequestArrival,
    ensures
        exists|j: int|
            {
                &&& 0 <= j < at
                &&& (#[trigger] deliveries[j]).1 is Sync
                &&& forall|k: int| j < k < at ==> (#[trigger] deliveries[k]).1 is RequestArrival
                &&& deliveries[j].0 <= deliveries[at].0
                &&& deliveries[at].0 - deliveries[j].0 < interval
            },
{
    let upto = deliveries.take(at + 1);
    let earlier = deliveries.take(at);
    lemma_on_schedule_prefix(interval, deliveries, at + 1);
    assert(upto.drop_last() =~= earlier);
    assert(upto.last() == deliveries[at]);
    lemma_phase_names_last_refresh(earlier);
    match phase_after(SyncState::Uninitialized, earlier) {
        SyncState::Uninitialized => {},
        SyncState::Syncing { since } => {
            let j = choose|j: int|
                {
                    &&& 0 <= j < earlier.len()
                    &&& (#[trigger] earlier[j]).1 is Sync
                    &&& earlier[j].0 == since
                    &&& forall|k: int|
                        j < k < earlier.len() ==> (#[trigger] earlier[k]).1 is RequestArrival
                };
            assert(deliveries[j] == earlier[j]);
            assert forall|k: int| j < k < at implies (#[trigger] deliveries[k]).1
                is RequestArrival by {
                assert(earlier[k] == deliveries[k]);
            }
        },
    }
}

} // verus!

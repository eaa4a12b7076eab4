//! The pool of hosts and the trace they write. The pool owns both; balancers
//! and the trace analysis refer to a host by its index in the pool.

use crate::analysis::is_max_queue_series;
use crate::analysis::max_queue_series;
use crate::analysis::served_totals;
use crate::events::RequestEndEvent;
use crate::host::stretched;
use crate::host::Host;
use crate::log::arrivals;
use crate::log::consistent;
use crate::log::departures;
use crate::log::lemma_consistent_never_negative;
use crate::log::lemma_counts_after_push;
use crate::log::queue_length;
use crate::log::time_ordered;
use crate::log::written_until;
use crate::log::EventLog;
use crate::log::LogEntry;
use vstd::prelude::*;

verus! {

/// The hosts of a run, host `i` at index `i`, and the trace of what happened
/// at them so far.
pub struct HostPool {
    hosts: Vec<Host>,
    log: EventLog,
}

/// The slowdown of host `index` in a pool of `servers` hosts. In a uniform
/// pool every host has slowdown 1. In a mixed pool the first twentieth of the
/// hosts, rounded down, is five times slower: a pool of fewer than twenty
/// hosts has no slow host.
pub open spec fn slowdown_of(index: u32, servers: u32, mixed: bool) -> u32 {
    if mixed && index < servers / 20 {
        5
    } else {
        1
    }
}

/// Computes [`slowdown_of`].
pub fn slowdown_for(index: u32, servers: u32, mixed: bool) -> (slowdown: u32)
    ensures
        slowdown == slowdown_of(index, servers, mixed),
{
    if mixed && index < servers / 20 {
        5
    } else {
        1
    }
}

impl HostPool {
    /// The hosts, by index.
    pub closed spec fn hosts(&self) -> Seq<Host> {
        self.hosts@
    }

    /// The trace written so far.
    pub closed spec fn trace(&self) -> Seq<(u64, LogEntry)> {
        self.log@
    }

    /// This pool is `before` after host `host` took a request of nominal
    /// duration `duration` at time `time`: the request stands last in that
    /// host's queue, the trace has the arrival, and nothing else has changed.
    pub open spec fn has_taken(&self, before: HostPool, host: int, duration: u32, time: u64) -> bool {
        &&& self.hosts().len() == before.hosts().len()
        &&& forall|h: int|
            0 <= h < before.hosts().len() && h != host ==> self.hosts()[h] == before.hosts()[h]
        &&& self.hosts()[host].id == before.hosts()[host].id
        &&& self.hosts()[host].slowdown == before.hosts()[host].slowdown
        &&& self.hosts()[host].requests@ == before.hosts()[host].requests@.push(
            stretched(duration, before.hosts()[host].slowdown),
        )
        &&& self.trace() == before.trace().push((time, LogEntry::Arrival(host as usize)))
    }

    /// This pool is `before` after host `host` finished at time `time` the
    /// request it served: the request has left the head of that host's queue,
    /// the trace has the departure, and nothing else has changed.
    pub open spec fn has_finished(&self, before: HostPool, host: int, time: u64) -> bool {
        &&& self.hosts().len() == before.hosts().len()
        &&& forall|h: int|
            0 <= h < before.hosts().len() && h != host ==> self.hosts()[h] == before.hosts()[h]
        &&& self.hosts()[host].id == before.hosts()[host].id
        &&& self.hosts()[host].slowdown == before.hosts()[host].slowdown
        &&& self.hosts()[host].requests@ == before.hosts()[host].requests@.skip(1)
        &&& self.trace() == before.trace().push((time, LogEntry::Departure(host as usize)))
    }

    /// The time that the pool has reached: that of the last record of its
    /// trace.
    pub open spec fn clock(&self) -> u64 {
        written_until(self.trace())
    }

    /// What holds of a pool at all times: host `i` carries the id `i`, the
    /// trace is in the order of time and is one that these hosts can have
    /// written, and every host holds as many requests as the trace has
    /// arriving at it and not yet leaving.
    pub open spec fn wf(&self) -> bool {
        &&& time_ordered(self.trace())
        &&& consistent(self.trace(), self.hosts().len())
        &&& forall|h: int|
            0 <= h < self.hosts().len() ==> {
                &&& (#[trigger] self.hosts()[h]).id == h
                &&& self.hosts()[h].requests@.len() == queue_length(self.trace(), h as usize)
            }
    }

    /// A pool of `servers` idle hosts with an empty trace; `mixed` says
    /// whether some of them are slow.
    pub fn new(servers: u32, mixed: bool) -> (pool: HostPool)
        ensures
            pool.wf(),
            pool.trace() == Seq::<(u64, LogEntry)>::empty(),
            pool.hosts().len() == servers,
            forall|h: int|
                0 <= h < servers ==> {
                    &&& (#[trigger] pool.hosts()[h]).requests@ == Seq::<u64>::empty()
                    &&& pool.hosts()[h].slowdown == slowdown_of(h as u32, servers, mixed)
                },
    {
        let mut hosts: Vec<Host> = Vec::new();
        let mut i: u32 = 0;
        while i < servers
            invariant
                i <= servers,
                hosts@.len() == i,
                forall|h: int|
                    0 <= h < i ==> {
                        &&& (#[trigger] hosts@[h]).id == h
                        &&& hosts@[h].requests@ == Seq::<u64>::empty()
                        &&& hosts@[h].slowdown == slowdown_of(h as u32, servers, mixed)
                    },
            decreases servers - i,
        {
            hosts.push(Host::new(i as usize, slowdown_for(i, servers, mixed)));
            i += 1;
        }
        HostPool { hosts, log: Vec::new() }
    }

    /// The number of hosts.
    pub fn len(&self) -> (n: usize)
        ensures
            n == self.hosts().len(),
    {
        self.hosts.len()
    }

    /// The hosts, for a policy that reads their queues as they are now.
    pub fn hosts_now(&self) -> (hosts: &[Host])
        ensures
            hosts@ == self.hosts(),
    {
        self.hosts.as_slice()
    }

    /// The trace written so far.
    pub fn log(&self) -> (log: &EventLog)
        ensures
            log@ == self.trace(),
    {
        &self.log
    }

    /// The time that the pool has reached: that of the last record of its
    /// trace, and 0 before the first.
    pub fn now(&self) -> (time: u64)
        ensures
            time == self.clock(),
    {
        if self.log.len() == 0 {
            0
        } else {
            self.log[self.log.len() - 1].0
        }
    }

    /// The number of requests that host `host` holds now.
    pub fn queue_length(&self, host: usize) -> (n: usize)
        requires
            host < self.hosts().len(),
        ensures
            n == self.hosts()[host as int].requests@.len(),
    {
        self.hosts[host].requests.len()
    }

    /// Hands host `host` a request of nominal duration `duration` that arrived
    /// at time `time`. The result is the delay after which host `host` is
    /// due a `RequestEndEvent`, if this arrival makes one due. Time does not
    /// run backwards: `time` is no earlier than the pool's clock.
    pub fn on_new_request(&mut self, host: usize, duration: u32, time: u64) -> (due: Option<u64>)
        requires
            old(self).wf(),
            host < old(self).hosts().len(),
            time >= old(self).clock(),
        ensures
            final(self).wf(),
            final(self).has_taken(*old(self), host as int, duration, time),
            due == if old(self).hosts()[host as int].requests@.len() == 0 {
                Some(stretched(duration, old(self).hosts()[host as int].slowdown))
            } else {
                None
            },
    {
        let due = self.hosts[host].on_new_request(duration, time, &mut self.log);
        proof {
            let record = (time, LogEntry::Arrival(host));
            assert(self.log@.drop_last() =~= old(self).log@);
            assert forall|h: usize| h < self.hosts@.len() implies queue_length(self.log@, h)
                == queue_length(old(self).log@, h) + if h == host {
                1int
            } else {
                0int
            } by {
                lemma_counts_after_push(old(self).log@, record, h);
            }
        }
        due
    }

    /// Tells host `host` at time `time` that the request it serves is
    /// finished. The result is the delay after which the host is due its next
    /// `RequestEndEvent`, if it holds another request. A host that holds no
    /// request has nothing to finish, and time does not run backwards.
    pub fn on_request_end(&mut self, host: usize, event: RequestEndEvent, time: u64) -> (due: Option<
        u64,
    >)
        requires
            old(self).wf(),
            host < old(self).hosts().len(),
            old(self).hosts()[host as int].requests@.len() > 0,
            time >= old(self).clock(),
        ensures
            final(self).wf(),
            final(self).has_finished(*old(self), host as int, time),
            due == if old(self).hosts()[host as int].requests@.len() > 1 {
                Some(old(self).hosts()[host as int].requests@[1])
            } else {
                None
            },
    {
        let due = self.hosts[host].on(event, time, &mut self.log);
        proof {
            let record = (time, LogEntry::Departure(host));
            assert(self.log@.drop_last() =~= old(self).log@);
            assert forall|h: usize| h < self.hosts@.len() implies queue_length(self.log@, h)
                == queue_length(old(self).log@, h) - if h == host {
                1int
            } else {
                0int
            } by {
                lemma_counts_after_push(old(self).log@, record, h);
            }
        }
        due
    }

    /// For each record of the trace, its time and the length of the longest
    /// queue in the pool right after it.
    pub fn max_queue_series(&self) -> (series: Vec<(u64, usize)>)
        requires
            self.wf(),
        ensures
            is_max_queue_series(self.trace(), self.hosts().len(), series@),
    {
        max_queue_series(&self.log, self.hosts.len())
    }

    /// How many requests each host has finished so far.
    pub fn served_totals(&self) -> (totals: Vec<usize>)
        requires
            self.wf(),
        ensures
            totals@.len() == self.hosts().len(),
            forall|h: usize|
                h < self.hosts().len() ==> totals@[h as int] == departures(self.trace(), h),
    {
        served_totals(&self.log, self.hosts.len())
    }
}

/// Queue conservation: at every moment each host of a pool holds exactly the
/// requests that have arrived at it and not yet left it, and that number is
/// never negative.
pub proof fn lemma_queue_conservation(pool: HostPool, host: usize)
    requires
        pool.wf(),
        host < pool.hosts().len(),
    ensures
        pool.hosts()[host as int].requests@.len() == arrivals(pool.trace(), host) - departures(
            pool.trace(),
            host,
        ),
        arrivals(pool.trace(), host) >= departures(pool.trace(), host),
{
    lemma_consistent_never_negative(pool.trace(), pool.hosts().len(), host);
}

} // verus!

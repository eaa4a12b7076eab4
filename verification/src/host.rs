//! A host: one queue, served first come first served, one request at a time.

use crate::events::RequestEndEvent;
use crate::log::EventLog;
use crate::log::LogEntry;
use std::collections::VecDeque;
use vstd::prelude::*;

verus! {

/// A single-queue service unit. `requests` holds the service times, in ticks
/// and already stretched by `slowdown`, of the requests that wait, oldest
/// first; the one at the head is in service.
pub struct Host {
    pub id: usize,
    pub requests: VecDeque<u64>,
    pub slowdown: u32,
}

/// The time that a host with the given slowdown takes over a request of the
/// given nominal duration. Both factors are 32-bit, so the product is a tick
/// count that always fits in 64 bits.
pub open spec fn stretched(duration: u32, slowdown: u32) -> u64 {
    (duration * slowdown) as u64
}

/// The product of two 32-bit numbers fits in 64 bits.
pub proof fn lemma_stretched_fits(duration: u32, slowdown: u32)
    ensures
        duration * slowdown <= u64::MAX,
        stretched(duration, slowdown) == duration * slowdown,
{
    assert(duration * slowdown <= 0xffff_ffff * 0xffff_ffff) by (nonlinear_arith)
        requires
            0 <= duration <= 0xffff_ffff,
            0 <= slowdown <= 0xffff_ffff,
    ;
}

impl Host {
    /// An idle host.
    pub fn new(id: usize, slowdown: u32) -> (host: Host)
        requires
            slowdown > 0,
        ensures
            host.id == id,
            host.slowdown == slowdown,
            host.requests@ == Seq::<u64>::empty(),
    {
        Host { id, requests: VecDeque::new(), slowdown }
    }

    /// A request of nominal duration `duration` arrives at time `time`: it
    /// joins the tail of the queue and the arrival is logged. Where the host
    /// was idle the request goes into service at once, and the result is the
    /// delay after which its `RequestEndEvent` is due; else there is nothing to
    /// schedule.
    pub fn on_new_request(&mut self, duration: u32, time: u64, log: &mut EventLog) -> (due: Option<
        u64,
    >)
        ensures
            final(self).id == old(self).id,
            final(self).slowdown == old(self).slowdown,
            final(self).requests@ == old(self).requests@.push(
                stretched(duration, old(self).slowdown),
            ),
            final(self).requests@ == queue_after(
                old(self).requests@,
                old(self).slowdown,
                seq![HostStep::Arrival(duration)],
            ),
            final(log)@ == old(log)@.push((time, LogEntry::Arrival(old(self).id))),
            due == if old(self).requests@.len() == 0 {
                Some(stretched(duration, old(self).slowdown))
            } else {
                None
            },
            due == due_at(old(self).requests@, old(self).slowdown, HostStep::Arrival(duration)),
    {
        proof {
            lemma_stretched_fits(duration, self.slowdown);
            let step = seq![HostStep::Arrival(duration)];
            assert(step.drop_last() =~= Seq::<HostStep>::empty());
            assert(queue_after(self.requests@, self.slowdown, step.drop_last()) == self.requests@);
        }
        let service_time = duration as u64 * self.slowdown as u64;
        self.requests.push_back(service_time);
        log.push((time, LogEntry::Arrival(self.id)));
        if self.requests.len() == 1 {
            Some(service_time)
        } else {
            None
        }
    }

    /// The request in service is finished at time `time`: it leaves the head
    /// of the queue and the departure is logged. Where another request waits
    /// it goes into service, and the result is the delay after which its own
    /// `RequestEndEvent` is due. A host that holds no request has nothing to
    /// finish.
    pub fn on(&mut self, _event: RequestEndEvent, time: u64, log: &mut EventLog) -> (due: Option<u64>)
        requires
            old(self).requests@.len() > 0,
        ensures
            final(self).id == old(self).id,
            final(self).slowdown == old(self).slowdown,
            final(self).requests@ == old(self).requests@.skip(1),
            final(self).requests@ == queue_after(
                old(self).requests@,
                old(self).slowdown,
                seq![HostStep::Departure],
            ),
            final(log)@ == old(log)@.push((time, LogEntry::Departure(old(self).id))),
            due == if old(self).requests@.len() > 1 {
                Some(old(self).requests@[1])
            } else {
                None
            },
            due == due_at(old(self).requests@, old(self).slowdown, HostStep::Departure),
    {
        proof {
            let step = seq![HostStep::Departure];
            assert(step.drop_last() =~= Seq::<HostStep>::empty());
            assert(queue_after(self.requests@, self.slowdown, step.drop_last()) == self.requests@);
        }
        self.requests.pop_front();
        log.push((time, LogEntry::Departure(self.id)));
        if self.requests.len() > 0 {
            Some(self.requests[0])
        } else {
            None
        }
    }
}

/// What can happen at a host: a request of some nominal duration arrives, or
/// the request in service is finished.
pub enum HostStep {
    Arrival(u32),
    Departure,
}

/// The queue of a host that starts with `queue` and goes through `steps`,
/// each arrival handled as by `Host::on_new_request` and each departure as by
/// `Host::on`.
pub open spec fn queue_after(queue: Seq<u64>, slowdown: u32, steps: Seq<HostStep>) -> Seq<u64>
    decreases steps.len(),
{
    if steps.len() == 0 {
        queue
    } else {
        let before = queue_after(queue, slowdown, steps.drop_last());
        match steps.last() {
            HostStep::Arrival(duration) => before.push(stretched(duration, slowdown)),
            HostStep::Departure => before.skip(1),
        }
    }
}

/// The delay after which a host with the queue `queue` is due a
/// `RequestEndEvent` on account of `step`, if the step makes one due: an
/// arrival does where it finds the host idle, a departure where it leaves a
/// request behind.
pub open spec fn due_at(queue: Seq<u64>, slowdown: u32, step: HostStep) -> Option<u64> {
    match step {
        HostStep::Arrival(duration) => if queue.len() == 0 {
            Some(stretched(duration, slowdown))
        } else {
            None
        },
        HostStep::Departure => if queue.len() > 1 {
            Some(queue[1])
        } else {
            None
        },
    }
}

/// How many of `steps` make a `RequestEndEvent` due.
pub open spec fn departures_scheduled(queue: Seq<u64>, slowdown: u32, steps: Seq<HostStep>) -> nat
    decreases steps.len(),
{
    if steps.len() == 0 {
        0
    } else if due_at(queue_after(queue, slowdown, steps.drop_last()), slowdown, steps.last())
        is Some {
        departures_scheduled(queue, slowdown, steps.drop_last()) + 1
    } else {
        departures_scheduled(queue, slowdown, steps.drop_last())
    }
}

/// How many of `steps` are departures.
pub open spec fn departures_delivered(steps: Seq<HostStep>) -> nat
    decreases steps.len(),
{
    if steps.len() == 0 {
        0
    } else if steps.last() is Departure {
        departures_delivered(steps.drop_last()) + 1
    } else {
        departures_delivered(steps.drop_last())
    }
}

/// Every departure among `steps` finds a request to finish.
pub open spec fn can_happen(queue: Seq<u64>, slowdown: u32, steps: Seq<HostStep>) -> bool
    decreases steps.len(),
{
    steps.len() == 0 || {
        &&& can_happen(queue, slowdown, steps.drop_last())
        &&& steps.last() is Departure ==> queue_after(queue, slowdown, steps.drop_last()).len() > 0
    }
}

/// The service times of the requests that arrive during `steps`, in the order
/// in which they arrive.
pub open spec fn admitted(slowdown: u32, steps: Seq<HostStep>) -> Seq<u64>
    decreases steps.len(),
{
    if steps.len() == 0 {
        Seq::empty()
    } else {
        match steps.last() {
            HostStep::Arrival(duration) => admitted(slowdown, steps.drop_last()).push(
                stretched(duration, slowdown),
            ),
            HostStep::Departure => admitted(slowdown, steps.drop_last()),
        }
    }
}

/// The service times of the requests that are finished during `steps`, in
/// the order in which they are finished.
pub open spec fn finished(queue: Seq<u64>, slowdown: u32, steps: Seq<HostStep>) -> Seq<u64>
    decreases steps.len(),
{
    if steps.len() == 0 {
        Seq::empty()
    } else {
        match steps.last() {
            HostStep::Arrival(_) => finished(queue, slowdown, steps.drop_last()),
            HostStep::Departure => finished(queue, slowdown, steps.drop_last()).push(
                queue_after(queue, slowdown, steps.drop_last())[0],
            ),
        }
    }
}

/// First come, first served: the requests leave a host in the order in which
/// they came. The requests that the host held at first and those that have
/// arrived since, in the order of their arrival, are the requests that have
/// been finished, in the order of their departure, and after them the
/// requests that still wait.
pub proof fn lemma_first_come_first_served(queue: Seq<u64>, slowdown: u32, steps: Seq<HostStep>)
    requires
        can_happen(queue, slowdown, steps),
    ensures
        queue + admitted(slowdown, steps) == finished(queue, slowdown, steps) + queue_after(
            queue,
            slowdown,
            steps,
        ),
    decreases steps.len(),
{
    if steps.len() == 0 {
        assert(queue + Seq::<u64>::empty() =~= Seq::<u64>::empty() + queue);
    } else {
        lemma_first_come_first_served(queue, slowdown, steps.drop_last());
        let before = queue_after(queue, slowdown, steps.drop_last());
        let came = admitted(slowdown, steps.drop_last());
        let went = finished(queue, slowdown, steps.drop_last());
        match steps.last() {
            HostStep::Arrival(duration) => {
                let service_time = stretched(duration, slowdown);
                assert(queue + came.push(service_time) =~= (queue + came).push(service_time));
                assert(went + before.push(service_time) =~= (went + before).push(service_time));
            },
            HostStep::Departure => {
                assert(went.push(before[0]) + before.skip(1) =~= went + before);
            },
        }
    }
}

/// Going through one row of steps and then another is going through both in
/// a row.
pub proof fn lemma_queue_after_then(
    queue: Seq<u64>,
    slowdown: u32,
    first: Seq<HostStep>,
    second: Seq<HostStep>,
)
    ensures
        queue_after(queue, slowdown, first + second) == queue_after(
            queue_after(queue, slowdown, first),
            slowdown,
            second,
        ),
    decreases second.len(),
{
    if second.len() == 0 {
        assert(first + second =~= first);
    } else {
        lemma_queue_after_then(queue, slowdown, first, second.drop_last());
        assert((first + second).drop_last() =~= first + second.drop_last());
    }
}

/// At most one departure is pending for a host at any time, and it is the
/// departure of the request at the head of the queue. For a host that starts
/// idle: of the `RequestEndEvent`s that its handlers have made due, exactly
/// one is not yet delivered while the host holds a request, and none while it
/// is idle; and a delay that a step makes due is the service time of the
/// request that the step leaves at the head.
pub proof fn lemma_one_departure_pending(slowdown: u32, steps: Seq<HostStep>)
    requires
        can_happen(Seq::empty(), slowdown, steps),
    ensures
        departures_scheduled(Seq::empty(), slowdown, steps) - departures_delivered(steps)
            == if queue_after(Seq::empty(), slowdown, steps).len() > 0 {
            1int
        } else {
            0int
        },
        steps.len() > 0 ==> match due_at(
            queue_after(Seq::empty(), slowdown, steps.drop_last()),
            slowdown,
            steps.last(),
        ) {
            Some(delay) => queue_after(Seq::empty(), slowdown, steps).len() > 0 && delay
                == queue_after(Seq::empty(), slowdown, steps)[0],
            None => true,
        },
    decreases steps.len(),
{
    if steps.len() > 0 {
        lemma_one_departure_pending(slowdown, steps.drop_last());
    }
}

} // verus!

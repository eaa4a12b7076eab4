//! The trace of a run: one record per arrival at a host and per departure from it.

use vstd::prelude::*;

verus! {

/// What happened at a host: a request joined its queue, or the request at the
/// head of its queue was finished. The field is the host's id.
#[derive(Copy, Clone, Debug, PartialEq, Eq, Structural)]
pub enum LogEntry {
    Arrival(usize),
    Departure(usize),
}

/// The records of a run in the order in which they were written, each with the
/// simulated time at which it was written.
pub type EventLog = Vec<(u64, LogEntry)>;

impl LogEntry {
    /// The host that the record is about.
    pub open spec fn host(self) -> usize {
        match self {
            LogEntry::Arrival(h) => h,
            LogEntry::Departure(h) => h,
        }
    }

    /// The host that the record is about.
    pub fn host_id(&self) -> (h: usize)
        ensures
            h == self.host(),
    {
        match self {
            LogEntry::Arrival(h) => *h,
            LogEntry::Departure(h) => *h,
        }
    }
}

/// How many requests the trace has arriving at `host`.
pub open spec fn arrivals(log: Seq<(u64, LogEntry)>, host: usize) -> nat
    decreases log.len(),
{
    if log.len() == 0 {
        0
    } else if log.last().1 == LogEntry::Arrival(host) {
        arrivals(log.drop_last(), host) + 1
    } else {
        arrivals(log.drop_last(), host)
    }
}

/// How many requests the trace has leaving `host`.
pub open spec fn departures(log: Seq<(u64, LogEntry)>, host: usize) -> nat
    decreases log.len(),
{
    if log.len() == 0 {
        0
    } else if log.last().1 == LogEntry::Departure(host) {
        departures(log.drop_last(), host) + 1
    } else {
        departures(log.drop_last(), host)
    }
}

/// The number of requests waiting or in service at `host` once everything in
/// the trace has happened.
pub open spec fn queue_length(log: Seq<(u64, LogEntry)>, host: usize) -> int {
    arrivals(log, host) - departures(log, host)
}

/// A trace that a pool of `hosts` hosts can have written: every record names
/// one of the hosts, and no host finishes a request that it does not hold.
pub open spec fn consistent(log: Seq<(u64, LogEntry)>, hosts: nat) -> bool
    decreases log.len(),
{
    log.len() == 0 || {
        &&& consistent(log.drop_last(), hosts)
        &&& log.last().1.host() < hosts
        &&& queue_length(log, log.last().1.host()) >= 0
    }
}

/// The records stand in the order of their times: none is earlier than one
/// before it.
pub open spec fn time_ordered(log: Seq<(u64, LogEntry)>) -> bool {
    forall|i: int, j: int| 0 <= i <= j < log.len() ==> log[i].0 <= log[j].0
}

/// The time up to which a trace has been written: the time of its last
/// record, and 0 for a trace without records.
pub open spec fn written_until(log: Seq<(u64, LogEntry)>) -> u64 {
    if log.len() == 0 {
        0
    } else {
        log.last().0
    }
}

/// Appending a record changes the counts of the host it names by one and
/// leaves every other host's counts as they were.
pub proof fn lemma_counts_after_push(log: Seq<(u64, LogEntry)>, record: (u64, LogEntry), host: usize)
    ensures
        arrivals(log.push(record), host) == arrivals(log, host) + if record.1 == LogEntry::Arrival(
            host,
        ) {
            1nat
        } else {
            0nat
        },
        departures(log.push(record), host) == departures(log, host) + if record.1
            == LogEntry::Departure(host) {
            1nat
        } else {
            0nat
        },
{
    assert(log.push(record).drop_last() =~= log);
}

/// A trace holds no more arrivals, and no more departures, than records.
pub proof fn lemma_counts_bounded(log: Seq<(u64, LogEntry)>, host: usize)
    ensures
        arrivals(log, host) + departures(log, host) <= log.len(),
    decreases log.len(),
{
    if log.len() > 0 {
        lemma_counts_bounded(log.drop_last(), host);
    }
}

/// Every beginning of a consistent trace is consistent.
pub proof fn lemma_consistent_prefix(log: Seq<(u64, LogEntry)>, hosts: nat, n: int)
    requires
        consistent(log, hosts),
        0 <= n <= log.len(),
    ensures
        consistent(log.take(n), hosts),
    decreases log.len(),
{
    if n == log.len() {
        assert(log.take(n) =~= log);
    } else {
        lemma_consistent_prefix(log.drop_last(), hosts, n);
        assert(log.drop_last().take(n) =~= log.take(n));
    }
}

/// In a consistent trace no host ever holds a negative number of requests.
pub proof fn lemma_consistent_never_negative(log: Seq<(u64, LogEntry)>, hosts: nat, host: usize)
    requires
        consistent(log, hosts),
    ensures
        queue_length(log, host) >= 0,
    decreases log.len(),
{
    if log.len() > 0 {
        lemma_consistent_never_negative(log.drop_last(), hosts, host);
    }
}

} // verus!

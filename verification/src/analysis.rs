//! Reading a finished trace: how long the longest queue was after each record,
//! and how the served requests were spread over the hosts.

use crate::log::consistent;
use crate::log::departures;
use crate::log::lemma_consistent_never_negative;
use crate::log::lemma_consistent_prefix;
use crate::log::lemma_counts_after_push;
use crate::log::lemma_counts_bounded;
use crate::log::queue_length;
use crate::log::EventLog;
use crate::log::LogEntry;
use std::collections::BTreeSet;
use vstd::prelude::*;

verus! {

broadcast use {vstd::std_specs::btree::group_btree_axioms, vstd::laws_cmp::group_laws_cmp};

/// `longest` is the length of the longest queue among `hosts` hosts once
/// everything in the trace has happened.
pub open spec fn is_max_queue_length(log: Seq<(u64, LogEntry)>, hosts: nat, longest: int) -> bool {
    &&& exists|h: usize| h < hosts && queue_length(log, h) == longest
    &&& forall|h: usize| h < hosts ==> queue_length(log, h) <= longest
}

/// `series` is the max-queue series of the trace: for each record, in order,
/// the time of the record and the length of the longest queue among the
/// `hosts` hosts right after it.
pub open spec fn is_max_queue_series(
    log: Seq<(u64, LogEntry)>,
    hosts: nat,
    series: Seq<(u64, usize)>,
) -> bool {
    &&& series.len() == log.len()
    &&& forall|i: int|
        0 <= i < log.len() ==> (#[trigger] series[i]).0 == log[i].0 && is_max_queue_length(
            log.take(i + 1),
            hosts,
            series[i].1 as int,
        )
}

/// A trace has one max-queue series and no other: whoever reads the trace by
/// that rule reads the same.
pub proof fn lemma_max_queue_series_is_unique(
    log: Seq<(u64, LogEntry)>,
    hosts: nat,
    first: Seq<(u64, usize)>,
    second: Seq<(u64, usize)>,
)
    requires
        is_max_queue_series(log, hosts, first),
        is_max_queue_series(log, hosts, second),
    ensures
        first == second,
{
    assert forall|i: int| 0 <= i < log.len() implies first[i] == second[i] by {
        let upto = log.take(i + 1);
        assert(is_max_queue_length(upto, hosts, first[i].1 as int));
        assert(is_max_queue_length(upto, hosts, second[i].1 as int));
    }
    assert(first =~= second);
}

/// `BTreeSet::last` on a set of pairs: the greatest pair that the set holds,
/// `None` where it holds none. Pairs are ordered by their first component and,
/// where that is equal, by their second.
#[verifier::external_body]
fn greatest(ranked: &BTreeSet<(usize, usize)>) -> (top: Option<(usize, usize)>)
    ensures
        top is None ==> ranked@ =~= Set::<(usize, usize)>::empty(),
        top matches Some(p) ==> ranked@.contains(p) && forall|q: (usize, usize)|
            ranked@.contains(q) ==> q.0 < p.0 || (q.0 == p.0 && q.1 <= p.1),
{
    ranked.last().copied()
}

/// The series that compares routing policies: for each record of the trace, in
/// order, the time of the record and the length of the longest queue among
/// the `hosts` hosts right after it.
pub fn max_queue_series(log: &EventLog, hosts: usize) -> (series: Vec<(u64, usize)>)
    requires
        consistent(log@, hosts as nat),
    ensures
        is_max_queue_series(log@, hosts as nat, series@),
{
    let mut load: Vec<usize> = Vec::new();
    let mut ranked: BTreeSet<(usize, usize)> = BTreeSet::new();
    let mut h: usize = 0;
    while h < hosts
        invariant
            h <= hosts,
            load@.len() == h,
            forall|j: int| 0 <= j < h ==> load@[j] == 0,
            forall|p: (usize, usize)| ranked@.contains(p) <==> p.1 < h && p.0 == 0,
        decreases hosts - h,
    {
        load.push(0);
        ranked.insert((0, h));
        h += 1;
    }
    assert(log@.take(0) =~= Seq::<(u64, LogEntry)>::empty());
    let mut series: Vec<(u64, usize)> = Vec::new();
    let mut i: usize = 0;
    while i < log.len()
        invariant
            i <= log@.len(),
            consistent(log@, hosts as nat),
            load@.len() == hosts,
            forall|h: usize| h < hosts ==> load@[h as int] == queue_length(log@.take(i as int), h),
            forall|p: (usize, usize)|
                ranked@.contains(p) <==> p.1 < hosts && p.0 == load@[p.1 as int],
            series@.len() == i,
            forall|k: int|
                0 <= k < i ==> (#[trigger] series@[k]).0 == log@[k].0 && is_max_queue_length(
                    log@.take(k + 1),
                    hosts as nat,
                    series@[k].1 as int,
                ),
        decreases log@.len() - i,
    {
        let (time, entry) = log[i];
        let host = entry.host_id();
        let ghost before = log@.take(i as int);
        let ghost after = log@.take(i + 1);
        proof {
            lemma_consistent_prefix(log@, hosts as nat, i + 1);
            lemma_consistent_never_negative(after, hosts as nat, host);
            lemma_counts_bounded(before, host);
            assert(after =~= before.push(log@[i as int]));
            assert forall|h: usize| h < hosts implies queue_length(after, h) == queue_length(
                before,
                h,
            ) + if log@[i as int].1 == LogEntry::Arrival(h) {
                1int
            } else if log@[i as int].1 == LogEntry::Departure(h) {
                -1int
            } else {
                0int
            } by {
                lemma_counts_after_push(before, log@[i as int], h);
            }
        }
        let waiting = load[host];
        ranked.remove(&(waiting, host));
        let now_waiting = match entry {
            LogEntry::Arrival(_) => waiting + 1,
            LogEntry::Departure(_) => waiting - 1,
        };
        load.set(host, now_waiting);
        ranked.insert((now_waiting, host));
        let top = greatest(&ranked);
        assert(ranked@.contains((now_waiting, host)));
        let longest = top.unwrap().0;
        proof {
            let leader = top.unwrap().1;
            assert(leader < hosts && queue_length(after, leader) == longest);
            assert forall|h: usize| h < hosts implies queue_length(after, h) <= longest by {
                assert(ranked@.contains((load@[h as int], h)));
            }
        }
        series.push((time, longest));
        i += 1;
    }
    series
}

/// How many requests each of the `hosts` hosts finished over the whole trace.
pub fn served_totals(log: &EventLog, hosts: usize) -> (totals: Vec<usize>)
    requires
        consistent(log@, hosts as nat),
    ensures
        totals@.len() == hosts,
        forall|h: usize| h < hosts ==> totals@[h as int] == departures(log@, h),
{
    let mut totals: Vec<usize> = Vec::new();
    let mut h: usize = 0;
    while h < hosts
        invariant
            h <= hosts,
            totals@.len() == h,
            forall|j: int| 0 <= j < h ==> totals@[j] == 0,
        decreases hosts - h,
    {
        totals.push(0);
        h += 1;
    }
    assert(log@.take(0) =~= Seq::<(u64, LogEntry)>::empty());
    let mut i: usize = 0;
    while i < log.len()
        invariant
            i <= log@.len(),
            consistent(log@, hosts as nat),
            totals@.len() == hosts,
            forall|h: usize| h < hosts ==> totals@[h as int] == departures(log@.take(i as int), h),
        decreases log@.len() - i,
    {
        let ghost before = log@.take(i as int);
        proof {
            lemma_consistent_prefix(log@, hosts as nat, i + 1);
            assert(log@.take(i + 1) =~= before.push(log@[i as int]));
            assert forall|h: usize| h < hosts implies departures(log@.take(i + 1), h) == departures(
                before,
                h,
            ) + if log@[i as int].1 == LogEntry::Departure(h) {
                1nat
            } else {
                0nat
            } by {
                lemma_counts_after_push(before, log@[i as int], h);
            }
        }
        match log[i].1 {
            LogEntry::Arrival(_) => {},
            LogEntry::Departure(host) => {
                proof {
                    lemma_counts_bounded(before, host);
                }
                let served = totals[host];
                totals.set(host, served + 1);
            },
        }
        i += 1;
    }
    assert(log@.take(log@.len() as int) =~= log@);
    totals
}

/// How a count is spread over the hosts: the greatest and the least count of
/// a host, the sum over all hosts, and the mean, rounded down.
#[derive(Copy, Clone, Debug, PartialEq, Eq, Structural)]
pub struct Spread {
    pub max: usize,
    pub min: usize,
    pub total: u128,
    pub mean: usize,
}

/// The sum of the counts.
pub open spec fn sum(counts: Seq<usize>) -> nat
    decreases counts.len(),
{
    if counts.len() == 0 {
        0
    } else {
        sum(counts.drop_last()) + counts.last() as nat
    }
}

/// `spread` describes `counts`, which holds at least one count.
pub open spec fn is_spread_of(spread: Spread, counts: Seq<usize>) -> bool {
    &&& counts.len() > 0
    &&& counts.contains(spread.max)
    &&& counts.contains(spread.min)
    &&& forall|i: int|
        0 <= i < counts.len() ==> spread.min <= #[trigger] counts[i] && counts[i] <= spread.max
    &&& spread.total == sum(counts)
    &&& spread.mean == sum(counts) / counts.len()
}

/// The sum of counts lies between the least count and the greatest, each
/// taken once per count.
pub proof fn lemma_sum_bounds(counts: Seq<usize>, low: int, high: int)
    requires
        forall|i: int| 0 <= i < counts.len() ==> low <= #[trigger] counts[i] && counts[i] <= high,
    ensures
        counts.len() * low <= sum(counts) <= counts.len() * high,
    decreases counts.len(),
{
    if counts.len() > 0 {
        lemma_sum_bounds(counts.drop_last(), low, high);
        assert((counts.len() - 1) * low + low == counts.len() * low) by (nonlinear_arith);
        assert((counts.len() - 1) * high + high == counts.len() * high) by (nonlinear_arith);
    }
}

/// The spread of per-host counts, to flag imbalance: `None` where there is no
/// host, and else the greatest, the least, the sum and the mean of the counts.
pub fn spread_of(counts: &Vec<usize>) -> (spread: Option<Spread>)
    ensures
        counts@.len() == 0 <==> spread is None,
        spread matches Some(s) ==> is_spread_of(s, counts@),
{
    if counts.len() == 0 {
        return None;
    }
    let mut max = counts[0];
    let mut min = counts[0];
    let mut total: u128 = counts[0] as u128;
    let ghost mut at_max: int = 0;
    let ghost mut at_min: int = 0;
    let mut i: usize = 1;
    assert(sum(counts@.take(1)) == counts@[0]) by {
        assert(counts@.take(1).drop_last() =~= Seq::<usize>::empty());
        assert(sum(counts@.take(1).drop_last()) == 0);
    }
    while i < counts.len()
        invariant
            1 <= i <= counts@.len(),
            0 <= at_max < i && counts@[at_max] == max,
            0 <= at_min < i && counts@[at_min] == min,
            forall|j: int| 0 <= j < i ==> min <= #[trigger] counts@[j] && counts@[j] <= max,
            total == sum(counts@.take(i as int)),
        decreases counts@.len() - i,
    {
        let count = counts[i];
        proof {
            let seen = counts@.take(i as int);
            assert(counts@.take(i + 1).drop_last() =~= seen);
            lemma_sum_bounds(seen, 0, usize::MAX as int);
            assert(i * (usize::MAX as int) <= usize::MAX * usize::MAX) by (nonlinear_arith)
                requires
                    0 <= i <= usize::MAX,
            ;
            assert(usize::MAX * usize::MAX + usize::MAX <= u128::MAX) by (nonlinear_arith)
                requires
                    usize::MAX <= 0xffff_ffff_ffff_ffff,
                    u128::MAX == 0xffff_ffff_ffff_ffff_ffff_ffff_ffff_ffff,
            ;
        }
        if count > max {
            max = count;
            proof {
                at_max = i as int;
            }
        }
        if count < min {
            min = count;
            proof {
                at_min = i as int;
            }
        }
        total = total + count as u128;
        i += 1;
    }
    assert(counts@.take(counts@.len() as int) =~= counts@);
    proof {
        lemma_sum_bounds(counts@, 0, max as int);
        assert(sum(counts@) / counts@.len() <= max) by (nonlinear_arith)
            requires
                sum(counts@) <= counts@.len() * max,
                counts@.len() > 0,
        ;
    }
    let mean = (total / (counts.len() as u128)) as usize;
    Some(Spread { max, min, total, mean })
}

} // verus!

//! What the routing policies guarantee over many requests and whatever the
//! load, proved from what their `select` functions ensure.

use crate::host::Host;
use crate::selector::cursor_after;
use crate::selector::is_first_least;
use crate::selector::is_view;
use crate::selector::loads;
use crate::selector::HostSelector;
use crate::selector::HostSnapshot;
use crate::selector::SelectorKind;
use vstd::arithmetic::div_mod::lemma_fundamental_div_mod;
use vstd::arithmetic::div_mod::lemma_fundamental_div_mod_converse;
use vstd::arithmetic::div_mod::lemma_mod_bound;
use vstd::prelude::*;

verus! {

/// How many of the first `requests` requests round robin sends to `host`.
pub open spec fn routed_to(cursor: nat, pool_size: nat, requests: nat, host: nat) -> nat
    decreases requests,
{
    if requests == 0 {
        0
    } else if cursor_after(cursor, pool_size, (requests - 1) as nat) == host {
        routed_to(cursor, pool_size, (requests - 1) as nat, host) + 1
    } else {
        routed_to(cursor, pool_size, (requests - 1) as nat, host)
    }
}

/// How many of the numbers from 0 up to `bound`, `bound` left out, leave the
/// remainder `host` when divided by `pool_size`.
spec fn turns_below(bound: int, pool_size: int, host: int) -> int {
    bound / pool_size + if host < bound % pool_size {
        1int
    } else {
        0int
    }
}

proof fn lemma_next_remainder(x: int, pool_size: int)
    requires
        0 <= x,
        0 < pool_size,
    ensures
        0 <= x % pool_size < pool_size,
        (x + 1) % pool_size == if x % pool_size == pool_size - 1 {
            0
        } else {
            x % pool_size + 1
        },
        (x + 1) / pool_size == if x % pool_size == pool_size - 1 {
            x / pool_size + 1
        } else {
            x / pool_size
        },
{
    let q = x / pool_size;
    let r = x % pool_size;
    lemma_fundamental_div_mod(x, pool_size);
    lemma_mod_bound(x, pool_size);
    if r == pool_size - 1 {
        assert(x + 1 == (q + 1) * pool_size + 0) by (nonlinear_arith)
            requires
                x == pool_size * q + r,
                r == pool_size - 1,
        ;
        lemma_fundamental_div_mod_converse(x + 1, pool_size, q + 1, 0);
    } else {
        assert(x + 1 == q * pool_size + (r + 1)) by (nonlinear_arith)
            requires
                x == pool_size * q + r,
        ;
        lemma_fundamental_div_mod_converse(x + 1, pool_size, q, r + 1);
    }
}

/// Round robin goes through the hosts in the order of their ids, and from
/// the last back to the first: request number `requests`, counted from 0,
/// goes to the host that lies `requests` places after the first cursor.
pub proof fn lemma_round_robin_cyclic(cursor: nat, pool_size: nat, requests: nat)
    requires
        cursor < pool_size,
    ensures
        cursor_after(cursor, pool_size, requests) == (cursor + requests) as int % (
        pool_size as int),
        cursor_after(cursor, pool_size, requests) < pool_size,
    decreases requests,
{
    let n = pool_size as int;
    lemma_mod_bound((cursor + requests) as int, n);
    if requests == 0 {
        lemma_fundamental_div_mod_converse(cursor as int, n, 0, cursor as int);
    } else {
        lemma_round_robin_cyclic(cursor, pool_size, (requests - 1) as nat);
        lemma_next_remainder(cursor + requests - 1, n);
        let before = cursor_after(cursor, pool_size, (requests - 1) as nat);
        lemma_next_remainder(before as int, n);
        lemma_fundamental_div_mod_converse(before as int, n, 0, before as int);
    }
}

/// Routing some requests and then some more moves the cursor as routing all
/// of them in a row does.
pub proof fn lemma_cursor_after_then(cursor: nat, pool_size: nat, first: nat, second: nat)
    ensures
        cursor_after(cursor, pool_size, first + second) == cursor_after(
            cursor_after(cursor, pool_size, first),
            pool_size,
            second,
        ),
    decreases second,
{
    if second > 0 {
        lemma_cursor_after_then(cursor, pool_size, first, (second - 1) as nat);
    }
}

proof fn lemma_routed_to_counts_turns(cursor: nat, pool_size: nat, requests: nat, host: nat)
    requires
        cursor < pool_size,
        host < pool_size,
    ensures
        routed_to(cursor, pool_size, requests, host) == turns_below(
            (cursor + requests) as int,
            pool_size as int,
            host as int,
        ) - turns_below(cursor as int, pool_size as int, host as int),
    decreases requests,
{
    if requests > 0 {
        lemma_routed_to_counts_turns(cursor, pool_size, (requests - 1) as nat, host);
        lemma_round_robin_cyclic(cursor, pool_size, (requests - 1) as nat);
        lemma_next_remainder(cursor + requests - 1, pool_size as int);
    }
}

/// Round-robin fairness: of `rounds * pool_size` requests in a row, whatever
/// host the first of them goes to, each host receives exactly `rounds`.
pub proof fn lemma_round_robin_fair(cursor: nat, pool_size: nat, rounds: nat, host: nat)
    requires
        cursor < pool_size,
        host < pool_size,
    ensures
        routed_to(cursor, pool_size, rounds * pool_size, host) == rounds,
{
    let n = pool_size as int;
    lemma_routed_to_counts_turns(cursor, pool_size, rounds * pool_size, host);
    lemma_fundamental_div_mod_converse(cursor as int, n, 0, cursor as int);
    assert(cursor + rounds * pool_size == rounds * n + cursor) by (nonlinear_arith)
        requires
            n == pool_size,
    ;
    lemma_fundamental_div_mod_converse(
        (cursor + rounds * pool_size) as int,
        n,
        rounds as int,
        cursor as int,
    );
}

/// Only one position of a row of keys is the first that holds their least:
/// least-loaded routing leaves no choice.
pub proof fn lemma_first_least_is_unique(keys: Seq<usize>, a: int, b: int)
    requires
        is_first_least(keys, a),
        is_first_least(keys, b),
    ensures
        a == b,
{
    if a < b {
        assert(keys[b] < keys[a]);
        assert(keys[a] <= keys[b]);
    } else if b < a {
        assert(keys[a] < keys[b]);
        assert(keys[b] <= keys[a]);
    }
}

/// Least-loaded routing takes the shorter of two queues: it never takes host
/// `longer` while the view shows host `shorter` with fewer requests. Where
/// the view shows two hosts with equally few, it takes the one with the lower
/// id: never host `longer` while host `shorter`, of a lower id, shows no more
/// requests.
pub proof fn lemma_least_loaded_prefers(
    states: Seq<HostSnapshot>,
    chosen: HostSnapshot,
    shorter: int,
    longer: int,
)
    requires
        is_view(states),
        exists|at: int| is_first_least(loads(states), at) && chosen == states[at],
        0 <= shorter < states.len(),
        0 <= longer < states.len(),
        states[shorter].requests < states[longer].requests || (states[shorter].requests
            == states[longer].requests && shorter < longer),
    ensures
        chosen.id != longer,
{
    let at = choose|at: int| is_first_least(loads(states), at) && chosen == states[at];
    assert(loads(states)[shorter] == states[shorter].requests);
    assert(loads(states)[longer] == states[longer].requests);
    assert(states[at].id == at);
}

/// Sticky routing: the host that hash routing takes for a requester depends
/// on the requester's id and the number of hosts, and on nothing else. Two
/// requests of one requester meet the same host, whatever the hosts hold and
/// whatever the view says.
pub proof fn lemma_hash_is_sticky(
    first: HostSelector,
    second: HostSelector,
    first_view: Seq<HostSnapshot>,
    second_view: Seq<HostSnapshot>,
    first_hosts: Seq<Host>,
    second_hosts: Seq<Host>,
    sender: usize,
    first_chosen: HostSnapshot,
    second_chosen: HostSnapshot,
)
    requires
        first.kind() == SelectorKind::Hash,
        second.kind() == SelectorKind::Hash,
        is_view(first_view),
        is_view(second_view),
        first_view.len() == second_view.len(),
        first_view.len() > 0,
        first.may_choose(first_view, first_hosts, sender, first_chosen),
        second.may_choose(second_view, second_hosts, sender, second_chosen),
    ensures
        first_chosen.id == second_chosen.id,
        first_chosen.id == sender as int % first_view.len() as int,
{
    lemma_mod_bound(sender as int, first_view.len() as int);
}

} // verus!

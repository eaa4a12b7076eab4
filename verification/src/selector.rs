//! The routing policies. A policy is handed the balancer's view of the hosts,
//! the hosts themselves and the id of the requester, and names the host that
//! is to take the request.

use crate::config::ConfigError;
use crate::host::Host;
use crate::naming::parse_selector_name;
use crate::naming::selector_named;
use crate::sampling::choose_one;
use crate::sampling::choose_several;
use crate::sampling::is_drawn_from;
use crate::sampling::is_sample;
use crate::sampling::seeded;
use rand_pcg::Pcg64;
use vstd::arithmetic::div_mod::lemma_mod_bound;
use vstd::arithmetic::div_mod::lemma_mod_self_0;
use vstd::arithmetic::div_mod::lemma_small_mod;
use vstd::prelude::*;

verus! {

/// What a balancer knows of one host: the host's id and the number of
/// requests the host held when the balancer last looked.
#[derive(Copy, Clone, Debug, PartialEq, Eq, Structural)]
pub struct HostSnapshot {
    pub id: usize,
    pub requests: usize,
}

/// The seed of every randomised policy's generator.
pub const SELECTOR_SEED: u64 = 111;

/// A view of a pool: one snapshot per host, the snapshot of host `i` at
/// position `i`.
pub open spec fn is_view(states: Seq<HostSnapshot>) -> bool {
    forall|i: int| 0 <= i < states.len() ==> (#[trigger] states[i]).id == i
}

/// The number of requests in each snapshot.
pub open spec fn loads(states: Seq<HostSnapshot>) -> Seq<usize> {
    states.map_values(|s: HostSnapshot| s.requests)
}

/// For each snapshot, the number of requests that the host it names holds now.
pub open spec fn loads_now(states: Seq<HostSnapshot>, hosts: Seq<Host>) -> Seq<usize> {
    states.map_values(|s: HostSnapshot| hosts[s.id as int].requests@.len() as usize)
}

/// Position `at` holds the least of `keys`, and is the first position that
/// does.
pub open spec fn is_first_least(keys: Seq<usize>, at: int) -> bool {
    &&& 0 <= at < keys.len()
    &&& forall|j: int| 0 <= j < keys.len() ==> keys[at] <= #[trigger] keys[j]
    &&& forall|j: int| 0 <= j < at ==> keys[at] < #[trigger] keys[j]
}

/// `chosen` is the first of `amount` snapshots, drawn from different
/// positions of `states`, among those of them that show the fewest requests.
pub open spec fn is_least_of_sample(
    states: Seq<HostSnapshot>,
    amount: nat,
    chosen: HostSnapshot,
) -> bool {
    exists|sample: Seq<HostSnapshot>, at: int|
        #![trigger is_first_least(loads(sample), at)]
        is_sample(sample, states, amount) && is_first_least(loads(sample), at) && chosen
            == sample[at]
}

/// `chosen` is the first of `amount` snapshots, drawn from different
/// positions of `states`, among those of them whose hosts hold the fewest
/// requests now.
pub open spec fn is_least_now_of_sample(
    states: Seq<HostSnapshot>,
    hosts: Seq<Host>,
    amount: nat,
    chosen: HostSnapshot,
) -> bool {
    exists|sample: Seq<HostSnapshot>, at: int|
        #![trigger is_first_least(loads_now(sample, hosts), at)]
        is_sample(sample, states, amount) && is_first_least(loads_now(sample, hosts), at)
            && chosen == sample[at]
}

/// The first position among the snapshots that show the fewest requests.
pub fn least_loaded(states: &[HostSnapshot]) -> (at: usize)
    requires
        states@.len() > 0,
    ensures
        is_first_least(loads(states@), at as int),
{
    let mut at: usize = 0;
    let mut j: usize = 1;
    while j < states.len()
        invariant
            1 <= j <= states@.len(),
            is_first_least(loads(states@).take(j as int), at as int),
        decreases states@.len() - j,
    {
        if states[j].requests < states[at].requests {
            at = j;
        }
        j += 1;
    }
    assert(loads(states@).take(states@.len() as int) =~= loads(states@));
    at
}

/// The first position among the snapshots whose hosts hold the fewest
/// requests now.
pub fn least_loaded_now(states: &[HostSnapshot], hosts: &[Host]) -> (at: usize)
    requires
        states@.len() > 0,
        forall|j: int| 0 <= j < states@.len() ==> (#[trigger] states@[j]).id < hosts@.len(),
    ensures
        is_first_least(loads_now(states@, hosts@), at as int),
{
    let mut at: usize = 0;
    let mut j: usize = 1;
    while j < states.len()
        invariant
            1 <= j <= states@.len(),
            forall|j: int| 0 <= j < states@.len() ==> (#[trigger] states@[j]).id < hosts@.len(),
            is_first_least(loads_now(states@, hosts@).take(j as int), at as int),
        decreases states@.len() - j,
    {
        if hosts[states[j].id].requests.len() < hosts[states[at].id].requests.len() {
            at = j;
        }
        j += 1;
    }
    assert(loads_now(states@, hosts@).take(states@.len() as int) =~= loads_now(states@, hosts@));
    at
}

/// Where a round-robin cursor stands after `requests` requests, each of which
/// moved it as `RoundRobinSelector::select` does, in a pool of `pool_size`
/// hosts. The next request goes to the host at which it stands.
pub open spec fn cursor_after(cursor: nat, pool_size: nat, requests: nat) -> nat
    decreases requests,
{
    if requests == 0 {
        cursor
    } else {
        let before = cursor_after(cursor, pool_size, (requests - 1) as nat);
        ((before as int + 1) % (pool_size as int)) as nat
    }
}

/// Takes the hosts in turn.
pub struct RoundRobinSelector {
    pub ptr: usize,
}

impl Default for RoundRobinSelector {
    fn default() -> (selector: Self)
        ensures
            selector.ptr == 0,
    {
        RoundRobinSelector { ptr: 0 }
    }
}

impl RoundRobinSelector {
    /// The host at the cursor; the cursor then moves on by one, and from the
    /// last host back to the first.
    pub fn select(&mut self, states: &[HostSnapshot], hosts: &[Host], _sender: usize) -> (chosen:
        HostSnapshot)
        requires
            states@.len() == hosts@.len(),
            old(self).ptr < states@.len(),
        ensures
            chosen == states@[old(self).ptr as int],
            final(self).ptr == (old(self).ptr + 1) % (states@.len() as int),
            final(self).ptr == cursor_after(old(self).ptr as nat, states@.len(), 1),
    {
        let pool_size = hosts.len();
        let id = self.ptr;
        self.ptr += 1;
        if self.ptr == pool_size {
            self.ptr = 0;
        }
        proof {
            assert(cursor_after(id as nat, pool_size as nat, 0) == id);
            if id + 1 == pool_size {
                lemma_mod_self_0(pool_size as int);
            } else {
                lemma_small_mod((id + 1) as nat, pool_size as nat);
            }
        }
        states[id]
    }
}

/// Takes a host drawn at random, each with the same chance.
pub struct RandomSelector {
    rng: Pcg64,
}

impl Default for RandomSelector {
    fn default() -> Self {
        RandomSelector { rng: seeded(SELECTOR_SEED) }
    }
}

impl RandomSelector {
    /// One of the hosts of the view.
    pub fn select(&mut self, states: &[HostSnapshot], _hosts: &[Host], _sender: usize) -> (chosen:
        HostSnapshot)
        requires
            states@.len() > 0,
        ensures
            states@.contains(chosen),
    {
        choose_one(&mut self.rng, states).unwrap()
    }
}

/// Takes the host that the view shows with the fewest requests.
pub struct LeastLoadedSelector {}

impl LeastLoadedSelector {
    /// The first host of the view among those that it shows with the fewest
    /// requests.
    pub fn select(&mut self, states: &[HostSnapshot], _hosts: &[Host], _sender: usize) -> (chosen:
        HostSnapshot)
        requires
            states@.len() > 0,
        ensures
            exists|at: int| is_first_least(loads(states@), at) && chosen == states@[at],
    {
        let at = least_loaded(states);
        states[at]
    }
}

/// Draws some hosts at random and takes the one among them that the view
/// shows with the fewest requests.
pub struct PowerOfKSelector {
    k: usize,
    rng: Pcg64,
}

impl PowerOfKSelector {
    /// The number of hosts drawn for each request.
    pub closed spec fn amount(&self) -> usize {
        self.k
    }

    /// A policy that draws `k` hosts for each request.
    pub fn new(k: usize) -> (selector: Self)
        ensures
            selector.amount() == k,
    {
        PowerOfKSelector { k, rng: seeded(SELECTOR_SEED) }
    }

    /// The number of hosts drawn for each request.
    pub fn k(&self) -> (k: usize)
        ensures
            k == self.amount(),
    {
        self.k
    }

    /// Draws as many hosts of the view as the policy asks for, all
    /// different, and gives the first of the draw among those that the view
    /// shows with the fewest requests.
    pub fn select(&mut self, states: &[HostSnapshot], _hosts: &[Host], _sender: usize) -> (chosen:
        HostSnapshot)
        requires
            1 <= old(self).amount() <= states@.len(),
        ensures
            is_least_of_sample(states@, old(self).amount() as nat, chosen),
            final(self).amount() == old(self).amount(),
    {
        let sample = choose_several(&mut self.rng, states, self.k);
        let at = least_loaded(sample.as_slice());
        sample[at]
    }
}

/// Draws some hosts at random, asks each of them how many requests it holds
/// now, and takes the one that holds the fewest.
pub struct PowerOfKSelectorWithUpdates {
    k: usize,
    rng: Pcg64,
}

impl PowerOfKSelectorWithUpdates {
    /// The number of hosts drawn for each request.
    pub closed spec fn amount(&self) -> usize {
        self.k
    }

    /// A policy that draws `k` hosts for each request.
    pub fn new(k: usize) -> (selector: Self)
        ensures
            selector.amount() == k,
    {
        PowerOfKSelectorWithUpdates { k, rng: seeded(SELECTOR_SEED) }
    }

    /// The number of hosts drawn for each request.
    pub fn k(&self) -> (k: usize)
        ensures
            k == self.amount(),
    {
        self.k
    }

    /// Draws as many hosts of the view as the policy asks for, all
    /// different, and gives the first of the draw among those that hold the
    /// fewest requests now. What the view says of their load is not read.
    pub fn select(&mut self, states: &[HostSnapshot], hosts: &[Host], _sender: usize) -> (chosen:
        HostSnapshot)
        requires
            is_view(states@),
            states@.len() == hosts@.len(),
            1 <= old(self).amount() <= states@.len(),
        ensures
            is_least_now_of_sample(states@, hosts@, old(self).amount() as nat, chosen),
            final(self).amount() == old(self).amount(),
    {
        let sample = choose_several(&mut self.rng, states, self.k);
        proof {
            let from = choose|from: Seq<int>| is_drawn_from(sample@, states@, from);
            assert forall|j: int| 0 <= j < sample@.len() implies (#[trigger] sample@[j]).id
                < hosts@.len() by {
                assert(sample@[j] == states@[from[j]]);
            }
        }
        let at = least_loaded_now(sample.as_slice(), hosts);
        sample[at]
    }
}

/// Takes the host that the requester's id falls on: a requester always meets
/// the same host.
pub struct HashSelector {}

impl HashSelector {
    /// The host whose index is the requester's id modulo the number of hosts.
    pub fn select(&mut self, states: &[HostSnapshot], _hosts: &[Host], sender: usize) -> (chosen:
        HostSnapshot)
        requires
            states@.len() > 0,
        ensures
            chosen == states@[sender as int % states@.len() as int],
    {
        states[sender % states.len()]
    }
}

/// The policies by name, each with what it is set up with.
#[derive(Copy, Clone, Debug, PartialEq, Eq, Structural)]
pub enum SelectorKind {
    RoundRobin,
    Random,
    LeastLoaded,
    PowerOfK(usize),
    PowerOfKWithUpdates(usize),
    Hash,
}

impl SelectorKind {
    /// A fresh policy of this kind can route in a pool of `pool_size` hosts:
    /// there is a host to take, and no more hosts are drawn than there are.
    pub open spec fn suits(self, pool_size: nat) -> bool {
        match self {
            SelectorKind::PowerOfK(k) => 1 <= k <= pool_size,
            SelectorKind::PowerOfKWithUpdates(k) => 1 <= k <= pool_size,
            _ => pool_size > 0,
        }
    }

    /// Whether a fresh policy of this kind can route in a pool of `pool_size`
    /// hosts.
    pub fn suits_pool(&self, pool_size: usize) -> (suits: bool)
        ensures
            suits == self.suits(pool_size as nat),
    {
        match self {
            SelectorKind::PowerOfK(k) => 1 <= *k && *k <= pool_size,
            SelectorKind::PowerOfKWithUpdates(k) => 1 <= *k && *k <= pool_size,
            _ => pool_size > 0,
        }
    }
}

/// A routing policy: one of the six, with its cursor or its generator.
pub enum HostSelector {
    RoundRobin(RoundRobinSelector),
    Random(RandomSelector),
    LeastLoaded(LeastLoadedSelector),
    PowerOfK(PowerOfKSelector),
    PowerOfKWithUpdates(PowerOfKSelectorWithUpdates),
    Hash(HashSelector),
}

impl HostSelector {
    /// Which policy this is.
    pub open spec fn kind(&self) -> SelectorKind {
        match self {
            HostSelector::RoundRobin(_) => SelectorKind::RoundRobin,
            HostSelector::Random(_) => SelectorKind::Random,
            HostSelector::LeastLoaded(_) => SelectorKind::LeastLoaded,
            HostSelector::PowerOfK(s) => SelectorKind::PowerOfK(s.amount()),
            HostSelector::PowerOfKWithUpdates(s) => SelectorKind::PowerOfKWithUpdates(s.amount()),
            HostSelector::Hash(_) => SelectorKind::Hash,
        }
    }

    /// The round-robin cursor; 0 for the policies that have none.
    pub open spec fn cursor(&self) -> usize {
        match self {
            HostSelector::RoundRobin(s) => s.ptr,
            _ => 0,
        }
    }

    /// The policy can route in a pool of `pool_size` hosts: there is a host
    /// to take, the cursor points at one, and no more hosts are drawn than
    /// there are.
    pub open spec fn fits(&self, pool_size: nat) -> bool {
        match self {
            HostSelector::RoundRobin(s) => s.ptr < pool_size,
            HostSelector::PowerOfK(s) => 1 <= s.amount() <= pool_size,
            HostSelector::PowerOfKWithUpdates(s) => 1 <= s.amount() <= pool_size,
            _ => pool_size > 0,
        }
    }

    /// The policy, as it stands, can give `chosen` for a request of `sender`.
    /// For the policies that draw nothing this holds of one snapshot only.
    pub open spec fn may_choose(
        &self,
        states: Seq<HostSnapshot>,
        hosts: Seq<Host>,
        sender: usize,
        chosen: HostSnapshot,
    ) -> bool {
        match self {
            HostSelector::RoundRobin(s) => chosen == states[s.ptr as int],
            HostSelector::Random(_) => states.contains(chosen),
            HostSelector::LeastLoaded(_) => exists|at: int|
                is_first_least(loads(states), at) && chosen == states[at],
            HostSelector::PowerOfK(s) => is_least_of_sample(states, s.amount() as nat, chosen),
            HostSelector::PowerOfKWithUpdates(s) => is_least_now_of_sample(
                states,
                hosts,
                s.amount() as nat,
                chosen,
            ),
            HostSelector::Hash(_) => chosen == states[sender as int % states.len() as int],
        }
    }

    /// A fresh policy of the given kind: a round-robin cursor at the first
    /// host, a generator at its seed.
    pub fn from_kind(kind: SelectorKind) -> (selector: HostSelector)
        ensures
            selector.kind() == kind,
            selector.cursor() == 0,
    {
        match kind {
            SelectorKind::RoundRobin => HostSelector::RoundRobin(RoundRobinSelector::default()),
            SelectorKind::Random => HostSelector::Random(RandomSelector::default()),
            SelectorKind::LeastLoaded => HostSelector::LeastLoaded(LeastLoadedSelector {  }),
            SelectorKind::PowerOfK(k) => HostSelector::PowerOfK(PowerOfKSelector::new(k)),
            SelectorKind::PowerOfKWithUpdates(k) => HostSelector::PowerOfKWithUpdates(
                PowerOfKSelectorWithUpdates::new(k),
            ),
            SelectorKind::Hash => HostSelector::Hash(HashSelector {  }),
        }
    }

    /// Whether the policy can route in a pool of `pool_size` hosts.
    pub fn fits_pool(&self, pool_size: usize) -> (fits: bool)
        ensures
            fits == self.fits(pool_size as nat),
    {
        match self {
            HostSelector::RoundRobin(s) => s.ptr < pool_size,
            HostSelector::PowerOfK(s) => 1 <= s.k() && s.k() <= pool_size,
            HostSelector::PowerOfKWithUpdates(s) => 1 <= s.k() && s.k() <= pool_size,
            _ => pool_size > 0,
        }
    }

    /// Names the host for a request of `sender`: `states` is the balancer's
    /// view, `hosts` the hosts as they are now. The policy stays of its kind
    /// and fit for the pool; a round-robin cursor moves on by one.
    pub fn select(&mut self, states: &[HostSnapshot], hosts: &[Host], sender: usize) -> (chosen:
        HostSnapshot)
        requires
            is_view(states@),
            states@.len() == hosts@.len(),
            old(self).fits(states@.len()),
        ensures
            old(self).may_choose(states@, hosts@, sender, chosen),
            states@.contains(chosen),
            final(self).kind() == old(self).kind(),
            final(self).fits(states@.len()),
            final(self).cursor() == if old(self).kind() == SelectorKind::RoundRobin {
                (old(self).cursor() + 1) % (states@.len() as int)
            } else {
                0
            },
    {
        match self {
            HostSelector::RoundRobin(s) => {
                proof {
                    lemma_mod_bound(s.ptr + 1, states@.len() as int);
                }
                s.select(states, hosts, sender)
            },
            HostSelector::Random(s) => s.select(states, hosts, sender),
            HostSelector::LeastLoaded(s) => s.select(states, hosts, sender),
            HostSelector::PowerOfK(s) => {
                let chosen = s.select(states, hosts, sender);
                proof {
                    lemma_sample_is_of_states(states@, s.amount() as nat, chosen);
                }
                chosen
            },
            HostSelector::PowerOfKWithUpdates(s) => {
                let chosen = s.select(states, hosts, sender);
                proof {
                    lemma_sample_now_is_of_states(states@, hosts@, s.amount() as nat, chosen);
                }
                chosen
            },
            HostSelector::Hash(s) => {
                proof {
                    lemma_mod_bound(sender as int, states@.len() as int);
                }
                s.select(states, hosts, sender)
            },
        }
    }
}

/// The least of a sample of a view is a snapshot of the view.
pub proof fn lemma_sample_is_of_states(states: Seq<HostSnapshot>, amount: nat, chosen: HostSnapshot)
    requires
        is_least_of_sample(states, amount, chosen),
    ensures
        states.contains(chosen),
{
    let (sample, at) = choose|sample: Seq<HostSnapshot>, at: int|
        #![trigger is_first_least(loads(sample), at)]
        is_sample(sample, states, amount) && is_first_least(loads(sample), at) && chosen
            == sample[at];
    let from = choose|from: Seq<int>| is_drawn_from(sample, states, from);
    assert(states[from[at]] == chosen);
}

/// The least, by what the hosts hold now, of a sample of a view is a
/// snapshot of the view.
pub proof fn lemma_sample_now_is_of_states(
    states: Seq<HostSnapshot>,
    hosts: Seq<Host>,
    amount: nat,
    chosen: HostSnapshot,
)
    requires
        is_least_now_of_sample(states, hosts, amount, chosen),
    ensures
        states.contains(chosen),
{
    let (sample, at) = choose|sample: Seq<HostSnapshot>, at: int|
        #![trigger is_first_least(loads_now(sample, hosts), at)]
        is_sample(sample, states, amount) && is_first_least(loads_now(sample, hosts), at)
            && chosen == sample[at];
    let from = choose|from: Seq<int>| is_drawn_from(sample, states, from);
    assert(states[from[at]] == chosen);
}

/// The policy that a configuration names, fresh, or what is wrong with the
/// name.
pub fn create_selector_by_name(name: &str) -> (made: Result<HostSelector, ConfigError>)
    ensures
        match made {
            Ok(selector) => selector_named(name@) == Ok::<SelectorKind, ConfigError>(
                selector.kind(),
            ) && selector.cursor() == 0,
            Err(error) => selector_named(name@) == Err::<SelectorKind, ConfigError>(error),
        },
{
    match parse_selector_name(name) {
        Ok(kind) => Ok(HostSelector::from_kind(kind)),
        Err(error) => Err(error),
    }
}

} // verus!

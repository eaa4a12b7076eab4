//! The pseudo-random generator that the randomised policies draw from, and
//! the draws they make. The generator and its draws are `rand`'s and
//! `rand_pcg`'s: what is stated of them here is taken on trust.

use crate::selector::HostSnapshot;
use rand::seq::IteratorRandom;
use rand::seq::SliceRandom;
use rand::SeedableRng;
use rand_pcg::Pcg64;
use vstd::prelude::*;

verus! {

/// `rand_pcg::Pcg64`, a seeded generator. Nothing is known of its state.
#[verifier::external_type_specification]
#[verifier::external_body]
pub struct ExPcg64(rand_pcg::Lcg128Xsl64);

/// `sample` holds the entries of `states` at the positions `from`, in that
/// order, and no position comes twice.
pub open spec fn is_drawn_from(
    sample: Seq<HostSnapshot>,
    states: Seq<HostSnapshot>,
    from: Seq<int>,
) -> bool {
    &&& from.len() == sample.len()
    &&& from.no_duplicates()
    &&& forall|j: int|
        0 <= j < sample.len() ==> 0 <= #[trigger] from[j] < states.len() && sample[j]
            == states[from[j]]
}

/// `sample` holds entries of `states` taken from `amount` different
/// positions, in some order.
pub open spec fn is_sample(sample: Seq<HostSnapshot>, states: Seq<HostSnapshot>, amount: nat) -> bool {
    sample.len() == amount && exists|from: Seq<int>| is_drawn_from(sample, states, from)
}

/// `SeedableRng::seed_from_u64` for `Pcg64`: a generator made from `seed`.
#[verifier::external_body]
pub(crate) fn seeded(seed: u64) -> Pcg64 {
    Pcg64::seed_from_u64(seed)
}

/// `SliceRandom::choose` on a slice: one entry of `states`, drawn with `rng`,
/// or `None` where `states` is empty.
#[verifier::external_body]
pub(crate) fn choose_one(rng: &mut Pcg64, states: &[HostSnapshot]) -> (chosen: Option<HostSnapshot>)
    ensures
        states@.len() == 0 ==> chosen is None,
        states@.len() > 0 ==> chosen is Some && states@.contains(chosen->0),
{
    states.choose(rng).copied()
}

/// `IteratorRandom::choose_multiple` on the entries of a slice: `amount`
/// entries of `states` from different positions, drawn with `rng`. The order
/// in which they come is the generator's.
#[verifier::external_body]
pub(crate) fn choose_several(rng: &mut Pcg64, states: &[HostSnapshot], amount: usize) -> (sample:
    Vec<HostSnapshot>)
    requires
        amount <= states@.len(),
    ensures
        is_sample(sample@, states@, amount as nat),
{
    states.iter().choose_multiple(rng, amount).into_iter().copied().collect()
}

} // verus!

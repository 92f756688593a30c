//! Randomness, injected as a seedable generator so that generation is
//! reproducible under a fixed seed. Every draw goes through the `rand`
//! crate; the wrappers state only what holds of every outcome.

use vstd::prelude::*;

verus! {

/// The sum of a sequence of weights.
pub open spec fn weight_sum(s: Seq<u32>) -> int
    decreases s.len(),
{
    if s.len() == 0 {
        0
    } else {
        weight_sum(s.drop_last()) + s.last()
    }
}

/// Declares rand's `StdRng` so generator values can flow through verified
/// signatures; the type stays opaque to the verifier.
#[verifier::external_type_specification]
#[verifier::external_body]
pub struct ExStdRng(rand::rngs::StdRng);

/// Relies on rand's `SeedableRng::seed_from_u64`: builds a generator whose
/// draws are a function of the seed alone.
#[verifier::external_body]
pub fn seeded_rng(seed: u64) -> rand::rngs::StdRng {
    <rand::rngs::StdRng as rand::SeedableRng>::seed_from_u64(seed)
}

/// Relies on rand's `Rng::gen_range`: returns a value drawn uniformly from
/// `0..n`; panics only on an empty range, which the precondition rules out.
#[verifier::external_body]
pub fn gen_index(rng: &mut rand::rngs::StdRng, n: usize) -> (r: usize)
    requires
        n > 0,
    ensures
        r < n,
{
    rand::Rng::gen_range(rng, 0..n)
}

/// Relies on rand's `SliceRandom::choose_weighted`: picks an index with
/// probability proportional to its weight. An index of zero weight has an
/// empty share of the cumulative range and is never returned; the call
/// errs only when every weight is zero or the slice is empty, which the
/// precondition rules out.
#[verifier::external_body]
pub fn choose_weighted_index(rng: &mut rand::rngs::StdRng, weights: &Vec<u32>) -> (r: usize)
    requires
        exists|i: int| 0 <= i < weights@.len() && weights@[i] > 0,
        weight_sum(weights@) <= u32::MAX,
    ensures
        r < weights@.len(),
        weights@[r as int] > 0,
{
    let indices: Vec<usize> = (0..weights.len()).collect();
    *rand::seq::SliceRandom::choose_weighted(indices.as_slice(), rng, |i: &usize| weights[*i])
        .unwrap()
}

/// Relies on rand's `SliceRandom::choose_multiple_weighted` (weighted
/// sampling without replacement): returns `min(amount, len)` entries drawn
/// from distinct positions of `items`, each entry's chance driven by its
/// paired weight. With unsigned weights the only documented error,
/// an invalid weight, cannot occur.
#[verifier::external_body]
pub fn sample_weighted(
    rng: &mut rand::rngs::StdRng,
    items: &Vec<((i32, i32), u32)>,
    amount: usize,
) -> (r: Vec<(i32, i32)>)
    ensures
        r@.len() == vstd::math::min(amount as int, items@.len() as int),
        forall|i: int| 0 <= i < r@.len() ==> exists|j: int|
            0 <= j < items@.len() && #[trigger] r@[i] == (#[trigger] items@[j]).0,
        forall|i1: int, i2: int| 0 <= i1 < i2 < r@.len() ==> exists|j1: int, j2: int|
            0 <= j1 < items@.len() && 0 <= j2 < items@.len() && j1 != j2 && #[trigger] r@[i1] == (
            #[trigger] items@[j1]).0 && #[trigger] r@[i2] == (#[trigger] items@[j2]).0,
{
    match rand::seq::SliceRandom::choose_multiple_weighted(
        items.as_slice(),
        rng,
        amount,
        |it: &((i32, i32), u32)| it.1,
    ) {
        Ok(iter) => iter.map(|it| it.0).collect(),
        Err(_) => Vec::new(),
    }
}

} // verus!

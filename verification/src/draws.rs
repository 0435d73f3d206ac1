//! Random draws from a seeded ChaCha8 generator, as the search makes them.
use rand::seq::SliceRandom;
use rand::{Rng, SeedableRng};
use rand_chacha::ChaCha8Rng;
use vstd::prelude::*;

verus! {

/// The seeded random number generator of the search; opaque here.
#[verifier::external_type_specification]
#[verifier::external_body]
pub struct ExChaCha8Rng(ChaCha8Rng);

/// One draw from the search's generator: what was asked and what came out.
pub enum Draw {
    /// `true` with a chance of the first number in the second.
    Ratio(u32, u32, bool),
    /// A value below the first number.
    Below(usize, usize),
    /// A value from the first number to the second, both included.
    Between(i32, i32, i32),
}

/// The generator of the search, with the record of the draws the library
/// made from it, in order.
pub struct SearchRng {
    pub rng: ChaCha8Rng,
    pub draws: Ghost<Seq<Draw>>,
}

impl SearchRng {
    /// A generator with no draw recorded yet.
    pub fn new(rng: ChaCha8Rng) -> (r: Self)
        ensures
            r.draws@ == Seq::<Draw>::empty(),
    {
        SearchRng { rng, draws: Ghost(Seq::empty()) }
    }
}

/// `Rng::gen_ratio`: `true` with a chance of `numerator` in `denominator`,
/// recorded as the next draw. rand documents, and its source shows, that the
/// result is always `true` when the two are equal and always `false` when
/// `numerator` is 0, and that it panics when `denominator` is 0 or below
/// `numerator`. Which value comes out otherwise depends on the generator's
/// state and is not stated.
#[verifier::external_body]
pub(crate) fn draw_ratio(rng: &mut SearchRng, numerator: u32, denominator: u32) -> (r: bool)
    requires
        0 < denominator,
        numerator <= denominator,
    ensures
        numerator == denominator ==> r,
        numerator == 0 ==> !r,
        final(rng).draws@ == old(rng).draws@.push(Draw::Ratio(numerator, denominator, r)),
{
    rng.rng.gen_ratio(numerator, denominator)
}

/// `Rng::gen_range` over `0..n`: a value below `n`, recorded as the next
/// draw; it panics on an empty range. Which value depends on the
/// generator's state.
#[verifier::external_body]
pub(crate) fn draw_below(rng: &mut SearchRng, n: usize) -> (r: usize)
    requires
        0 < n,
    ensures
        r < n,
        final(rng).draws@ == old(rng).draws@.push(Draw::Below(n, r)),
{
    rng.rng.gen_range(0..n)
}

/// `Rng::gen_range` over `low..=high` for `i32`: a value in the range,
/// recorded as the next draw; it panics on an empty range. Which value
/// depends on the generator's state.
#[verifier::external_body]
pub(crate) fn draw_i32_between(rng: &mut SearchRng, low: i32, high: i32) -> (r: i32)
    requires
        low <= high,
    ensures
        low <= r <= high,
        final(rng).draws@ == old(rng).draws@.push(Draw::Between(low, high, r)),
{
    rng.rng.gen_range(low..=high)
}

/// The order in which `SliceRandom::shuffle`, driven by a ChaCha8 generator
/// started with `SeedableRng::seed_from_u64(seed)`, leaves the values. Both
/// are deterministic: the order depends on the values and the seed alone.
pub uninterp spec fn seeded_order(values: Seq<usize>, seed: u64) -> Seq<usize>;

/// `SliceRandom::shuffle` with a ChaCha8 generator seeded by
/// `SeedableRng::seed_from_u64(seed)`: the values end in `seeded_order`, and
/// since the shuffle only swaps, none is added or lost. Which order that is
/// is not stated.
#[verifier::external_body]
pub(crate) fn seeded_shuffle(values: &mut Vec<usize>, seed: u64)
    ensures
        final(values)@ == seeded_order(old(values)@, seed),
        final(values)@.to_multiset() == old(values)@.to_multiset(),
{
    values.shuffle(&mut ChaCha8Rng::seed_from_u64(seed));
}

} // verus!

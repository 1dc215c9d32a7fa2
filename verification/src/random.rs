//! The random source of the generators: `rand`'s `SmallRng`, reached
//! through small trusted wrappers whose contracts state what holds of every
//! outcome.

use rand::rngs::SmallRng;
use rand::seq::IndexedRandom;
use rand::seq::SliceRandom;
use rand::Rng;
use rand::SeedableRng;
use vstd::prelude::*;

verus! {

/// `rand::rngs::SmallRng`, a small fast pseudo random generator.
#[verifier::external_type_specification]
#[verifier::external_body]
pub struct ExSmallRng(SmallRng);

/// Sum of the weights of a list of weighted options.
pub open spec fn total_weight<T>(options: Seq<(u32, T)>) -> int
    decreases options.len(),
{
    if options.len() == 0 {
        0
    } else {
        total_weight(options.drop_last()) + options.last().0
    }
}

/// `SeedableRng::seed_from_u64` for `SmallRng`: a fresh generator seeded
/// from `seed`. Nothing is stated of its state.
#[verifier::external_body]
pub(crate) fn seed_from_u64(seed: u64) -> SmallRng {
    SmallRng::seed_from_u64(seed)
}

/// `Rng::random::<u64>()`: any `u64`.
#[verifier::external_body]
pub(crate) fn random_u64(rng: &mut SmallRng) -> u64 {
    rng.random::<u64>()
}

/// `Rng::random::<bool>()`: either boolean.
#[verifier::external_body]
pub(crate) fn random_bool(rng: &mut SmallRng) -> bool {
    rng.random::<bool>()
}

/// `Rng::random_range(lo..=hi)` on `i32`: a value in the closed range
/// (`rand` panics on an empty range, which `requires` rules out).
#[verifier::external_body]
pub(crate) fn random_range_i32(rng: &mut SmallRng, lo: i32, hi: i32) -> (r: i32)
    requires
        lo <= hi,
    ensures
        lo <= r <= hi,
{
    rng.random_range(lo..=hi)
}

/// `Rng::random_range(lo..=hi)` on `u32`: a value in the closed range.
#[verifier::external_body]
pub(crate) fn random_range_u32(rng: &mut SmallRng, lo: u32, hi: u32) -> (r: u32)
    requires
        lo <= hi,
    ensures
        lo <= r <= hi,
{
    rng.random_range(lo..=hi)
}

/// `Rng::random_range(lo..hi)` on `u32`: a value in the half-open range.
#[verifier::external_body]
pub(crate) fn random_below_u32(rng: &mut SmallRng, lo: u32, hi: u32) -> (r: u32)
    requires
        lo < hi,
    ensures
        lo <= r < hi,
{
    rng.random_range(lo..hi)
}

/// `Rng::random_range(lo..=hi)` on `usize`: a value in the closed range.
#[verifier::external_body]
pub(crate) fn random_range_usize(rng: &mut SmallRng, lo: usize, hi: usize) -> (r: usize)
    requires
        lo <= hi,
    ensures
        lo <= r <= hi,
{
    rng.random_range(lo..=hi)
}

/// `Rng::random_ratio(numerator, denominator)`: `true` with that chance;
/// always `true` when the two are equal and always `false` when the
/// numerator is zero (`rand` panics on a zero denominator or a numerator
/// above it, which `requires` rules out).
#[verifier::external_body]
pub(crate) fn random_ratio(rng: &mut SmallRng, numerator: u32, denominator: u32) -> (r: bool)
    requires
        0 < denominator,
        numerator <= denominator,
    ensures
        numerator == denominator ==> r,
        numerator == 0 ==> !r,
{
    rng.random_ratio(numerator, denominator)
}

/// `IndexedRandom::choose_weighted` on a list of `(weight, option)` pairs,
/// weighted by the first component: an option of positive weight. `rand`
/// fails only on an empty list, a zero total or a total that overflows
/// `u32`; otherwise the result is `Some`.
#[verifier::external_body]
pub(crate) fn choose_weighted<T: Copy>(rng: &mut SmallRng, options: &Vec<(u32, T)>) -> (r: Option<T>)
    ensures
        r matches Some(t) ==> exists|i: int|
            0 <= i < options.len() && options@[i].1 == t && options@[i].0 > 0,
        (0 < total_weight(options@) <= u32::MAX) ==> r is Some,
{
    options.choose_weighted(rng, |o| o.0).ok().map(|o| o.1)
}

/// `SliceRandom::shuffle`: the same items in some order.
#[verifier::external_body]
pub(crate) fn shuffle<T>(rng: &mut SmallRng, items: &mut Vec<T>)
    ensures
        final(items)@.to_multiset() == old(items)@.to_multiset(),
{
    items.shuffle(rng)
}

} // verus!

verus! {

/// The total of weights that are each at most 1000 is at most 1000 times
/// their number, and it is at least any single weight.
pub proof fn lemma_total_weight_bounds<T>(options: Seq<(u32, T)>)
    requires
        forall|i: int| 0 <= i < options.len() ==> #[trigger] options[i].0 <= 1000,
    ensures
        0 <= total_weight(options) <= 1000 * options.len(),
        forall|i: int| 0 <= i < options.len() ==> #[trigger] options[i].0 <= total_weight(options),
    decreases options.len(),
{
    if options.len() > 0 {
        let rest = options.drop_last();
        assert forall|i: int| 0 <= i < rest.len() implies #[trigger] rest[i].0 <= 1000 by {
            assert(rest[i] == options[i]);
        }
        lemma_total_weight_bounds(rest);
        assert forall|i: int| 0 <= i < options.len() implies #[trigger] options[i].0 <= total_weight(
            options,
        ) by {
            if i < options.len() - 1 {
                assert(rest[i] == options[i]);
            }
        }
    }
}

/// Draws one of the options by weight: an option of positive weight.
pub(crate) fn pick<T: Copy>(rng: &mut SmallRng, options: &Vec<(u32, T)>) -> (t: T)
    requires
        options.len() <= 64,
        forall|i: int| 0 <= i < options.len() ==> #[trigger] options@[i].0 <= 1000,
        exists|i: int| 0 <= i < options.len() && #[trigger] options@[i].0 > 0,
    ensures
        exists|i: int| 0 <= i < options.len() && options@[i].1 == t && options@[i].0 > 0,
{
    proof {
        lemma_total_weight_bounds(options@);
    }
    let r = choose_weighted(rng, options);
    r.unwrap()
}

} // verus!

verus! {

/// `IndexedRandom::choose`: one of the items, and `None` only for an empty
/// list.
#[verifier::external_body]
pub(crate) fn choose_item<'a, T>(rng: &mut SmallRng, items: &'a Vec<T>) -> (r: Option<&'a T>)
    ensures
        r is Some <==> items.len() > 0,
        r matches Some(x) ==> exists|i: int| 0 <= i < items.len() && items@[i] == *x,
{
    items.choose(rng)
}

} // verus!

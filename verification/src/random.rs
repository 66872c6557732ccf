//! Sources of chance and of fresh identifiers.
//!
//! Every item here calls `rand` or `uuid`; nothing is promised of a result
//! beyond what holds of every draw.
use rand::seq::SliceRandom;
use rand::Rng;
use vstd::prelude::*;

verus! {

/// Identifiers of people, places, buildings and institutions.
pub type Id = u128;

/// `uuid::Uuid::new_v4`, taken as its 128-bit integer. Nothing is stated of
/// the value: it is random, and distinctness from earlier ids is not promised.
#[verifier::external_body]
pub(crate) fn new_id() -> (id: Id) {
    uuid::Uuid::new_v4().as_u128()
}

/// `rand::Rng::gen_range(0..bound)` on the thread generator: some index
/// below `bound` (the crate panics on an empty range, hence the `requires`).
#[verifier::external_body]
pub(crate) fn random_below(bound: usize) -> (r: usize)
    requires
        bound > 0,
    ensures
        r < bound,
{
    rand::thread_rng().gen_range(0..bound)
}

/// `rand::Rng::gen_ratio(numerator, denominator)` on the thread generator:
/// `true` with chance `numerator / denominator`. The crate documents that a
/// zero numerator always gives `false` and a numerator equal to the
/// denominator always gives `true`, and that it panics when the denominator
/// is zero or smaller than the numerator.
#[verifier::external_body]
pub(crate) fn random_ratio(numerator: u32, denominator: u32) -> (b: bool)
    requires
        0 < denominator,
        numerator <= denominator,
    ensures
        numerator == 0 ==> !b,
        numerator == denominator ==> b,
{
    rand::thread_rng().gen_ratio(numerator, denominator)
}

/// `rand::seq::SliceRandom::shuffle` on the thread generator: the vector is
/// permuted in place, so it holds the same items, each as often as before.
#[verifier::external_body]
pub(crate) fn shuffle<T>(v: &mut Vec<T>)
    ensures
        final(v)@.to_multiset() == old(v)@.to_multiset(),
{
    v.shuffle(&mut rand::thread_rng())
}

} // verus!

verus! {

/// `b` is a result that [`random_ratio`] gives for `numerator` in
/// `denominator`: the result of one of its draws.
pub closed spec fn ratio_drawn(numerator: u32, denominator: u32, b: bool) -> bool {
    call_ensures(random_ratio, (numerator, denominator), b)
}

/// `r` is a result that [`random_below`] gives for `bound`: the result of
/// one of its draws.
pub closed spec fn below_drawn(bound: usize, r: usize) -> bool {
    call_ensures(random_below, (bound,), r)
}

/// A result of a call of [`random_below`] is one of its draws (see
/// [`below_drawn`]).
pub(crate) proof fn lemma_below_drawn(bound: usize, r: usize)
    requires
        call_ensures(random_below, (bound,), r),
    ensures
        below_drawn(bound, r),
{
}

/// A result of a call of [`random_ratio`] is one of its draws (see
/// [`ratio_drawn`]).
pub(crate) proof fn lemma_ratio_drawn(numerator: u32, denominator: u32, b: bool)
    requires
        call_ensures(random_ratio, (numerator, denominator), b),
    ensures
        ratio_drawn(numerator, denominator, b),
{
}

} // verus!

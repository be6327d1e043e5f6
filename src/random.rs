//! The random draws that spawning makes, taken from `rand`.
use vstd::prelude::*;
use rand::rngs::ThreadRng;
use rand::seq::IteratorRandom;
use rand::Rng;

verus! {

#[verifier::external_type_specification]
#[verifier::external_body]
pub struct ExThreadRng(rand::rngs::ThreadRng);

/// Relies on rand::thread_rng: it hands out the generator of the current thread.
pub assume_specification[ rand::thread_rng ]() -> rand::rngs::ThreadRng;

/// Relies on rand's `IteratorRandom::choose`: it yields `None` exactly when the
/// iterator is empty, and otherwise one of its items.
#[verifier::external_body]
pub(crate) fn choose_slot(rng: &mut ThreadRng, slots: &Vec<usize>) -> (r: Option<usize>)
    ensures
        r is None <==> slots@.len() == 0,
        r matches Some(k) ==> slots@.contains(k),
{
    slots.iter().copied().choose(rng)
}

/// Relies on rand's `Rng::gen_ratio`: true with chance `numerator` in
/// `denominator`, always false for a zero numerator and always true for a
/// numerator equal to the denominator; it panics for a zero denominator or a
/// numerator above the denominator.
#[verifier::external_body]
pub(crate) fn chance(rng: &mut ThreadRng, numerator: u32, denominator: u32) -> (r: bool)
    requires
        0 < denominator,
        numerator <= denominator,
    ensures
        numerator == 0 ==> !r,
        numerator == denominator ==> r,
{
    rng.gen_ratio(numerator, denominator)
}

} // verus!

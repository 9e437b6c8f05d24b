use vstd::prelude::*;

use rand::rngs::ThreadRng;
use rand::seq::IndexedRandom;
use rand::seq::SliceRandom;
use rand::Rng;

verus! {

/// A random number generator owned by one unit of work.
#[verifier::external_type_specification]
#[verifier::external_body]
pub struct ExThreadRng(ThreadRng);

/// Relies on `rand::Rng::random_range`: a value drawn from `0..bound`. It
/// panics on an empty range, which `requires` leaves out.
#[verifier::external_body]
pub(crate) fn draw_below(rng: &mut ThreadRng, bound: u64) -> (r: u64)
    requires
        bound > 0,
    ensures
        r < bound,
{
    rng.random_range(0..bound)
}

/// Relies on `rand::seq::IndexedRandom::choose`: one element of the slice,
/// `None` only for an empty slice, which `requires` leaves out.
#[verifier::external_body]
pub(crate) fn choose_window(rng: &mut ThreadRng, windows: &Vec<(u64, u64)>) -> (r: (u64, u64))
    requires
        windows.len() > 0,
    ensures
        windows@.contains(r),
{
    *windows.as_slice().choose(rng).unwrap()
}

/// Relies on `rand::seq::SliceRandom::shuffle`: the same elements, reordered.
#[verifier::external_body]
pub(crate) fn shuffle_values(rng: &mut ThreadRng, v: &mut Vec<u64>)
    ensures
        final(v)@.to_multiset() == old(v)@.to_multiset(),
{
    v.as_mut_slice().shuffle(rng)
}

} // verus!

//! The source of randomness, behind contracts that hold of every draw.

use vstd::prelude::*;
use rand::Rng;

verus! {

/// The thread-local generator of the `rand` crate. Nothing is known of its
/// state.
#[verifier::external_type_specification]
#[verifier::external_body]
pub struct ExThreadRng(rand::rngs::ThreadRng);

/// Calls `rand::thread_rng`, which hands out the calling thread's generator,
/// seeded by the operating system on first use. Nothing is claimed of the
/// generator.
#[verifier::external_body]
pub(crate) fn thread_generator() -> rand::rngs::ThreadRng {
    rand::thread_rng()
}

/// Calls `Rng::gen_range` on the half-open range `0..bound`, which panics on
/// an empty range and otherwise returns a value inside the range. Which
/// value comes is not claimed.
#[verifier::external_body]
pub(crate) fn pick_below(rng: &mut rand::rngs::ThreadRng, bound: usize) -> (r: usize)
    requires
        bound > 0,
    ensures
        r < bound,
{
    rng.gen_range(0..bound)
}

} // verus!

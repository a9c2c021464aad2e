//! The source of randomness.
use vstd::prelude::*;

verus! {

/// Draws 32 bits from the calling thread's generator by `rand::random`.
/// The value differs from call to call and nothing is claimed of it. The
/// generator stops the program where the operating system cannot seed it.
#[verifier::external_body]
pub(crate) fn random_draw() -> (draw: u32) {
    rand::random::<u32>()
}

} // verus!

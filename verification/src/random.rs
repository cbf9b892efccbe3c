//! The source of chance: the thread-local generator of the `rand` crate.
//!
//! Nothing here is proved. The two items below state what the rest of the
//! crate may rely on when it draws a coordinate.

use rand::Rng;
use vstd::prelude::*;

verus! {

/// `rand::rngs::ThreadRng`, a handle to the generator of the current thread.
/// Its state is hidden from the proofs.
#[verifier::external_type_specification]
#[verifier::external_body]
pub struct ExThreadRng(rand::rngs::ThreadRng);

/// `rand::thread_rng` hands out the handle. Nothing is claimed of it.
pub assume_specification[ rand::thread_rng ]() -> (rng: rand::rngs::ThreadRng);

/// `Rng::gen_range` on the half-open range `low..high`.
///
/// The call panics on an empty range, so `low < high` is demanded. Which
/// number comes back is not known; it is claimed only that it lies in the
/// range, the lower bound included and the upper bound not.
#[verifier::external_body]
pub(crate) fn gen_range(rng: &mut rand::rngs::ThreadRng, low: i32, high: i32) -> (n: i32)
    requires
        low < high,
    ensures
        low <= n < high,
{
    rng.gen_range(low..high)
}

} // verus!

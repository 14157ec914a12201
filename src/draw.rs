//! The one source of chance: a uniform draw of a distance on the wheel.

use vstd::prelude::*;

verus! {

/// Relies on `rand::Rng::gen_range` over the thread-local generator
/// (`rand::thread_rng`): a value drawn uniformly from `0..high`, which lies
/// in that range; it panics on an empty range, which `requires` leaves out.
#[verifier::external_body]
pub(crate) fn draw_below(high: u64) -> (r: u64)
    requires
        high > 0,
    ensures
        r < high,
{
    rand::Rng::gen_range(&mut rand::thread_rng(), 0..high)
}

} // verus!

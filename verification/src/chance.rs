//! The source of randomness: draws from the generator of the current
//! thread.

use rand::Rng;
use vstd::prelude::*;

verus! {

/// Draws a number from `low` up to, but not including, `high`.
///
/// Calls `rand::Rng::gen_range` on the generator of the current thread
/// (`rand::thread_rng`). Nothing is proved of this function: that the
/// number drawn lies in `[low, high)` is taken from the sampling code of
/// `rand`, which adds a remainder modulo `high - low` to `low`. Which number
/// of the range is drawn is left open, and two draws may differ. The call
/// asserts `low < high`, hence the precondition. It does not return where
/// the system has no entropy to seed the generator with.
#[verifier::external_body]
pub(crate) fn sample_range(low: usize, high: usize) -> (drawn: usize)
    requires
        low < high,
    ensures
        low <= drawn < high,
{
    rand::thread_rng().gen_range(low, high)
}

/// Tosses a coin.
///
/// Calls `rand::Rng::gen` for a `bool` on the generator of the current
/// thread (`rand::thread_rng`). Nothing is proved of this function, and
/// nothing is claimed of its result: either answer may come, and two
/// tosses may differ. It does not return where the system has no entropy
/// to seed the generator with.
#[verifier::external_body]
pub(crate) fn toss() -> bool {
    rand::thread_rng().gen::<bool>()
}

/// A number of percent points, drawn anew on every call: `0` to `99`.
pub fn draw_percent() -> (drawn: usize)
    ensures
        drawn < 100,
{
    sample_range(0, 100)
}

/// Whether an event with the given chance in percent happens when `drawn`
/// is the number drawn for it out of `0` to `99`: a chance of 0 never
/// happens, a chance of 100 or more always.
pub fn happens(chance: usize, drawn: usize) -> (yes: bool)
    ensures
        yes == (drawn < chance),
{
    drawn < chance
}

} // verus!

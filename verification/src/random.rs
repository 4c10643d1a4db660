//! The one source of chance in the games.

use rand::Rng;
use vstd::prelude::*;

verus! {

/// Draws an integer from the half-open range `low..high`.
///
/// The body calls `rand::Rng::gen_range` on the generator that
/// `rand::thread_rng` returns. Nothing is proved about it; the contract
/// records what that method documents: it panics on an empty range, which the
/// precondition rules out, and otherwise returns a value inside the range.
/// Which value is deliberately left open.
#[verifier::external_body]
pub(crate) fn random_in_range(low: i64, high: i64) -> (drawn: i64)
    requires
        low < high,
    ensures
        low <= drawn < high,
{
    rand::thread_rng().gen_range(low..high)
}

} // verus!

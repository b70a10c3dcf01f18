//! The one source of chance that the game draws on.

use vstd::prelude::*;

verus! {

/// Draws `amount` distinct indices below `length` with
/// `rand::seq::index::sample`, on the thread-local generator that
/// `rand::rng` hands out, and returns the one at `position` of the draw
/// (`IndexVec::index`).
///
/// Not proved: `sample` returns exactly `amount` indices, each below
/// `length`, so the one at a `position` below `amount` exists and is below
/// `length`. Which index comes back is up to chance, and nothing is claimed
/// of it.
///
/// The precondition leaves out the arguments on which the call panics.
/// `sample` panics when `amount` exceeds `length`. For a `length` that does
/// not fit in 32 bits it always samples by rejection, which asserts in debug
/// builds that `amount` is strictly below `length`; up to that size it only
/// does so where `amount` is far below `length`. `index` panics when
/// `position` is out of bounds.
///
/// The generator is seeded from the operating system when a thread first
/// uses it and again after a fixed amount of output; `rand::rng` and the draw
/// panic should that fail, whatever the arguments.
#[verifier::external_body]
pub(crate) fn sample_index(length: usize, amount: usize, position: usize) -> (index: usize)
    requires
        length <= u32::MAX,
        amount <= length,
        position < amount,
    ensures
        index < length,
{
    rand::seq::index::sample(&mut rand::rng(), length, amount).index(position)
}

} // verus!

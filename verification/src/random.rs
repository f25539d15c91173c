//! The one source of chance of the game.

use rand::Rng;
use vstd::prelude::*;

verus! {

/// Draws an index below `len` from the thread's random number generator, by
/// `rand::thread_rng` and `rand::Rng::gen_range` on the range from 0 up to
/// but not including `len`. Nothing is proved of this function. Its contract
/// claims what `gen_range` documents: on a range that is not empty it
/// returns a value inside the range. Which value is a matter of chance, so
/// two calls may differ. An empty range makes `gen_range` panic and is
/// excluded. `thread_rng` panics where the operating system hands out no
/// seed.
#[verifier::external_body]
pub(crate) fn random_index(len: usize) -> (index: usize)
    requires
        len > 0,
    ensures
        index < len,
{
    rand::thread_rng().gen_range(0..len)
}

} // verus!

//! The random numbers the game draws on, supplied from outside.

use vstd::prelude::*;

verus! {

/// A source of uniformly distributed unsigned numbers. The game only takes
/// remainders of what it draws and assumes nothing else of the values.
pub trait RandomSource {
    fn next_random(&mut self) -> usize;
}

} // verus!

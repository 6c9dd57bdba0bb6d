//! Settings of the real-time subgame solver used on the turn and river.

use vstd::prelude::*;

verus! {

pub struct SubgameSolver {
    pub num_iterations: usize,
}

impl SubgameSolver {
    /// A solver running `num_iterations` local iterations per decision.
    pub fn new(num_iterations: usize) -> (s: Self)
        ensures
            s.num_iterations == num_iterations,
    {
        SubgameSolver { num_iterations }
    }
}

} // verus!

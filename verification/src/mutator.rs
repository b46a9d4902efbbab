use vstd::prelude::*;

verus! {

/// Responsible for mutation of solutions in order to maintain genetic
/// diversity of a population.
pub trait Mutator<T> {
    /// Mutates a solution in place.
    fn mutate(&mut self, solution: &mut T);
}

} // verus!

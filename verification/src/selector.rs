use vstd::prelude::*;

verus! {

/// Responsible for selecting solutions for the breeding stage.
pub trait Selector<T> {
    /// Selects solutions from the given population to procreate the next
    /// generation from. The population is the current archive, which holds
    /// the best known solutions.
    fn select<'a>(&mut self, population: &[&'a T]) -> Vec<&'a T>;
}

} // verus!

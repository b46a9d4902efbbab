use vstd::prelude::*;

verus! {

/// Represents an objective that solutions should converge on.
pub trait Objective<S> {
    /// Tests how close the given solution is to the goal. The target score
    /// of an objective is 0. A score can be negative, only its distance to
    /// 0 matters. Scores are fixed-point integers at a caller-chosen scale.
    fn test(&mut self, solution: &S) -> i32;
}

/// Contains the objectives of one optimization run.
pub struct Objectives<O>(pub Vec<O>);

impl<O> Objectives<O> {
    /// Tests each objective and returns the vector of resulting scores,
    /// one per objective, in objective order.
    pub fn test_each<S>(&mut self, solution: &S) -> (r: Vec<i32>) where O: Objective<S>
        ensures
            r@.len() == old(self).0@.len(),
            final(self).0@.len() == old(self).0@.len(),
    {
        let n = self.0.len();
        let mut scores: Vec<i32> = Vec::new();
        let mut i: usize = 0;
        while i < n
            invariant
                i <= n,
                self.0@.len() == n,
                scores@.len() == i,
            decreases n - i,
        {
            let s = self.0[i].test(solution);
            scores.push(s);
            i += 1;
        }
        scores
    }
}

} // verus!

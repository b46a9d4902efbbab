use vstd::prelude::*;

verus! {

/// Responsible for stopping the genetic algorithm loop.
pub trait Terminator<T> {
    /// Returns `true` if the termination condition is met. The solutions
    /// handed in are the current archive's.
    fn terminate(&mut self, solutions: &[&T]) -> bool;
}

/// Terminates the algorithm after a fixed number of generations.
pub struct Generations {
    generations: u32,
}

impl Generations {
    /// How many more generations this terminator allows.
    pub closed spec fn remaining(&self) -> u32 {
        self.generations
    }

    /// Creates a `Generations` terminator.
    pub fn new(generations: u32) -> (r: Self)
        ensures
            r.remaining() == generations,
    {
        Generations { generations }
    }
}

impl<T> Terminator<T> for Generations {
    /// Answers `false` and counts down while generations remain; once the
    /// count has reached 0 it stays there and every answer is `true`. The
    /// solutions handed in play no part.
    fn terminate(&mut self, _solutions: &[&T]) -> (r: bool)
        ensures
            r == (old(self).remaining() == 0),
            old(self).remaining() > 0 ==> final(self).remaining() == old(self).remaining() - 1,
            old(self).remaining() == 0 ==> final(self).remaining() == 0,
    {
        if self.generations == 0 {
            true
        } else {
            self.generations = self.generations - 1;
            false
        }
    }
}

} // verus!

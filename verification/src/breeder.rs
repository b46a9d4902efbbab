use vstd::prelude::*;

verus! {

/// Responsible for creating offspring solutions by combining existing
/// solutions.
pub trait Breeder<T> {
    /// Combines genes of existing solutions and returns a generated set of
    /// solutions.
    fn breed(&self, population: &[&T]) -> Vec<T>;
}

/// A crossover operator over a single pair of parents.
pub trait BinaryCrossover<T> {
    fn recombine(&self, a: &T, b: &T) -> T;
}

/// Offspring bred after the first `i` of `n` parents have each been
/// recombined with themselves and with every later parent.
pub open spec fn bred_count(n: int, i: int) -> int
    decreases i,
{
    if i <= 0 {
        0
    } else {
        bred_count(n, i - 1) + (n - (i - 1))
    }
}

/// Number of offspring bred from `n` parents when every parent up to the
/// next-to-last is recombined with itself and with every later parent.
pub open spec fn pair_count(n: int) -> int {
    bred_count(n, n - 1)
}

/// Breeds offspring from a population by recombining every parent up to
/// the next-to-last with itself and with every later parent.
pub fn breed_pairs<T, C: BinaryCrossover<T>>(crossover: &C, population: &[&T]) -> (r: Vec<T>)
    requires
        population@.len() >= 1,
    ensures
        r@.len() == pair_count(population@.len() as int),
{
    let n = population.len();
    let mut out: Vec<T> = Vec::new();
    let mut i: usize = 0;
    while i < n - 1
        invariant
            n == population@.len(),
            n >= 1,
            i <= n - 1,
            out@.len() == bred_count(n as int, i as int),
        decreases n - 1 - i,
    {
        let mut j: usize = i;
        while j < n
            invariant
                n == population@.len(),
                i < n,
                i <= j <= n,
                out@.len() == bred_count(n as int, i as int) + (j - i),
            decreases n - j,
        {
            let child = crossover.recombine(population[i], population[j]);
            out.push(child);
            j += 1;
        }
        i += 1;
    }
    out
}

} // verus!

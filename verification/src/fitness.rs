use vstd::prelude::*;

use crate::scores::{dominance, ObjScores};

verus! {

/// One candidate solution together with its cached metadata.
///
/// `scores` is evaluated once per generation and cached. `raw_fitness` and
/// `kth_distance` are recomputed from scratch by every selection step;
/// until then they hold sentinel values (`u128::MAX` and `0`).
pub struct SolutionData<U> {
    pub solution: U,
    pub scores: ObjScores,
    /// Sum of the strengths of every solution that dominates this one.
    /// 0 means the solution is non-dominated within its set.
    pub raw_fitness: u128,
    /// Squared distance to the k-th nearest neighbour in objective space.
    /// A larger value means a less crowded region, which is better.
    pub kth_distance: u128,
}

impl<U> SolutionData<U> {
    /// Wraps a fresh solution: no scores yet, sentinel fitness metadata.
    pub fn new(solution: U) -> (r: Self)
        ensures
            r.solution == solution,
            r.scores@ == Seq::<i32>::empty(),
            r.raw_fitness == u128::MAX,
            r.kth_distance == 0,
    {
        SolutionData {
            solution,
            scores: ObjScores(Vec::new()),
            raw_fitness: u128::MAX,
            kth_distance: 0,
        }
    }
}

/// Every record is fresh and unscored: empty score vector and sentinel
/// fitness metadata, as `SolutionData::new` makes them.
pub open spec fn fresh_records<U>(s: Seq<SolutionData<U>>) -> bool {
    forall|i: int|
        0 <= i < s.len() ==> {
            &&& (#[trigger] s[i]).scores@ == Seq::<i32>::empty()
            &&& s[i].raw_fitness == u128::MAX
            &&& s[i].kth_distance == 0
        }
}

/// Projection from a record to its solution.
pub open spec fn solution_fn<U>() -> spec_fn(SolutionData<U>) -> U {
    |r: SolutionData<U>| r.solution
}

/// The solutions of a set of records, in record order.
pub open spec fn solutions_of<U>(s: Seq<SolutionData<U>>) -> Seq<U> {
    s.map_values(solution_fn::<U>())
}

/// Projection from a record to its score vector.
pub open spec fn score_fn<U>() -> spec_fn(SolutionData<U>) -> Seq<i32> {
    |r: SolutionData<U>| r.scores@
}

/// The score vectors of a set of records, in record order.
pub open spec fn scores_of<U>(s: Seq<SolutionData<U>>) -> Seq<Seq<i32>> {
    s.map_values(score_fn::<U>())
}

/// All records carry score vectors of one shared length.
pub open spec fn uniform_scores<U>(s: Seq<SolutionData<U>>) -> bool {
    forall|i: int, j: int|
        0 <= i < s.len() && 0 <= j < s.len() ==> (#[trigger] s[i].scores@).len()
            == (#[trigger] s[j].scores@).len()
}

/// How many of the first `n` score vectors `me` dominates.
pub open spec fn strength_upto(all: Seq<Seq<i32>>, me: Seq<i32>, n: int) -> int
    decreases n,
{
    if n <= 0 {
        0
    } else {
        strength_upto(all, me, n - 1) + if dominance(me, all[n - 1]) == core::cmp::Ordering::Less {
            1int
        } else {
            0int
        }
    }
}

/// Strength of solution `i`: the number of solutions it dominates.
pub open spec fn strength(all: Seq<Seq<i32>>, i: int) -> int {
    strength_upto(all, all[i], all.len() as int)
}

/// Sum of the strengths of the dominators of `me` among the first `n`
/// score vectors.
pub open spec fn raw_upto(all: Seq<Seq<i32>>, me: Seq<i32>, n: int) -> int
    decreases n,
{
    if n <= 0 {
        0
    } else {
        raw_upto(all, me, n - 1) + if dominance(all[n - 1], me) == core::cmp::Ordering::Less {
            strength(all, n - 1)
        } else {
            0int
        }
    }
}

/// Raw fitness of solution `i`: the sum of the strengths of every solution
/// that dominates it. 0 exactly when nothing dominates it.
pub open spec fn raw_fitness(all: Seq<Seq<i32>>, i: int) -> int {
    raw_upto(all, all[i], all.len() as int)
}

pub proof fn lemma_strength_upto_bounds(all: Seq<Seq<i32>>, me: Seq<i32>, n: int)
    requires
        n >= 0,
    ensures
        0 <= strength_upto(all, me, n) <= n,
    decreases n,
{
    if n > 0 {
        lemma_strength_upto_bounds(all, me, n - 1);
    }
}

pub proof fn lemma_raw_upto_bounds(all: Seq<Seq<i32>>, me: Seq<i32>, n: int)
    requires
        n >= 0,
    ensures
        0 <= raw_upto(all, me, n) <= n * all.len(),
    decreases n,
{
    if n > 0 {
        lemma_raw_upto_bounds(all, me, n - 1);
        lemma_strength_upto_bounds(all, all[n - 1], all.len() as int);
        assert((n - 1) * all.len() + all.len() == n * all.len()) by (nonlinear_arith);
    } else {
        assert(n * all.len() == 0) by (nonlinear_arith)
            requires
                n == 0,
        ;
    }
}

proof fn lemma_strength_upto_witness(all: Seq<Seq<i32>>, me: Seq<i32>, n: int, w: int)
    requires
        0 <= w < n,
        dominance(me, all[w]) == core::cmp::Ordering::Less,
    ensures
        strength_upto(all, me, n) >= 1,
    decreases n,
{
    lemma_strength_upto_bounds(all, me, n - 1);
    if w < n - 1 {
        lemma_strength_upto_witness(all, me, n - 1, w);
    }
}

proof fn lemma_raw_upto_witness(all: Seq<Seq<i32>>, me: Seq<i32>, n: int, w: int)
    requires
        0 <= w < n,
        dominance(all[w], me) == core::cmp::Ordering::Less,
    ensures
        raw_upto(all, me, n) >= strength(all, w),
    decreases n,
{
    if w < n - 1 {
        lemma_raw_upto_witness(all, me, n - 1, w);
        lemma_strength_upto_bounds(all, all[n - 1], all.len() as int);
    } else {
        lemma_raw_upto_bounds(all, me, n - 1);
    }
}

proof fn lemma_raw_upto_no_dominator(all: Seq<Seq<i32>>, me: Seq<i32>, n: int)
    requires
        forall|j: int| 0 <= j < n ==> dominance(#[trigger] all[j], me) != core::cmp::Ordering::Less,
    ensures
        raw_upto(all, me, n) == 0,
    decreases n,
{
    if n > 0 {
        lemma_raw_upto_no_dominator(all, me, n - 1);
    }
}

/// A solution's raw fitness is 0 exactly when no solution in the set
/// dominates it: the raw-fitness cutoff below 1 singles out the
/// non-dominated front.
pub proof fn lemma_raw_fitness_zero_iff_nondominated(all: Seq<Seq<i32>>, i: int)
    requires
        0 <= i < all.len(),
    ensures
        raw_fitness(all, i) == 0 <==> (forall|j: int|
            0 <= j < all.len() ==> dominance(#[trigger] all[j], all[i])
                != core::cmp::Ordering::Less),
{
    if forall|j: int|
        0 <= j < all.len() ==> dominance(#[trigger] all[j], all[i]) != core::cmp::Ordering::Less {
        lemma_raw_upto_no_dominator(all, all[i], all.len() as int);
    } else {
        let w = choose|j: int|
            0 <= j < all.len() && dominance(#[trigger] all[j], all[i])
                == core::cmp::Ordering::Less;
        lemma_raw_upto_witness(all, all[i], all.len() as int, w);
        lemma_strength_upto_witness(all, all[w], all.len() as int, i);
    }
}

/// Computes the SPEA2 strength of each record and, from those, each
/// record's raw fitness, writing the values into `raw_fitness`. Every
/// other field is left as it was.
pub fn assign_raw_fitness<U>(records: &mut Vec<SolutionData<U>>)
    requires
        uniform_scores(old(records)@),
    ensures
        final(records)@.len() == old(records)@.len(),
        forall|i: int|
            0 <= i < old(records)@.len() ==> {
                &&& (#[trigger] final(records)@[i]).solution == old(records)@[i].solution
                &&& final(records)@[i].scores == old(records)@[i].scores
                &&& final(records)@[i].kth_distance == old(records)@[i].kth_distance
                &&& final(records)@[i].raw_fitness == raw_fitness(scores_of(old(records)@), i)
            },
{
    let ghost orig = records@;
    let ghost all = scores_of(orig);
    let n = records.len();
    assert(all.len() == n);

    let mut strengths: Vec<u128> = Vec::new();
    let mut i: usize = 0;
    while i < n
        invariant
            i <= n,
            records@ == orig,
            n == orig.len(),
            all == scores_of(orig),
            uniform_scores(orig),
            strengths@.len() == i,
            forall|t: int| 0 <= t < i ==> #[trigger] strengths@[t] == strength(all, t),
        decreases n - i,
    {
        let mut s: u128 = 0;
        let mut j: usize = 0;
        while j < n
            invariant
                j <= n,
                i < n,
                records@ == orig,
                n == orig.len(),
                all == scores_of(orig),
                uniform_scores(orig),
                s == strength_upto(all, all[i as int], j as int),
                s <= j,
            decreases n - j,
        {
            assert(all[i as int] == records@[i as int].scores@);
            assert(all[j as int] == records@[j as int].scores@);
            let ord = records[i].scores.pareto_dominance_ord(&records[j].scores);
            if matches!(ord, core::cmp::Ordering::Less) {
                s = s + 1;
            }
            j += 1;
        }
        strengths.push(s);
        i += 1;
    }

    let mut raws: Vec<u128> = Vec::new();
    let mut i: usize = 0;
    while i < n
        invariant
            i <= n,
            records@ == orig,
            n == orig.len(),
            all == scores_of(orig),
            uniform_scores(orig),
            strengths@.len() == n,
            forall|t: int| 0 <= t < n ==> #[trigger] strengths@[t] == strength(all, t),
            raws@.len() == i,
            forall|t: int| 0 <= t < i ==> #[trigger] raws@[t] == raw_fitness(all, t),
        decreases n - i,
    {
        let mut r: u128 = 0;
        let mut j: usize = 0;
        while j < n
            invariant
                j <= n,
                i < n,
                records@ == orig,
                n == orig.len(),
                all == scores_of(orig),
                uniform_scores(orig),
                strengths@.len() == n,
                forall|t: int| 0 <= t < n ==> #[trigger] strengths@[t] == strength(all, t),
                r == raw_upto(all, all[i as int], j as int),
                r <= (j as int) * (n as int),
            decreases n - j,
        {
            assert(all[i as int] == records@[i as int].scores@);
            assert(all[j as int] == records@[j as int].scores@);
            let ord = records[j].scores.pareto_dominance_ord(&records[i].scores);
            if matches!(ord, core::cmp::Ordering::Less) {
                proof {
                    lemma_strength_upto_bounds(all, all[j as int], n as int);
                    assert((j as int) * (n as int) + (n as int) == (j as int + 1) * (n as int))
                        by (nonlinear_arith);
                    assert((j as int + 1) * (n as int) <= (n as int) * (n as int))
                        by (nonlinear_arith)
                        requires
                            0 <= j as int + 1 <= n as int,
                    ;
                    assert((n as int) * (n as int) <= 0xFFFF_FFFF_FFFF_FFFFu64 as int
                        * 0xFFFF_FFFF_FFFF_FFFFu64 as int) by (nonlinear_arith)
                        requires
                            0 <= n as int <= 0xFFFF_FFFF_FFFF_FFFFu64 as int,
                    ;
                }
                r = r + strengths[j];
            } else {
                proof {
                    assert((j as int) * (n as int) + (n as int) == (j as int + 1) * (n as int))
                        by (nonlinear_arith);
                    assert((j as int) * (n as int) <= (j as int + 1) * (n as int))
                        by (nonlinear_arith)
                            requires 0 <= j as int, 0 <= n as int,
                    ;
                }
            }
            j += 1;
        }
        raws.push(r);
        i += 1;
    }

    let mut i: usize = 0;
    while i < n
        invariant
            i <= n,
            records@.len() == n,
            n == orig.len(),
            raws@.len() == n,
            forall|t: int| 0 <= t < n ==> #[trigger] raws@[t] == raw_fitness(all, t),
            all == scores_of(orig),
            forall|t: int| i <= t < n ==> #[trigger] records@[t] == orig[t],
            forall|t: int|
                0 <= t < i ==> {
                    &&& (#[trigger] records@[t]).solution == orig[t].solution
                    &&& records@[t].scores == orig[t].scores
                    &&& records@[t].kth_distance == orig[t].kth_distance
                    &&& records@[t].raw_fitness == raw_fitness(all, t)
                },
        decreases n - i,
    {
        records[i].raw_fitness = raws[i];
        i += 1;
    }
}

} // verus!

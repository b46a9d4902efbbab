use vstd::prelude::*;

verus! {

/// Objective scores of one solution, one entry per objective.
///
/// A score of 0 is an objective's ideal; only the distance from 0 matters,
/// so every comparison goes by absolute value. Scores are fixed-point
/// integers: the caller picks the scale and uses it consistently.
pub struct ObjScores(pub Vec<i32>);

impl View for ObjScores {
    type V = Seq<i32>;

    open spec fn view(&self) -> Seq<i32> {
        self.0@
    }
}

/// Absolute value of a mathematical integer.
pub open spec fn abs_val(x: int) -> int {
    if x < 0 {
        -x
    } else {
        x
    }
}

/// Every objective of `a` is at least as good as (no farther from 0 than)
/// the matching objective of `b`.
pub open spec fn all_le(a: Seq<i32>, b: Seq<i32>) -> bool {
    forall|i: int|
        0 <= i < a.len() ==> abs_val(#[trigger] a[i] as int) <= abs_val(b[i] as int)
}

/// Some objective of `a` is strictly better than the matching objective of `b`.
pub open spec fn some_lt(a: Seq<i32>, b: Seq<i32>) -> bool {
    exists|i: int|
        0 <= i < a.len() && abs_val(#[trigger] a[i] as int) < abs_val(b[i] as int)
}

/// Pareto dominance: `a` is at least as good as `b` in every objective and
/// strictly better in at least one.
pub open spec fn dominates(a: Seq<i32>, b: Seq<i32>) -> bool {
    all_le(a, b) && some_lt(a, b)
}

/// Pareto dominance ordering of two score vectors of equal length:
/// `Less` when `a` dominates `b`, `Greater` when `b` dominates `a`,
/// `Equal` for true ties and for mutually non-dominated pairs.
pub open spec fn dominance(a: Seq<i32>, b: Seq<i32>) -> core::cmp::Ordering {
    if dominates(a, b) {
        core::cmp::Ordering::Less
    } else if dominates(b, a) {
        core::cmp::Ordering::Greater
    } else {
        core::cmp::Ordering::Equal
    }
}

/// Square of a mathematical integer.
pub open spec fn sq(x: int) -> int {
    x * x
}

/// Sum of squared per-objective differences over the first `n` objectives.
pub open spec fn dist_upto(a: Seq<i32>, b: Seq<i32>, n: int) -> int
    decreases n,
{
    if n <= 0 {
        0
    } else {
        dist_upto(a, b, n - 1) + sq(a[n - 1] as int - b[n - 1] as int)
    }
}

/// Squared Euclidean distance between two score vectors of equal length.
pub open spec fn dist(a: Seq<i32>, b: Seq<i32>) -> int {
    dist_upto(a, b, a.len() as int)
}

/// Absolute value of a score, widened so that `i32::MIN` poses no trouble.
fn abs_score(x: i32) -> (r: i64)
    ensures
        r == abs_val(x as int),
{
    let v = x as i64;
    if v < 0 {
        -v
    } else {
        v
    }
}

impl ObjScores {
    /// Pareto dominance ordering. Returns
    /// - `Less` if `self` dominates `other`
    /// - `Greater` if `other` dominates `self`
    /// - `Equal` otherwise
    pub fn pareto_dominance_ord(&self, other: &Self) -> (r: core::cmp::Ordering)
        requires
            self@.len() == other@.len(),
        ensures
            r == dominance(self@, other@),
    {
        let n = self.0.len();
        let mut any_lt = false;
        let mut any_gt = false;
        let mut i: usize = 0;
        while i < n
            invariant
                i <= n,
                n == self@.len(),
                n == other@.len(),
                any_lt <==> exists|j: int|
                    0 <= j < i && abs_val(#[trigger] self@[j] as int) < abs_val(other@[j] as int),
                any_gt <==> exists|j: int|
                    0 <= j < i && abs_val(#[trigger] self@[j] as int) > abs_val(other@[j] as int),
            decreases n - i,
        {
            let a = abs_score(self.0[i]);
            let b = abs_score(other.0[i]);
            if a < b {
                any_lt = true;
            } else if a > b {
                any_gt = true;
            }
            i += 1;
        }
        if any_lt && !any_gt {
            core::cmp::Ordering::Less
        } else if any_gt && !any_lt {
            core::cmp::Ordering::Greater
        } else {
            core::cmp::Ordering::Equal
        }
    }

    /// Squared Euclidean distance between two score vectors: the sum of
    /// squared per-objective differences, with no square root taken.
    pub fn distance(&self, other: &Self) -> (r: u128)
        requires
            self@.len() == other@.len(),
        ensures
            r == dist(self@, other@),
    {
        let n = self.0.len();
        let mut total: u128 = 0;
        let mut i: usize = 0;
        while i < n
            invariant
                i <= n,
                n == self@.len(),
                n == other@.len(),
                total == dist_upto(self@, other@, i as int),
                total <= (i as int) * 0xFFFF_FFFE_0000_0001,
            decreases n - i,
        {
            let d: i64 = (self.0[i] as i64) - (other.0[i] as i64);
            assert(0 <= (d as int) * (d as int) <= 0xFFFF_FFFE_0000_0001) by (nonlinear_arith)
                requires
                    -0xFFFF_FFFF <= d <= 0xFFFF_FFFF,
            ;
            let sq_d: i128 = (d as i128) * (d as i128);
            assert(sq_d == sq(self@[i as int] as int - other@[i as int] as int));
            assert((i as int + 1) * 0xFFFF_FFFE_0000_0001 <= 0xFFFF_FFFF_FFFF_FFFFi128 as int
                * 0xFFFF_FFFE_0000_0001) by (nonlinear_arith)
                requires
                    0 <= i as int + 1 <= 0xFFFF_FFFF_FFFF_FFFFi128 as int,
            ;
            total = total + (sq_d as u128);
            i += 1;
        }
        total
    }
}

/// Comparing a score vector with itself yields `Equal`: nothing dominates
/// itself.
pub proof fn lemma_dominance_self(a: Seq<i32>)
    ensures
        dominance(a, a) == core::cmp::Ordering::Equal,
{
    assert(!some_lt(a, a));
}

/// The orderings of a pair and of the swapped pair are exact inverses:
/// `Less` one way means `Greater` the other way, and `Equal` is symmetric.
pub proof fn lemma_dominance_antisymmetric(a: Seq<i32>, b: Seq<i32>)
    requires
        a.len() == b.len(),
    ensures
        dominance(a, b) == core::cmp::Ordering::Less <==> dominance(b, a)
            == core::cmp::Ordering::Greater,
        dominance(a, b) == core::cmp::Ordering::Greater <==> dominance(b, a)
            == core::cmp::Ordering::Less,
        dominance(a, b) == core::cmp::Ordering::Equal <==> dominance(b, a)
            == core::cmp::Ordering::Equal,
{
    assert(dominates(a, b) ==> !dominates(b, a));
    assert(dominates(b, a) ==> !dominates(a, b));
}

/// The distance metric is symmetric.
pub proof fn lemma_dist_symmetric(a: Seq<i32>, b: Seq<i32>)
    requires
        a.len() == b.len(),
    ensures
        dist(a, b) == dist(b, a),
{
    lemma_dist_upto_symmetric(a, b, a.len() as int);
}

proof fn lemma_dist_upto_symmetric(a: Seq<i32>, b: Seq<i32>, n: int)
    ensures
        dist_upto(a, b, n) == dist_upto(b, a, n),
    decreases n,
{
    if n > 0 {
        lemma_dist_upto_symmetric(a, b, n - 1);
        let x = a[n - 1] as int;
        let y = b[n - 1] as int;
        assert(sq(x - y) == sq(y - x)) by (nonlinear_arith);
    }
}

/// The distance from a score vector to itself is 0.
pub proof fn lemma_dist_self(a: Seq<i32>)
    ensures
        dist(a, a) == 0,
{
    lemma_dist_upto_self(a, a.len() as int);
}

proof fn lemma_dist_upto_self(a: Seq<i32>, n: int)
    ensures
        dist_upto(a, a, n) == 0,
    decreases n,
{
    if n > 0 {
        lemma_dist_upto_self(a, n - 1);
    }
}

} // verus!

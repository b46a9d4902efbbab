use vstd::prelude::*;

use crate::fitness::{scores_of, uniform_scores, SolutionData};
use crate::multiset_facts::{
    lemma_insert_to_multiset, lemma_map_values_permutation, lemma_remove_insert_id,
};
use crate::scores::dist;

verus! {

/// Floor of the square root of a non-negative integer.
pub open spec fn sqrt_floor(n: int) -> int
    decreases n,
{
    if n <= 0 {
        0
    } else {
        let s = sqrt_floor(n - 1);
        if (s + 1) * (s + 1) <= n {
            s + 1
        } else {
            s
        }
    }
}

pub proof fn lemma_sqrt_floor_bounds(n: int)
    requires
        n >= 0,
    ensures
        sqrt_floor(n) >= 0,
        sqrt_floor(n) * sqrt_floor(n) <= n,
        n < (sqrt_floor(n) + 1) * (sqrt_floor(n) + 1),
    decreases n,
{
    if n > 0 {
        lemma_sqrt_floor_bounds(n - 1);
        let s = sqrt_floor(n - 1);
        if (s + 1) * (s + 1) <= n {
            assert(n < (s + 2) * (s + 2)) by (nonlinear_arith)
                requires
                    s >= 0,
                    n - 1 < (s + 1) * (s + 1),
            ;
        }
    }
}

proof fn lemma_sqrt_floor_unique(n: int, a: int)
    requires
        n >= 0,
        a >= 0,
        a * a <= n,
        n < (a + 1) * (a + 1),
    ensures
        a == sqrt_floor(n),
{
    lemma_sqrt_floor_bounds(n);
    let s = sqrt_floor(n);
    if a < s {
        assert((a + 1) * (a + 1) <= s * s) by (nonlinear_arith)
            requires
                0 <= a + 1 <= s,
        ;
        assert(false);
    }
    if s < a {
        assert((s + 1) * (s + 1) <= a * a) by (nonlinear_arith)
            requires
                0 <= s + 1 <= a,
        ;
        assert(false);
    }
}

/// Integer square root, rounded down.
fn isqrt(n: usize) -> (r: usize)
    ensures
        r == sqrt_floor(n as int),
{
    let mut r: usize = 0;
    let mut keep = n >= 1;
    while keep
        invariant
            0 <= r <= n,
            r <= 0xFFFF_FFFFusize,
            (r as int) * (r as int) <= n as int,
            keep <==> (r < 0xFFFF_FFFFusize && ((r as int) + 1) * ((r as int) + 1) <= n as int),
        decreases n - r,
    {
        proof {
            assert(r as int + 1 <= (r as int + 1) * (r as int + 1)) by (nonlinear_arith)
                requires
                    r as int >= 0,
            ;
        }
        r = r + 1;
        if r < 0xFFFF_FFFFusize {
            let rr = (r as u128) + 1;
            assert(rr * rr <= 0x1_0000_0000_0000_0000u128) by (nonlinear_arith)
                requires
                    0 < rr <= 0x1_0000_0000u128,
            ;
            keep = rr * rr <= (n as u128);
        } else {
            keep = false;
        }
    }
    proof {
        if r == 0xFFFF_FFFFusize {
            assert((n as int) < (r as int + 1) * (r as int + 1)) by (nonlinear_arith)
                requires
                    r as int + 1 == 0x1_0000_0000,
                    n as int <= 0xFFFF_FFFF_FFFF_FFFF,
            ;
        }
        lemma_sqrt_floor_unique(n as int, r as int);
    }
    r
}

/// Index of the k-th-nearest-neighbour distance in a record's ascending
/// list of the `n - 1` distances to the other records: `floor(sqrt(n))`,
/// capped at the number of neighbours.
pub open spec fn k_index(n: int) -> int {
    if sqrt_floor(n) <= n - 2 {
        sqrt_floor(n)
    } else {
        n - 2
    }
}

fn k_index_exec(n: usize) -> (r: usize)
    requires
        n >= 2,
    ensures
        r == k_index(n as int),
        r <= n - 2,
{
    let k = isqrt(n);
    if k <= n - 2 {
        k
    } else {
        n - 2
    }
}

/// The distances from record `i` to every other record, in record order.
pub open spec fn neighbor_dists(all: Seq<Seq<i32>>, i: int) -> Seq<int> {
    Seq::new(
        (all.len() - 1) as nat,
        |j: int|
            dist(
                all[i],
                all[
                    if j < i {
                        j
                    } else {
                        j + 1
                    }
                ],
            ),
    )
}

/// The sequence is in ascending order.
pub open spec fn sorted_asc(s: Seq<int>) -> bool {
    forall|p: int, q: int| 0 <= p <= q < s.len() ==> s[p] <= s[q]
}

/// `v` is the value at position `k` of `s` sorted ascending.
pub open spec fn is_kth_smallest(s: Seq<int>, k: int, v: int) -> bool {
    exists|t: Seq<int>|
        {
            &&& (#[trigger] t.to_multiset()) == s.to_multiset()
            &&& sorted_asc(t)
            &&& 0 <= k < t.len()
            &&& t[k] == v
        }
}

/// The distances of a distance buffer, as mathematical integers.
pub open spec fn dists_view(s: Seq<u128>) -> Seq<int> {
    s.map_values(|x: u128| x as int)
}

/// Sorts a distance buffer ascending by straight insertion.
fn sort_dists(v: &mut Vec<u128>)
    ensures
        final(v)@.len() == old(v)@.len(),
        final(v)@.to_multiset() == old(v)@.to_multiset(),
        sorted_asc(dists_view(final(v)@)),
{
    broadcast use vstd::seq_lib::group_to_multiset_ensures;

    let ghost orig = v@;
    let n = v.len();
    let mut i: usize = 1;
    while i < n
        invariant
            1 <= i,
            n == v@.len(),
            v@.to_multiset() == orig.to_multiset(),
            forall|p: int, q: int| 0 <= p <= q < i && q < n ==> v@[p] <= v@[q],
        decreases n - i,
    {
        let ghost pre = v@;
        let x = v.remove(i);
        let ghost mid = v@;
        let mut p: usize = 0;
        while p < i && v[p] <= x
            invariant
                p <= i,
                i < n,
                v@ == mid,
                mid.len() == n - 1,
                forall|t: int| 0 <= t < p ==> v@[t] <= x,
            decreases i - p,
        {
            p += 1;
        }
        proof {
            broadcast use vstd::seq_lib::group_to_multiset_ensures;
            broadcast use vstd::multiset::group_multiset_axioms;

            assert(mid == pre.remove(i as int));
            assert(pre.remove(i as int).to_multiset() =~= pre.to_multiset().remove(
                pre[i as int],
            ));
            assert(x == pre[i as int]);
            assert(pre.contains(x));
            assert(pre.to_multiset().count(x) >= 1);
            lemma_insert_to_multiset(mid, p as int, x);
            lemma_remove_insert_id(pre.to_multiset(), x);
            mid.insert_ensures(p as int, x);
            pre.remove_ensures(i as int);
        }
        v.insert(p, x);
        proof {
            assert forall|a: int, b: int| 0 <= a <= b < i + 1 && b < n implies v@[a] <= v@[b] by {
                if b < p {
                } else if a < p && b == p {
                    assert(v@[a] == mid[a]);
                    assert(v@[b] == x);
                } else if a <= p && b > p {
                    assert(v@[b] == mid[b - 1]);
                    if a < p {
                        assert(v@[a] == mid[a]);
                        assert(mid[a] <= x);
                    }
                    if p < i {
                        assert(!(mid[p as int] <= x));
                        assert(mid[p as int] <= mid[b - 1]);
                    }
                }
            }
        }
        i += 1;
    }
}

/// Computes record `i`'s distance to its k-th nearest neighbour in
/// objective space.
fn kth_distance_for<U>(records: &Vec<SolutionData<U>>, i: usize) -> (r: u128)
    requires
        uniform_scores(records@),
        records@.len() >= 2,
        i < records@.len(),
    ensures
        is_kth_smallest(
            neighbor_dists(scores_of(records@), i as int),
            k_index(records@.len() as int),
            r as int,
        ),
{
    broadcast use vstd::seq_lib::group_to_multiset_ensures;

    let n = records.len();
    let ghost all = scores_of(records@);
    let ghost nd = neighbor_dists(all, i as int);
    let mut dists: Vec<u128> = Vec::new();
    let mut j: usize = 0;
    while j < n
        invariant
            j <= n,
            i < n,
            n == records@.len(),
            uniform_scores(records@),
            all == scores_of(records@),
            nd == neighbor_dists(all, i as int),
            dists@.len() == if j <= i {
                j as int
            } else {
                j - 1
            },
            forall|t: int| 0 <= t < dists@.len() ==> #[trigger] dists@[t] as int == nd[t],
        decreases n - j,
    {
        if j != i {
            assert(all[i as int] == records@[i as int].scores@);
            assert(all[j as int] == records@[j as int].scores@);
            let d = records[i].scores.distance(&records[j].scores);
            dists.push(d);
            proof {
                let t = dists@.len() - 1;
                if j < i {
                    assert(nd[t] == dist(all[i as int], all[t]));
                } else {
                    assert(nd[t] == dist(all[i as int], all[t + 1]));
                }
            }
        }
        j += 1;
    }
    assert(dists@.len() == n - 1);
    let ghost unsorted = dists@;
    sort_dists(&mut dists);
    let k = k_index_exec(n);
    proof {
        lemma_sqrt_floor_bounds(n as int);
        assert(dists_view(unsorted) =~= nd);
        lemma_map_values_permutation(dists@, unsorted, |x: u128| x as int);
    }
    let r = dists[k];
    proof {
        let t = dists_view(dists@);
        assert(t[k as int] == r as int);
        assert(t.to_multiset() == nd.to_multiset());
        assert(is_kth_smallest(nd, k_index(n as int), r as int));
    }
    r
}

/// Computes every record's k-th-neighbour distance and writes it into
/// `kth_distance`. Every other field is left as it was.
pub fn assign_kth_distances<U>(records: &mut Vec<SolutionData<U>>)
    requires
        uniform_scores(old(records)@),
        old(records)@.len() >= 2,
    ensures
        final(records)@.len() == old(records)@.len(),
        forall|i: int|
            0 <= i < old(records)@.len() ==> {
                &&& (#[trigger] final(records)@[i]).solution == old(records)@[i].solution
                &&& final(records)@[i].scores == old(records)@[i].scores
                &&& final(records)@[i].raw_fitness == old(records)@[i].raw_fitness
                &&& is_kth_smallest(
                    neighbor_dists(scores_of(old(records)@), i),
                    k_index(old(records)@.len() as int),
                    final(records)@[i].kth_distance as int,
                )
            },
{
    let ghost orig = records@;
    let n = records.len();
    let mut kds: Vec<u128> = Vec::new();
    let mut i: usize = 0;
    while i < n
        invariant
            i <= n,
            records@ == orig,
            n == orig.len(),
            n >= 2,
            uniform_scores(orig),
            kds@.len() == i,
            forall|t: int|
                0 <= t < i ==> is_kth_smallest(
                    neighbor_dists(scores_of(orig), t),
                    k_index(n as int),
                    #[trigger] kds@[t] as int,
                ),
        decreases n - i,
    {
        let d = kth_distance_for(records, i);
        kds.push(d);
        i += 1;
    }
    let mut i: usize = 0;
    while i < n
        invariant
            i <= n,
            records@.len() == n,
            n == orig.len(),
            kds@.len() == n,
            forall|t: int|
                0 <= t < n ==> is_kth_smallest(
                    neighbor_dists(scores_of(orig), t),
                    k_index(n as int),
                    #[trigger] kds@[t] as int,
                ),
            forall|t: int| i <= t < n ==> #[trigger] records@[t] == orig[t],
            forall|t: int|
                0 <= t < i ==> {
                    &&& (#[trigger] records@[t]).solution == orig[t].solution
                    &&& records@[t].scores == orig[t].scores
                    &&& records@[t].raw_fitness == orig[t].raw_fitness
                    &&& records@[t].kth_distance == kds@[t]
                },
        decreases n - i,
    {
        records[i].kth_distance = kds[i];
        i += 1;
    }
}

} // verus!

use vstd::prelude::*;

use crate::density::{
    assign_kth_distances, is_kth_smallest, k_index, neighbor_dists, sorted_asc,
};
use crate::fitness::{score_fn, scores_of, uniform_scores, SolutionData};
use crate::multiset_facts::{
    lemma_filter_len_all, lemma_filter_len_confined, lemma_filter_len_permutation,
    lemma_insert_to_multiset, lemma_map_values_permutation, lemma_remove_insert_id,
};
use crate::scores::dist;

verus! {

/// The part of a record that environmental selection keeps intact:
/// solution, scores and raw fitness.
pub open spec fn core_of<U>(r: SolutionData<U>) -> (U, Seq<i32>, u128) {
    (r.solution, r.scores@, r.raw_fitness)
}

/// Projection from a record to its core.
pub open spec fn core_fn<U>() -> spec_fn(SolutionData<U>) -> (U, Seq<i32>, u128) {
    |r: SolutionData<U>| core_of(r)
}

/// The cores of a set of records, in record order.
pub open spec fn cores<U>(s: Seq<SolutionData<U>>) -> Seq<(U, Seq<i32>, u128)> {
    s.map_values(core_fn::<U>())
}

/// A core belongs to the non-dominated front: its raw fitness is 0.
pub open spec fn nondom_core<U>() -> spec_fn((U, Seq<i32>, u128)) -> bool {
    |c: (U, Seq<i32>, u128)| c.2 == 0
}

/// How many records of the set are non-dominated within it.
pub open spec fn nondom_count<U>(s: Seq<SolutionData<U>>) -> int {
    cores(s).filter(nondom_core::<U>()).len() as int
}

/// Selection order: ascending raw fitness; among equal raw fitness the
/// larger k-th-neighbour distance (the less crowded record) comes first.
pub open spec fn rec_le<U>(a: SolutionData<U>, b: SolutionData<U>) -> bool {
    ||| a.raw_fitness < b.raw_fitness
    ||| (a.raw_fitness == b.raw_fitness && a.kth_distance >= b.kth_distance)
}

/// The records stand in selection order.
pub open spec fn sorted_records<U>(s: Seq<SolutionData<U>>) -> bool {
    forall|p: int, q: int| 0 <= p <= q < s.len() ==> rec_le(#[trigger] s[p], #[trigger] s[q])
}

/// What environmental selection does before truncating: `w` is the old
/// set with k-th-neighbour distances filled in, rearranged into selection
/// order.
pub open spec fn selection_witness<U>(before: Seq<SolutionData<U>>, w: Seq<SolutionData<U>>) -> bool {
    &&& w.len() == before.len()
    &&& cores(w).to_multiset() == cores(before).to_multiset()
    &&& sorted_records(w)
    &&& (w.len() >= 2 ==> forall|i: int|
        0 <= i < w.len() ==> is_kth_smallest(
            neighbor_dists(scores_of(w), i),
            k_index(w.len() as int),
            (#[trigger] w[i]).kth_distance as int,
        ))
}

fn rec_le_exec<U>(a: &SolutionData<U>, b: &SolutionData<U>) -> (r: bool)
    ensures
        r == rec_le(*a, *b),
{
    a.raw_fitness < b.raw_fitness || (a.raw_fitness == b.raw_fitness && a.kth_distance
        >= b.kth_distance)
}

/// Sorts records into selection order by straight insertion.
pub fn sort_records<U>(v: &mut Vec<SolutionData<U>>)
    ensures
        final(v)@.len() == old(v)@.len(),
        final(v)@.to_multiset() == old(v)@.to_multiset(),
        sorted_records(final(v)@),
{
    let ghost orig = v@;
    let n = v.len();
    let mut i: usize = 1;
    while i < n
        invariant
            1 <= i,
            n == v@.len(),
            v@.to_multiset() == orig.to_multiset(),
            forall|p: int, q: int|
                0 <= p <= q < i && q < n ==> rec_le(#[trigger] v@[p], #[trigger] v@[q]),
        decreases n - i,
    {
        let ghost pre = v@;
        let x = v.remove(i);
        let ghost mid = v@;
        let mut p: usize = 0;
        while p < i && rec_le_exec(&v[p], &x)
            invariant
                p <= i,
                i < n,
                v@ == mid,
                mid.len() == n - 1,
                forall|t: int| 0 <= t < p ==> rec_le(#[trigger] v@[t], x),
            decreases i - p,
        {
            p += 1;
        }
        proof {
            broadcast use vstd::seq_lib::group_to_multiset_ensures;
            broadcast use vstd::multiset::group_multiset_axioms;

            assert(mid == pre.remove(i as int));
            assert(pre.remove(i as int).to_multiset() =~= pre.to_multiset().remove(
                pre[i as int],
            ));
            assert(x == pre[i as int]);
            assert(pre.contains(x));
            assert(pre.to_multiset().count(x) >= 1);
            lemma_insert_to_multiset(mid, p as int, x);
            lemma_remove_insert_id(pre.to_multiset(), x);
            mid.insert_ensures(p as int, x);
            pre.remove_ensures(i as int);
        }
        v.insert(p, x);
        proof {
            assert forall|a: int, b: int| 0 <= a <= b < i + 1 && b < n implies rec_le(
                v@[a],
                v@[b],
            ) by {
                if b < p {
                } else if a < p && b == p {
                    assert(v@[a] == mid[a]);
                    assert(v@[b] == x);
                } else if a <= p && b > p {
                    assert(v@[b] == mid[b - 1]);
                    if a < p {
                        assert(v@[a] == mid[a]);
                        assert(rec_le(mid[a], x));
                    }
                    if p < i {
                        assert(!rec_le(mid[p as int], x));
                        assert(rec_le(mid[p as int], mid[b - 1]));
                    }
                }
            }
        }
        i += 1;
    }
}

/// Two records equal as values have the same k-th-neighbour distance
/// relative to two sets that hold the same bag of records.
proof fn lemma_kth_smallest_transfer<U>(
    s1: Seq<SolutionData<U>>,
    i1: int,
    s2: Seq<SolutionData<U>>,
    i2: int,
    k: int,
    v: int,
)
    requires
        s1.to_multiset() == s2.to_multiset(),
        0 <= i1 < s1.len(),
        0 <= i2 < s2.len(),
        s1[i1] == s2[i2],
        is_kth_smallest(neighbor_dists(scores_of(s1), i1), k, v),
    ensures
        is_kth_smallest(neighbor_dists(scores_of(s2), i2), k, v),
{
    broadcast use vstd::seq_lib::group_to_multiset_ensures;
    broadcast use vstd::multiset::group_multiset_axioms;

    let a1 = scores_of(s1);
    let a2 = scores_of(s2);
    lemma_map_values_permutation(s1, s2, score_fn::<U>());
    assert(a1.to_multiset() == a2.to_multiset());
    let me = a1[i1];
    assert(a2[i2] == me);

    let r1 = a1.remove(i1);
    let r2 = a2.remove(i2);
    assert(a1.remove(i1).to_multiset() =~= a1.to_multiset().remove(a1[i1]));
    assert(a2.remove(i2).to_multiset() =~= a2.to_multiset().remove(a2[i2]));
    assert(r1.to_multiset() == r2.to_multiset());

    let g = |o: Seq<i32>| dist(me, o);
    lemma_map_values_permutation(r1, r2, g);
    assert(neighbor_dists(a1, i1) =~= r1.map_values(g)) by {
        a1.remove_ensures(i1);
    }
    assert(neighbor_dists(a2, i2) =~= r2.map_values(g)) by {
        a2.remove_ensures(i2);
    }
    assert(neighbor_dists(a1, i1).to_multiset() == neighbor_dists(a2, i2).to_multiset());
    let t = choose|t: Seq<int>|
        {
            &&& (#[trigger] t.to_multiset()) == neighbor_dists(a1, i1).to_multiset()
            &&& sorted_asc(t)
            &&& 0 <= k < t.len()
            &&& t[k] == v
        };
    assert(t.to_multiset() == neighbor_dists(a2, i2).to_multiset());
}

/// With an overfull non-dominated front, everything that fits into the
/// archive is non-dominated.
proof fn lemma_witness_kept_nondominated<U>(
    before: Seq<SolutionData<U>>,
    w: Seq<SolutionData<U>>,
    archive_size: int,
)
    requires
        cores(w).to_multiset() == cores(before).to_multiset(),
        sorted_records(w),
        nondom_count(before) > archive_size,
        0 <= archive_size <= w.len(),
    ensures
        forall|i: int| 0 <= i < archive_size ==> (#[trigger] w[i]).raw_fitness == 0,
{
    lemma_filter_len_permutation(cores(w), cores(before), nondom_core::<U>());
    assert(nondom_count(w) == nondom_count(before));
    assert forall|i: int| 0 <= i < archive_size implies (#[trigger] w[i]).raw_fitness == 0 by {
        if w[i].raw_fitness != 0 {
            assert forall|t: int| i <= t < cores(w).len() implies !nondom_core::<U>()(
                #[trigger] cores(w)[t],
            ) by {
                assert(rec_le(w[i], w[t]));
                assert(cores(w)[t].2 == w[t].raw_fitness);
            }
            lemma_filter_len_confined(cores(w), nondom_core::<U>(), i);
            assert(nondom_count(w) <= i);
            assert(false);
        }
    }
}

/// When the non-dominated front alone overflows the archive, truncation
/// keeps only non-dominated records; the dropped part of the front holds
/// exactly the front's surplus over the archive capacity, and every
/// record dropped from the front sits in a region at least as crowded
/// (has a k-th-neighbour distance at most as large) as every record that
/// is kept.
pub proof fn lemma_truncation_drops_most_crowded<U>(
    before: Seq<SolutionData<U>>,
    w: Seq<SolutionData<U>>,
    archive_size: int,
)
    requires
        selection_witness(before, w),
        nondom_count(before) > archive_size,
        0 <= archive_size <= w.len(),
    ensures
        forall|i: int| 0 <= i < archive_size ==> (#[trigger] w[i]).raw_fitness == 0,
        nondom_count(w.skip(archive_size)) == nondom_count(before) - archive_size,
        forall|i: int, j: int|
            0 <= i < archive_size <= j < w.len() && (#[trigger] w[j]).raw_fitness == 0
                ==> w[j].kth_distance <= (#[trigger] w[i]).kth_distance,
{
    broadcast use vstd::seq_lib::group_filter_ensures;

    lemma_witness_kept_nondominated(before, w, archive_size);
    assert forall|i: int, j: int|
        0 <= i < archive_size <= j < w.len() && (#[trigger] w[j]).raw_fitness == 0 implies w[j].kth_distance
        <= (#[trigger] w[i]).kth_distance by {
        assert(rec_le(w[i], w[j]));
    }
    lemma_filter_len_permutation(cores(w), cores(before), nondom_core::<U>());
    let kept = cores(w.take(archive_size));
    let dropped = cores(w.skip(archive_size));
    assert(kept =~= cores(w).take(archive_size));
    assert(dropped =~= cores(w).skip(archive_size));
    assert(cores(w) =~= kept + dropped);
    Seq::filter_distributes_over_add(kept, dropped, nondom_core::<U>());
    assert forall|t: int| 0 <= t < kept.len() implies nondom_core::<U>()(#[trigger] kept[t]) by {
        assert(kept[t] == core_of(w[t]));
        assert(w[t].raw_fitness == 0);
    }
    lemma_filter_len_all(kept, nondom_core::<U>());
}

/// The record carries the solution, scores and raw fitness of some record
/// of the set `s`.
pub open spec fn carries_record_of<U>(r: SolutionData<U>, s: Seq<SolutionData<U>>) -> bool {
    exists|j: int|
        0 <= j < s.len() && {
            &&& r.solution == (#[trigger] s[j]).solution
            &&& r.scores@ == s[j].scores@
            &&& r.raw_fitness == s[j].raw_fitness
        }
}

/// What the truncated prefix of a selection witness inherits: it stands in
/// selection order, and each of its records carries the solution, scores
/// and raw fitness of some record of the set that went in.
pub proof fn lemma_selection_witness_prefix<U>(
    before: Seq<SolutionData<U>>,
    w: Seq<SolutionData<U>>,
    result: Seq<SolutionData<U>>,
    size: int,
)
    requires
        selection_witness(before, w),
        result == w.take(size),
        0 <= size <= w.len(),
    ensures
        sorted_records(result),
        forall|i: int| 0 <= i < result.len() ==> carries_record_of(#[trigger] result[i], before),
{
    broadcast use vstd::seq_lib::group_to_multiset_ensures;
    broadcast use vstd::multiset::group_multiset_axioms;

    assert forall|p: int, q: int| 0 <= p <= q < result.len() implies rec_le(
        #[trigger] result[p],
        #[trigger] result[q],
    ) by {
        assert(result[p] == w[p]);
        assert(result[q] == w[q]);
    }
    assert forall|i: int| 0 <= i < result.len() implies carries_record_of(
        #[trigger] result[i],
        before,
    ) by {
        assert(result[i] == w[i]);
        assert(cores(w)[i] == core_of(w[i]));
        assert(cores(w).contains(cores(w)[i]));
        assert(cores(w).to_multiset().count(core_of(w[i])) > 0);
        assert(cores(before).to_multiset().count(core_of(w[i])) > 0);
        assert(cores(before).contains(core_of(w[i])));
        let j = choose|j: int| 0 <= j < cores(before).len() && cores(before)[j] == core_of(w[i]);
        assert(cores(before)[j] == core_of(before[j]));
        assert(0 <= j < before.len() && {
            &&& result[i].solution == before[j].solution
            &&& result[i].scores@ == before[j].scores@
            &&& result[i].raw_fitness == before[j].raw_fitness
        });
    }
}

/// Environmental selection: truncates the combined set, already carrying
/// raw fitness, to exactly `archive_size` records, the new archive.
///
/// The set is put into selection order, which among the otherwise tied
/// records of the non-dominated front prefers the least crowded ones, and
/// then cut after `archive_size` records. The result is the prefix of a
/// selection-ordered rearrangement `w` of the input; when the
/// non-dominated front alone overflows the archive, every kept record is
/// non-dominated and the dropped front records are the most crowded ones
/// (see [`lemma_truncation_drops_most_crowded`]).
pub fn perform_environmental_selection<U>(records: &mut Vec<SolutionData<U>>, archive_size: usize)
    requires
        uniform_scores(old(records)@),
        old(records)@.len() >= archive_size,
    ensures
        final(records)@.len() == archive_size,
        exists|w: Seq<SolutionData<U>>|
            #[trigger] selection_witness(old(records)@, w) && final(records)@ == w.take(
                archive_size as int,
            ),
        old(records)@.len() == archive_size ==> cores(final(records)@).to_multiset() == cores(
            old(records)@,
        ).to_multiset(),
        nondom_count(old(records)@) > archive_size ==> forall|i: int|
            0 <= i < final(records)@.len() ==> (#[trigger] final(records)@[i]).raw_fitness == 0,
{
    let ghost before = records@;
    if records.len() >= 2 {
        assign_kth_distances(records);
    }
    let ghost kd = records@;
    proof {
        assert(cores(kd) =~= cores(before));
    }
    sort_records(records);
    let ghost w = records@;
    proof {
        broadcast use vstd::seq_lib::group_to_multiset_ensures;
        broadcast use vstd::multiset::group_multiset_axioms;

        lemma_map_values_permutation(w, kd, core_fn::<U>());
        assert(cores(w).to_multiset() == cores(before).to_multiset());
        if w.len() >= 2 {
            assert forall|i: int| 0 <= i < w.len() implies is_kth_smallest(
                neighbor_dists(scores_of(w), i),
                k_index(w.len() as int),
                (#[trigger] w[i]).kth_distance as int,
            ) by {
                assert(w.to_multiset().count(w[i]) > 0);
                assert(kd.to_multiset().count(w[i]) > 0);
                assert(kd.contains(w[i]));
                let j = choose|j: int| 0 <= j < kd.len() && kd[j] == w[i];
                assert(scores_of(kd) =~= scores_of(before));
                assert(is_kth_smallest(
                    neighbor_dists(scores_of(kd), j),
                    k_index(kd.len() as int),
                    kd[j].kth_distance as int,
                ));
                lemma_kth_smallest_transfer(
                    kd,
                    j,
                    w,
                    i,
                    k_index(w.len() as int),
                    w[i].kth_distance as int,
                );
            }
        }
        assert(selection_witness(before, w));
    }
    records.truncate(archive_size);
    proof {
        assert(records@ == w.take(archive_size as int));
        if before.len() == archive_size {
            assert(records@ =~= w);
        }
        if nondom_count(before) > archive_size {
            lemma_witness_kept_nondominated(before, w, archive_size as int);
        }
    }
}

} // verus!

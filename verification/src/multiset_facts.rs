use vstd::prelude::*;

use vstd::multiset::Multiset;
use vstd::seq_lib::lemma_multiset_commutative;

verus! {

/// Inserting an element at any position adds exactly that element to the
/// bag of values a sequence holds.
pub proof fn lemma_insert_to_multiset<A>(s: Seq<A>, p: int, x: A)
    requires
        0 <= p <= s.len(),
    ensures
        s.insert(p, x).to_multiset() == s.to_multiset().insert(x),
{
    broadcast use vstd::multiset::group_multiset_axioms;
    broadcast use vstd::seq_lib::group_to_multiset_ensures;

    let a = s.subrange(0, p);
    let b = s.subrange(p, s.len() as int);
    assert(s.insert(p, x) == a.push(x) + b);
    lemma_multiset_commutative(a.push(x), b);
    assert(s =~= a + b);
    lemma_multiset_commutative(a, b);
    assert(s.insert(p, x).to_multiset() =~= s.to_multiset().insert(x));
}

/// Taking one element out and putting the same element back leaves a bag
/// unchanged.
pub proof fn lemma_remove_insert_id<A>(m: Multiset<A>, x: A)
    requires
        m.count(x) >= 1,
    ensures
        m.remove(x).insert(x) == m,
{
    broadcast use vstd::multiset::group_multiset_axioms;

    assert(m.remove(x).insert(x) =~= m);
}

/// Removing one element takes exactly that element's contribution out of
/// the filtered length.
proof fn lemma_filter_len_remove_one<A>(s: Seq<A>, i: int, pred: spec_fn(A) -> bool)
    requires
        0 <= i < s.len(),
    ensures
        s.filter(pred).len() == s.remove(i).filter(pred).len() + if pred(s[i]) {
            1int
        } else {
            0int
        },
{
    broadcast use vstd::seq_lib::group_filter_ensures;

    let a = s.subrange(0, i);
    let x = s[i];
    let b = s.subrange(i + 1, s.len() as int);
    assert(s =~= a + (seq![x] + b));
    assert(s.remove(i) == a + b);
    Seq::filter_distributes_over_add(a, seq![x] + b, pred);
    Seq::filter_distributes_over_add(seq![x], b, pred);
    Seq::filter_distributes_over_add(a, b, pred);
    assert(seq![x].filter(pred) =~= if pred(x) {
        seq![x]
    } else {
        Seq::<A>::empty()
    }) by {
        reveal_with_fuel(Seq::filter, 2);
        assert(seq![x].drop_last() =~= Seq::<A>::empty());
    }
}

/// If the predicate holds everywhere, filtering keeps everything.
pub proof fn lemma_filter_len_all<A>(s: Seq<A>, pred: spec_fn(A) -> bool)
    requires
        forall|t: int| 0 <= t < s.len() ==> pred(#[trigger] s[t]),
    ensures
        s.filter(pred).len() == s.len(),
    decreases s.len(),
{
    reveal(Seq::filter);
    if s.len() > 0 {
        lemma_filter_len_all(s.drop_last(), pred);
    }
}

/// If the predicate fails everywhere from position `i` on, at most `i`
/// elements satisfy it.
pub proof fn lemma_filter_len_confined<A>(s: Seq<A>, pred: spec_fn(A) -> bool, i: int)
    requires
        0 <= i <= s.len(),
        forall|t: int| i <= t < s.len() ==> !pred(#[trigger] s[t]),
    ensures
        s.filter(pred).len() <= i,
    decreases s.len(),
{
    broadcast use vstd::seq_lib::group_filter_ensures;

    if i < s.len() {
        let last = s.len() - 1;
        lemma_filter_len_remove_one(s, last, pred);
        let d = s.remove(last);
        assert(forall|t: int| i <= t < d.len() ==> !pred(#[trigger] d[t])) by {
            s.remove_ensures(last);
        }
        lemma_filter_len_confined(d, pred, i);
    }
}

/// Two sequences holding the same bag of values agree on how many of
/// their elements satisfy any predicate.
pub proof fn lemma_filter_len_permutation<A>(s1: Seq<A>, s2: Seq<A>, pred: spec_fn(A) -> bool)
    requires
        s1.to_multiset() == s2.to_multiset(),
    ensures
        s1.filter(pred).len() == s2.filter(pred).len(),
    decreases s1.len(),
{
    broadcast use vstd::multiset::group_multiset_axioms;
    broadcast use vstd::seq_lib::group_to_multiset_ensures;
    broadcast use vstd::seq_lib::group_filter_ensures;

    if s1.len() == 0 {
        assert(s1.len() == s1.to_multiset().len());
        assert(s2.len() == s2.to_multiset().len());
        assert(s2.len() == 0);
    } else {
        let last = s1.len() - 1;
        let x = s1[last];
        let d1 = s1.remove(last);
        assert(d1.to_multiset() =~= s1.to_multiset().remove(x));
        assert(s1.contains(x));
        assert(s1.to_multiset().count(x) > 0);
        assert(s2.to_multiset().count(x) > 0);
        assert(s2.contains(x));
        let idx = choose|i: int| 0 <= i < s2.len() && s2[i] == x;
        let r2 = s2.remove(idx);
        assert(r2.to_multiset() =~= s2.to_multiset().remove(x));
        assert(d1.to_multiset() == r2.to_multiset());
        lemma_filter_len_permutation(d1, r2, pred);
        lemma_filter_len_remove_one(s1, last, pred);
        lemma_filter_len_remove_one(s2, idx, pred);
    }
}

/// Mapping a function over two sequences that hold the same bag of values
/// yields sequences that hold the same bag of mapped values.
pub proof fn lemma_map_values_permutation<A, B>(s1: Seq<A>, s2: Seq<A>, f: spec_fn(A) -> B)
    requires
        s1.to_multiset() == s2.to_multiset(),
    ensures
        s1.map_values(f).to_multiset() == s2.map_values(f).to_multiset(),
    decreases s1.len(),
{
    broadcast use vstd::multiset::group_multiset_axioms;
    broadcast use vstd::seq_lib::group_to_multiset_ensures;

    if s1.len() == 0 {
        assert(s1.len() == s1.to_multiset().len());
        assert(s2.len() == s2.to_multiset().len());
        assert(s2.len() == 0);
        assert(s1.map_values(f).len() == 0);
        assert(s2.map_values(f).len() == 0);
        assert(s1.map_values(f).to_multiset() =~= s2.map_values(f).to_multiset());
    } else {
        let last = s1.len() - 1;
        let x = s1[last];
        let d1 = s1.remove(last);
        assert(d1.to_multiset() =~= s1.to_multiset().remove(x));
        assert(s1.contains(x));
        assert(s1.to_multiset().count(x) > 0);
        assert(s2.to_multiset().count(x) > 0);
        assert(s2.contains(x));
        let idx = choose|i: int| 0 <= i < s2.len() && s2[i] == x;
        let r2 = s2.remove(idx);
        assert(r2.to_multiset() =~= s2.to_multiset().remove(x));
        assert(d1.to_multiset() == r2.to_multiset());
        lemma_map_values_permutation(d1, r2, f);

        let m1 = s1.map_values(f);
        let m2 = s2.map_values(f);
        assert(d1.map_values(f) =~= m1.remove(last));
        assert(m1.remove(last).to_multiset() =~= m1.to_multiset().remove(f(x)));
        assert(m1.to_multiset().count(f(x)) > 0) by {
            assert(m1[last] == f(x));
            assert(m1.contains(f(x)));
        }
        assert(r2.map_values(f) =~= m2.remove(idx));
        assert(m2[idx] == f(x));
        assert(m2.remove(idx).to_multiset() =~= m2.to_multiset().remove(f(x)));
        assert(m2.to_multiset().count(f(x)) > 0) by {
            assert(m2.contains(f(x)));
        }
        assert(m1.to_multiset().remove(f(x)) =~= m2.to_multiset().remove(f(x)));
        assert forall|y: B| m1.to_multiset().count(y) == m2.to_multiset().count(y) by {
            if y == f(x) {
                assert(m1.to_multiset().remove(f(x)).count(y) == m1.to_multiset().count(y) - 1);
                assert(m2.to_multiset().remove(f(x)).count(y) == m2.to_multiset().count(y) - 1);
            } else {
                assert(m1.to_multiset().remove(f(x)).count(y) == m1.to_multiset().count(y));
                assert(m2.to_multiset().remove(f(x)).count(y) == m2.to_multiset().count(y));
            }
        }
        assert(m1.to_multiset() =~= m2.to_multiset());
    }
}

} // verus!

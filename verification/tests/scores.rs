use core::cmp::Ordering;

use spea::ObjScores;

#[test]
fn test_pareto_dominance_ord() {
    let a = ObjScores(vec![0, 2]);
    let b = ObjScores(vec![1, 3]);
    let c = ObjScores(vec![-1, 3]);
    let d = ObjScores(vec![2, 1]);
    let e = ObjScores(vec![-2, -1]);
    let f = ObjScores(vec![-2, -3]);
    assert_eq!(a.pareto_dominance_ord(&b), Ordering::Less);
    assert_eq!(b.pareto_dominance_ord(&a), Ordering::Greater);
    assert_eq!(a.pareto_dominance_ord(&c), Ordering::Less);
    assert_eq!(b.pareto_dominance_ord(&d), Ordering::Equal);
    assert_eq!(a.pareto_dominance_ord(&e), Ordering::Equal);
    assert_eq!(a.pareto_dominance_ord(&f), Ordering::Less);
}

#[test]
fn test_distance() {
    let a = ObjScores(vec![0, 2]);
    let b = ObjScores(vec![1, 3]);
    let c = ObjScores(vec![-2, -1]);
    assert_eq!(a.distance(&b), 2);
    assert_eq!(b.distance(&a), 2);
    assert_eq!(b.distance(&c), 25);
    assert_eq!(a.distance(&c), 13);
}

#[test]
fn dominance_of_vector_with_itself_is_equal() {
    for scores in [vec![], vec![0], vec![1, -3, 7], vec![i32::MIN, i32::MAX]] {
        let v = ObjScores(scores.clone());
        let w = ObjScores(scores);
        assert_eq!(v.pareto_dominance_ord(&w), Ordering::Equal);
    }
}

#[test]
fn dominance_of_swapped_pairs_is_inverse() {
    let vectors = [
        vec![0, 2],
        vec![1, 3],
        vec![-1, 3],
        vec![2, 1],
        vec![-2, -1],
        vec![-2, -3],
        vec![0, 0],
    ];
    for a in &vectors {
        for b in &vectors {
            let x = ObjScores(a.clone());
            let y = ObjScores(b.clone());
            let fwd = x.pareto_dominance_ord(&y);
            let bwd = y.pareto_dominance_ord(&x);
            assert_eq!(fwd, bwd.reverse());
        }
    }
}

#[test]
fn distance_is_symmetric_and_zero_on_self() {
    let vectors = [vec![0, 2], vec![1, 3], vec![-2, -1], vec![7, -7]];
    for a in &vectors {
        for b in &vectors {
            let x = ObjScores(a.clone());
            let y = ObjScores(b.clone());
            assert_eq!(x.distance(&y), y.distance(&x));
        }
        let x = ObjScores(a.clone());
        let y = ObjScores(a.clone());
        assert_eq!(x.distance(&y), 0);
    }
}

#[test]
fn distance_handles_extreme_scores() {
    let a = ObjScores(vec![i32::MIN]);
    let b = ObjScores(vec![i32::MAX]);
    let diff = (i32::MAX as i128) - (i32::MIN as i128);
    assert_eq!(a.distance(&b), (diff * diff) as u128);
}

#[test]
fn dominance_compares_by_absolute_value() {
    let a = ObjScores(vec![-1, 1]);
    let b = ObjScores(vec![2, -2]);
    assert_eq!(a.pareto_dominance_ord(&b), Ordering::Less);
    let c = ObjScores(vec![-3, 0]);
    let d = ObjScores(vec![3, 0]);
    assert_eq!(c.pareto_dominance_ord(&d), Ordering::Equal);
}

use spea::fitness::assign_raw_fitness;
use spea::selection::perform_environmental_selection;
use spea::{ObjScores, SolutionData};

fn record(id: u32, scores: Vec<i32>) -> SolutionData<u32> {
    SolutionData {
        solution: id,
        scores: ObjScores(scores),
        raw_fitness: u128::MAX,
        kth_distance: 0,
    }
}

#[test]
fn raw_fitness_sums_dominator_strengths() {
    // On a single objective, 0 dominates 1 and 2, and 1 dominates 2:
    // strengths are 2, 1, 0, so raw fitness is 0, 2, 2 + 1 = 3.
    let mut records = vec![
        record(0, vec![0]),
        record(1, vec![1]),
        record(2, vec![2]),
    ];
    assign_raw_fitness(&mut records);
    assert_eq!(records[0].raw_fitness, 0);
    assert_eq!(records[1].raw_fitness, 2);
    assert_eq!(records[2].raw_fitness, 3);
}

#[test]
fn raw_fitness_zero_means_nondominated() {
    // Two mutually non-dominated records and one that both dominate.
    let mut records = vec![
        record(0, vec![0, 5]),
        record(1, vec![5, 0]),
        record(2, vec![6, 6]),
    ];
    assign_raw_fitness(&mut records);
    assert_eq!(records[0].raw_fitness, 0);
    assert_eq!(records[1].raw_fitness, 0);
    // Both dominators have strength 1 each.
    assert_eq!(records[2].raw_fitness, 2);
}

#[test]
fn selection_result_has_exactly_archive_size_records() {
    for archive_size in 1..=5 {
        let mut records = vec![
            record(0, vec![0]),
            record(1, vec![1]),
            record(2, vec![2]),
            record(3, vec![3]),
            record(4, vec![4]),
        ];
        assign_raw_fitness(&mut records);
        perform_environmental_selection(&mut records, archive_size);
        assert_eq!(records.len(), archive_size);
    }
}

#[test]
fn selection_keeps_smallest_raw_fitness() {
    // Raw fitness along one objective: 0, 4, 7, 9, 10. With capacity 3 the
    // three best dominated-or-not records stay, in ascending order.
    let mut records = vec![
        record(3, vec![3]),
        record(0, vec![0]),
        record(4, vec![4]),
        record(1, vec![1]),
        record(2, vec![2]),
    ];
    assign_raw_fitness(&mut records);
    perform_environmental_selection(&mut records, 3);
    let ids: Vec<u32> = records.iter().map(|r| r.solution).collect();
    assert_eq!(ids, vec![0, 1, 2]);
}

#[test]
fn selection_keeps_everything_when_set_fits_exactly() {
    // A mutually non-dominated set of the archive's own size stays whole.
    let mut records = vec![
        record(0, vec![0, 9]),
        record(1, vec![1, 4]),
        record(2, vec![2, 1]),
        record(3, vec![3, 0]),
    ];
    assign_raw_fitness(&mut records);
    perform_environmental_selection(&mut records, 4);
    let mut ids: Vec<u32> = records.iter().map(|r| r.solution).collect();
    ids.sort_unstable();
    assert_eq!(ids, vec![0, 1, 2, 3]);
    for r in &records {
        assert_eq!(r.raw_fitness, 0);
    }
}

#[test]
fn truncation_drops_the_most_crowded_front_records() {
    // Four mutually non-dominated records, capacity two. With n = 4 the
    // k-th-neighbour index is min(floor(sqrt(4)), n - 2) = 2, the farthest
    // of the three neighbours:
    //   id 0 at (0,9): distances 26, 68, 90 -> 90
    //   id 1 at (1,4): distances 26, 10, 20 -> 26
    //   id 2 at (2,1): distances 68, 10,  2 -> 68
    //   id 3 at (3,0): distances 90, 20,  2 -> 90
    // The two records with the smallest k-th-neighbour distance, ids 1 and
    // 2, sit in the most crowded region and are dropped.
    let mut records = vec![
        record(0, vec![0, 9]),
        record(1, vec![1, 4]),
        record(2, vec![2, 1]),
        record(3, vec![3, 0]),
    ];
    assign_raw_fitness(&mut records);
    for r in &records {
        assert_eq!(r.raw_fitness, 0);
    }
    perform_environmental_selection(&mut records, 2);
    let mut ids: Vec<u32> = records.iter().map(|r| r.solution).collect();
    ids.sort_unstable();
    assert_eq!(ids, vec![0, 3]);
    assert_eq!(records[0].kth_distance, 90);
    assert_eq!(records[1].kth_distance, 90);
    for r in &records {
        assert_eq!(r.raw_fitness, 0);
    }
}

#[test]
fn truncation_prefers_nondominated_over_dominated() {
    // One dominated record among three, capacity two: the dominated one
    // goes first, whatever its crowding.
    let mut records = vec![
        record(0, vec![0, 9]),
        record(1, vec![9, 9]),
        record(2, vec![3, 0]),
    ];
    assign_raw_fitness(&mut records);
    perform_environmental_selection(&mut records, 2);
    let mut ids: Vec<u32> = records.iter().map(|r| r.solution).collect();
    ids.sort_unstable();
    assert_eq!(ids, vec![0, 2]);
}

#[test]
fn selection_handles_single_record() {
    let mut records = vec![record(7, vec![1, 2])];
    assign_raw_fitness(&mut records);
    perform_environmental_selection(&mut records, 1);
    assert_eq!(records.len(), 1);
    assert_eq!(records[0].solution, 7);
}

#[test]
fn selection_handles_two_tied_records() {
    // Two records with identical scores: mutually non-dominated, equal
    // k-th-neighbour distance. Exactly one survives.
    let mut records = vec![record(0, vec![4, 4]), record(1, vec![4, 4])];
    assign_raw_fitness(&mut records);
    perform_environmental_selection(&mut records, 1);
    assert_eq!(records.len(), 1);
    assert!(records[0].solution == 0 || records[0].solution == 1);
}

#[test]
fn selection_orders_by_raw_fitness_ascending() {
    let mut records = vec![
        record(0, vec![5]),
        record(1, vec![0]),
        record(2, vec![3]),
        record(3, vec![1]),
    ];
    assign_raw_fitness(&mut records);
    perform_environmental_selection(&mut records, 4);
    for pair in records.windows(2) {
        assert!(pair[0].raw_fitness <= pair[1].raw_fitness);
    }
    let ids: Vec<u32> = records.iter().map(|r| r.solution).collect();
    assert_eq!(ids, vec![1, 3, 2, 0]);
}

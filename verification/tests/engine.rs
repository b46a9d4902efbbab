use spea::breeder::{breed_pairs, BinaryCrossover};
use spea::crossover::Crossover;
use spea::mutator::Mutator;
use spea::objective::{Objective, Objectives};
use spea::selector::Selector;
use spea::terminator::{Generations, Terminator};
use spea::Spea2;

/// One of the two Schaffer objectives: f1(x) = x*x or f2(x) = (x-2)*(x-2).
struct SchafferObjective {
    which: u8,
}

impl Objective<i64> for SchafferObjective {
    fn test(&mut self, solution: &i64) -> i32 {
        let x = *solution;
        let v = if self.which == 0 { x * x } else { (x - 2) * (x - 2) };
        v as i32
    }
}

/// Hands the whole archive on as the mating pool.
struct WholeArchiveSelector;

impl Selector<i64> for WholeArchiveSelector {
    fn select<'a>(&mut self, population: &[&'a i64]) -> Vec<&'a i64> {
        population.to_vec()
    }
}

/// Breeds the parents themselves plus the midpoint of every pair, without
/// duplicates.
struct MidpointCrossover;

impl Crossover<i64> for MidpointCrossover {
    fn recombine(&self, population: &[&i64]) -> Vec<i64> {
        let mut out: Vec<i64> = population.iter().map(|x| **x).collect();
        for i in 0..population.len() {
            for j in (i + 1)..population.len() {
                out.push((*population[i] + *population[j]) / 2);
            }
        }
        out.sort_unstable();
        out.dedup();
        out
    }
}

/// Breeds nothing: the next generation's population is empty and the
/// archive alone is carried forward.
struct BarrenCrossover;

impl Crossover<i64> for BarrenCrossover {
    fn recombine(&self, _population: &[&i64]) -> Vec<i64> {
        Vec::new()
    }
}

struct IdentityMutator;

impl Mutator<i64> for IdentityMutator {
    fn mutate(&mut self, _solution: &mut i64) {}
}

fn schaffer_objectives() -> Objectives<SchafferObjective> {
    Objectives(vec![
        SchafferObjective { which: 0 },
        SchafferObjective { which: 1 },
    ])
}

#[test]
fn new_engine_starts_unfinished_with_empty_archive() {
    let spea2 = Spea2::new(
        vec![5i64, 6, 7],
        2,
        Generations::new(3),
        WholeArchiveSelector,
        MidpointCrossover,
        IdentityMutator,
        schaffer_objectives(),
    );
    assert!(!spea2.is_finished());
    let all: Vec<&i64> = spea2.peek_all_solutions();
    assert_eq!(all, vec![&5, &6, &7]);
    assert!(spea2.peek_nondominated_solutions().is_empty());
}

#[test]
fn run_once_fills_the_archive_exactly() {
    let mut spea2 = Spea2::new(
        vec![0i64, 1, 2, 3, 4, 5],
        3,
        Generations::new(10),
        WholeArchiveSelector,
        MidpointCrossover,
        IdentityMutator,
        schaffer_objectives(),
    );
    spea2.run_once();
    assert!(!spea2.is_finished());
    let population = spea2.peek_all_solutions().len() - 3;
    assert!(population > 0);
    let nondominated = spea2.peek_nondominated_solutions();
    assert!(!nondominated.is_empty());
    assert!(nondominated.len() <= 3);
    for x in nondominated {
        assert!((0..=2).contains(x));
    }
}

#[test]
fn run_once_after_finish_changes_nothing() {
    let mut spea2 = Spea2::new(
        vec![0i64, 1, 2, 3, 4],
        2,
        Generations::new(0),
        WholeArchiveSelector,
        MidpointCrossover,
        IdentityMutator,
        schaffer_objectives(),
    );
    spea2.run_once();
    assert!(spea2.is_finished());
    let before: Vec<i64> = spea2.peek_all_solutions().into_iter().copied().collect();
    let nondom_before: Vec<i64> = spea2
        .peek_nondominated_solutions()
        .into_iter()
        .copied()
        .collect();
    spea2.run_once();
    spea2.run_once();
    assert!(spea2.is_finished());
    let after: Vec<i64> = spea2.peek_all_solutions().into_iter().copied().collect();
    let nondom_after: Vec<i64> = spea2
        .peek_nondominated_solutions()
        .into_iter()
        .copied()
        .collect();
    assert_eq!(before, after);
    assert_eq!(nondom_before, nondom_after);
}

#[test]
fn schaffer_run_concentrates_on_the_pareto_interval() {
    // Two objectives f1(x) = x^2 and f2(x) = (x - 2)^2 over integer
    // solutions: the Pareto-optimal values are exactly 0, 1 and 2.
    let initial: Vec<i64> = (-10..=10).collect();
    let mut spea2 = Spea2::new(
        initial,
        10,
        Generations::new(100),
        WholeArchiveSelector,
        MidpointCrossover,
        IdentityMutator,
        schaffer_objectives(),
    );
    while !spea2.is_finished() {
        spea2.run_once();
    }
    let results = spea2.get_nondominated_solutions();
    assert!(!results.is_empty());
    for x in &results {
        assert!((0..=2).contains(x), "solution {x} outside the Pareto interval");
    }
}

#[test]
fn archive_is_full_at_every_generation_boundary() {
    // With a barren crossover the population is empty from the second
    // generation on and the archive alone is visible: it must hold exactly
    // `archive_size` records after every generation.
    let initial: Vec<i64> = (-10..=10).collect();
    let mut spea2 = Spea2::new(
        initial,
        10,
        Generations::new(100),
        WholeArchiveSelector,
        BarrenCrossover,
        IdentityMutator,
        schaffer_objectives(),
    );
    let mut generations = 0;
    while !spea2.is_finished() {
        spea2.run_once();
        generations += 1;
        let archive: Vec<i64> = spea2.peek_all_solutions().into_iter().copied().collect();
        assert_eq!(archive.len(), 10);
        // Whatever is reported as non-dominated is drawn from the archive.
        for x in spea2.peek_nondominated_solutions() {
            assert!(archive.contains(x));
        }
        assert!(generations <= 101);
    }
    let results = spea2.get_nondominated_solutions();
    assert!(!results.is_empty());
    for x in &results {
        assert!((0..=2).contains(x));
    }
}

#[test]
fn get_all_solutions_returns_population_then_archive() {
    let mut spea2 = Spea2::new(
        vec![0i64, 1, 2],
        3,
        Generations::new(0),
        WholeArchiveSelector,
        MidpointCrossover,
        IdentityMutator,
        schaffer_objectives(),
    );
    spea2.run_once();
    // Finished on the first generation: the population was merged away,
    // so only the archive's three records remain.
    let mut all = spea2.get_all_solutions();
    all.sort_unstable();
    assert_eq!(all, vec![0, 1, 2]);
}

#[test]
fn generations_terminator_counts_down() {
    let mut g = Generations::new(2);
    let none: &[&i64] = &[];
    assert!(!Terminator::terminate(&mut g, none));
    assert!(!Terminator::terminate(&mut g, none));
    assert!(Terminator::terminate(&mut g, none));
    assert!(Terminator::terminate(&mut g, none));
}

#[test]
fn objectives_test_each_scores_in_order() {
    let mut objectives = schaffer_objectives();
    let scores = objectives.test_each(&3i64);
    assert_eq!(scores, vec![9, 1]);
    let scores = objectives.test_each(&-1i64);
    assert_eq!(scores, vec![1, 9]);
}

/// Recombines two parents into their midpoint.
struct Midpoint;

impl BinaryCrossover<i64> for Midpoint {
    fn recombine(&self, a: &i64, b: &i64) -> i64 {
        (*a + *b) / 2
    }
}

#[test]
fn breed_pairs_recombines_every_pair() {
    let a = 0i64;
    let b = 4i64;
    let c = 8i64;
    let parents: Vec<&i64> = vec![&a, &b, &c];
    let offspring = breed_pairs(&Midpoint, &parents);
    // Parents 0 and 1 pair with themselves and with every later parent:
    // (0,0), (0,4), (0,8), (4,4), (4,8).
    assert_eq!(offspring, vec![0, 2, 4, 4, 6]);
}

#[test]
fn breed_pairs_single_parent_breeds_nothing() {
    let a = 5i64;
    let parents: Vec<&i64> = vec![&a];
    let offspring = breed_pairs(&Midpoint, &parents);
    assert!(offspring.is_empty());
}

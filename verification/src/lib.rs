//! A multi-objective evolutionary optimizer built on the SPEA2 selection
//! scheme: Pareto-dominance fitness assignment, k-th-nearest-neighbour
//! density tie-breaking, and an archive-truncation policy that always
//! yields an archive of exactly the configured size.

pub mod breeder;
pub mod crossover;
pub mod density;
pub mod fitness;
pub mod multiset_facts;
pub mod mutator;
pub mod objective;
pub mod scores;
pub mod selection;
pub mod selector;
pub mod terminator;

pub use fitness::SolutionData;
pub use scores::ObjScores;

use vstd::prelude::*;

use crate::crossover::Crossover;
use crate::fitness::{
    assign_raw_fitness, fresh_records, raw_fitness, scores_of, solutions_of, uniform_scores,
    SolutionData as Record,
};
use crate::mutator::Mutator;
use crate::objective::{Objective, Objectives};
use crate::selection::{
    carries_record_of, lemma_selection_witness_prefix, perform_environmental_selection,
    selection_witness, sort_records, sorted_records,
};
use crate::selector::Selector;
use crate::terminator::Terminator;

verus! {

/// The value is the solution of a record of `s` with raw fitness 0: a
/// record that nothing in its own set dominates.
pub open spec fn nondominated_solution_in<U>(x: U, s: Seq<SolutionData<U>>) -> bool {
    exists|j: int|
        0 <= j < s.len() && (x == (#[trigger] s[j]).solution && s[j].raw_fitness == 0)
}

/// `scored` is `population` with every record's scores freshly evaluated:
/// the same solutions in the same order, one score per objective. The
/// score values themselves are the objectives' to choose.
pub open spec fn scored_copy<U>(
    scored: Seq<Record<U>>,
    population: Seq<Record<U>>,
    objective_count: int,
) -> bool {
    &&& scored.len() == population.len()
    &&& forall|i: int|
        0 <= i < scored.len() ==> {
            &&& (#[trigger] scored[i]).solution == population[i].solution
            &&& scored[i].scores@.len() == objective_count
        }
}

/// `fit` is `combined` with the SPEA2 raw fitness written into every
/// record; solutions, scores and k-th distances are as in `combined`.
pub open spec fn fitness_assigned<U>(fit: Seq<Record<U>>, combined: Seq<Record<U>>) -> bool {
    &&& fit.len() == combined.len()
    &&& forall|i: int|
        0 <= i < fit.len() ==> {
            &&& (#[trigger] fit[i]).solution == combined[i].solution
            &&& fit[i].scores == combined[i].scores
            &&& fit[i].kth_distance == combined[i].kth_distance
            &&& fit[i].raw_fitness == raw_fitness(scores_of(combined), i)
        }
}

/// One generation's data flow, from the state before the step to the new
/// archive: the old population is scored, the old archive and the scored
/// population are merged in that order, every merged record receives its
/// SPEA2 raw fitness over the merged set, and the new archive is the
/// `archive_size`-prefix of a selection witness over the result (see
/// [`selection::selection_witness`]).
pub open spec fn generation_step<U>(
    old_archive: Seq<Record<U>>,
    old_population: Seq<Record<U>>,
    objective_count: int,
    new_archive: Seq<Record<U>>,
    archive_size: int,
) -> bool {
    exists|scored: Seq<Record<U>>, fit: Seq<Record<U>>, w: Seq<Record<U>>|
        #![trigger scored_copy(scored, old_population, objective_count), fitness_assigned(fit, old_archive + scored), selection_witness(fit, w)]
        {
            &&& scored_copy(scored, old_population, objective_count)
            &&& fitness_assigned(fit, old_archive + scored)
            &&& selection_witness(fit, w)
            &&& new_archive == w.take(archive_size)
        }
}

/// Evaluates every record's solution against every objective and caches
/// the resulting score vectors. Solutions are left as they were.
fn evaluate_all<U, O: Objective<U>>(
    objectives: &mut Objectives<O>,
    records: &mut Vec<Record<U>>,
)
    ensures
        final(objectives).0@.len() == old(objectives).0@.len(),
        final(records)@.len() == old(records)@.len(),
        forall|i: int|
            0 <= i < old(records)@.len() ==> {
                &&& (#[trigger] final(records)@[i]).solution == old(records)@[i].solution
                &&& final(records)@[i].scores@.len() == old(objectives).0@.len()
            },
{
    let ghost orig = records@;
    let ghost m = objectives.0@.len();
    let n = records.len();
    let mut i: usize = 0;
    while i < n
        invariant
            i <= n,
            n == records@.len(),
            objectives.0@.len() == m,
            forall|t: int| i <= t < n ==> #[trigger] records@[t] == orig[t],
            forall|t: int|
                0 <= t < i ==> (#[trigger] records@[t]).solution == orig[t].solution
                    && records@[t].scores@.len() == m,
        decreases n - i,
    {
        let scores = objectives.test_each(&records[i].solution);
        records[i].scores = ObjScores(scores);
        i += 1;
    }
}

/// Borrows every record's solution, in record order.
fn collect_refs<'a, U>(records: &'a Vec<Record<U>>) -> (r: Vec<&'a U>)
    ensures
        r@.len() == records@.len(),
        forall|i: int| 0 <= i < r@.len() ==> *(#[trigger] r@[i]) == records@[i].solution,
{
    let n = records.len();
    let mut out: Vec<&U> = Vec::new();
    let mut i: usize = 0;
    while i < n
        invariant
            i <= n,
            n == records@.len(),
            out@.len() == i,
            forall|t: int| 0 <= t < i ==> *(#[trigger] out@[t]) == records@[t].solution,
        decreases n - i,
    {
        out.push(&records[i].solution);
        i += 1;
    }
    out
}

/// Wraps fresh solutions into records with sentinel metadata.
fn to_records<U>(solutions: Vec<U>) -> (r: Vec<Record<U>>)
    ensures
        r@.len() == solutions@.len(),
        solutions_of(r@) == solutions@,
        forall|i: int|
            0 <= i < r@.len() ==> {
                &&& (#[trigger] r@[i]).solution == solutions@[i]
                &&& r@[i].scores@ == Seq::<i32>::empty()
                &&& r@[i].raw_fitness == u128::MAX
                &&& r@[i].kth_distance == 0
            },
{
    let ghost orig = solutions@;
    let mut rest = solutions;
    let mut out: Vec<Record<U>> = Vec::new();
    while rest.len() > 0
        invariant
            out@.len() + rest@.len() == orig.len(),
            rest@ == orig.skip(out@.len() as int),
            forall|t: int|
                0 <= t < out@.len() ==> {
                    &&& (#[trigger] out@[t]).solution == orig[t]
                    &&& out@[t].scores@ == Seq::<i32>::empty()
                    &&& out@[t].raw_fitness == u128::MAX
                    &&& out@[t].kth_distance == 0
                },
        decreases rest@.len(),
    {
        let ghost k = out@.len() as int;
        let u = rest.remove(0);
        proof {
            assert(u == orig[k]);
            assert(rest@ =~= orig.skip(k + 1));
        }
        out.push(Record::new(u));
    }
    proof {
        assert(solutions_of(out@) =~= orig);
    }
    out
}

/// Runs the mutator over every solution in place.
fn mutate_all<U, M: Mutator<U>>(mutator: &mut M, solutions: &mut Vec<U>)
    ensures
        final(solutions)@.len() == old(solutions)@.len(),
{
    let n = solutions.len();
    let mut i: usize = 0;
    while i < n
        invariant
            i <= n,
            solutions@.len() == n,
        decreases n - i,
    {
        mutator.mutate(&mut solutions[i]);
        i += 1;
    }
}

/// Moves every record's solution onto the end of `out`, in record order.
fn push_solutions<U>(records: Vec<Record<U>>, out: &mut Vec<U>)
    ensures
        final(out)@ == old(out)@ + solutions_of(records@),
{
    let ghost orig = records@;
    let mut rest = records;
    while rest.len() > 0
        invariant
            rest@.len() <= orig.len(),
            rest@ == orig.skip((orig.len() - rest@.len()) as int),
            out@ == old(out)@ + solutions_of(orig.take((orig.len() - rest@.len()) as int)),
        decreases rest@.len(),
    {
        let ghost k = (orig.len() - rest@.len()) as int;
        let r = rest.remove(0);
        proof {
            assert(r == orig[k]);
            assert(rest@ =~= orig.skip(k + 1));
            assert(solutions_of(orig.take(k + 1)) =~= solutions_of(orig.take(k)).push(
                orig[k].solution,
            ));
        }
        out.push(r.solution);
    }
    proof {
        assert(orig.take(orig.len() as int) =~= orig);
    }
}

/// Moves out the solutions of the longest prefix of records whose raw
/// fitness is 0.
fn take_nondom_prefix<U>(records: Vec<Record<U>>) -> (r: Vec<U>)
    ensures
        r@.len() <= records@.len(),
        forall|t: int| 0 <= t < r@.len() ==> (#[trigger] records@[t]).raw_fitness == 0,
        r@.len() < records@.len() ==> records@[r@.len() as int].raw_fitness != 0,
        r@ == solutions_of(records@.take(r@.len() as int)),
{
    let ghost orig = records@;
    let mut rest = records;
    let mut out: Vec<U> = Vec::new();
    while rest.len() > 0 && rest[0].raw_fitness == 0
        invariant
            out@.len() + rest@.len() == orig.len(),
            rest@ == orig.skip(out@.len() as int),
            forall|t: int| 0 <= t < out@.len() ==> (#[trigger] orig[t]).raw_fitness == 0,
            out@ == solutions_of(orig.take(out@.len() as int)),
        decreases rest@.len(),
    {
        let ghost k = out@.len() as int;
        let r = rest.remove(0);
        proof {
            assert(r == orig[k]);
            assert(rest@ =~= orig.skip(k + 1));
            assert(solutions_of(orig.take(k + 1)) =~= solutions_of(orig.take(k)).push(
                orig[k].solution,
            ));
        }
        out.push(r.solution);
    }
    out
}

/// The SPEA2 engine: owns the population and the bounded archive of best
/// known trade-off solutions, and advances them one generation at a time
/// with the help of the caller-supplied collaborators.
pub struct Spea2<U, T, S, C, M, O> {
    population: Vec<Record<U>>,
    archive: Vec<Record<U>>,
    archive_size: usize,
    terminator: T,
    selector: S,
    crossover: C,
    mutator: M,
    objectives: Objectives<O>,
    finished: bool,
}

impl<U, T, S, C, M, O> Spea2<U, T, S, C, M, O> where
    T: Terminator<U>,
    S: Selector<U>,
    C: Crossover<U>,
    M: Mutator<U>,
    O: Objective<U>,
 {
    /// The current population: the records bred for this generation.
    pub closed spec fn spec_population(&self) -> Seq<Record<U>> {
        self.population@
    }

    /// The current archive: the best known solutions, carried across
    /// generations.
    pub closed spec fn spec_archive(&self) -> Seq<Record<U>> {
        self.archive@
    }

    /// The fixed archive capacity.
    pub closed spec fn spec_archive_size(&self) -> int {
        self.archive_size as int
    }

    /// Whether the termination condition has been met.
    pub closed spec fn spec_finished(&self) -> bool {
        self.finished
    }

    /// How many objectives each solution is scored against.
    pub closed spec fn spec_objective_count(&self) -> int {
        self.objectives.0@.len() as int
    }

    /// The engine's invariant: the archive capacity is positive and never
    /// exceeds what population and archive together hold; the archive is
    /// empty before the first generation and exactly full afterwards, in
    /// selection order, with one cached score per objective on every
    /// record.
    pub closed spec fn wf(&self) -> bool {
        &&& self.archive_size >= 1
        &&& (self.archive@.len() == 0 || self.archive@.len() == self.archive_size as int)
        &&& self.archive@.len() + self.population@.len() >= self.archive_size as int
        &&& sorted_records(self.archive@)
        &&& forall|i: int|
            0 <= i < self.archive@.len() ==> (#[trigger] self.archive@[i].scores@).len()
                == self.objectives.0@.len()
    }

    /// Creates a new engine around the given initial population and
    /// collaborators.
    ///
    /// The archive capacity must be positive and no larger than the
    /// initial population, so that the very first selection step can
    /// already fill the archive completely.
    pub fn new(
        population: Vec<U>,
        archive_size: usize,
        terminator: T,
        selector: S,
        crossover: C,
        mutator: M,
        objectives: Objectives<O>,
    ) -> (r: Self)
        requires
            population@.len() >= 1,
            archive_size >= 1,
            archive_size as int <= population@.len(),
        ensures
            r.wf(),
            !r.spec_finished(),
            r.spec_archive() == Seq::<Record<U>>::empty(),
            r.spec_archive_size() == archive_size as int,
            r.spec_objective_count() == objectives.0@.len(),
            solutions_of(r.spec_population()) == population@,
            fresh_records(r.spec_population()),
    {
        let records = to_records(population);
        Spea2 {
            archive_size,
            terminator,
            selector,
            crossover,
            mutator,
            objectives,
            population: records,
            archive: Vec::new(),
            finished: false,
        }
    }

    pub fn is_finished(&self) -> (r: bool)
        ensures
            r == self.spec_finished(),
    {
        self.finished
    }

    /// Performs a single algorithm iteration: score the population, merge
    /// it with the archive, assign raw fitness, select the new archive,
    /// ask the terminator, and — unless it fired — breed and mutate the
    /// next population. If the termination condition was already met, does
    /// nothing at all.
    pub fn run_once(&mut self)
        requires
            old(self).wf(),
        ensures
            final(self).wf(),
            final(self).spec_archive_size() == old(self).spec_archive_size(),
            final(self).spec_objective_count() == old(self).spec_objective_count(),
            old(self).spec_finished() ==> *final(self) == *old(self),
            !old(self).spec_finished() ==> {
                &&& final(self).spec_archive().len() == old(self).spec_archive_size()
                &&& generation_step(
                    old(self).spec_archive(),
                    old(self).spec_population(),
                    old(self).spec_objective_count(),
                    final(self).spec_archive(),
                    old(self).spec_archive_size(),
                )
                &&& (final(self).spec_finished() ==> final(self).spec_population()
                    == Seq::<Record<U>>::empty())
                &&& (!final(self).spec_finished() ==> fresh_records(final(self).spec_population()))
                &&& forall|i: int|
                    0 <= i < final(self).spec_archive().len() ==> (solutions_of(
                        old(self).spec_archive(),
                    ) + solutions_of(old(self).spec_population())).contains(
                        (#[trigger] final(self).spec_archive()[i]).solution,
                    )
            },
    {
        if self.finished {
            return ;
        }
        let ghost old_archive = self.archive@;
        let ghost old_population = self.population@;
        let ghost m = self.objectives.0@.len();

        evaluate_all(&mut self.objectives, &mut self.population);
        let ghost scored = self.population@;
        self.archive.append(&mut self.population);
        let ghost combined = self.archive@;
        proof {
            assert forall|i: int, j: int|
                0 <= i < combined.len() && 0 <= j < combined.len() implies (
            #[trigger] combined[i].scores@).len() == (#[trigger] combined[j].scores@).len() by {
                assert(combined[i].scores@.len() == m);
                assert(combined[j].scores@.len() == m);
            }
            assert(uniform_scores(combined));
        }
        assign_raw_fitness(&mut self.archive);
        let ghost fit = self.archive@;
        proof {
            assert forall|i: int, j: int|
                0 <= i < fit.len() && 0 <= j < fit.len() implies (
            #[trigger] fit[i].scores@).len() == (#[trigger] fit[j].scores@).len() by {
                assert(fit[i].scores == combined[i].scores);
                assert(fit[j].scores == combined[j].scores);
                assert(combined[i].scores@.len() == m);
                assert(combined[j].scores@.len() == m);
            }
            assert(uniform_scores(fit));
        }
        perform_environmental_selection(&mut self.archive, self.archive_size);
        proof {
            let size = self.archive_size as int;
            let w = choose|w: Seq<Record<U>>|
                #[trigger] selection_witness(fit, w) && self.archive@ == w.take(size);
            lemma_selection_witness_prefix(fit, w, self.archive@, size);
            assert(combined == old_archive + scored);
            assert(scored_copy(scored, old_population, m as int));
            assert(fitness_assigned(fit, old_archive + scored));
            assert(generation_step(old_archive, old_population, m as int, self.archive@, size));
            assert forall|i: int| 0 <= i < self.archive@.len() implies {
                &&& (#[trigger] self.archive@[i].scores@).len() == m
                &&& (solutions_of(old_archive) + solutions_of(old_population)).contains(
                    self.archive@[i].solution,
                )
            } by {
                assert(carries_record_of(self.archive@[i], fit));
                let j = choose|j: int|
                    0 <= j < fit.len() && {
                        &&& self.archive@[i].solution == (#[trigger] fit[j]).solution
                        &&& self.archive@[i].scores@ == fit[j].scores@
                        &&& self.archive@[i].raw_fitness == fit[j].raw_fitness
                    };
                assert(fit[j].solution == combined[j].solution);
                assert(fit[j].scores == combined[j].scores);
                assert(combined[j].scores@.len() == m);
                let pool = solutions_of(old_archive) + solutions_of(old_population);
                assert(pool.len() == combined.len());
                if j < old_archive.len() {
                    assert(combined[j].solution == old_archive[j].solution);
                    assert(pool[j] == old_archive[j].solution);
                } else {
                    assert(combined[j].solution == old_population[j - old_archive.len()].solution);
                    assert(pool[j] == old_population[j - old_archive.len()].solution);
                }
                assert(pool.contains(pool[j]));
            }
        }

        let ptrs = collect_refs(&self.archive);
        let stop = self.terminator.terminate(ptrs.as_slice());
        if stop {
            self.finished = true;
            return ;
        }

        let selected = self.selector.select(ptrs.as_slice());
        let mut news = self.crossover.recombine(selected.as_slice());
        mutate_all(&mut self.mutator, &mut news);
        self.population = to_records(news);
    }

    /// Moves out all found solutions: the current population's, then the
    /// archive's.
    pub fn get_all_solutions(self) -> (r: Vec<U>)
        ensures
            r@ == solutions_of(self.spec_population()) + solutions_of(self.spec_archive()),
    {
        let mut out: Vec<U> = Vec::new();
        push_solutions(self.population, &mut out);
        push_solutions(self.archive, &mut out);
        out
    }

    /// Moves out all found non-dominated solutions **from the archive**:
    /// the archive is put into selection order (ascending raw fitness) and
    /// the longest prefix of records with raw fitness 0 — the records
    /// nothing in their set dominates — is returned.
    pub fn get_nondominated_solutions(self) -> (r: Vec<U>)
        ensures
            exists|w: Seq<Record<U>>|
                {
                    &&& (#[trigger] w.to_multiset()) == self.spec_archive().to_multiset()
                    &&& sorted_records(w)
                    &&& r@.len() <= w.len()
                    &&& (forall|t: int| 0 <= t < r@.len() ==> (#[trigger] w[t]).raw_fitness == 0)
                    &&& (r@.len() < w.len() ==> w[r@.len() as int].raw_fitness != 0)
                    &&& r@ == solutions_of(w.take(r@.len() as int))
                },
            forall|i: int|
                0 <= i < r@.len() ==> nondominated_solution_in(
                    #[trigger] r@[i],
                    self.spec_archive(),
                ),
    {
        let ghost orig = self.archive@;
        let mut archive = self.archive;
        sort_records(&mut archive);
        let ghost w = archive@;
        let r = take_nondom_prefix(archive);
        proof {
            broadcast use vstd::seq_lib::group_to_multiset_ensures;
            broadcast use vstd::multiset::group_multiset_axioms;

            assert forall|i: int| 0 <= i < r@.len() implies nondominated_solution_in(
                #[trigger] r@[i],
                orig,
            ) by {
                assert(r@[i] == solutions_of(w.take(r@.len() as int))[i]);
                assert(r@[i] == w[i].solution);
                assert(w[i].raw_fitness == 0);
                assert(w.contains(w[i]));
                assert(w.to_multiset().count(w[i]) > 0);
                assert(orig.to_multiset().count(w[i]) > 0);
                assert(orig.contains(w[i]));
                let j = choose|j: int| 0 <= j < orig.len() && orig[j] == w[i];
                assert(0 <= j < orig.len() && (r@[i] == orig[j].solution && orig[j].raw_fitness
                    == 0));
            }
        }
        r
    }

    /// Borrows all found solutions: the current population's, then the
    /// archive's.
    pub fn peek_all_solutions(&self) -> (r: Vec<&U>)
        ensures
            r@.len() == self.spec_population().len() + self.spec_archive().len(),
            forall|i: int|
                0 <= i < self.spec_population().len() ==> *(#[trigger] r@[i])
                    == self.spec_population()[i].solution,
            forall|i: int|
                self.spec_population().len() <= i < r@.len() ==> *(#[trigger] r@[i])
                    == self.spec_archive()[i - self.spec_population().len()].solution,
    {
        let mut out = collect_refs(&self.population);
        let mut from_archive = collect_refs(&self.archive);
        out.append(&mut from_archive);
        out
    }

    /// Borrows all non-dominated solutions **from the archive**: the
    /// longest prefix of archive records with raw fitness 0. The archive
    /// is kept in selection order, so after any completed generation this
    /// prefix holds exactly the archive records nothing dominates.
    pub fn peek_nondominated_solutions(&self) -> (r: Vec<&U>)
        ensures
            r@.len() <= self.spec_archive().len(),
            forall|i: int|
                0 <= i < r@.len() ==> *(#[trigger] r@[i]) == self.spec_archive()[i].solution
                    && self.spec_archive()[i].raw_fitness == 0,
            r@.len() < self.spec_archive().len() ==> self.spec_archive()[
                r@.len() as int
            ].raw_fitness != 0,
    {
        let n = self.archive.len();
        let mut out: Vec<&U> = Vec::new();
        let mut i: usize = 0;
        while i < n && self.archive[i].raw_fitness == 0
            invariant
                i <= n,
                n == self.archive@.len(),
                out@.len() == i,
                forall|t: int|
                    0 <= t < i ==> *(#[trigger] out@[t]) == self.archive@[t].solution
                        && self.archive@[t].raw_fitness == 0,
            decreases n - i,
        {
            out.push(&self.archive[i].solution);
            i += 1;
        }
        out
    }
}

} // verus!

//! The (1+1) evolutionary algorithm: one candidate, one offspring per
//! generation, and the better of the two survives.

use crate::algorithms::{AlgorithmCore, SimulationState, StatusSnapshot};
use crate::fitness::{FitnessFunction, FitnessOrder};
use crate::mutation::Mutation;
use crate::rng::{MyRng, Script};
use crate::search_space::SearchSpace;
use vstd::prelude::*;

verus! {

/// What `extra + 1` applications of the operator make of `solution` with a
/// scripted source, each applied to the offspring of the one before, and
/// what they leave of the script.
pub open spec fn compounded<S: SearchSpace, M: Mutation<S>>(
    mutator: M,
    solution: S::V,
    script: Script,
    extra: nat,
) -> (S::V, Script)
    decreases extra,
{
    let first = mutator.outcome(solution, script);
    if extra == 0 {
        first
    } else {
        compounded::<S, M>(mutator, first.0, first.1, (extra - 1) as nat)
    }
}

/// A scripted source holds the draws of `extra + 1` applications in a row.
pub open spec fn compound_ready<S: SearchSpace, M: Mutation<S>>(
    mutator: M,
    solution: S::V,
    script: Script,
    extra: nat,
) -> bool
    decreases extra,
{
    mutator.ready(solution, script) && (extra == 0 || compound_ready::<S, M>(
        mutator,
        mutator.outcome(solution, script).0,
        mutator.outcome(solution, script).1,
        (extra - 1) as nat,
    ))
}

/// Each candidate of `trail` but the first is an offspring that the
/// operator can make of the one before.
pub open spec fn is_trail<S: SearchSpace, M: Mutation<S>>(mutator: M, trail: Seq<S::V>) -> bool {
    forall|i: int| 0 <= i < trail.len() - 1 ==> mutator.reaches(#[trigger] trail[i], trail[i + 1])
}

/// `offspring` can come of `solution` by `extra + 1` applications in a row.
pub open spec fn compound_reaches<S: SearchSpace, M: Mutation<S>>(
    mutator: M,
    solution: S::V,
    offspring: S::V,
    extra: nat,
) -> bool {
    exists|trail: Seq<S::V>| #[trigger]
        is_trail::<S, M>(mutator, trail) && trail.len() == extra + 2 && trail[0] == solution
            && trail.last() == offspring
}

/// Running `k + 1` applications and then `rest + 1` more is running
/// `k + rest + 2` of them.
pub proof fn lemma_compounded_splits<S: SearchSpace, M: Mutation<S>>(
    mutator: M,
    solution: S::V,
    script: Script,
    k: nat,
    rest: nat,
)
    ensures
        compounded::<S, M>(mutator, solution, script, k + rest + 1) == compounded::<S, M>(
            mutator,
            compounded::<S, M>(mutator, solution, script, k).0,
            compounded::<S, M>(mutator, solution, script, k).1,
            rest,
        ),
        compound_ready::<S, M>(mutator, solution, script, k + rest + 1) ==> compound_ready::<S, M>(
            mutator,
            solution,
            script,
            k,
        ) && compound_ready::<S, M>(
            mutator,
            compounded::<S, M>(mutator, solution, script, k).0,
            compounded::<S, M>(mutator, solution, script, k).1,
            rest,
        ),
    decreases k,
{
    if k > 0 {
        let first = mutator.outcome(solution, script);
        lemma_compounded_splits::<S, M>(mutator, first.0, first.1, (k - 1) as nat, rest);
        assert((k - 1) as nat + rest + 1 == (k + rest + 1 - 1) as nat);
    }
}

/// The (1+1) evolutionary algorithm on candidates of the kind `S`.
pub struct OnePlusOneEA<S: SearchSpace, F: FitnessFunction<S>, M: Mutation<S>> {
    pub state: SimulationState<S>,
    fitness_function: F,
    mutator: M,
}

impl<S: SearchSpace, F: FitnessFunction<S>, M: Mutation<S>> OnePlusOneEA<S, F, M> {
    /// The state, as the field `state` holds it.
    pub closed spec fn held(&self) -> SimulationState<S> {
        self.state
    }

    /// The fitness function that the algorithm optimises.
    pub closed spec fn fitness(&self) -> F {
        self.fitness_function
    }

    /// The operator that makes the offspring.
    pub closed spec fn operator(&self) -> M {
        self.mutator
    }

    /// The candidate held is valid, the fitness function and the operator
    /// work on its size, and the fitness held is the candidate's.
    pub open spec fn well_formed(&self) -> bool {
        &&& self.held().current_solution.valid()
        &&& self.fitness().fits(self.held().current_solution.spec_size())
        &&& self.operator().admits(self.held().current_solution.spec_size())
        &&& self.held().current_fitness == self.fitness().score(self.held().current_solution@)
    }

    /// Starts from a candidate of the given size drawn uniformly.
    pub fn new<R: MyRng>(size: usize, mutator: M, fitness_function: F, rng: &mut R) -> (ea: Self)
        requires
            fitness_function.fits(size as nat),
            mutator.admits(size as nat),
            old(rng).script() matches Some(s) ==> S::random_ready(size, s),
        ensures
            ea.well_formed(),
            ea.fitness() == fitness_function,
            ea.operator() == mutator,
            ea.held().iteration == 0,
            ea.held().current_solution.spec_size() == size,
            match old(rng).script() {
                Some(s) => {
                    &&& ea.held().current_solution@ == S::random_outcome(size, s).0
                    &&& final(rng).script() == Some(S::random_outcome(size, s).1)
                },
                None => final(rng).script() is None,
            },
    {
        let current_solution = S::new_random(size, rng);
        let current_fitness = fitness_function.evaluate(&current_solution);
        OnePlusOneEA {
            state: SimulationState { iteration: 0, current_solution, current_fitness },
            fitness_function,
            mutator,
        }
    }

    pub fn current_solution(&self) -> (solution: &S)
        ensures
            *solution == self.held().current_solution,
    {
        &self.state.current_solution
    }

    /// The offspring of one generation, and the number of applications
    /// after the first that made it: the operator is applied once, and then
    /// as many times more as the operator says, each time to the offspring
    /// before.
    pub fn offspring<R: MyRng>(&self, rng: &mut R) -> (made: (S, u64))
        requires
            self.well_formed(),
            old(rng).script() matches Some(s) ==> self.generation_ready(s),
        ensures
            made.0.valid(),
            made.0.spec_size() == self.held().current_solution.spec_size(),
            compound_reaches::<S, M>(
                self.operator(),
                self.held().current_solution@,
                made.0@,
                made.1 as nat,
            ),
            match old(rng).script() {
                Some(s) => {
                    &&& made.1 == self.operator().repeats_outcome(s).0
                    &&& made.0@ == self.offspring_outcome(s).0
                    &&& final(rng).script() == Some(self.offspring_outcome(s).1)
                },
                None => final(rng).script() is None,
            },
    {
        let ghost before = rng.script();
        let num_mutations = self.mutator.repeats(rng);
        let ghost start = rng.script();
        let ghost origin = self.held().current_solution@;
        let mut offspring = self.mutator.apply(&self.state.current_solution, rng);
        let mut done: u64 = 0;
        let ghost mut trail: Seq<S::V> = seq![origin, offspring@];
        while done < num_mutations
            invariant
                done <= num_mutations,
                offspring.valid(),
                offspring.spec_size() == self.held().current_solution.spec_size(),
                self.operator().admits(offspring.spec_size()),
                self.operator() == self.mutator,
                origin == self.held().current_solution@,
                is_trail::<S, M>(self.operator(), trail),
                trail.len() == done + 2,
                trail[0] == origin,
                trail.last() == offspring@,
                match start {
                    Some(s) => {
                        &&& compound_ready::<S, M>(self.operator(), origin, s, num_mutations as nat)
                        &&& offspring@ == compounded::<S, M>(
                            self.operator(),
                            origin,
                            s,
                            done as nat,
                        ).0
                        &&& rng.script() == Some(
                            compounded::<S, M>(self.operator(), origin, s, done as nat).1,
                        )
                    },
                    None => rng.script() is None,
                },
            decreases num_mutations - done,
        {
            let ghost previous = offspring@;
            proof {
                if let Some(s) = start {
                    lemma_compounded_splits::<S, M>(
                        self.operator(),
                        origin,
                        s,
                        done as nat,
                        (num_mutations - done - 1) as nat,
                    );
                    lemma_compounded_splits::<S, M>(self.operator(), origin, s, done as nat, 0);
                }
            }
            offspring = self.mutator.apply(&offspring, rng);
            done += 1;
            proof {
                let longer = trail.push(offspring@);
                assert forall|i: int| 0 <= i < longer.len() - 1 implies self.operator().reaches(
                    #[trigger] longer[i],
                    longer[i + 1],
                ) by {
                    if i < trail.len() - 1 {
                        assert(self.operator().reaches(trail[i], trail[i + 1]));
                    }
                }
                trail = longer;
            }
        }
        proof {
            assert(is_trail::<S, M>(self.operator(), trail) && trail.len() == num_mutations as nat + 2
                && trail[0] == origin && trail.last() == offspring@);
        }
        (offspring, num_mutations)
    }

    /// What `offspring` makes with a scripted source, and what it leaves of
    /// the script.
    pub open spec fn offspring_outcome(&self, script: Script) -> (S::V, Script) {
        let repeats = self.operator().repeats_outcome(script);
        compounded::<S, M>(
            self.operator(),
            self.held().current_solution@,
            repeats.1,
            repeats.0 as nat,
        )
    }

    /// A scripted source holds the draws of one generation.
    pub open spec fn generation_ready(&self, script: Script) -> bool {
        &&& self.operator().repeats_ready(script)
        &&& compound_ready::<S, M>(
            self.operator(),
            self.held().current_solution@,
            self.operator().repeats_outcome(script).1,
            self.operator().repeats_outcome(script).0 as nat,
        )
    }
}

impl<S: SearchSpace, F: FitnessFunction<S>, M: Mutation<S>> AlgorithmCore for OnePlusOneEA<
    S,
    F,
    M,
> {
    open spec fn wf(&self) -> bool {
        self.well_formed()
    }

    open spec fn spec_iterations(&self) -> u64 {
        self.held().iteration
    }

    open spec fn spec_current_fitness(&self) -> u64 {
        self.held().current_fitness
    }

    open spec fn spec_current_solution(&self) -> Seq<char> {
        S::text(self.held().current_solution@)
    }

    open spec fn iterate_ready(&self, script: Script) -> bool {
        self.generation_ready(script)
    }

    /// One generation: an offspring is made and scored, and it replaces
    /// the candidate held where it is strictly better.
    fn iterate<R: MyRng>(&mut self, rng: &mut R)
        ensures
            final(self).fitness() == old(self).fitness(),
            final(self).operator() == old(self).operator(),
            final(self).held().current_solution.spec_size() == old(
                self,
            ).held().current_solution.spec_size(),
            exists|offspring: S::V, extra: nat| #[trigger]
                compound_reaches::<S, M>(
                    old(self).operator(),
                    old(self).held().current_solution@,
                    offspring,
                    extra,
                ) && (final(self).held().current_solution@, final(self).held().current_fitness)
                    == crate::algorithms::survivor::<S, F>(
                    old(self).fitness(),
                    old(self).held().current_solution@,
                    old(self).held().current_fitness,
                    offspring,
                ),
            match old(rng).script() {
                Some(s) => {
                    &&& (final(self).held().current_solution@, final(self).held().current_fitness)
                        == crate::algorithms::survivor::<S, F>(
                        old(self).fitness(),
                        old(self).held().current_solution@,
                        old(self).held().current_fitness,
                        old(self).offspring_outcome(s).0,
                    )
                    &&& final(rng).script() == Some(old(self).offspring_outcome(s).1)
                },
                None => final(rng).script() is None,
            },
            crate::fitness::no_worse(
                old(self).fitness().maximizing(),
                final(self).held().current_fitness,
                old(self).held().current_fitness,
            ),
    {
        let (offspring, repeats) = self.offspring(rng);
        let new_fitness = self.fitness_function.evaluate(&offspring);
        let ghost made = offspring@;
        self.state.iteration += 1;
        match self.fitness_function.compare(new_fitness, self.state.current_fitness) {
            FitnessOrder::Greater => {
                self.state.current_fitness = new_fitness;
                self.state.current_solution = offspring;
            },
            _ => {},
        }
        proof {
            assert(compound_reaches::<S, M>(
                old(self).operator(),
                old(self).held().current_solution@,
                made,
                repeats as nat,
            ));
        }
    }

    fn current_fitness(&self) -> (fitness: u64) {
        self.state.current_fitness
    }

    fn iterations(&self) -> (iterations: u64) {
        self.state.iteration
    }

    fn status_snapshot(&self) -> (status: StatusSnapshot) {
        StatusSnapshot {
            iterations: self.state.iteration,
            current_fitness: self.state.current_fitness,
            current_solution: self.state.current_solution.to_string(),
        }
    }
}

} // verus!

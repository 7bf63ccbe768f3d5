//! The algorithms, and what they have in common: a state that one call of
//! `iterate` advances by one generation.

use crate::fitness::FitnessFunction;
use crate::rng::{MyRng, Script};
use crate::search_space::SearchSpace;
use vstd::prelude::*;

pub mod aco2;
pub mod mmas;
pub mod one_plus_one_ea;
pub mod simulated_annealing;

verus! {

/// What an algorithm has reached: the number of generations so far, the
/// best candidate it holds, and that candidate's fitness.
#[derive(Debug)]
pub struct SimulationState<S: SearchSpace> {
    pub iteration: u64,
    pub current_solution: S,
    pub current_fitness: u64,
}

/// The state of an algorithm as a caller reads it.
#[derive(Debug)]
pub struct StatusSnapshot {
    pub iterations: u64,
    pub current_fitness: u64,
    pub current_solution: String,
}

/// Which of the candidate held and the offspring goes on to the next
/// generation, with its fitness: the offspring where it is strictly better,
/// else the candidate held.
pub open spec fn survivor<S: SearchSpace, F: FitnessFunction<S>>(
    fitness: F,
    held: S::V,
    held_fitness: u64,
    offspring: S::V,
) -> (S::V, u64) {
    if crate::fitness::better(fitness.maximizing(), fitness.score(offspring), held_fitness) {
        (offspring, fitness.score(offspring))
    } else {
        (held, held_fitness)
    }
}

/// What every algorithm offers to the caller that drives it.
pub trait AlgorithmCore {
    /// The algorithm's parts fit together.
    spec fn wf(&self) -> bool;

    /// The number of generations so far.
    spec fn spec_iterations(&self) -> u64;

    /// The fitness of the candidate held.
    spec fn spec_current_fitness(&self) -> u64;

    /// The candidate held, written out.
    spec fn spec_current_solution(&self) -> Seq<char>;

    /// A scripted source holds the draws of one generation.
    spec fn iterate_ready(&self, script: Script) -> bool;

    /// One generation.
    fn iterate<R: MyRng>(&mut self, rng: &mut R)
        requires
            old(self).wf(),
            old(self).spec_iterations() < u64::MAX,
            old(rng).script() matches Some(s) ==> old(self).iterate_ready(s),
        ensures
            final(self).wf(),
            final(self).spec_iterations() == old(self).spec_iterations() + 1,
            old(rng).script() is Some <==> final(rng).script() is Some,
    ;

    fn current_fitness(&self) -> (fitness: u64)
        ensures
            fitness == self.spec_current_fitness(),
    ;

    fn iterations(&self) -> (iterations: u64)
        ensures
            iterations == self.spec_iterations(),
    ;

    fn status_snapshot(&self) -> (status: StatusSnapshot)
        ensures
            status.iterations == self.spec_iterations(),
            status.current_fitness == self.spec_current_fitness(),
            status.current_solution@ == self.spec_current_solution(),
    ;
}

} // verus!

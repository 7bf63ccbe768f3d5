//! Simulated annealing: a neighbour that is strictly better is always
//! taken, and one that is not is taken by chance.
//!
//! The chance depends on a temperature, which is a real number and is kept
//! by the caller: `iterate` asks the caller's acceptance rule for the
//! probability, as a numerator over 2^64, and draws with it. The two halves
//! of a generation are at hand too: `propose` draws and scores the
//! neighbour, and `settle` completes the generation with the decision.

use crate::algorithms::{AlgorithmCore, SimulationState, StatusSnapshot};
use crate::fitness::{FitnessFunction, FitnessOrder};
use crate::mutation::Mutation;
use crate::rng::{MyRng, Script};
use crate::search_space::SearchSpace;
use vstd::prelude::*;

verus! {

/// A neighbour of the candidate held, with its fitness.
pub struct Proposal<S: SearchSpace> {
    pub neighbor: S,
    pub fitness: u64,
    /// The neighbour is strictly better than the candidate held.
    pub improves: bool,
    /// How far the neighbour's fitness is from the one held.
    pub difference: u64,
}

/// What a chance draw decides at a threshold: nothing is taken with
/// probability zero and everything with certainty, whatever was drawn; in
/// between, the draw decides.
pub open spec fn decision(threshold: u64, drawn: bool) -> bool {
    if threshold == 0 {
        false
    } else if threshold == u64::MAX {
        true
    } else {
        drawn
    }
}

/// The acceptance rule never gives a chance: whatever it is asked, it
/// answers with no probability or with probability zero. This is the rule
/// at temperature zero.
pub open spec fn never_accepts<A: Fn(u64, u64) -> Option<u64>>(acceptance: A) -> bool {
    forall|difference: u64, iteration: u64, answer: Option<u64>|
        call_ensures(acceptance, (difference, iteration), answer) ==> answer is None || answer
            == Some(0u64)
}

/// The distance between two fitness values.
pub open spec fn gap(a: u64, b: u64) -> u64 {
    if a >= b {
        (a - b) as u64
    } else {
        (b - a) as u64
    }
}

/// Simulated annealing on candidates of the kind `S`.
pub struct SimulatedAnnealing<S: SearchSpace, F: FitnessFunction<S>, M: Mutation<S>> {
    pub state: SimulationState<S>,
    fitness: F,
    mutator: M,
}

impl<S: SearchSpace, F: FitnessFunction<S>, M: Mutation<S>> SimulatedAnnealing<S, F, M> {
    /// The state, as the field `state` holds it.
    pub closed spec fn held(&self) -> SimulationState<S> {
        self.state
    }

    /// The fitness function that the algorithm optimises.
    pub closed spec fn objective(&self) -> F {
        self.fitness
    }

    /// The operator that makes the neighbours.
    pub closed spec fn operator(&self) -> M {
        self.mutator
    }

    /// The candidate held is valid, the fitness function and the operator
    /// work on its size, and the fitness held is the candidate's.
    pub open spec fn well_formed(&self) -> bool {
        &&& self.held().current_solution.valid()
        &&& self.objective().fits(self.held().current_solution.spec_size())
        &&& self.operator().admits(self.held().current_solution.spec_size())
        &&& self.held().current_fitness == self.objective().score(self.held().current_solution@)
    }

    /// `proposal` is a neighbour of the candidate held, scored against it.
    pub open spec fn proposed(&self, proposal: &Proposal<S>) -> bool {
        &&& proposal.neighbor.valid()
        &&& proposal.neighbor.spec_size() == self.held().current_solution.spec_size()
        &&& self.operator().reaches(self.held().current_solution@, proposal.neighbor@)
        &&& proposal.fitness == self.objective().score(proposal.neighbor@)
        &&& proposal.improves == crate::fitness::better(
            self.objective().maximizing(),
            proposal.fitness,
            self.held().current_fitness,
        )
        &&& proposal.difference == gap(proposal.fitness, self.held().current_fitness)
    }

    /// Starts from a candidate of the given size drawn uniformly.
    pub fn new<R: MyRng>(size: usize, mutator: M, fitness: F, rng: &mut R) -> (sa: Self)
        requires
            fitness.fits(size as nat),
            mutator.admits(size as nat),
            old(rng).script() matches Some(s) ==> S::random_ready(size, s),
        ensures
            sa.well_formed(),
            sa.objective() == fitness,
            sa.operator() == mutator,
            sa.held().iteration == 0,
            sa.held().current_solution.spec_size() == size,
            match old(rng).script() {
                Some(s) => {
                    &&& sa.held().current_solution@ == S::random_outcome(size, s).0
                    &&& final(rng).script() == Some(S::random_outcome(size, s).1)
                },
                None => final(rng).script() is None,
            },
    {
        let current_solution = S::new_random(size, rng);
        let current_fitness = fitness.evaluate(&current_solution);
        SimulatedAnnealing {
            state: SimulationState { iteration: 0, current_solution, current_fitness },
            fitness,
            mutator,
        }
    }

    /// The first half of a generation: a neighbour of the candidate held,
    /// made by one application of the operator, and its score.
    pub fn propose<R: MyRng>(&self, rng: &mut R) -> (proposal: Proposal<S>)
        requires
            self.well_formed(),
            old(rng).script() matches Some(s) ==> self.operator().ready(
                self.held().current_solution@,
                s,
            ),
        ensures
            self.proposed(&proposal),
            match old(rng).script() {
                Some(s) => {
                    &&& proposal.neighbor@ == self.operator().outcome(
                        self.held().current_solution@,
                        s,
                    ).0
                    &&& final(rng).script() == Some(
                        self.operator().outcome(self.held().current_solution@, s).1,
                    )
                },
                None => final(rng).script() is None,
            },
    {
        let neighbor = self.mutator.apply(&self.state.current_solution, rng);
        let fitness = self.fitness.evaluate(&neighbor);
        let held = self.state.current_fitness;
        let improves = match self.fitness.compare(fitness, held) {
            FitnessOrder::Greater => true,
            _ => false,
        };
        let difference = if fitness >= held {
            fitness - held
        } else {
            held - fitness
        };
        Proposal { neighbor, fitness, improves, difference }
    }

    /// The second half of a generation. A neighbour that improves is
    /// taken; one that does not is taken where `accepted` says so.
    pub fn settle(&mut self, proposal: Proposal<S>, accepted: bool)
        requires
            old(self).well_formed(),
            old(self).proposed(&proposal),
            old(self).held().iteration < u64::MAX,
        ensures
            final(self).well_formed(),
            final(self).objective() == old(self).objective(),
            final(self).operator() == old(self).operator(),
            final(self).held().iteration == old(self).held().iteration + 1,
            final(self).held().current_solution.spec_size() == old(
                self,
            ).held().current_solution.spec_size(),
            if proposal.improves || accepted {
                &&& final(self).held().current_solution@ == proposal.neighbor@
                &&& final(self).held().current_fitness == proposal.fitness
            } else {
                &&& final(self).held().current_solution@ == old(self).held().current_solution@
                &&& final(self).held().current_fitness == old(self).held().current_fitness
            },
            !accepted ==> crate::fitness::no_worse(
                old(self).objective().maximizing(),
                final(self).held().current_fitness,
                old(self).held().current_fitness,
            ),
    {
        if proposal.improves || accepted {
            self.state.current_fitness = proposal.fitness;
            self.state.current_solution = proposal.neighbor;
        }
        self.state.iteration += 1;
    }

    /// A scripted source holds the draws of one generation under the
    /// acceptance rule: those of the operator, and the chance draw where
    /// the neighbour is no improvement and the rule gives a probability.
    pub open spec fn iterate_ready<A: Fn(u64, u64) -> Option<u64>>(
        &self,
        script: Script,
        acceptance: A,
    ) -> bool {
        let made = self.operator().outcome(self.held().current_solution@, script);
        let fitness = self.objective().score(made.0);
        &&& self.operator().ready(self.held().current_solution@, script)
        &&& !crate::fitness::better(
            self.objective().maximizing(),
            fitness,
            self.held().current_fitness,
        ) ==> forall|threshold: u64|
            call_ensures(
                acceptance,
                (gap(fitness, self.held().current_fitness), self.held().iteration),
                Some(threshold),
            ) ==> made.1.chances.len() > 0
    }

    /// One generation. A neighbour is made and scored. Where it is
    /// strictly better it is taken. Where it is not, the acceptance rule
    /// is asked with the distance between the two fitness values and the
    /// number of generations so far; where it answers with a probability,
    /// a chance is drawn with that probability and the neighbour is taken
    /// by the `decision` on it, and where it answers `None`, the neighbour
    /// is not taken and nothing is drawn.
    pub fn iterate<R: MyRng, A: Fn(u64, u64) -> Option<u64>>(&mut self, rng: &mut R, acceptance: &A)
        requires
            old(self).well_formed(),
            old(self).held().iteration < u64::MAX,
            forall|difference: u64, iteration: u64|
                call_requires(*acceptance, (difference, iteration)),
            old(rng).script() matches Some(s) ==> old(self).iterate_ready(s, *acceptance),
        ensures
            final(self).well_formed(),
            final(self).objective() == old(self).objective(),
            final(self).operator() == old(self).operator(),
            final(self).held().iteration == old(self).held().iteration + 1,
            final(self).held().current_solution.spec_size() == old(
                self,
            ).held().current_solution.spec_size(),
            exists|neighbor: <S as View>::V, taken: bool| #[trigger]
                old(self).decided(
                    *acceptance,
                    old(rng).script(),
                    neighbor,
                    taken,
                    final(rng).script(),
                ) && (final(self).held().current_solution@, final(self).held().current_fitness)
                    == old(self).settled(neighbor, taken),
            never_accepts(*acceptance) ==> crate::fitness::no_worse(
                old(self).objective().maximizing(),
                final(self).held().current_fitness,
                old(self).held().current_fitness,
            ),
    {
        let ghost before = rng.script();
        let proposal = self.propose(rng);
        let ghost neighbor = proposal.neighbor@;
        let ghost improves = proposal.improves;
        let mut accepted = false;
        let ghost mut answer: Option<u64> = None;
        if !proposal.improves {
            let verdict = acceptance(proposal.difference, self.state.iteration);
            proof {
                answer = verdict;
            }
            match verdict {
                Some(threshold) => {
                    proof {
                        if let Some(s) = before {
                            let made = self.operator().outcome(self.held().current_solution@, s);
                            assert(neighbor == made.0);
                            assert(made.1.chances.len() > 0);
                        }
                    }
                    let drawn = rng.random_bool(threshold);
                    accepted = threshold == u64::MAX || (threshold != 0 && drawn);
                },
                None => {},
            }
        }
        self.settle(proposal, accepted);
        proof {
            let taken = improves || accepted;
            if !improves {
                assert(call_ensures(
                    *acceptance,
                    (
                        gap(
                            old(self).objective().score(neighbor),
                            old(self).held().current_fitness,
                        ),
                        old(self).held().iteration,
                    ),
                    answer,
                ));
            }
            assert(old(self).decided(*acceptance, before, neighbor, taken, rng.script()));
        }
    }

    /// `neighbor` is a neighbour that the operator can make of the
    /// candidate held, the one it makes from the script where there is
    /// one, and `taken` is a decision on it that the acceptance rule
    /// allows: an improvement is taken; what is no improvement is taken
    /// only where the rule answers with a probability above zero, and is
    /// taken for sure where that probability is certainty. With a script,
    /// the decision is the `decision` on the chance that the script holds,
    /// and `after` is what is left of the script.
    pub open spec fn decided<A: Fn(u64, u64) -> Option<u64>>(
        &self,
        acceptance: A,
        script: Option<Script>,
        neighbor: <S as View>::V,
        taken: bool,
        after: Option<Script>,
    ) -> bool {
        let fitness = self.objective().score(neighbor);
        let improves = crate::fitness::better(
            self.objective().maximizing(),
            fitness,
            self.held().current_fitness,
        );
        &&& self.operator().reaches(self.held().current_solution@, neighbor)
        &&& script is Some <==> after is Some
        &&& script matches Some(s) ==> neighbor == self.operator().outcome(
            self.held().current_solution@,
            s,
        ).0
        &&& improves ==> taken && (script matches Some(s) ==> after == Some(
            self.operator().outcome(self.held().current_solution@, s).1,
        ))
        &&& !improves ==> exists|answer: Option<u64>| #[trigger]
            call_ensures(
                acceptance,
                (gap(fitness, self.held().current_fitness), self.held().iteration),
                answer,
            ) && self.answered(answer, script, taken, after)
    }

    /// `taken` is a decision that the answer of the acceptance rule allows
    /// on a neighbour that is no improvement.
    pub open spec fn answered(
        &self,
        answer: Option<u64>,
        script: Option<Script>,
        taken: bool,
        after: Option<Script>,
    ) -> bool {
        match answer {
            None => !taken && (script matches Some(s) ==> after == Some(
                self.operator().outcome(self.held().current_solution@, s).1,
            )),
            Some(threshold) => {
                &&& threshold == 0 ==> !taken
                &&& threshold == u64::MAX ==> taken
                &&& script matches Some(s) ==> {
                    let rest = self.operator().outcome(self.held().current_solution@, s).1;
                    taken == decision(threshold, rest.chances[0]) && after == Some(
                        rest.skip_chances(1),
                    )
                }
            },
        }
    }

    /// The candidate and the fitness held after a generation that decided
    /// `taken` on `neighbor`.
    pub open spec fn settled(&self, neighbor: <S as View>::V, taken: bool) -> (<S as View>::V, u64) {
        if taken {
            (neighbor, self.objective().score(neighbor))
        } else {
            (self.held().current_solution@, self.held().current_fitness)
        }
    }

    /// A whole generation at temperature zero, where no neighbour is taken
    /// by chance: the neighbour replaces the candidate held only where it
    /// is strictly better, and the fitness held never gets worse.
    pub fn iterate_frozen<R: MyRng>(&mut self, rng: &mut R)
        requires
            old(self).well_formed(),
            old(self).held().iteration < u64::MAX,
            old(rng).script() matches Some(s) ==> old(self).operator().ready(
                old(self).held().current_solution@,
                s,
            ),
        ensures
            final(self).well_formed(),
            final(self).objective() == old(self).objective(),
            final(self).operator() == old(self).operator(),
            final(self).held().iteration == old(self).held().iteration + 1,
            exists|neighbor: <S as View>::V| #[trigger]
                old(self).operator().reaches(old(self).held().current_solution@, neighbor) && (
                    final(self).held().current_solution@,
                    final(self).held().current_fitness,
                ) == crate::algorithms::survivor::<S, F>(
                    old(self).objective(),
                    old(self).held().current_solution@,
                    old(self).held().current_fitness,
                    neighbor,
                ),
            match old(rng).script() {
                Some(s) => {
                    &&& (final(self).held().current_solution@, final(self).held().current_fitness)
                        == crate::algorithms::survivor::<S, F>(
                        old(self).objective(),
                        old(self).held().current_solution@,
                        old(self).held().current_fitness,
                        old(self).operator().outcome(old(self).held().current_solution@, s).0,
                    )
                    &&& final(rng).script() == Some(
                        old(self).operator().outcome(old(self).held().current_solution@, s).1,
                    )
                },
                None => final(rng).script() is None,
            },
            crate::fitness::no_worse(
                old(self).objective().maximizing(),
                final(self).held().current_fitness,
                old(self).held().current_fitness,
            ),
    {
        let proposal = self.propose(rng);
        let ghost neighbor = proposal.neighbor@;
        self.settle(proposal, false);
        proof {
            assert(old(self).operator().reaches(old(self).held().current_solution@, neighbor));
        }
    }

    pub fn current_solution(&self) -> (solution: &S)
        ensures
            *solution == self.held().current_solution,
    {
        &self.state.current_solution
    }

    /// The state as a caller reads it.
    pub fn status_snapshot(&self) -> (status: StatusSnapshot)
        ensures
            status.iterations == self.held().iteration,
            status.current_fitness == self.held().current_fitness,
            status.current_solution@ == S::text(self.held().current_solution@),
    {
        StatusSnapshot {
            iterations: self.state.iteration,
            current_fitness: self.state.current_fitness,
            current_solution: self.state.current_solution.to_string(),
        }
    }

    pub fn current_fitness(&self) -> (fitness: u64)
        ensures
            fitness == self.held().current_fitness,
    {
        self.state.current_fitness
    }

    pub fn iterations(&self) -> (iterations: u64)
        ensures
            iterations == self.held().iteration,
    {
        self.state.iteration
    }
}

/// Simulated annealing with its acceptance rule: the algorithm as a caller
/// drives it, one call for each generation.
pub struct RuledAnnealing<
    S: SearchSpace,
    F: FitnessFunction<S>,
    M: Mutation<S>,
    A: Fn(u64, u64) -> Option<u64>,
> {
    annealing: SimulatedAnnealing<S, F, M>,
    acceptance: A,
}

impl<
    S: SearchSpace,
    F: FitnessFunction<S>,
    M: Mutation<S>,
    A: Fn(u64, u64) -> Option<u64>,
> RuledAnnealing<S, F, M, A> {
    /// The algorithm without its rule.
    pub closed spec fn inner(&self) -> SimulatedAnnealing<S, F, M> {
        self.annealing
    }

    /// The acceptance rule.
    pub closed spec fn rule(&self) -> A {
        self.acceptance
    }

    /// The algorithm with the rule that decides on what is no improvement.
    /// The rule is asked with the distance between two fitness values and
    /// the number of generations so far.
    pub fn new(annealing: SimulatedAnnealing<S, F, M>, acceptance: A) -> (ruled: Self)
        ensures
            ruled.inner() == annealing,
            ruled.rule() == acceptance,
    {
        RuledAnnealing { annealing, acceptance }
    }

    pub fn annealing(&self) -> (annealing: &SimulatedAnnealing<S, F, M>)
        ensures
            *annealing == self.inner(),
    {
        &self.annealing
    }
}

impl<
    S: SearchSpace,
    F: FitnessFunction<S>,
    M: Mutation<S>,
    A: Fn(u64, u64) -> Option<u64>,
> AlgorithmCore for RuledAnnealing<S, F, M, A> {
    /// The algorithm's parts fit together, and the rule answers whatever
    /// it is asked.
    open spec fn wf(&self) -> bool {
        &&& self.inner().well_formed()
        &&& forall|difference: u64, iteration: u64|
            call_requires(self.rule(), (difference, iteration))
    }

    open spec fn spec_iterations(&self) -> u64 {
        self.inner().held().iteration
    }

    open spec fn spec_current_fitness(&self) -> u64 {
        self.inner().held().current_fitness
    }

    open spec fn spec_current_solution(&self) -> Seq<char> {
        S::text(self.inner().held().current_solution@)
    }

    open spec fn iterate_ready(&self, script: Script) -> bool {
        self.inner().iterate_ready(script, self.rule())
    }

    /// One generation of the algorithm under its rule.
    fn iterate<R: MyRng>(&mut self, rng: &mut R)
        ensures
            final(self).rule() == old(self).rule(),
            final(self).inner().objective() == old(self).inner().objective(),
            final(self).inner().operator() == old(self).inner().operator(),
            exists|neighbor: <S as View>::V, taken: bool| #[trigger]
                old(self).inner().decided(
                    old(self).rule(),
                    old(rng).script(),
                    neighbor,
                    taken,
                    final(rng).script(),
                ) && (
                    final(self).inner().held().current_solution@,
                    final(self).inner().held().current_fitness,
                ) == old(self).inner().settled(neighbor, taken),
            never_accepts(old(self).rule()) ==> crate::fitness::no_worse(
                old(self).inner().objective().maximizing(),
                final(self).inner().held().current_fitness,
                old(self).inner().held().current_fitness,
            ),
    {
        assert(self.rule() == self.acceptance);
        self.annealing.iterate(rng, &self.acceptance);
    }

    fn current_fitness(&self) -> (fitness: u64) {
        self.annealing.current_fitness()
    }

    fn iterations(&self) -> (iterations: u64) {
        self.annealing.iterations()
    }

    fn status_snapshot(&self) -> (status: StatusSnapshot) {
        self.annealing.status_snapshot()
    }
}

} // verus!

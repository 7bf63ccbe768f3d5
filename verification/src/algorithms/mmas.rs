//! The min-max ant system, on tours and on bit strings.
//!
//! The pheromone values are real numbers and are kept by the caller, with
//! the evaporation, the bounds and the weights of the choices. What is here
//! is the part of a generation that does not depend on them: the first
//! tour, the construction of a tour from the choices made, which tour is
//! the best, and on which tours pheromone is laid, edge by edge. `iterate`
//! runs a generation in its order, and calls the caller where the
//! pheromone is read or changed.

use crate::algorithms::aco2::PartialSumConstructor;
use crate::algorithms::{AlgorithmCore, SimulationState, StatusSnapshot};
use crate::fitness::{FitnessFunction, FitnessOrder};
use crate::rng::{MyRng, Script, UniformRng};
use crate::search_space::{Bitstring, Permutation, SearchSpace};
use vstd::prelude::*;

verus! {

/// On which tours of a generation pheromone is laid.
#[derive(Debug, Clone, Copy, PartialEq, Eq, Structural)]
pub enum PheromoneUpdateStrategy {
    /// On the best tour found so far.
    BestSoFar,
    /// On the best tour of the generation.
    GenerationBest,
    /// On every tour of the generation.
    AllAnts,
}

/// The values of the tours.
pub open spec fn tours(paths: Seq<Permutation>) -> Seq<Seq<usize>> {
    paths.map_values(|p: Permutation| p@)
}

/// The scores of the tours.
pub open spec fn scores<F: FitnessFunction<Permutation>>(
    fitness: F,
    paths: Seq<Seq<usize>>,
) -> Seq<u64> {
    paths.map_values(|p: Seq<usize>| fitness.score(p))
}

/// The tours on which pheromone is laid after a generation that made
/// `paths` and holds `current` as the best tour so far.
pub open spec fn deposit_plan(
    strategy: PheromoneUpdateStrategy,
    paths: Seq<Seq<usize>>,
    best: int,
    current: Seq<usize>,
) -> Seq<Seq<usize>> {
    match strategy {
        PheromoneUpdateStrategy::AllAnts => paths,
        PheromoneUpdateStrategy::GenerationBest => if paths.len() == 0 {
            Seq::empty()
        } else {
            seq![paths[best]]
        },
        PheromoneUpdateStrategy::BestSoFar => seq![current],
    }
}

/// A scripted source holds the draws of one tour on `n` nodes: the start,
/// and a draw from the unit interval for each further node.
pub open spec fn tour_ready(script: Script, n: int) -> bool {
    n == 0 || {
        &&& script.ranges.len() > 0
        &&& script.ranges[0] < n
        &&& crate::algorithms::aco2::units_ready(script, n - 1)
    }
}

/// What the construction of one tour on `n` nodes leaves of a script.
pub open spec fn after_tour(script: Script, n: int) -> Script {
    if n == 0 {
        script
    } else {
        script.skip_ranges(1).skip_units(n - 1)
    }
}

/// What the construction of `count` tours on `n` nodes leaves of a script.
pub open spec fn after_tours(script: Script, n: int, count: nat) -> Script
    decreases count,
{
    if count == 0 {
        script
    } else {
        after_tour(after_tours(script, n, (count - 1) as nat), n)
    }
}

/// A scripted source holds the draws of `count` tours on `n` nodes, one
/// after the other.
pub open spec fn tours_ready(script: Script, n: int, count: nat) -> bool
    decreases count,
{
    count == 0 || (tours_ready(script, n, (count - 1) as nat) && tour_ready(
        after_tours(script, n, (count - 1) as nat),
        n,
    ))
}

/// A script that is ready for `count` tours is ready for the tour after
/// the first `done` of them, where `done` is below `count`.
pub proof fn lemma_tours_ready(script: Script, n: int, count: nat, done: nat)
    requires
        tours_ready(script, n, count),
        done < count,
    ensures
        tour_ready(after_tours(script, n, done), n),
    decreases count,
{
    if done + 1 < count {
        lemma_tours_ready(script, n, (count - 1) as nat, done);
    }
}

/// What is left of a script, if there is one, before the tour of ant `k`
/// is built.
pub open spec fn before_ant(script: Option<Script>, n: int, k: nat) -> Option<Script> {
    match script {
        Some(s) => Some(after_tours(s, n, k)),
        None => None,
    }
}

/// `tour` is the tour of an ant on `n` nodes that the chooser guided, built
/// with the draws that `script` holds next where there is a script. On no
/// nodes it is the empty tour.
pub open spec fn ant_guided<C: Fn(usize, &Vec<usize>, u64) -> usize>(
    chooser: C,
    tour: Seq<usize>,
    n: nat,
    script: Option<Script>,
) -> bool {
    if n == 0 {
        tour.len() == 0
    } else {
        exists|draws: Seq<u64>| #[trigger]
            crate::algorithms::aco2::guided(chooser, tour, n, draws) && (script matches Some(s)
                ==> tour[0] == s.ranges[0] && draws == s.units.take(n - 1))
    }
}

/// Pheromone was laid on each of the tours: each was handed over with its
/// length.
pub open spec fn laid<F: FitnessFunction<Permutation>, P: Fn(&Permutation, u64) -> ()>(
    deposit: P,
    fitness: F,
    deposits: Seq<Permutation>,
) -> bool {
    forall|k: int|
        0 <= k < deposits.len() ==> call_ensures(
            deposit,
            (&#[trigger] deposits[k], fitness.score(deposits[k]@)),
            (),
        )
}

/// Node `j` is neither the first node nor among `taken`.
pub open spec fn is_free(taken: Seq<usize>, j: int) -> bool {
    j != 0 && !taken.contains(j as usize)
}

/// Node `j` is the free node nearest by `row`; of several at the same
/// distance, the first.
pub open spec fn is_nearest_free(row: Seq<u64>, taken: Seq<usize>, j: int) -> bool {
    &&& 0 <= j < row.len()
    &&& is_free(taken, j)
    &&& forall|e: int| 0 <= e < row.len() && is_free(taken, e) ==> row[j] <= #[trigger] row[e]
    &&& forall|e: int| 0 <= e < j && is_free(taken, e) ==> row[j] < #[trigger] row[e]
}

/// The row of distances from which the `i`-th node of a nearest-neighbour
/// tour is picked: that of node 0 at first, then that of the node picked
/// before.
pub open spec fn origin_of(tour: Seq<usize>, i: int) -> int {
    if i == 0 {
        0
    } else {
        tour[i - 1] as int
    }
}

/// `tour` is the nearest-neighbour tour on the distances `m`: it starts
/// from node 0, goes each time to the nearest node not yet visited, and
/// names node 0 last.
pub open spec fn is_nearest_neighbor_tour(m: Seq<Seq<u64>>, tour: Seq<usize>) -> bool {
    &&& tour.len() == m.len()
    &&& tour.len() > 0 ==> tour.last() == 0
    &&& forall|i: int|
        0 <= i < tour.len() - 1 ==> is_nearest_free(
            m[origin_of(tour, i)],
            tour.take(i),
            (#[trigger] tour[i]) as int,
        )
}

/// The edges of the round trip `tour`, each as a pair of nodes: the edge
/// that closes the tour first, then the edge to each node from the one
/// before it.
pub open spec fn edges_of(tour: Seq<usize>) -> Seq<(usize, usize)> {
    Seq::new(
        tour.len(),
        |i: int|
            if i == 0 {
                (tour[0], tour.last())
            } else {
                (tour[i], tour[i - 1])
            },
    )
}

/// The min-max ant system on tours, without its pheromone values.
pub struct MMAStsp<F: FitnessFunction<Permutation>> {
    pub state: SimulationState<Permutation>,
    fitness_function: F,
    size: usize,
    ants: usize,
    update_strategy: PheromoneUpdateStrategy,
}

impl<F: FitnessFunction<Permutation>> MMAStsp<F> {
    /// The state, as the field `state` holds it.
    pub closed spec fn held(&self) -> SimulationState<Permutation> {
        self.state
    }

    /// The fitness function that the algorithm optimises.
    pub closed spec fn fitness(&self) -> F {
        self.fitness_function
    }

    /// The number of nodes of a tour.
    pub closed spec fn spec_size(&self) -> usize {
        self.size
    }

    /// The number of tours built in a generation.
    pub closed spec fn spec_ants(&self) -> usize {
        self.ants
    }

    /// On which tours pheromone is laid.
    pub closed spec fn strategy(&self) -> PheromoneUpdateStrategy {
        self.update_strategy
    }

    /// The tour held is a permutation of the size given, the fitness
    /// function works on that size, and the fitness held is the tour's.
    pub open spec fn well_formed(&self) -> bool {
        &&& self.held().current_solution.valid()
        &&& self.held().current_solution@.len() == self.spec_size()
        &&& self.fitness().fits(self.spec_size() as nat)
        &&& self.held().current_fitness == self.fitness().score(self.held().current_solution@)
    }

    /// Starts from the nearest-neighbour tour on `graph` where `near_neigh`
    /// is set, else from a tour drawn uniformly.
    pub fn new<R: UniformRng>(
        graph: &Vec<Vec<u64>>,
        fitness_function: F,
        size: usize,
        ants: usize,
        update_strategy: PheromoneUpdateStrategy,
        near_neigh: bool,
        rng: &mut R,
    ) -> (mmas: Self)
        requires
            fitness_function.fits(size as nat),
            near_neigh ==> graph@.len() == size && forall|i: int|
                0 <= i < size ==> (#[trigger] graph@[i])@.len() == size,
            !near_neigh ==> (old(rng).script() matches Some(s) ==> Permutation::random_ready(
                size,
                s,
            )),
        ensures
            mmas.well_formed(),
            mmas.fitness() == fitness_function,
            mmas.spec_size() == size,
            mmas.spec_ants() == ants,
            mmas.strategy() == update_strategy,
            mmas.held().iteration == 0,
            near_neigh ==> is_nearest_neighbor_tour(
                crate::fitness::tsp::rows(graph@),
                mmas.held().current_solution@,
            ) && final(rng).script() == old(rng).script(),
            !near_neigh ==> match old(rng).script() {
                Some(s) => {
                    &&& mmas.held().current_solution@ == Permutation::random_outcome(size, s).0
                    &&& final(rng).script() == Some(Permutation::random_outcome(size, s).1)
                },
                None => final(rng).script() is None,
            },
    {
        let current_solution = if near_neigh {
            Self::nearest_neighbor(graph, size)
        } else {
            Permutation::new_random(size, rng)
        };
        let current_fitness = fitness_function.evaluate(&current_solution);
        MMAStsp {
            state: SimulationState { iteration: 0, current_solution, current_fitness },
            fitness_function,
            size,
            ants,
            update_strategy,
        }
    }

    /// The nearest-neighbour tour on `graph`; the empty tour on no nodes.
    pub fn nearest_neighbor(graph: &Vec<Vec<u64>>, size: usize) -> (tour: Permutation)
        requires
            graph@.len() == size,
            forall|i: int| 0 <= i < size ==> (#[trigger] graph@[i])@.len() == size,
        ensures
            tour.valid(),
            tour@.len() == size,
            is_nearest_neighbor_tour(crate::fitness::tsp::rows(graph@), tour@),
    {
        let ghost m = crate::fitness::tsp::rows(graph@);
        if size == 0 {
            return Permutation::new(Vec::new());
        }
        let mut visited: Vec<bool> = Vec::new();
        let mut i: usize = 0;
        while i < size
            invariant
                i <= size,
                visited@.len() == i,
                forall|k: int| 0 <= k < i ==> !#[trigger] visited@[k],
            decreases size - i,
        {
            visited.push(false);
            i += 1;
        }
        proof {
            crate::algorithms::aco2::lemma_free_all(visited@);
            crate::algorithms::aco2::lemma_free_visit(visited@, 0);
        }
        visited.set(0, true);
        let mut path: Vec<usize> = Vec::with_capacity(size);
        let mut from: usize = 0;
        while path.len() < size - 1
            invariant
                size > 0,
                path@.len() <= size - 1,
                visited@.len() == size,
                graph@.len() == size,
                forall|i: int| 0 <= i < size ==> (#[trigger] graph@[i])@.len() == size,
                m == crate::fitness::tsp::rows(graph@),
                from < size,
                from as int == origin_of(path@, path@.len() as int),
                forall|c: int| 0 <= c < size ==> (#[trigger] visited@[c] <==> !is_free(path@, c)),
                forall|k: int| 0 <= k < path@.len() ==> 0 < (#[trigger] path@[k]) < size,
                forall|a: int, b: int| 0 <= a < b < path@.len() ==> path@[a] != path@[b],
                crate::algorithms::aco2::free_count(visited@) == size - 1 - path@.len(),
                forall|i: int|
                    0 <= i < path@.len() ==> is_nearest_free(
                        m[origin_of(path@, i)],
                        path@.take(i),
                        (#[trigger] path@[i]) as int,
                    ),
            decreases size - 1 - path@.len(),
        {
            let row = &graph[from];
            let ghost taken = path@;
            assert(m[from as int] == row@);
            let mut best: Option<usize> = None;
            let mut c: usize = 0;
            while c < size
                invariant
                    c <= size,
                    row@.len() == size,
                    visited@.len() == size,
                    forall|e: int| 0 <= e < size ==> (#[trigger] visited@[e] <==> !is_free(taken, e)),
                    match best {
                        Some(b) => {
                            &&& b < c
                            &&& is_free(taken, b as int)
                            &&& forall|e: int|
                                0 <= e < c && is_free(taken, e) ==> row@[b as int] <= #[trigger] row@[e]
                            &&& forall|e: int|
                                0 <= e < b && is_free(taken, e) ==> row@[b as int] < #[trigger] row@[e]
                        },
                        None => forall|e: int| 0 <= e < c ==> !is_free(taken, e),
                    },
                decreases size - c,
            {
                if !visited[c] {
                    match best {
                        None => {
                            best = Some(c);
                        },
                        Some(b) => {
                            if row[c] < row[b] {
                                best = Some(c);
                            }
                        },
                    }
                }
                c += 1;
            }
            let next = match best {
                Some(b) => b,
                None => {
                    proof {
                        crate::algorithms::aco2::lemma_free_exists(visited@);
                        let free = choose|i: int| 0 <= i < visited@.len() && !#[trigger] visited@[i];
                        assert(is_free(taken, free));
                        assert(false);
                    }
                    0
                },
            };
            proof {
                crate::algorithms::aco2::lemma_free_visit(visited@, next as int);
                assert(is_nearest_free(row@, taken, next as int));
            }
            visited.set(next, true);
            path.push(next);
            from = next;
            proof {
                assert forall|e: int| 0 <= e < size implies (#[trigger] visited@[e] <==> !is_free(
                    path@,
                    e,
                )) by {
                    if e == next {
                        assert(path@[path@.len() - 1] == next);
                    } else if e != 0 {
                        if taken.contains(e as usize) {
                            let at = choose|at: int| 0 <= at < taken.len() && taken[at] == e as usize;
                            assert(path@[at] == e as usize);
                        }
                        if path@.contains(e as usize) {
                            let at = choose|at: int| 0 <= at < path@.len() && path@[at] == e as usize;
                            assert(taken[at] == e as usize);
                        }
                    }
                }
                assert forall|a: int, b: int| 0 <= a < b < path@.len() implies path@[a]
                    != path@[b] by {
                    if b == path@.len() - 1 {
                        assert(taken[a] == path@[a]);
                        if path@[a] == next {
                            assert(taken.contains(next));
                        }
                    }
                }
                assert forall|i: int| 0 <= i < path@.len() implies is_nearest_free(
                    m[origin_of(path@, i)],
                    path@.take(i),
                    (#[trigger] path@[i]) as int,
                ) by {
                    if i < taken.len() {
                        assert(path@.take(i) =~= taken.take(i));
                        assert(origin_of(path@, i) == origin_of(taken, i));
                        assert(is_nearest_free(
                            m[origin_of(taken, i)],
                            taken.take(i),
                            taken[i] as int,
                        ));
                    } else {
                        assert(path@.take(i) =~= taken);
                    }
                }
            }
        }
        let ghost walked = path@;
        path.push(0);
        proof {
            assert forall|a: int, b: int| 0 <= a < b < path@.len() implies path@[a] != path@[b] by {
                assert(walked[a] == path@[a]);
            }
            assert forall|i: int| 0 <= i < path@.len() - 1 implies is_nearest_free(
                m[origin_of(path@, i)],
                path@.take(i),
                (#[trigger] path@[i]) as int,
            ) by {
                assert(path@.take(i) =~= walked.take(i));
                assert(origin_of(path@, i) == origin_of(walked, i));
                assert(is_nearest_free(m[origin_of(walked, i)], walked.take(i), walked[i] as int));
            }
        }
        Permutation::new(path)
    }

    /// The tour of one ant: it starts from a node drawn uniformly, and at
    /// each step the chooser picks the next node among those not yet
    /// visited, with a draw from the unit interval. On no nodes it is the
    /// empty tour, and nothing is drawn.
    pub fn construct<R: UniformRng, C: Fn(usize, &Vec<usize>, u64) -> usize>(
        &self,
        rng: &mut R,
        chooser: &C,
    ) -> (tour: Permutation)
        requires
            forall|current: usize, candidates: &Vec<usize>, draw: u64|
                candidates@.len() > 0 && draw < crate::rng::UNIT ==> call_requires(
                    *chooser,
                    (current, candidates, draw),
                ),
            old(rng).script() matches Some(s) ==> tour_ready(s, self.spec_size() as int),
        ensures
            tour.valid(),
            tour@.len() == self.spec_size(),
            ant_guided(*chooser, tour@, self.spec_size() as nat, old(rng).script()),
            match old(rng).script() {
                Some(s) => final(rng).script() == Some(after_tour(s, self.spec_size() as int)),
                None => final(rng).script() is None,
            },
    {
        let ghost before = rng.script();
        if self.size == 0 {
            return Permutation::new(Vec::new());
        }
        let start = rng.random_range(0..self.size);
        let constructor = PartialSumConstructor {  };
        let path = constructor.construct(self.size, start, rng, chooser);
        proof {
            if let Some(s) = before {
                assert(s.skip_ranges(1).units == s.units);
                assert(s.skip_ranges(1).skip_units(self.size - 1) == after_tour(s, self.size as int));
            }
            let draws = choose|draws: Seq<u64>| #[trigger]
                crate::algorithms::aco2::guided(*chooser, path@, self.size as nat, draws) && (
                before matches Some(s) ==> draws == s.skip_ranges(1).units.take(self.size - 1));
            assert(crate::algorithms::aco2::guided(*chooser, path@, self.size as nat, draws));
            if let Some(s) = before {
                assert(path@[0] == s.ranges[0]);
                assert(draws == s.units.take(self.size - 1));
            }
            assert(ant_guided(*chooser, path@, self.size as nat, before));
        }
        Permutation::new(path)
    }

    /// The tours of a generation: one for each ant, built one after the
    /// other as `construct` builds them.
    pub fn construct_all<R: UniformRng, C: Fn(usize, &Vec<usize>, u64) -> usize>(
        &self,
        rng: &mut R,
        chooser: &C,
    ) -> (paths: Vec<Permutation>)
        requires
            forall|current: usize, candidates: &Vec<usize>, draw: u64|
                candidates@.len() > 0 && draw < crate::rng::UNIT ==> call_requires(
                    *chooser,
                    (current, candidates, draw),
                ),
            old(rng).script() matches Some(s) ==> tours_ready(
                s,
                self.spec_size() as int,
                self.spec_ants() as nat,
            ),
        ensures
            self.constructed(*chooser, old(rng).script(), paths@),
            final(rng).script() == before_ant(
                old(rng).script(),
                self.spec_size() as int,
                self.spec_ants() as nat,
            ),
    {
        let ghost before = rng.script();
        let mut paths: Vec<Permutation> = Vec::with_capacity(self.ants);
        let mut made: usize = 0;
        while made < self.ants
            invariant
                made <= self.ants,
                self.spec_size() == self.size,
                self.spec_ants() == self.ants,
                paths@.len() == made,
                forall|current: usize, candidates: &Vec<usize>, draw: u64|
                    candidates@.len() > 0 && draw < crate::rng::UNIT ==> call_requires(
                        *chooser,
                        (current, candidates, draw),
                    ),
                forall|k: int|
                    0 <= k < paths@.len() ==> (#[trigger] paths@[k]).valid() && paths@[k]@.len()
                        == self.spec_size(),
                forall|k: int|
                    0 <= k < paths@.len() ==> ant_guided(
                        *chooser,
                        (#[trigger] paths@[k])@,
                        self.spec_size() as nat,
                        before_ant(before, self.spec_size() as int, k as nat),
                    ),
                before matches Some(s) ==> tours_ready(
                    s,
                    self.spec_size() as int,
                    self.spec_ants() as nat,
                ),
                rng.script() == before_ant(before, self.spec_size() as int, made as nat),
            decreases self.ants - made,
        {
            proof {
                if let Some(s) = before {
                    lemma_tours_ready(
                        s,
                        self.spec_size() as int,
                        self.spec_ants() as nat,
                        made as nat,
                    );
                }
            }
            let tour = self.construct(rng, chooser);
            paths.push(tour);
            made += 1;
        }
        paths
    }

    /// `paths` are the tours of a generation that the chooser guided: one
    /// for each ant, each a permutation, built one after the other with the
    /// draws that `script` holds where there is a script.
    pub open spec fn constructed<C: Fn(usize, &Vec<usize>, u64) -> usize>(
        &self,
        chooser: C,
        script: Option<Script>,
        paths: Seq<Permutation>,
    ) -> bool {
        &&& paths.len() == self.spec_ants()
        &&& forall|k: int|
            0 <= k < paths.len() ==> (#[trigger] paths[k]).valid() && paths[k]@.len()
                == self.spec_size()
        &&& forall|k: int|
            0 <= k < paths.len() ==> ant_guided(
                chooser,
                (#[trigger] paths[k])@,
                self.spec_size() as nat,
                before_ant(script, self.spec_size() as int, k as nat),
            )
    }

    /// `after` is the algorithm after it took in the tours `paths`, and
    /// `deposits` are the tours on which pheromone is to be laid: the first
    /// of the best tours replaces the tour held where it is strictly
    /// better, and the strategy picks the deposits.
    pub open spec fn took_in(
        &self,
        after: &Self,
        paths: Seq<Permutation>,
        deposits: Seq<Permutation>,
    ) -> bool {
        let best = crate::fitness::first_best(
            self.fitness().maximizing(),
            scores(self.fitness(), tours(paths)),
        );
        &&& after.well_formed()
        &&& after.fitness() == self.fitness()
        &&& after.spec_size() == self.spec_size()
        &&& after.spec_ants() == self.spec_ants()
        &&& after.strategy() == self.strategy()
        &&& paths.len() == 0 ==> after.held().current_solution@ == self.held().current_solution@
            && after.held().current_fitness == self.held().current_fitness
        &&& paths.len() > 0 ==> (after.held().current_solution@, after.held().current_fitness)
            == crate::algorithms::survivor::<Permutation, F>(
            self.fitness(),
            self.held().current_solution@,
            self.held().current_fitness,
            tours(paths)[best],
        )
        &&& tours(deposits) == deposit_plan(
            self.strategy(),
            tours(paths),
            best,
            after.held().current_solution@,
        )
        &&& forall|k: int|
            0 <= k < deposits.len() ==> (#[trigger] deposits[k]).valid() && deposits[k]@.len()
                == self.spec_size()
        &&& crate::fitness::no_worse(
            self.fitness().maximizing(),
            after.held().current_fitness,
            self.held().current_fitness,
        )
    }

    /// Takes in the tours of a generation: the best of them replaces the
    /// tour held where it is strictly better. Returns the tours on which
    /// pheromone is to be laid.
    pub fn update(&mut self, paths: &Vec<Permutation>) -> (deposits: Vec<Permutation>)
        requires
            old(self).well_formed(),
            forall|i: int|
                0 <= i < paths@.len() ==> (#[trigger] paths@[i]).valid() && paths@[i]@.len() == old(
                    self,
                ).spec_size(),
        ensures
            old(self).took_in(final(self), paths@, deposits@),
            final(self).held().iteration == old(self).held().iteration,
    {
        let ghost all = tours(paths@);
        let ghost marks = scores(self.fitness(), all);
        let ghost maximizing = self.fitness().maximizing();
        let mut best: usize = 0;
        let mut best_fitness: u64 = 0;
        let mut i: usize = 0;
        while i < paths.len()
            invariant
                i <= paths@.len(),
                self.well_formed(),
                *self == *old(self),
                all == tours(paths@),
                marks == scores(self.fitness(), all),
                maximizing == self.fitness().maximizing(),
                forall|k: int|
                    0 <= k < paths@.len() ==> (#[trigger] paths@[k]).valid() && paths@[k]@.len()
                        == self.spec_size(),
                i > 0 ==> best == crate::fitness::first_best(maximizing, marks.take(i as int)) && best < i
                    && best_fitness == marks[best as int],
            decreases paths.len() - i,
        {
            let fit_val = self.fitness_function.evaluate(&paths[i]);
            proof {
                assert(all[i as int] == paths@[i as int]@);
                assert(marks[i as int] == fit_val);
                assert(marks.take(i + 1).drop_last() =~= marks.take(i as int));
                assert(marks.take(i + 1).last() == fit_val);
                if i > 0 {
                    assert(marks.take(i + 1)[best as int] == marks[best as int]);
                }
            }
            if i == 0 {
                best = 0;
                best_fitness = fit_val;
            } else {
                match self.fitness_function.compare(fit_val, best_fitness) {
                    FitnessOrder::Greater => {
                        best = i;
                        best_fitness = fit_val;
                    },
                    _ => {},
                }
            }
            i += 1;
        }
        proof {
            assert(marks.take(i as int) =~= marks);
        }
        if paths.len() > 0 {
            match self.fitness_function.compare(best_fitness, self.state.current_fitness) {
                FitnessOrder::Greater => {
                    self.state.current_fitness = best_fitness;
                    self.state.current_solution = paths[best].clone();
                    proof {
                        assert(all[best as int] == paths@[best as int]@);
                    }
                },
                _ => {},
            }
        }
        let mut deposits: Vec<Permutation> = Vec::new();
        match self.update_strategy {
            PheromoneUpdateStrategy::AllAnts => {
                let mut k: usize = 0;
                while k < paths.len()
                    invariant
                        k <= paths@.len(),
                        deposits@.len() == k,
                        forall|e: int| 0 <= e < k ==> (#[trigger] deposits@[e])@ == paths@[e]@,
                        forall|e: int|
                            0 <= e < paths@.len() ==> (#[trigger] paths@[e]).valid()
                                && paths@[e]@.len() == self.spec_size(),
                    decreases paths.len() - k,
                {
                    deposits.push(paths[k].clone());
                    k += 1;
                }
                proof {
                    assert(tours(deposits@) =~= tours(paths@));
                }
            },
            PheromoneUpdateStrategy::GenerationBest => {
                if paths.len() > 0 {
                    deposits.push(paths[best].clone());
                    proof {
                        assert(tours(deposits@) =~= seq![all[best as int]]);
                    }
                } else {
                    proof {
                        assert(tours(deposits@) =~= Seq::<Seq<usize>>::empty());
                    }
                }
            },
            PheromoneUpdateStrategy::BestSoFar => {
                deposits.push(self.state.current_solution.clone());
                proof {
                    assert(tours(deposits@) =~= seq![self.state.current_solution@]);
                }
            },
        }
        deposits
    }

    /// Ends a generation: takes in its tours as `update` does and counts
    /// the generation.
    pub fn complete_iteration(&mut self, paths: &Vec<Permutation>) -> (deposits: Vec<Permutation>)
        requires
            old(self).well_formed(),
            old(self).held().iteration < u64::MAX,
            forall|i: int|
                0 <= i < paths@.len() ==> (#[trigger] paths@[i]).valid() && paths@[i]@.len() == old(
                    self,
                ).spec_size(),
        ensures
            old(self).took_in(final(self), paths@, deposits@),
            final(self).held().iteration == old(self).held().iteration + 1,
    {
        let deposits = self.update(paths);
        self.state.iteration += 1;
        deposits
    }

    /// One generation. The pheromone evaporates; each ant builds a tour,
    /// guided by the chooser; the best of the tours replaces the tour held
    /// where it is strictly better; and pheromone is laid on each tour that
    /// the strategy picks, which is handed over with its length.
    pub fn iterate<
        R: UniformRng,
        E: Fn() -> (),
        C: Fn(usize, &Vec<usize>, u64) -> usize,
        P: Fn(&Permutation, u64) -> (),
    >(&mut self, rng: &mut R, evaporate: &E, chooser: &C, deposit: &P)
        requires
            old(self).well_formed(),
            old(self).held().iteration < u64::MAX,
            call_requires(*evaporate, ()),
            forall|current: usize, candidates: &Vec<usize>, draw: u64|
                candidates@.len() > 0 && draw < crate::rng::UNIT ==> call_requires(
                    *chooser,
                    (current, candidates, draw),
                ),
            forall|tour: &Permutation, length: u64| call_requires(*deposit, (tour, length)),
            old(rng).script() matches Some(s) ==> tours_ready(
                s,
                old(self).spec_size() as int,
                old(self).spec_ants() as nat,
            ),
        ensures
            final(self).held().iteration == old(self).held().iteration + 1,
            call_ensures(*evaporate, (), ()),
            exists|paths: Seq<Permutation>, deposits: Seq<Permutation>| #[trigger]
                old(self).took_in(final(self), paths, deposits) && old(self).constructed(
                    *chooser,
                    old(rng).script(),
                    paths,
                ) && laid(*deposit, old(self).fitness(), deposits),
            final(rng).script() == before_ant(
                old(rng).script(),
                old(self).spec_size() as int,
                old(self).spec_ants() as nat,
            ),
    {
        evaporate();
        let paths = self.construct_all(rng, chooser);
        let deposits = self.complete_iteration(&paths);
        let mut k: usize = 0;
        while k < deposits.len()
            invariant
                k <= deposits@.len(),
                self.well_formed(),
                self.fitness() == old(self).fitness(),
                self.spec_size() == old(self).spec_size(),
                forall|tour: &Permutation, length: u64| call_requires(*deposit, (tour, length)),
                forall|e: int|
                    0 <= e < deposits@.len() ==> (#[trigger] deposits@[e]).valid()
                        && deposits@[e]@.len() == self.spec_size(),
                forall|e: int|
                    0 <= e < k ==> call_ensures(
                        *deposit,
                        (&#[trigger] deposits@[e], self.fitness().score(deposits@[e]@)),
                        (),
                    ),
            decreases deposits.len() - k,
        {
            let length = self.fitness_function.evaluate(&deposits[k]);
            deposit(&deposits[k], length);
            k += 1;
        }
        proof {
            assert(old(self).took_in(self, paths@, deposits@) && old(self).constructed(
                *chooser,
                old(rng).script(),
                paths@,
            ) && laid(*deposit, old(self).fitness(), deposits@));
        }
    }

    /// The edges of `tour` on which pheromone is laid, in the order in
    /// which it is laid.
    pub fn deposit_edges(tour: &Permutation) -> (edges: Vec<(usize, usize)>)
        ensures
            edges@ == edges_of(tour@),
    {
        let perm = tour.permutation();
        let n = perm.len();
        let mut edges: Vec<(usize, usize)> = Vec::with_capacity(n);
        if n == 0 {
            proof {
                assert(edges@ =~= edges_of(tour@));
            }
            return edges;
        }
        edges.push((perm[0], perm[n - 1]));
        let mut i: usize = 1;
        while i < n
            invariant
                1 <= i <= n,
                n == perm@.len(),
                perm@ == tour@,
                edges@.len() == i,
                forall|k: int| 0 <= k < i ==> (#[trigger] edges@[k]) == edges_of(tour@)[k],
            decreases n - i,
        {
            edges.push((perm[i], perm[i - 1]));
            i += 1;
        }
        proof {
            assert(edges@ =~= edges_of(tour@));
        }
        edges
    }

    pub fn current_fitness(&self) -> (fitness: u64)
        ensures
            fitness == self.held().current_fitness,
    {
        self.state.current_fitness
    }

    pub fn iterations(&self) -> (iterations: u64)
        ensures
            iterations == self.held().iteration,
    {
        self.state.iteration
    }

    pub fn size(&self) -> (size: usize)
        ensures
            size == self.spec_size(),
    {
        self.size
    }

    pub fn ants(&self) -> (ants: usize)
        ensures
            ants == self.spec_ants(),
    {
        self.ants
    }

    pub fn current_solution(&self) -> (solution: &Permutation)
        ensures
            *solution == self.held().current_solution,
    {
        &self.state.current_solution
    }

    /// The state as a caller reads it.
    pub fn status_snapshot(&self) -> (status: StatusSnapshot)
        ensures
            status.iterations == self.held().iteration,
            status.current_fitness == self.held().current_fitness,
            status.current_solution@ == Permutation::text(self.held().current_solution@),
    {
        StatusSnapshot {
            iterations: self.state.iteration,
            current_fitness: self.state.current_fitness,
            current_solution: self.state.current_solution.to_string(),
        }
    }

    pub fn fitness_function(&self) -> (fitness: &F)
        ensures
            *fitness == self.fitness(),
    {
        &self.fitness_function
    }

    pub fn update_strategy(&self) -> (strategy: PheromoneUpdateStrategy)
        ensures
            strategy == self.strategy(),
    {
        self.update_strategy
    }
}

/// What is held after the candidates are taken in one after the other,
/// each replacing what is held where it is strictly better.
pub open spec fn taken_in<S: SearchSpace, F: FitnessFunction<S>>(
    fitness: F,
    held: S::V,
    held_fitness: u64,
    paths: Seq<S::V>,
) -> (S::V, u64)
    decreases paths.len(),
{
    if paths.len() == 0 {
        (held, held_fitness)
    } else {
        let before = taken_in::<S, F>(fitness, held, held_fitness, paths.drop_last());
        crate::algorithms::survivor::<S, F>(fitness, before.0, before.1, paths.last())
    }
}

/// Taking candidates in never makes the fitness held worse.
pub proof fn lemma_taken_in_no_worse<S: SearchSpace, F: FitnessFunction<S>>(
    fitness: F,
    held: S::V,
    held_fitness: u64,
    paths: Seq<S::V>,
)
    ensures
        crate::fitness::no_worse(
            fitness.maximizing(),
            taken_in::<S, F>(fitness, held, held_fitness, paths).1,
            held_fitness,
        ),
    decreases paths.len(),
{
    if paths.len() > 0 {
        lemma_taken_in_no_worse::<S, F>(fitness, held, held_fitness, paths.drop_last());
    }
}

/// The values of the bit strings.
pub open spec fn strings(paths: Seq<Bitstring>) -> Seq<Seq<bool>> {
    paths.map_values(|p: Bitstring| p@)
}

/// Each bit is what the rule decided for its position with the draw of
/// that position.
pub open spec fn each_decided<D: Fn(usize, u64) -> bool>(
    decide: D,
    bits: Seq<bool>,
    draws: Seq<u64>,
) -> bool {
    &&& draws.len() == bits.len()
    &&& forall|i: int|
        0 <= i < bits.len() ==> (#[trigger] draws[i]) < crate::rng::UNIT && call_ensures(
            decide,
            (i as usize, draws[i]),
            bits[i],
        )
}

/// `bits` is the bit string of an ant that the rule decided, built with the
/// draws that `script` holds next where there is a script.
pub open spec fn string_decided<D: Fn(usize, u64) -> bool>(
    decide: D,
    bits: Seq<bool>,
    script: Option<Script>,
) -> bool {
    exists|draws: Seq<u64>| #[trigger]
        each_decided(decide, bits, draws) && (script matches Some(s) ==> draws == s.units.take(
            bits.len() as int,
        ))
}

/// What the construction of `count` bit strings of length `n` leaves of a
/// script.
pub open spec fn after_strings(script: Script, n: int, count: nat) -> Script
    decreases count,
{
    if count == 0 {
        script
    } else {
        after_strings(script, n, (count - 1) as nat).skip_units(n)
    }
}

/// A scripted source holds the draws of `count` bit strings of length `n`,
/// one after the other.
pub open spec fn strings_ready(script: Script, n: int, count: nat) -> bool
    decreases count,
{
    count == 0 || (strings_ready(script, n, (count - 1) as nat)
        && crate::algorithms::aco2::units_ready(
        after_strings(script, n, (count - 1) as nat),
        n,
    ))
}

/// A script that is ready for `count` bit strings is ready for the one
/// after the first `done` of them, where `done` is below `count`.
pub proof fn lemma_strings_ready(script: Script, n: int, count: nat, done: nat)
    requires
        strings_ready(script, n, count),
        done < count,
    ensures
        crate::algorithms::aco2::units_ready(after_strings(script, n, done), n),
    decreases count,
{
    if done + 1 < count {
        lemma_strings_ready(script, n, (count - 1) as nat, done);
    }
}

/// What is left of a script, if there is one, before the bit string of ant
/// `k` is built.
pub open spec fn before_string(script: Option<Script>, n: int, k: nat) -> Option<Script> {
    match script {
        Some(s) => Some(after_strings(s, n, k)),
        None => None,
    }
}

/// The min-max ant system on bit strings, without its pheromone values.
pub struct MMASbs<F: FitnessFunction<Bitstring>> {
    pub state: SimulationState<Bitstring>,
    fitness_function: F,
    size: usize,
    ants: usize,
}

impl<F: FitnessFunction<Bitstring>> MMASbs<F> {
    /// The state, as the field `state` holds it.
    pub closed spec fn held(&self) -> SimulationState<Bitstring> {
        self.state
    }

    /// The fitness function that the algorithm optimises.
    pub closed spec fn fitness(&self) -> F {
        self.fitness_function
    }

    /// The length of the bit strings.
    pub closed spec fn spec_size(&self) -> usize {
        self.size
    }

    /// The number of bit strings built in a generation.
    pub closed spec fn spec_ants(&self) -> usize {
        self.ants
    }

    /// The bit string held has the length given, the fitness function
    /// works on that length, and the fitness held is the bit string's.
    pub open spec fn well_formed(&self) -> bool {
        &&& self.held().current_solution@.len() == self.spec_size()
        &&& self.fitness().fits(self.spec_size() as nat)
        &&& self.held().current_fitness == self.fitness().score(self.held().current_solution@)
    }

    /// Starts from a bit string drawn uniformly.
    pub fn new<R: UniformRng>(fitness_function: F, size: usize, ants: usize, rng: &mut R) -> (mmas: Self)
        requires
            fitness_function.fits(size as nat),
            old(rng).script() matches Some(s) ==> Bitstring::random_ready(size, s),
        ensures
            mmas.well_formed(),
            mmas.fitness() == fitness_function,
            mmas.spec_size() == size,
            mmas.spec_ants() == ants,
            mmas.held().iteration == 0,
            match old(rng).script() {
                Some(s) => {
                    &&& mmas.held().current_solution@ == Bitstring::random_outcome(size, s).0
                    &&& final(rng).script() == Some(Bitstring::random_outcome(size, s).1)
                },
                None => final(rng).script() is None,
            },
    {
        let current_solution = Bitstring::new_random(size, rng);
        let current_fitness = fitness_function.evaluate(&current_solution);
        MMASbs {
            state: SimulationState { iteration: 0, current_solution, current_fitness },
            fitness_function,
            size,
            ants,
        }
    }

    /// The bit string of one ant: for each position a number is drawn from
    /// the unit interval, and the rule decides the bit from the position
    /// and the draw.
    pub fn construct<R: UniformRng, D: Fn(usize, u64) -> bool>(&self, rng: &mut R, decide: &D) -> (path:
        Bitstring)
        requires
            forall|step: usize, draw: u64|
                step < self.spec_size() && draw < crate::rng::UNIT ==> call_requires(
                    *decide,
                    (step, draw),
                ),
            old(rng).script() matches Some(s) ==> crate::algorithms::aco2::units_ready(
                s,
                self.spec_size() as int,
            ),
        ensures
            path@.len() == self.spec_size(),
            string_decided(*decide, path@, old(rng).script()),
            match old(rng).script() {
                Some(s) => final(rng).script() == Some(s.skip_units(self.spec_size() as int)),
                None => final(rng).script() is None,
            },
    {
        let ghost before = rng.script();
        let mut bits: Vec<bool> = Vec::with_capacity(self.size);
        let ghost mut draws: Seq<u64> = Seq::empty();
        let mut step: usize = 0;
        proof {
            if let Some(s) = before {
                assert(s.units.skip(0) =~= s.units);
                assert(draws =~= s.units.take(0));
            }
        }
        while step < self.size
            invariant
                step <= self.size,
                self.size == self.spec_size(),
                bits@.len() == step,
                forall|step: usize, draw: u64|
                    step < self.spec_size() && draw < crate::rng::UNIT ==> call_requires(
                        *decide,
                        (step, draw),
                    ),
                each_decided(*decide, bits@, draws),
                match before {
                    Some(s) => crate::algorithms::aco2::units_ready(s, self.size as int) && draws
                        == s.units.take(step as int) && rng.script() == Some(
                        s.skip_units(step as int),
                    ),
                    None => rng.script() is None,
                },
            decreases self.size - step,
        {
            proof {
                if let Some(s) = before {
                    assert(s.skip_units(step as int).units[0] == s.units[step as int]);
                }
            }
            let draw = rng.random_unit();
            let bit = decide(step, draw);
            let ghost earlier = bits@;
            let ghost drawn = draws;
            bits.push(bit);
            proof {
                draws = draws.push(draw);
                assert forall|i: int| 0 <= i < bits@.len() implies (#[trigger] draws[i])
                    < crate::rng::UNIT && call_ensures(
                    *decide,
                    (i as usize, draws[i]),
                    bits@[i],
                ) by {
                    if i < step {
                        assert(draws[i] == drawn[i]);
                        assert(bits@[i] == earlier[i]);
                    }
                }
                if let Some(s) = before {
                    assert(draws =~= s.units.take(step + 1));
                    assert(s.units.skip(step as int).skip(1) =~= s.units.skip(step + 1));
                    assert(s.skip_units(step as int).skip_units(1) == s.skip_units(step + 1));
                }
            }
            step += 1;
        }
        let path = Bitstring::new(bits);
        proof {
            assert(each_decided(*decide, path@, draws));
        }
        path
    }

    /// The bit strings of a generation: one for each ant, built one after
    /// the other as `construct` builds them.
    pub fn construct_all<R: UniformRng, D: Fn(usize, u64) -> bool>(
        &self,
        rng: &mut R,
        decide: &D,
    ) -> (paths: Vec<Bitstring>)
        requires
            forall|step: usize, draw: u64|
                step < self.spec_size() && draw < crate::rng::UNIT ==> call_requires(
                    *decide,
                    (step, draw),
                ),
            old(rng).script() matches Some(s) ==> strings_ready(
                s,
                self.spec_size() as int,
                self.spec_ants() as nat,
            ),
        ensures
            self.constructed(*decide, old(rng).script(), paths@),
            final(rng).script() == before_string(
                old(rng).script(),
                self.spec_size() as int,
                self.spec_ants() as nat,
            ),
    {
        let ghost before = rng.script();
        let mut paths: Vec<Bitstring> = Vec::with_capacity(self.ants);
        let mut made: usize = 0;
        while made < self.ants
            invariant
                made <= self.ants,
                self.spec_size() == self.size,
                self.spec_ants() == self.ants,
                paths@.len() == made,
                forall|step: usize, draw: u64|
                    step < self.spec_size() && draw < crate::rng::UNIT ==> call_requires(
                        *decide,
                        (step, draw),
                    ),
                forall|k: int|
                    0 <= k < paths@.len() ==> (#[trigger] paths@[k])@.len() == self.spec_size(),
                forall|k: int|
                    0 <= k < paths@.len() ==> string_decided(
                        *decide,
                        (#[trigger] paths@[k])@,
                        before_string(before, self.spec_size() as int, k as nat),
                    ),
                before matches Some(s) ==> strings_ready(
                    s,
                    self.spec_size() as int,
                    self.spec_ants() as nat,
                ),
                rng.script() == before_string(before, self.spec_size() as int, made as nat),
            decreases self.ants - made,
        {
            proof {
                if let Some(s) = before {
                    lemma_strings_ready(
                        s,
                        self.spec_size() as int,
                        self.spec_ants() as nat,
                        made as nat,
                    );
                }
            }
            let path = self.construct(rng, decide);
            paths.push(path);
            made += 1;
        }
        paths
    }

    /// `paths` are the bit strings of a generation that the rule decided:
    /// one for each ant, built one after the other with the draws that
    /// `script` holds where there is a script.
    pub open spec fn constructed<D: Fn(usize, u64) -> bool>(
        &self,
        decide: D,
        script: Option<Script>,
        paths: Seq<Bitstring>,
    ) -> bool {
        &&& paths.len() == self.spec_ants()
        &&& forall|k: int| 0 <= k < paths.len() ==> (#[trigger] paths[k])@.len() == self.spec_size()
        &&& forall|k: int|
            0 <= k < paths.len() ==> string_decided(
                decide,
                (#[trigger] paths[k])@,
                before_string(script, self.spec_size() as int, k as nat),
            )
    }

    /// `after` is the algorithm after it took in the bit strings `paths`,
    /// one after the other: each replaced the one held where it was
    /// strictly better.
    pub open spec fn took_in(&self, after: &Self, paths: Seq<Bitstring>) -> bool {
        &&& after.well_formed()
        &&& after.fitness() == self.fitness()
        &&& after.spec_size() == self.spec_size()
        &&& after.spec_ants() == self.spec_ants()
        &&& (after.held().current_solution@, after.held().current_fitness) == taken_in::<
            Bitstring,
            F,
        >(
            self.fitness(),
            self.held().current_solution@,
            self.held().current_fitness,
            strings(paths),
        )
        &&& crate::fitness::no_worse(
            self.fitness().maximizing(),
            after.held().current_fitness,
            self.held().current_fitness,
        )
    }

    /// Takes in the bit strings of a generation, one after the other: each
    /// replaces the one held where it is strictly better.
    pub fn update(&mut self, paths: &Vec<Bitstring>)
        requires
            old(self).well_formed(),
            forall|i: int| 0 <= i < paths@.len() ==> (#[trigger] paths@[i])@.len() == old(self).spec_size(),
        ensures
            old(self).took_in(final(self), paths@),
            final(self).held().iteration == old(self).held().iteration,
    {
        let ghost all = strings(paths@);
        let mut i: usize = 0;
        while i < paths.len()
            invariant
                i <= paths@.len(),
                self.well_formed(),
                self.fitness() == old(self).fitness(),
                self.spec_size() == old(self).spec_size(),
                self.spec_ants() == old(self).spec_ants(),
                self.held().iteration == old(self).held().iteration,
                all == strings(paths@),
                forall|k: int|
                    0 <= k < paths@.len() ==> (#[trigger] paths@[k])@.len() == self.spec_size(),
                (self.held().current_solution@, self.held().current_fitness) == taken_in::<
                    Bitstring,
                    F,
                >(
                    old(self).fitness(),
                    old(self).held().current_solution@,
                    old(self).held().current_fitness,
                    all.take(i as int),
                ),
            decreases paths.len() - i,
        {
            let fit_val = self.fitness_function.evaluate(&paths[i]);
            proof {
                assert(all[i as int] == paths@[i as int]@);
                assert(all.take(i + 1).drop_last() =~= all.take(i as int));
                assert(all.take(i + 1).last() == paths@[i as int]@);
            }
            match self.fitness_function.compare(fit_val, self.state.current_fitness) {
                FitnessOrder::Greater => {
                    self.state.current_fitness = fit_val;
                    self.state.current_solution = paths[i].clone();
                },
                _ => {},
            }
            i += 1;
        }
        proof {
            assert(all.take(i as int) =~= all);
            lemma_taken_in_no_worse::<Bitstring, F>(
                old(self).fitness(),
                old(self).held().current_solution@,
                old(self).held().current_fitness,
                all,
            );
        }
    }

    /// Ends a generation: takes in its bit strings as `update` does and
    /// counts the generation.
    pub fn complete_iteration(&mut self, paths: &Vec<Bitstring>)
        requires
            old(self).well_formed(),
            old(self).held().iteration < u64::MAX,
            forall|i: int| 0 <= i < paths@.len() ==> (#[trigger] paths@[i])@.len() == old(self).spec_size(),
        ensures
            old(self).took_in(final(self), paths@),
            final(self).held().iteration == old(self).held().iteration + 1,
    {
        self.update(paths);
        self.state.iteration += 1;
    }

    /// One generation. Each ant builds a bit string, decided by the rule;
    /// each of them replaces the one held where it is strictly better; and
    /// the bits of the one held then are handed over, for the pheromone to
    /// be moved toward them.
    pub fn iterate<R: UniformRng, D: Fn(usize, u64) -> bool, P: Fn(&Vec<bool>) -> ()>(
        &mut self,
        rng: &mut R,
        decide: &D,
        reinforce: &P,
    )
        requires
            old(self).well_formed(),
            old(self).held().iteration < u64::MAX,
            forall|step: usize, draw: u64|
                step < old(self).spec_size() && draw < crate::rng::UNIT ==> call_requires(
                    *decide,
                    (step, draw),
                ),
            forall|bits: &Vec<bool>| call_requires(*reinforce, (bits,)),
            old(rng).script() matches Some(s) ==> strings_ready(
                s,
                old(self).spec_size() as int,
                old(self).spec_ants() as nat,
            ),
        ensures
            final(self).held().iteration == old(self).held().iteration + 1,
            exists|paths: Seq<Bitstring>| #[trigger]
                old(self).took_in(final(self), paths) && old(self).constructed(
                    *decide,
                    old(rng).script(),
                    paths,
                ),
            exists|bits: Vec<bool>| #[trigger]
                call_ensures(*reinforce, (&bits,), ()) && final(self).held().current_solution@
                    == bits@,
            final(rng).script() == before_string(
                old(rng).script(),
                old(self).spec_size() as int,
                old(self).spec_ants() as nat,
            ),
    {
        let paths = self.construct_all(rng, decide);
        self.complete_iteration(&paths);
        reinforce(self.state.current_solution.bits());
        proof {
            assert(old(self).took_in(self, paths@) && old(self).constructed(
                *decide,
                old(rng).script(),
                paths@,
            ));
        }
    }

    pub fn current_solution(&self) -> (solution: &Bitstring)
        ensures
            *solution == self.held().current_solution,
    {
        &self.state.current_solution
    }

    /// The state as a caller reads it.
    pub fn status_snapshot(&self) -> (status: StatusSnapshot)
        ensures
            status.iterations == self.held().iteration,
            status.current_fitness == self.held().current_fitness,
            status.current_solution@ == Bitstring::text(self.held().current_solution@),
    {
        StatusSnapshot {
            iterations: self.state.iteration,
            current_fitness: self.state.current_fitness,
            current_solution: self.state.current_solution.to_string(),
        }
    }

    pub fn current_fitness(&self) -> (fitness: u64)
        ensures
            fitness == self.held().current_fitness,
    {
        self.state.current_fitness
    }

    pub fn iterations(&self) -> (iterations: u64)
        ensures
            iterations == self.held().iteration,
    {
        self.state.iteration
    }

    pub fn size(&self) -> (size: usize)
        ensures
            size == self.spec_size(),
    {
        self.size
    }

    pub fn ants(&self) -> (ants: usize)
        ensures
            ants == self.spec_ants(),
    {
        self.ants
    }
}

/// The ant system on tours together with what keeps its pheromone: how it
/// evaporates, how the next node is chosen under it, and how it is laid
/// on a tour.
pub struct RuledMMAStsp<
    F: FitnessFunction<Permutation>,
    E: Fn() -> (),
    C: Fn(usize, &Vec<usize>, u64) -> usize,
    P: Fn(&Permutation, u64) -> (),
> {
    colony: MMAStsp<F>,
    evaporate: E,
    chooser: C,
    deposit: P,
}

impl<
    F: FitnessFunction<Permutation>,
    E: Fn() -> (),
    C: Fn(usize, &Vec<usize>, u64) -> usize,
    P: Fn(&Permutation, u64) -> (),
> RuledMMAStsp<F, E, C, P> {
    /// The ant system.
    pub closed spec fn inner(&self) -> MMAStsp<F> {
        self.colony
    }

    /// What lets the pheromone evaporate.
    pub closed spec fn evaporation(&self) -> E {
        self.evaporate
    }

    /// What chooses the next node of a tour.
    pub closed spec fn choice(&self) -> C {
        self.chooser
    }

    /// What lays pheromone on a tour.
    pub closed spec fn laying(&self) -> P {
        self.deposit
    }

    /// The ant system with the three parts that keep its pheromone. The
    /// chooser is asked with the node reached, the nodes still free and a
    /// draw from the unit interval; the deposit with a tour and its length.
    pub fn new(colony: MMAStsp<F>, evaporate: E, chooser: C, deposit: P) -> (ruled: Self)
        ensures
            ruled.inner() == colony,
            ruled.evaporation() == evaporate,
            ruled.choice() == chooser,
            ruled.laying() == deposit,
    {
        RuledMMAStsp { colony, evaporate, chooser, deposit }
    }

    pub fn colony(&self) -> (colony: &MMAStsp<F>)
        ensures
            *colony == self.inner(),
    {
        &self.colony
    }
}

impl<
    F: FitnessFunction<Permutation>,
    E: Fn() -> (),
    C: Fn(usize, &Vec<usize>, u64) -> usize,
    P: Fn(&Permutation, u64) -> (),
> AlgorithmCore for RuledMMAStsp<F, E, C, P> {
    /// The ant system's parts fit together, and each of the three parts
    /// that keep the pheromone answers whatever it is asked.
    open spec fn wf(&self) -> bool {
        &&& self.inner().well_formed()
        &&& call_requires(self.evaporation(), ())
        &&& forall|current: usize, candidates: &Vec<usize>, draw: u64|
            candidates@.len() > 0 && draw < crate::rng::UNIT ==> call_requires(
                self.choice(),
                (current, candidates, draw),
            )
        &&& forall|tour: &Permutation, length: u64| call_requires(self.laying(), (tour, length))
    }

    open spec fn spec_iterations(&self) -> u64 {
        self.inner().held().iteration
    }

    open spec fn spec_current_fitness(&self) -> u64 {
        self.inner().held().current_fitness
    }

    open spec fn spec_current_solution(&self) -> Seq<char> {
        Permutation::text(self.inner().held().current_solution@)
    }

    open spec fn iterate_ready(&self, script: Script) -> bool {
        tours_ready(script, self.inner().spec_size() as int, self.inner().spec_ants() as nat)
    }

    /// One generation of the ant system with its three parts.
    fn iterate<R: MyRng>(&mut self, rng: &mut R)
        ensures
            final(self).evaporation() == old(self).evaporation(),
            final(self).choice() == old(self).choice(),
            final(self).laying() == old(self).laying(),
            call_ensures(old(self).evaporation(), (), ()),
            exists|paths: Seq<Permutation>, deposits: Seq<Permutation>| #[trigger]
                old(self).inner().took_in(&final(self).inner(), paths, deposits) && old(
                    self,
                ).inner().constructed(old(self).choice(), old(rng).script(), paths) && laid(
                    old(self).laying(),
                    old(self).inner().fitness(),
                    deposits,
                ),
            final(rng).script() == before_ant(
                old(rng).script(),
                old(self).inner().spec_size() as int,
                old(self).inner().spec_ants() as nat,
            ),
    {
        assert(self.evaporation() == self.evaporate);
        assert(self.choice() == self.chooser);
        assert(self.laying() == self.deposit);
        self.colony.iterate(rng, &self.evaporate, &self.chooser, &self.deposit);
    }

    fn current_fitness(&self) -> (fitness: u64) {
        self.colony.current_fitness()
    }

    fn iterations(&self) -> (iterations: u64) {
        self.colony.iterations()
    }

    fn status_snapshot(&self) -> (status: StatusSnapshot) {
        self.colony.status_snapshot()
    }
}

/// The ant system on bit strings together with what keeps its pheromone:
/// how a bit is decided under it, and how it is moved toward the bit
/// string held.
pub struct RuledMMASbs<
    F: FitnessFunction<Bitstring>,
    D: Fn(usize, u64) -> bool,
    P: Fn(&Vec<bool>) -> (),
> {
    colony: MMASbs<F>,
    decide: D,
    reinforce: P,
}

impl<
    F: FitnessFunction<Bitstring>,
    D: Fn(usize, u64) -> bool,
    P: Fn(&Vec<bool>) -> (),
> RuledMMASbs<F, D, P> {
    /// The ant system.
    pub closed spec fn inner(&self) -> MMASbs<F> {
        self.colony
    }

    /// What decides a bit.
    pub closed spec fn decision(&self) -> D {
        self.decide
    }

    /// What moves the pheromone toward a bit string.
    pub closed spec fn reinforcement(&self) -> P {
        self.reinforce
    }

    /// The ant system with the two parts that keep its pheromone. The
    /// decision is asked with a position and a draw from the unit
    /// interval; the reinforcement with the bits of the string held.
    pub fn new(colony: MMASbs<F>, decide: D, reinforce: P) -> (ruled: Self)
        ensures
            ruled.inner() == colony,
            ruled.decision() == decide,
            ruled.reinforcement() == reinforce,
    {
        RuledMMASbs { colony, decide, reinforce }
    }

    pub fn colony(&self) -> (colony: &MMASbs<F>)
        ensures
            *colony == self.inner(),
    {
        &self.colony
    }
}

impl<
    F: FitnessFunction<Bitstring>,
    D: Fn(usize, u64) -> bool,
    P: Fn(&Vec<bool>) -> (),
> AlgorithmCore for RuledMMASbs<F, D, P> {
    /// The ant system's parts fit together, and each of the two parts that
    /// keep the pheromone answers whatever it is asked.
    open spec fn wf(&self) -> bool {
        &&& self.inner().well_formed()
        &&& forall|step: usize, draw: u64|
            step < self.inner().spec_size() && draw < crate::rng::UNIT ==> call_requires(
                self.decision(),
                (step, draw),
            )
        &&& forall|bits: &Vec<bool>| call_requires(self.reinforcement(), (bits,))
    }

    open spec fn spec_iterations(&self) -> u64 {
        self.inner().held().iteration
    }

    open spec fn spec_current_fitness(&self) -> u64 {
        self.inner().held().current_fitness
    }

    open spec fn spec_current_solution(&self) -> Seq<char> {
        Bitstring::text(self.inner().held().current_solution@)
    }

    open spec fn iterate_ready(&self, script: Script) -> bool {
        strings_ready(script, self.inner().spec_size() as int, self.inner().spec_ants() as nat)
    }

    /// One generation of the ant system with its two parts.
    fn iterate<R: MyRng>(&mut self, rng: &mut R)
        ensures
            final(self).decision() == old(self).decision(),
            final(self).reinforcement() == old(self).reinforcement(),
            exists|paths: Seq<Bitstring>| #[trigger]
                old(self).inner().took_in(&final(self).inner(), paths) && old(
                    self,
                ).inner().constructed(old(self).decision(), old(rng).script(), paths),
            exists|bits: Vec<bool>| #[trigger]
                call_ensures(old(self).reinforcement(), (&bits,), ())
                    && final(self).inner().held().current_solution@ == bits@,
            final(rng).script() == before_string(
                old(rng).script(),
                old(self).inner().spec_size() as int,
                old(self).inner().spec_ants() as nat,
            ),
    {
        assert(self.decision() == self.decide);
        assert(self.reinforcement() == self.reinforce);
        self.colony.iterate(rng, &self.decide, &self.reinforce);
    }

    fn current_fitness(&self) -> (fitness: u64) {
        self.colony.current_fitness()
    }

    fn iterations(&self) -> (iterations: u64) {
        self.colony.iterations()
    }

    fn status_snapshot(&self) -> (status: StatusSnapshot) {
        self.colony.status_snapshot()
    }
}

} // verus!

//! Setting up an algorithm for a problem.

use crate::algorithms::mmas::{MMASbs, MMAStsp, PheromoneUpdateStrategy};
use crate::algorithms::one_plus_one_ea::OnePlusOneEA;
use crate::algorithms::simulated_annealing::SimulatedAnnealing;
use crate::algorithms::{AlgorithmCore, StatusSnapshot};
use crate::fitness::leading_ones::LeadingOnes;
use crate::fitness::one_max::OneMax;
use crate::fitness::tsp::TSP;
use crate::mutation::{Bitflip, SingleBitflip, TwoOpt};
use crate::rng::{MyRng, Script};
use crate::search_space::{Bitstring, Permutation, SearchSpace};
use vstd::prelude::*;
use vstd::string::*;

verus! {

/// Why no algorithm could be set up.
#[derive(Debug, Clone, Copy, PartialEq, Eq, Structural)]
pub enum CreateError {
    /// The text of the instance holds no coordinate section that can be
    /// read, or more cities than an instance may have.
    InvalidTSP,
}

/// On which tours pheromone is laid, as a request names it.
#[derive(Debug, Clone, Copy, PartialEq, Eq, Structural)]
pub enum UpdateStrategy {
    BestSoFar,
    GenerationBest,
    AllAnts,
}

/// The strategy of the ant system for the one that a request names.
pub fn map_strategy(strategy: UpdateStrategy) -> (mapped: PheromoneUpdateStrategy)
    ensures
        mapped == match strategy {
            UpdateStrategy::BestSoFar => PheromoneUpdateStrategy::BestSoFar,
            UpdateStrategy::GenerationBest => PheromoneUpdateStrategy::GenerationBest,
            UpdateStrategy::AllAnts => PheromoneUpdateStrategy::AllAnts,
        },
{
    match strategy {
        UpdateStrategy::BestSoFar => PheromoneUpdateStrategy::BestSoFar,
        UpdateStrategy::GenerationBest => PheromoneUpdateStrategy::GenerationBest,
        UpdateStrategy::AllAnts => PheromoneUpdateStrategy::AllAnts,
    }
}

/// A problem to optimise.
#[derive(Debug)]
pub enum Problem {
    OneMax { bitstring_size: usize },
    LeadingOnes { bitstring_size: usize },
    TSP { tsp_instance: String, tsp_name: String },
}

/// An algorithm set up for a problem.
pub enum Runner {
    OnePlusOneOneMax(OnePlusOneEA<Bitstring, OneMax, Bitflip>),
    OnePlusOneLeadingOnes(OnePlusOneEA<Bitstring, LeadingOnes, Bitflip>),
    OnePlusOneTSPTwoOpt(OnePlusOneEA<Permutation, TSP, TwoOpt>),
    AnnealingOneMax(SimulatedAnnealing<Bitstring, OneMax, SingleBitflip>),
    AnnealingLeadingOnes(SimulatedAnnealing<Bitstring, LeadingOnes, SingleBitflip>),
    AnnealingTSPTwoOpt(SimulatedAnnealing<Permutation, TSP, TwoOpt>),
    AntsOneMax(MMASbs<OneMax>),
    AntsLeadingOnes(MMASbs<LeadingOnes>),
    AntsTSP(MMAStsp<TSP>),
}

/// The bytes of the text of an instance.
pub open spec fn instance_bytes(text: Seq<char>) -> Seq<u8> {
    vstd::utf8::encode_utf8(text)
}

/// The text holds an instance that can be read: a coordinate section whose
/// lines hold records, with no more cities than an instance may have.
pub open spec fn readable(text: Seq<char>) -> bool {
    crate::fitness::tsp::coordinates(instance_bytes(text)) matches Some(c) && c.len()
        <= crate::fitness::tsp::MAX_CITIES
}

/// The number of cities of the instance that the text holds.
pub open spec fn city_count(text: Seq<char>) -> nat {
    crate::fitness::tsp::coordinates(instance_bytes(text)).unwrap().len()
}

/// The size of the candidates of the problem.
pub open spec fn problem_size(problem: Problem) -> nat {
    match problem {
        Problem::OneMax { bitstring_size } => bitstring_size as nat,
        Problem::LeadingOnes { bitstring_size } => bitstring_size as nat,
        Problem::TSP { tsp_instance, tsp_name } => city_count(tsp_instance@),
    }
}

/// An algorithm can be set up for the problem.
pub open spec fn creatable(problem: Problem) -> bool {
    match problem {
        Problem::TSP { tsp_instance, tsp_name } => readable(tsp_instance@),
        _ => true,
    }
}

/// A scripted source holds the draws of the first candidate of the problem,
/// drawn uniformly.
pub open spec fn start_ready(problem: Problem, script: Script) -> bool {
    match problem {
        Problem::TSP { tsp_instance, tsp_name } => readable(tsp_instance@)
            ==> Permutation::random_ready(city_count(tsp_instance@) as usize, script),
        _ => Bitstring::random_ready(problem_size(problem) as usize, script),
    }
}

impl Runner {
    /// The algorithm's parts fit together.
    pub open spec fn wf(&self) -> bool {
        match self {
            Runner::OnePlusOneOneMax(ea) => ea.well_formed(),
            Runner::OnePlusOneLeadingOnes(ea) => ea.well_formed(),
            Runner::OnePlusOneTSPTwoOpt(ea) => ea.well_formed(),
            Runner::AnnealingOneMax(sa) => sa.well_formed(),
            Runner::AnnealingLeadingOnes(sa) => sa.well_formed(),
            Runner::AnnealingTSPTwoOpt(sa) => sa.well_formed(),
            Runner::AntsOneMax(mmas) => mmas.well_formed(),
            Runner::AntsLeadingOnes(mmas) => mmas.well_formed(),
            Runner::AntsTSP(mmas) => mmas.well_formed(),
        }
    }

    /// The number of generations so far.
    pub open spec fn spec_iterations(&self) -> u64 {
        match self {
            Runner::OnePlusOneOneMax(ea) => ea.held().iteration,
            Runner::OnePlusOneLeadingOnes(ea) => ea.held().iteration,
            Runner::OnePlusOneTSPTwoOpt(ea) => ea.held().iteration,
            Runner::AnnealingOneMax(sa) => sa.held().iteration,
            Runner::AnnealingLeadingOnes(sa) => sa.held().iteration,
            Runner::AnnealingTSPTwoOpt(sa) => sa.held().iteration,
            Runner::AntsOneMax(mmas) => mmas.held().iteration,
            Runner::AntsLeadingOnes(mmas) => mmas.held().iteration,
            Runner::AntsTSP(mmas) => mmas.held().iteration,
        }
    }

    /// The fitness of the candidate held.
    pub open spec fn spec_current_fitness(&self) -> u64 {
        match self {
            Runner::OnePlusOneOneMax(ea) => ea.held().current_fitness,
            Runner::OnePlusOneLeadingOnes(ea) => ea.held().current_fitness,
            Runner::OnePlusOneTSPTwoOpt(ea) => ea.held().current_fitness,
            Runner::AnnealingOneMax(sa) => sa.held().current_fitness,
            Runner::AnnealingLeadingOnes(sa) => sa.held().current_fitness,
            Runner::AnnealingTSPTwoOpt(sa) => sa.held().current_fitness,
            Runner::AntsOneMax(mmas) => mmas.held().current_fitness,
            Runner::AntsLeadingOnes(mmas) => mmas.held().current_fitness,
            Runner::AntsTSP(mmas) => mmas.held().current_fitness,
        }
    }

    /// The size of the candidate held.
    pub open spec fn spec_size(&self) -> nat {
        match self {
            Runner::OnePlusOneOneMax(ea) => ea.held().current_solution@.len(),
            Runner::OnePlusOneLeadingOnes(ea) => ea.held().current_solution@.len(),
            Runner::OnePlusOneTSPTwoOpt(ea) => ea.held().current_solution@.len(),
            Runner::AnnealingOneMax(sa) => sa.held().current_solution@.len(),
            Runner::AnnealingLeadingOnes(sa) => sa.held().current_solution@.len(),
            Runner::AnnealingTSPTwoOpt(sa) => sa.held().current_solution@.len(),
            Runner::AntsOneMax(mmas) => mmas.held().current_solution@.len(),
            Runner::AntsLeadingOnes(mmas) => mmas.held().current_solution@.len(),
            Runner::AntsTSP(mmas) => mmas.held().current_solution@.len(),
        }
    }

    /// The algorithm is the (1+1) evolutionary algorithm for the problem.
    pub open spec fn is_one_plus_one_for(&self, problem: Problem) -> bool {
        match problem {
            Problem::OneMax { .. } => self is OnePlusOneOneMax,
            Problem::LeadingOnes { .. } => self is OnePlusOneLeadingOnes,
            Problem::TSP { .. } => self is OnePlusOneTSPTwoOpt,
        }
    }

    /// The algorithm is simulated annealing for the problem.
    pub open spec fn is_annealing_for(&self, problem: Problem) -> bool {
        match problem {
            Problem::OneMax { .. } => self is AnnealingOneMax,
            Problem::LeadingOnes { .. } => self is AnnealingLeadingOnes,
            Problem::TSP { .. } => self is AnnealingTSPTwoOpt,
        }
    }

    /// The algorithm is the ant system for the problem, with the number of
    /// ants and the strategy given.
    pub open spec fn is_ants_for(
        &self,
        problem: Problem,
        ants: usize,
        strategy: UpdateStrategy,
    ) -> bool {
        match problem {
            Problem::OneMax { .. } => self matches Runner::AntsOneMax(mmas) && mmas.spec_ants()
                == ants,
            Problem::LeadingOnes { .. } => self matches Runner::AntsLeadingOnes(mmas)
                && mmas.spec_ants() == ants,
            Problem::TSP { .. } => self matches Runner::AntsTSP(mmas) && mmas.spec_ants() == ants
                && mmas.strategy() == match strategy {
                UpdateStrategy::BestSoFar => PheromoneUpdateStrategy::BestSoFar,
                UpdateStrategy::GenerationBest => PheromoneUpdateStrategy::GenerationBest,
                UpdateStrategy::AllAnts => PheromoneUpdateStrategy::AllAnts,
            },
        }
    }

    /// The candidate held, written out.
    pub open spec fn spec_current_solution(&self) -> Seq<char> {
        match self {
            Runner::OnePlusOneOneMax(ea) => Bitstring::text(ea.held().current_solution@),
            Runner::OnePlusOneLeadingOnes(ea) => Bitstring::text(ea.held().current_solution@),
            Runner::OnePlusOneTSPTwoOpt(ea) => Permutation::text(ea.held().current_solution@),
            Runner::AnnealingOneMax(sa) => Bitstring::text(sa.held().current_solution@),
            Runner::AnnealingLeadingOnes(sa) => Bitstring::text(sa.held().current_solution@),
            Runner::AnnealingTSPTwoOpt(sa) => Permutation::text(sa.held().current_solution@),
            Runner::AntsOneMax(mmas) => Bitstring::text(mmas.held().current_solution@),
            Runner::AntsLeadingOnes(mmas) => Bitstring::text(mmas.held().current_solution@),
            Runner::AntsTSP(mmas) => Permutation::text(mmas.held().current_solution@),
        }
    }

    /// The state as a caller reads it.
    pub fn status_snapshot(&self) -> (status: StatusSnapshot)
        ensures
            status.iterations == self.spec_iterations(),
            status.current_fitness == self.spec_current_fitness(),
            status.current_solution@ == self.spec_current_solution(),
    {
        match self {
            Runner::OnePlusOneOneMax(ea) => ea.status_snapshot(),
            Runner::OnePlusOneLeadingOnes(ea) => ea.status_snapshot(),
            Runner::OnePlusOneTSPTwoOpt(ea) => ea.status_snapshot(),
            Runner::AnnealingOneMax(sa) => sa.status_snapshot(),
            Runner::AnnealingLeadingOnes(sa) => sa.status_snapshot(),
            Runner::AnnealingTSPTwoOpt(sa) => sa.status_snapshot(),
            Runner::AntsOneMax(mmas) => mmas.status_snapshot(),
            Runner::AntsLeadingOnes(mmas) => mmas.status_snapshot(),
            Runner::AntsTSP(mmas) => mmas.status_snapshot(),
        }
    }

    pub fn current_fitness(&self) -> (fitness: u64)
        ensures
            fitness == self.spec_current_fitness(),
    {
        match self {
            Runner::OnePlusOneOneMax(ea) => ea.current_fitness(),
            Runner::OnePlusOneLeadingOnes(ea) => ea.current_fitness(),
            Runner::OnePlusOneTSPTwoOpt(ea) => ea.current_fitness(),
            Runner::AnnealingOneMax(sa) => sa.current_fitness(),
            Runner::AnnealingLeadingOnes(sa) => sa.current_fitness(),
            Runner::AnnealingTSPTwoOpt(sa) => sa.current_fitness(),
            Runner::AntsOneMax(mmas) => mmas.current_fitness(),
            Runner::AntsLeadingOnes(mmas) => mmas.current_fitness(),
            Runner::AntsTSP(mmas) => mmas.current_fitness(),
        }
    }

    pub fn iterations(&self) -> (iterations: u64)
        ensures
            iterations == self.spec_iterations(),
    {
        match self {
            Runner::OnePlusOneOneMax(ea) => ea.iterations(),
            Runner::OnePlusOneLeadingOnes(ea) => ea.iterations(),
            Runner::OnePlusOneTSPTwoOpt(ea) => ea.iterations(),
            Runner::AnnealingOneMax(sa) => sa.iterations(),
            Runner::AnnealingLeadingOnes(sa) => sa.iterations(),
            Runner::AnnealingTSPTwoOpt(sa) => sa.iterations(),
            Runner::AntsOneMax(mmas) => mmas.iterations(),
            Runner::AntsLeadingOnes(mmas) => mmas.iterations(),
            Runner::AntsTSP(mmas) => mmas.iterations(),
        }
    }
}

/// Reads the instance of a problem on tours.
fn read_instance(tsp_instance: &String) -> (read: Result<TSP, CreateError>)
    ensures
        read is Ok <==> readable(tsp_instance@),
        read matches Ok(tsp) ==> tsp.wf() && tsp.matrix().len() == city_count(tsp_instance@),
        read matches Err(e) ==> e == CreateError::InvalidTSP,
{
    match TSP::from_euc2d(tsp_instance.as_str()) {
        Some(tsp) => Ok(tsp),
        None => Err(CreateError::InvalidTSP),
    }
}

/// The (1+1) evolutionary algorithm for the problem: with the operator
/// that draws the gaps between inverted bits on bit strings, with 2-opt on
/// tours. It starts from a candidate drawn uniformly.
pub fn create_oneplusone_runner<R: MyRng>(problem: &Problem, rng: &mut R) -> (made: Result<
    Runner,
    CreateError,
>)
    requires
        old(rng).script() matches Some(s) ==> start_ready(*problem, s),
    ensures
        made is Ok <==> creatable(*problem),
        made matches Err(e) ==> e == CreateError::InvalidTSP && final(rng).script() == old(
            rng,
        ).script(),
        made matches Ok(runner) ==> {
            &&& runner.wf()
            &&& runner.is_one_plus_one_for(*problem)
            &&& runner.spec_iterations() == 0
            &&& runner.spec_size() == problem_size(*problem)
        },
        old(rng).script() is Some <==> final(rng).script() is Some,
{
    match problem {
        Problem::OneMax { bitstring_size } => Ok(
            Runner::OnePlusOneOneMax(OnePlusOneEA::new(*bitstring_size, Bitflip, OneMax, rng)),
        ),
        Problem::LeadingOnes { bitstring_size } => Ok(
            Runner::OnePlusOneLeadingOnes(
                OnePlusOneEA::new(*bitstring_size, Bitflip, LeadingOnes, rng),
            ),
        ),
        Problem::TSP { tsp_instance, tsp_name: _ } => {
            let tsp = match read_instance(tsp_instance) {
                Ok(tsp) => tsp,
                Err(e) => {
                    return Err(e);
                },
            };
            let size = tsp.num_cities();
            Ok(Runner::OnePlusOneTSPTwoOpt(OnePlusOneEA::new(size, TwoOpt, tsp, rng)))
        },
    }
}

/// Simulated annealing for the problem: with the operator that inverts one
/// bit on bit strings, with 2-opt on tours. It starts from a candidate
/// drawn uniformly.
pub fn create_sa_runner<R: MyRng>(problem: &Problem, rng: &mut R) -> (made: Result<
    Runner,
    CreateError,
>)
    requires
        old(rng).script() matches Some(s) ==> start_ready(*problem, s),
    ensures
        made is Ok <==> creatable(*problem),
        made matches Err(e) ==> e == CreateError::InvalidTSP && final(rng).script() == old(
            rng,
        ).script(),
        made matches Ok(runner) ==> {
            &&& runner.wf()
            &&& runner.is_annealing_for(*problem)
            &&& runner.spec_iterations() == 0
            &&& runner.spec_size() == problem_size(*problem)
        },
        old(rng).script() is Some <==> final(rng).script() is Some,
{
    match problem {
        Problem::OneMax { bitstring_size } => Ok(
            Runner::AnnealingOneMax(
                SimulatedAnnealing::new(*bitstring_size, SingleBitflip, OneMax, rng),
            ),
        ),
        Problem::LeadingOnes { bitstring_size } => Ok(
            Runner::AnnealingLeadingOnes(
                SimulatedAnnealing::new(*bitstring_size, SingleBitflip, LeadingOnes, rng),
            ),
        ),
        Problem::TSP { tsp_instance, tsp_name: _ } => {
            let tsp = match read_instance(tsp_instance) {
                Ok(tsp) => tsp,
                Err(e) => {
                    return Err(e);
                },
            };
            let size = tsp.num_cities();
            Ok(Runner::AnnealingTSPTwoOpt(SimulatedAnnealing::new(size, TwoOpt, tsp, rng)))
        },
    }
}

/// The ant system for the problem. On tours it starts from the
/// nearest-neighbour tour where `nn` is set; else, and on bit strings, from
/// a candidate drawn uniformly.
pub fn create_aco_runner<R: MyRng>(
    problem: &Problem,
    ants: usize,
    nn: bool,
    strategy: UpdateStrategy,
    rng: &mut R,
) -> (made: Result<Runner, CreateError>)
    requires
        !(nn && *problem is TSP) ==> (old(rng).script() matches Some(s) ==> start_ready(
            *problem,
            s,
        )),
    ensures
        made is Ok <==> creatable(*problem),
        made matches Err(e) ==> e == CreateError::InvalidTSP && final(rng).script() == old(
            rng,
        ).script(),
        made matches Ok(runner) ==> {
            &&& runner.wf()
            &&& runner.is_ants_for(*problem, ants, strategy)
            &&& runner.spec_iterations() == 0
            &&& runner.spec_size() == problem_size(*problem)
        },
        old(rng).script() is Some <==> final(rng).script() is Some,
{
    match problem {
        Problem::OneMax { bitstring_size } => Ok(
            Runner::AntsOneMax(MMASbs::new(OneMax, *bitstring_size, ants, rng)),
        ),
        Problem::LeadingOnes { bitstring_size } => Ok(
            Runner::AntsLeadingOnes(MMASbs::new(LeadingOnes, *bitstring_size, ants, rng)),
        ),
        Problem::TSP { tsp_instance, tsp_name: _ } => {
            let tsp = match read_instance(tsp_instance) {
                Ok(tsp) => tsp,
                Err(e) => {
                    return Err(e);
                },
            };
            let size = tsp.num_cities();
            let graph = tsp.distances();
            proof {
                tsp.lemma_square();
                assert forall|i: int| 0 <= i < size implies (#[trigger] graph@[i])@.len()
                    == size by {
                    assert(crate::fitness::tsp::rows(graph@)[i] == graph@[i]@);
                }
            }
            Ok(
                Runner::AntsTSP(
                    MMAStsp::new(&graph, tsp, size, ants, map_strategy(strategy), nn, rng),
                ),
            )
        },
    }
}

} // verus!

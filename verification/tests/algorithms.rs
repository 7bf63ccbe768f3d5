use eas::algorithms::aco2::{PartialSumConstructor, Temp, Translator};
use eas::algorithms::mmas::{MMASbs, MMAStsp, PheromoneUpdateStrategy, RuledMMASbs, RuledMMAStsp};
use eas::algorithms::one_plus_one_ea::OnePlusOneEA;
use eas::algorithms::simulated_annealing::{RuledAnnealing, SimulatedAnnealing};
use eas::algorithms::AlgorithmCore;
use eas::fitness::leading_ones::LeadingOnes;
use eas::fitness::one_max::OneMax;
use eas::fitness::tsp::TSP;
use eas::fitness::FitnessFunction;
use eas::mutation::{Bitflip, Mutation, SingleBitflip, ThreeOpt, TwoOpt};
use eas::rng::{MockRng, MyRng, PcgRng, Script, UniformRng, UNIT};
use eas::search_space::{Bitstring, Permutation, SearchSpace};
use std::cell::RefCell;
use std::ops::Range;

/// The samples that need real numbers, on top of any source of uniform
/// draws.
struct Sampling<U: UniformRng>(U);

impl<U: UniformRng> UniformRng for Sampling<U> {
    fn script(&self) -> Option<Script> {
        None
    }

    fn random(&mut self) -> bool {
        self.0.random()
    }

    fn random_bool(&mut self, threshold: u64) -> bool {
        self.0.random_bool(threshold)
    }

    fn random_ratio(&mut self, numerator: u32, denominator: u32) -> bool {
        self.0.random_ratio(numerator, denominator)
    }

    fn random_range(&mut self, range: Range<usize>) -> usize {
        self.0.random_range(range)
    }

    fn random_unit(&mut self) -> u64 {
        self.0.random_unit()
    }

    fn shuffle_vec(&mut self, v: &mut Vec<usize>) {
        self.0.shuffle_vec(v)
    }
}

impl<U: UniformRng> MyRng for Sampling<U> {
    fn sample_geometric(&mut self, numerator: usize, denominator: usize) -> u64 {
        let p = numerator as f64 / denominator as f64;
        let u = self.0.random_unit() as f64 / UNIT as f64;
        (u.log2() / (1.0 - p).log2()).floor() as u64
    }

    fn sample_poisson(&mut self) -> u64 {
        let l = (-1.0_f64).exp();
        let mut k = 0;
        let mut p = 1.0;
        loop {
            p *= self.0.random_unit() as f64 / UNIT as f64;
            if p < l {
                return k;
            }
            k += 1;
        }
    }
}

fn square() -> TSP {
    // four cities on a line at 0, 1, 3 and 7
    TSP::new(vec![
        vec![0, 1, 3, 7],
        vec![1, 0, 2, 6],
        vec![3, 2, 0, 4],
        vec![7, 6, 4, 0],
    ])
}

#[test]
fn ea_starts_from_the_scripted_candidate() {
    let mut rng = MockRng::new().with_random(vec![true, false, true, false]);
    let ea: OnePlusOneEA<Bitstring, OneMax, Bitflip> = OnePlusOneEA::new(4, Bitflip, OneMax, &mut rng);
    assert_eq!(ea.iterations(), 0);
    assert_eq!(ea.current_fitness(), 2);
    assert_eq!(*ea.state.current_solution.bits(), vec![true, false, true, false]);
}

#[test]
fn ea_takes_a_strictly_better_offspring() {
    let mut rng = MockRng::new()
        .with_random(vec![false, false, false, false])
        .with_geometric(vec![1, 4]);
    let mut ea = OnePlusOneEA::new(4, Bitflip, OneMax, &mut rng);
    assert_eq!(ea.current_fitness(), 0);
    ea.iterate(&mut rng);
    assert_eq!(ea.iterations(), 1);
    assert_eq!(ea.current_fitness(), 1);
    assert_eq!(*ea.state.current_solution.bits(), vec![false, true, false, false]);
}

#[test]
fn ea_keeps_its_candidate_against_an_equal_or_worse_offspring() {
    let mut rng = MockRng::new()
        .with_random(vec![true, false, true, false])
        // first generation: bit 0 off and bit 1 on, fitness stays 2;
        // second generation: bit 2 off, fitness would drop to 1
        .with_geometric(vec![0, 0, 4, 2, 4]);
    let mut ea = OnePlusOneEA::new(4, Bitflip, OneMax, &mut rng);
    ea.iterate(&mut rng);
    assert_eq!(ea.iterations(), 1);
    assert_eq!(ea.current_fitness(), 2);
    assert_eq!(*ea.state.current_solution.bits(), vec![true, false, true, false]);
    ea.iterate(&mut rng);
    assert_eq!(ea.iterations(), 2);
    assert_eq!(ea.current_fitness(), 2);
    assert_eq!(*ea.state.current_solution.bits(), vec![true, false, true, false]);
}

#[test]
fn ea_on_tours_compounds_the_moves() {
    // start [0, 2, 1, 3]: 3 + 2 + 6 + 7 = 18
    // one extra move: cuts (0, 2) give [0, 1, 2, 3], then cuts (3, 1) give [0, 1, 3, 2]
    let mut rng = MockRng::new()
        .with_shuffle(vec![vec![0, 2, 1, 3]])
        .with_poisson(vec![1, 0])
        .with_range(vec![0, 2, 3, 1, 1, 3]);
    let mut ea = OnePlusOneEA::new(4, TwoOpt, square(), &mut rng);
    assert_eq!(ea.current_fitness(), 18);
    ea.iterate(&mut rng);
    // [0, 1, 3, 2]: 1 + 6 + 4 + 3 = 14
    assert_eq!(ea.current_fitness(), 14);
    assert_eq!(*ea.state.current_solution.permutation(), vec![0, 1, 3, 2]);
    // no extra move: cuts (1, 3) give [0, 1, 2, 3]: 1 + 2 + 4 + 7 = 14, not strictly better
    ea.iterate(&mut rng);
    assert_eq!(ea.current_fitness(), 14);
    assert_eq!(*ea.state.current_solution.permutation(), vec![0, 1, 3, 2]);
    assert_eq!(ea.iterations(), 2);
}

#[test]
fn ea_status_snapshot_reports_the_state() {
    let mut rng = MockRng::new().with_random(vec![true, true, false]);
    let ea = OnePlusOneEA::new(3, Bitflip, LeadingOnes, &mut rng);
    let status = ea.status_snapshot();
    assert_eq!(status.iterations, 0);
    assert_eq!(status.current_fitness, 2);
    assert_eq!(status.current_solution, "110");
}

#[test]
fn ea_never_regresses_with_a_generator() {
    let mut rng = Sampling(PcgRng::seed_from_u64(42));
    let mut ea = OnePlusOneEA::new(40, Bitflip, OneMax, &mut rng);
    let mut last = ea.current_fitness();
    for i in 0..2000 {
        ea.iterate(&mut rng);
        assert!(ea.current_fitness() >= last);
        assert_eq!(ea.iterations(), i + 1);
        last = ea.current_fitness();
    }
    assert_eq!(last, 40);
}

#[test]
fn ea_on_tours_never_regresses_and_keeps_a_permutation() {
    let mut rng = Sampling(PcgRng::seed_from_u64(3));
    let mut ea = OnePlusOneEA::new(4, TwoOpt, square(), &mut rng);
    let mut last = ea.current_fitness();
    for _ in 0..200 {
        ea.iterate(&mut rng);
        assert!(ea.current_fitness() <= last);
        assert!(ea.state.current_solution.is_valid());
        last = ea.current_fitness();
    }
    assert_eq!(last, 14);
}

#[test]
fn annealing_proposal_reports_the_difference() {
    let mut rng = MockRng::new()
        .with_random(vec![true, true, false, false])
        .with_range(vec![0, 3]);
    let sa = SimulatedAnnealing::new(4, SingleBitflip, OneMax, &mut rng);
    assert_eq!(sa.current_fitness(), 2);
    let worse = sa.propose(&mut rng);
    assert_eq!(*worse.neighbor.bits(), vec![false, true, false, false]);
    assert_eq!(worse.fitness, 1);
    assert!(!worse.improves);
    assert_eq!(worse.difference, 1);
    let better = sa.propose(&mut rng);
    assert_eq!(*better.neighbor.bits(), vec![true, true, false, true]);
    assert_eq!(better.fitness, 3);
    assert!(better.improves);
    assert_eq!(better.difference, 1);
}

#[test]
fn annealing_takes_a_worse_neighbour_only_when_accepted() {
    let mut rng = MockRng::new()
        .with_random(vec![true, true, false, false])
        .with_range(vec![0, 1]);
    let mut sa = SimulatedAnnealing::new(4, SingleBitflip, OneMax, &mut rng);
    let p = sa.propose(&mut rng);
    sa.settle(p, false);
    assert_eq!(sa.iterations(), 1);
    assert_eq!(sa.current_fitness(), 2);
    assert_eq!(*sa.state.current_solution.bits(), vec![true, true, false, false]);
    let p = sa.propose(&mut rng);
    sa.settle(p, true);
    assert_eq!(sa.iterations(), 2);
    assert_eq!(sa.current_fitness(), 1);
    assert_eq!(*sa.state.current_solution.bits(), vec![true, false, false, false]);
}

#[test]
fn annealing_takes_an_improvement_whatever_the_decision() {
    let mut rng = MockRng::new()
        .with_random(vec![false, false])
        .with_range(vec![1]);
    let mut sa = SimulatedAnnealing::new(2, SingleBitflip, OneMax, &mut rng);
    let p = sa.propose(&mut rng);
    sa.settle(p, false);
    assert_eq!(sa.current_fitness(), 1);
}

#[test]
fn frozen_annealing_never_regresses() {
    let mut rng = Sampling(PcgRng::seed_from_u64(11));
    let mut sa = SimulatedAnnealing::new(30, SingleBitflip, LeadingOnes, &mut rng);
    let mut last = sa.current_fitness();
    for _ in 0..3000 {
        sa.iterate_frozen(&mut rng);
        assert!(sa.current_fitness() >= last);
        last = sa.current_fitness();
    }
    assert_eq!(sa.iterations(), 3000);
}

#[test]
fn nearest_neighbor_goes_to_the_closest_city_and_names_the_start_last() {
    let graph = vec![
        vec![0, 5, 1, 7],
        vec![5, 0, 2, 3],
        vec![1, 2, 0, 9],
        vec![7, 3, 9, 0],
    ];
    let tour = MMAStsp::<TSP>::nearest_neighbor(&graph, 4);
    assert_eq!(*tour.permutation(), vec![2, 1, 3, 0]);
    assert!(tour.is_valid());
}

#[test]
fn nearest_neighbor_takes_the_first_of_equal_distances() {
    let graph = vec![vec![0, 4, 4], vec![4, 0, 4], vec![4, 4, 0]];
    let tour = MMAStsp::<TSP>::nearest_neighbor(&graph, 3);
    assert_eq!(*tour.permutation(), vec![1, 2, 0]);
    let single = MMAStsp::<TSP>::nearest_neighbor(&vec![vec![0]], 1);
    assert_eq!(*single.permutation(), vec![0]);
}

#[test]
fn mmas_starts_from_the_nearest_neighbour_tour() {
    let tsp = square();
    let graph = tsp.distances();
    let mut rng = MockRng::new();
    let mmas = MMAStsp::new(&graph, tsp, 4, 3, PheromoneUpdateStrategy::BestSoFar, true, &mut rng);
    // from 0 to 1, 2, 3 and back: 1 + 2 + 4, and the tour is written [1, 2, 3, 0]
    assert_eq!(*mmas.state.current_solution.permutation(), vec![1, 2, 3, 0]);
    assert_eq!(mmas.current_fitness(), 14);
    assert_eq!(mmas.iterations(), 0);
    assert_eq!(mmas.size(), 4);
    assert_eq!(mmas.ants(), 3);
    assert_eq!(mmas.update_strategy(), PheromoneUpdateStrategy::BestSoFar);
}

#[test]
fn mmas_starts_from_a_random_tour() {
    let tsp = square();
    let graph = tsp.distances();
    let mut rng = MockRng::new().with_shuffle(vec![vec![0, 2, 1, 3]]);
    let mmas = MMAStsp::new(&graph, tsp, 4, 3, PheromoneUpdateStrategy::AllAnts, false, &mut rng);
    assert_eq!(*mmas.state.current_solution.permutation(), vec![0, 2, 1, 3]);
    assert_eq!(mmas.current_fitness(), 18);
}

#[test]
fn construction_follows_the_chooser() {
    let tsp = square();
    let graph = tsp.distances();
    let mut rng = MockRng::new()
        .with_range(vec![2, 2, 0])
        .with_unit(vec![0, 0, 0, 0, 0, 0, 0, 0, 0]);
    let mmas = MMAStsp::new(&graph, tsp, 4, 3, PheromoneUpdateStrategy::AllAnts, true, &mut rng);
    // always the last candidate: from 2 the candidates are 0, 1, 3
    let tour = mmas.construct(&mut rng, &|_current: usize, candidates: &Vec<usize>, _draw: u64| {
        candidates.len() - 1
    });
    assert_eq!(*tour.permutation(), vec![2, 3, 1, 0]);
    // always the first candidate
    let tour = mmas.construct(&mut rng, &|_current: usize, _candidates: &Vec<usize>, _draw: u64| 0);
    assert_eq!(*tour.permutation(), vec![2, 0, 1, 3]);
    // an answer past the end counts as the last candidate
    let tour = mmas.construct(&mut rng, &|_current: usize, _candidates: &Vec<usize>, _draw: u64| 100);
    assert_eq!(*tour.permutation(), vec![0, 3, 2, 1]);
    assert!(tour.is_valid());
}

#[test]
fn construction_hands_the_node_reached_and_the_draw_to_the_chooser() {
    let constructor = PartialSumConstructor {};
    let mut rng = MockRng::new().with_unit(vec![0, 0, 0, 0]);
    // from node c go to the free node nearest above c, else to the first free one
    let path = constructor.construct(5, 1, &mut rng, &|current: usize, candidates: &Vec<usize>, _draw: u64| {
        candidates.iter().position(|&c| c > current).unwrap_or(0)
    });
    assert_eq!(path, vec![1, 2, 3, 4, 0]);
    // the draw picks the position among the candidates
    let mut rng = MockRng::new().with_unit(vec![3, 0, 1, 0]);
    let path = constructor.construct(5, 0, &mut rng, &|_current: usize, _candidates: &Vec<usize>, draw: u64| {
        draw as usize
    });
    assert_eq!(path, vec![0, 4, 1, 3, 2]);
}

#[test]
fn a_generation_builds_one_tour_for_each_ant() {
    let tsp = square();
    let graph = tsp.distances();
    let mut rng = MockRng::new()
        .with_range(vec![1, 3])
        .with_unit(vec![0, 0, 0, 1, 1, 0]);
    let mmas = MMAStsp::new(&graph, tsp, 4, 2, PheromoneUpdateStrategy::AllAnts, true, &mut rng);
    let tours = mmas.construct_all(&mut rng, &|_current: usize, _candidates: &Vec<usize>, draw: u64| {
        draw as usize
    });
    assert_eq!(tours.len(), 2);
    assert_eq!(*tours[0].permutation(), vec![1, 0, 2, 3]);
    assert_eq!(*tours[1].permutation(), vec![3, 1, 2, 0]);
}

#[test]
fn a_generation_with_a_generator_builds_valid_tours() {
    let tsp = square();
    let graph = tsp.distances();
    let mut rng = PcgRng::seed_from_u64(12);
    let mut mmas = MMAStsp::new(&graph, tsp, 4, 5, PheromoneUpdateStrategy::BestSoFar, false, &mut rng);
    let mut last = mmas.current_fitness();
    for _ in 0..20 {
        let tours = mmas.construct_all(&mut rng, &|_current: usize, candidates: &Vec<usize>, draw: u64| {
            // each candidate with the same weight
            ((draw as f64 / UNIT as f64) * candidates.len() as f64) as usize
        });
        assert_eq!(tours.len(), 5);
        for tour in &tours {
            assert!(tour.is_valid());
            assert_eq!(tour.size(), 4);
        }
        let deposits = mmas.complete_iteration(&tours);
        assert_eq!(deposits.len(), 1);
        assert!(mmas.current_fitness() <= last);
        last = mmas.current_fitness();
    }
    assert_eq!(mmas.iterations(), 20);
    assert_eq!(last, 14);
}

#[test]
fn locate_finds_the_first_sum_that_is_not_below_the_draw() {
    let constructor = PartialSumConstructor {};
    let sums = vec![0.1, 0.4, 0.4, 1.0];
    let at = |choice: f64| constructor.locate(4, |i: usize| sums[i] < choice);
    assert_eq!(at(0.0), 0);
    assert_eq!(at(0.05), 0);
    // a draw on a boundary belongs to the sum it equals
    assert_eq!(at(0.1), 0);
    assert_eq!(at(0.2), 1);
    assert_eq!(at(0.4), 1);
    assert_eq!(at(0.5), 3);
    assert_eq!(at(0.99), 3);
    // no sum reaches the draw: the last position
    assert_eq!(at(2.0), 3);
    assert_eq!(constructor.locate(1, |_i: usize| true), 0);
}

#[test]
fn update_takes_the_first_best_tour_of_the_generation() {
    let tsp = square();
    let graph = tsp.distances();
    let mut rng = MockRng::new().with_shuffle(vec![vec![0, 2, 1, 3]]);
    let mut mmas = MMAStsp::new(&graph, tsp, 4, 3, PheromoneUpdateStrategy::GenerationBest, false, &mut rng);
    assert_eq!(mmas.current_fitness(), 18);
    let paths = vec![
        Permutation::new(vec![0, 2, 3, 1]), // 3 + 4 + 6 + 1 = 14
        Permutation::new(vec![0, 1, 2, 3]), // 14 as well
        Permutation::new(vec![1, 3, 0, 2]), // 6 + 7 + 3 + 2 = 18
    ];
    let deposits = mmas.complete_iteration(&paths);
    assert_eq!(mmas.iterations(), 1);
    assert_eq!(mmas.current_fitness(), 14);
    assert_eq!(*mmas.state.current_solution.permutation(), vec![0, 2, 3, 1]);
    assert_eq!(deposits.len(), 1);
    assert_eq!(*deposits[0].permutation(), vec![0, 2, 3, 1]);
}

#[test]
fn update_lays_pheromone_by_the_strategy() {
    let paths = vec![
        Permutation::new(vec![1, 3, 0, 2]), // 18
        Permutation::new(vec![0, 2, 1, 3]), // 18
    ];
    let graph = square().distances();

    let mut rng = MockRng::new();
    let mut all = MMAStsp::new(&graph, square(), 4, 2, PheromoneUpdateStrategy::AllAnts, true, &mut rng);
    let deposits = all.update(&paths);
    assert_eq!(all.iterations(), 0);
    assert_eq!(all.current_fitness(), 14);
    assert_eq!(deposits.len(), 2);
    assert_eq!(*deposits[0].permutation(), vec![1, 3, 0, 2]);
    assert_eq!(*deposits[1].permutation(), vec![0, 2, 1, 3]);

    let mut generation = MMAStsp::new(&graph, square(), 4, 2, PheromoneUpdateStrategy::GenerationBest, true, &mut rng);
    let deposits = generation.update(&paths);
    assert_eq!(deposits.len(), 1);
    assert_eq!(*deposits[0].permutation(), vec![1, 3, 0, 2]);
    assert!(generation.update(&vec![]).is_empty());

    let mut so_far = MMAStsp::new(&graph, square(), 4, 2, PheromoneUpdateStrategy::BestSoFar, true, &mut rng);
    let deposits = so_far.update(&paths);
    assert_eq!(deposits.len(), 1);
    assert_eq!(*deposits[0].permutation(), vec![1, 2, 3, 0]);
    let deposits = so_far.update(&vec![]);
    assert_eq!(deposits.len(), 1);
    assert_eq!(*deposits[0].permutation(), vec![1, 2, 3, 0]);
}

#[test]
fn deposit_edges_start_with_the_closing_edge() {
    let edges = MMAStsp::<TSP>::deposit_edges(&Permutation::new(vec![2, 0, 3, 1]));
    assert_eq!(edges, vec![(2, 1), (0, 2), (3, 0), (1, 3)]);
    assert!(MMAStsp::<TSP>::deposit_edges(&Permutation::new(vec![])).is_empty());
    assert_eq!(MMAStsp::<TSP>::deposit_edges(&Permutation::new(vec![0])), vec![(0, 0)]);
}

#[test]
fn mmas_on_bits_takes_strings_in_one_after_the_other() {
    let mut rng = MockRng::new().with_random(vec![false, false, false, false]);
    let mut mmas = MMASbs::new(OneMax, 4, 3, &mut rng);
    assert_eq!(mmas.current_fitness(), 0);
    assert_eq!(mmas.size(), 4);
    assert_eq!(mmas.ants(), 3);
    let paths = vec![
        Bitstring::from_bitstring("0100").unwrap(),
        Bitstring::from_bitstring("1100").unwrap(),
        Bitstring::from_bitstring("0011").unwrap(),
    ];
    mmas.complete_iteration(&paths);
    assert_eq!(mmas.iterations(), 1);
    assert_eq!(mmas.current_fitness(), 2);
    assert_eq!(*mmas.state.current_solution.bits(), vec![true, true, false, false]);
    mmas.update(&vec![Bitstring::from_bitstring("0000").unwrap()]);
    assert_eq!(mmas.iterations(), 1);
    assert_eq!(mmas.current_fitness(), 2);
}

#[test]
fn translator_reads_ones_as_set_bits() {
    let made = Temp {}.translate(&vec![1, 0, 0, 1, 2]);
    assert_eq!(*made.bits(), vec![true, false, false, true, false]);
    assert_eq!(Temp {}.translate(&vec![]).size(), 0);
}

#[test]
fn tour_fitness_of_the_square() {
    assert_eq!(square().evaluate(&Permutation::new(vec![0, 1, 2, 3])), 14);
    assert_eq!(square().evaluate(&Permutation::new(vec![0, 2, 1, 3])), 18);
}

#[test]
fn bits_of_an_ant_are_decided_position_by_position() {
    let mut rng = MockRng::new()
        .with_random(vec![false, false, false])
        .with_unit(vec![10, 20, 30, 5, 25, 35]);
    let mmas = MMASbs::new(OneMax, 3, 2, &mut rng);
    // position i is set where the draw is below 15 * (i + 1)
    let strings = mmas.construct_all(&mut rng, &|step: usize, draw: u64| draw < 15 * (step as u64 + 1));
    assert_eq!(strings.len(), 2);
    assert_eq!(*strings[0].bits(), vec![true, true, true]);
    assert_eq!(*strings[1].bits(), vec![true, true, true]);
    let mut rng = MockRng::new()
        .with_random(vec![false, false, false])
        .with_unit(vec![20, 20, 50]);
    let mmas = MMASbs::new(OneMax, 3, 1, &mut rng);
    let string = mmas.construct(&mut rng, &|step: usize, draw: u64| draw < 15 * (step as u64 + 1));
    assert_eq!(*string.bits(), vec![false, true, false]);
}

#[test]
fn annealing_asks_the_rule_only_for_what_is_no_improvement() {
    let mut rng = MockRng::new()
        .with_random(vec![true, true, false, false])
        // a worse neighbour that is taken, a worse one that is not, a better one
        .with_range(vec![0, 1, 2])
        .with_bool(vec![true, false]);
    let mut sa = SimulatedAnnealing::new(4, SingleBitflip, OneMax, &mut rng);
    let rule = |difference: u64, iteration: u64| -> Option<u64> {
        assert_eq!(difference, 1);
        assert!(iteration < 2);
        Some(1 << 62)
    };
    sa.iterate(&mut rng, &rule);
    assert_eq!(sa.current_fitness(), 1);
    assert_eq!(*sa.state.current_solution.bits(), vec![false, true, false, false]);
    sa.iterate(&mut rng, &rule);
    assert_eq!(sa.current_fitness(), 1);
    assert_eq!(*sa.state.current_solution.bits(), vec![false, true, false, false]);
    sa.iterate(&mut rng, &rule);
    assert_eq!(sa.current_fitness(), 2);
    assert_eq!(*sa.state.current_solution.bits(), vec![false, true, true, false]);
    assert_eq!(sa.iterations(), 3);
}

#[test]
fn annealing_rejects_where_the_rule_gives_no_probability() {
    let mut rng = MockRng::new()
        .with_random(vec![true, true])
        .with_range(vec![0, 1]);
    let mut sa = SimulatedAnnealing::new(2, SingleBitflip, OneMax, &mut rng);
    sa.iterate(&mut rng, &|_difference: u64, _iteration: u64| -> Option<u64> { None });
    sa.iterate(&mut rng, &|_difference: u64, _iteration: u64| -> Option<u64> { None });
    assert_eq!(sa.iterations(), 2);
    assert_eq!(sa.current_fitness(), 2);
}

#[test]
fn annealing_at_temperature_zero_never_regresses() {
    let mut rng = Sampling(PcgRng::seed_from_u64(23));
    let mut sa = SimulatedAnnealing::new(30, SingleBitflip, OneMax, &mut rng);
    let mut last = sa.current_fitness();
    for _ in 0..3000 {
        sa.iterate(&mut rng, &|_difference: u64, _iteration: u64| -> Option<u64> { Some(0) });
        assert!(sa.current_fitness() >= last);
        last = sa.current_fitness();
    }
    assert_eq!(last, 30);
}

#[test]
fn annealing_with_certain_acceptance_takes_every_neighbour() {
    let mut rng = Sampling(PcgRng::seed_from_u64(29));
    let mut sa = SimulatedAnnealing::new(8, SingleBitflip, OneMax, &mut rng);
    let mut last = sa.current_fitness();
    for _ in 0..100 {
        sa.iterate(&mut rng, &|_difference: u64, _iteration: u64| -> Option<u64> { Some(u64::MAX) });
        // a single flip changes the count of ones by one
        assert!(sa.current_fitness() == last + 1 || sa.current_fitness() + 1 == last);
        last = sa.current_fitness();
    }
}

#[test]
fn three_opt_keeps_the_best_of_the_eight_reconnections() {
    // five cities on a line at 0, 1, 2, 3 and 4: the tour in order is optimal with length 8
    let line = |n: usize| -> Vec<Vec<u64>> {
        (0..n)
            .map(|i| (0..n).map(|j| if i > j { (i - j) as u64 } else { (j - i) as u64 }).collect())
            .collect()
    };
    let operator = ThreeOpt::new(TSP::new(line(5)));
    let tsp = TSP::new(line(5));
    // [0, 2, 1, 3, 4] has length 2 + 1 + 2 + 1 + 4 = 10
    let tour = Permutation::new(vec![0, 2, 1, 3, 4]);
    assert_eq!(tsp.evaluate(&tour), 10);
    let mut rng = MockRng::new().with_range(vec![0, 2, 4]);
    let made = operator.apply(&tour, &mut rng);
    assert!(made.is_valid());
    // reversing the stretch after cut 0 up to cut 2 gives the tour in order
    assert_eq!(*made.permutation(), vec![0, 1, 2, 3, 4]);
    assert_eq!(tsp.evaluate(&made), 8);
}

#[test]
fn three_opt_keeps_the_tour_where_no_reconnection_is_better() {
    let line: Vec<Vec<u64>> = (0..5usize)
        .map(|i| (0..5usize).map(|j| if i > j { (i - j) as u64 } else { (j - i) as u64 }).collect())
        .collect();
    let operator = ThreeOpt::new(TSP::new(line));
    let tour = Permutation::new(vec![0, 1, 2, 3, 4]);
    let mut rng = MockRng::new().with_range(vec![3, 3, 1, 3, 1, 4]);
    let made = operator.apply(&tour, &mut rng);
    assert_eq!(*made.permutation(), vec![0, 1, 2, 3, 4]);
}

#[test]
fn three_opt_never_makes_a_tour_worse() {
    let mut rng = Sampling(PcgRng::seed_from_u64(77));
    let operator = ThreeOpt::new(square());
    let tsp = square();
    let mut tour = Permutation::new_random(4, &mut rng);
    for _ in 0..200 {
        let made = operator.apply(&tour, &mut rng);
        assert!(made.is_valid());
        assert!(tsp.evaluate(&made) <= tsp.evaluate(&tour));
        tour = made;
    }
    assert_eq!(tsp.evaluate(&tour), 14);
}

#[test]
fn ea_with_three_opt_reaches_the_optimum() {
    let mut rng = Sampling(PcgRng::seed_from_u64(5));
    let mut ea = OnePlusOneEA::new(4, ThreeOpt::new(square()), square(), &mut rng);
    for _ in 0..50 {
        ea.iterate(&mut rng);
        assert!(ea.state.current_solution.is_valid());
    }
    assert_eq!(ea.current_fitness(), 14);
}

#[test]
fn on_no_nodes_the_tours_are_empty() {
    let tsp = TSP::new(vec![]);
    let graph: Vec<Vec<u64>> = vec![];
    let mut rng = MockRng::new();
    assert_eq!(MMAStsp::<TSP>::nearest_neighbor(&graph, 0).size(), 0);
    let mut mmas = MMAStsp::new(&graph, tsp, 0, 2, PheromoneUpdateStrategy::AllAnts, true, &mut rng);
    assert_eq!(mmas.current_fitness(), 0);
    let tours = mmas.construct_all(&mut rng, &|_current: usize, _candidates: &Vec<usize>, _draw: u64| 0);
    assert_eq!(tours.len(), 2);
    assert_eq!(tours[0].size(), 0);
    let deposits = mmas.complete_iteration(&tours);
    assert_eq!(deposits.len(), 2);
    assert_eq!(mmas.iterations(), 1);
}

#[test]
fn status_of_the_cores() {
    let mut rng = MockRng::new()
        .with_random(vec![true, false])
        .with_shuffle(vec![vec![1, 0, 2, 3]]);
    let sa = SimulatedAnnealing::new(2, SingleBitflip, OneMax, &mut rng);
    let status = sa.status_snapshot();
    assert_eq!(status.iterations, 0);
    assert_eq!(status.current_fitness, 1);
    assert_eq!(status.current_solution, "10");
    assert_eq!(*sa.current_solution().bits(), vec![true, false]);
    let graph = square().distances();
    let mmas = MMAStsp::new(&graph, square(), 4, 1, PheromoneUpdateStrategy::AllAnts, false, &mut rng);
    let status = mmas.status_snapshot();
    assert_eq!(status.current_solution, "1, 0, 2, 3");
    assert_eq!(status.current_fitness, mmas.current_fitness());
    assert!(!mmas.fitness_function().is_maximizing());
}

#[test]
fn offspring_reports_the_number_of_extra_moves() {
    let mut rng = MockRng::new()
        .with_shuffle(vec![vec![0, 1, 2, 3]])
        .with_poisson(vec![2])
        .with_range(vec![0, 1, 1, 2, 2, 3]);
    let ea = OnePlusOneEA::new(4, TwoOpt, square(), &mut rng);
    let (made, extra) = ea.offspring(&mut rng);
    assert_eq!(extra, 2);
    // each move reverses one position only, so the tour stays as it is
    assert_eq!(*made.permutation(), vec![0, 1, 2, 3]);
    assert_eq!(*ea.current_solution().permutation(), vec![0, 1, 2, 3]);
}

#[test]
fn a_generation_of_ants_on_tours_runs_its_steps_in_order() {
    let tsp = square();
    let graph = tsp.distances();
    let mut rng = MockRng::new()
        .with_shuffle(vec![vec![0, 2, 1, 3]])
        .with_range(vec![0, 1])
        .with_unit(vec![0, 0, 0, 2, 0, 0]);
    let mut mmas = MMAStsp::new(&graph, tsp, 4, 2, PheromoneUpdateStrategy::AllAnts, false, &mut rng);
    assert_eq!(mmas.current_fitness(), 18);
    let log: RefCell<Vec<String>> = RefCell::new(Vec::new());
    mmas.iterate(
        &mut rng,
        &|| log.borrow_mut().push("evaporate".to_string()),
        &|current: usize, candidates: &Vec<usize>, draw: u64| {
            log.borrow_mut().push(format!("choose after {} among {:?}", current, candidates));
            draw as usize
        },
        &|tour: &Permutation, length: u64| {
            log.borrow_mut().push(format!("deposit on {:?} of length {}", tour.permutation(), length))
        },
    );
    assert_eq!(
        *log.borrow(),
        vec![
            "evaporate",
            "choose after 0 among [1, 2, 3]",
            "choose after 1 among [2, 3]",
            "choose after 2 among [3]",
            "choose after 1 among [0, 2, 3]",
            "choose after 3 among [0, 2]",
            "choose after 0 among [2]",
            "deposit on [0, 1, 2, 3] of length 14",
            "deposit on [1, 3, 0, 2] of length 18",
        ]
    );
    assert_eq!(mmas.iterations(), 1);
    assert_eq!(mmas.current_fitness(), 14);
    assert_eq!(*mmas.current_solution().permutation(), vec![0, 1, 2, 3]);
}

#[test]
fn a_generation_of_ants_on_bits_hands_over_the_best_bits() {
    let mut rng = MockRng::new()
        .with_random(vec![false, false, false])
        .with_unit(vec![0, 9, 9, 0, 0, 9]);
    let mut mmas = MMASbs::new(OneMax, 3, 2, &mut rng);
    let handed: RefCell<Vec<Vec<bool>>> = RefCell::new(Vec::new());
    mmas.iterate(
        &mut rng,
        &|_step: usize, draw: u64| draw < 5,
        &|bits: &Vec<bool>| handed.borrow_mut().push(bits.clone()),
    );
    assert_eq!(mmas.iterations(), 1);
    assert_eq!(mmas.current_fitness(), 2);
    assert_eq!(*handed.borrow(), vec![vec![true, true, false]]);
}

#[test]
fn annealing_never_takes_at_probability_zero_and_always_at_certainty() {
    let mut rng = MockRng::new()
        .with_random(vec![true, true, true])
        .with_range(vec![0, 1, 2])
        // what the script says is read, and counts only between the two ends
        .with_bool(vec![true, false, true]);
    let mut sa = SimulatedAnnealing::new(3, SingleBitflip, OneMax, &mut rng);
    sa.iterate(&mut rng, &|_difference: u64, _iteration: u64| -> Option<u64> { Some(0) });
    assert_eq!(sa.current_fitness(), 3);
    sa.iterate(&mut rng, &|_difference: u64, _iteration: u64| -> Option<u64> { Some(u64::MAX) });
    assert_eq!(sa.current_fitness(), 2);
    assert_eq!(*sa.state.current_solution.bits(), vec![true, false, true]);
    sa.iterate(&mut rng, &|_difference: u64, _iteration: u64| -> Option<u64> { Some(1 << 40) });
    assert_eq!(sa.current_fitness(), 1);
    assert_eq!(*sa.state.current_solution.bits(), vec![true, false, false]);
    assert_eq!(sa.iterations(), 3);
}

/// Runs whatever algorithm it is given for some generations, and returns
/// the fitness after each.
fn drive<A: AlgorithmCore, R: MyRng>(algorithm: &mut A, rng: &mut R, generations: usize) -> Vec<u64> {
    let mut trace = Vec::new();
    for _ in 0..generations {
        algorithm.iterate(rng);
        trace.push(algorithm.current_fitness());
    }
    trace
}

#[test]
fn annealing_with_its_rule_runs_as_an_algorithm() {
    let mut rng = MockRng::new()
        .with_random(vec![true, true, false, false])
        .with_range(vec![0, 1, 2])
        .with_bool(vec![true, false]);
    let sa = SimulatedAnnealing::new(4, SingleBitflip, OneMax, &mut rng);
    let asked: RefCell<Vec<(u64, u64)>> = RefCell::new(Vec::new());
    let mut ruled = RuledAnnealing::new(sa, |difference: u64, iteration: u64| -> Option<u64> {
        asked.borrow_mut().push((difference, iteration));
        Some(1 << 62)
    });
    assert_eq!(drive(&mut ruled, &mut rng, 3), vec![1, 1, 2]);
    assert_eq!(*asked.borrow(), vec![(1, 0), (1, 1)]);
    assert_eq!(ruled.iterations(), 3);
    assert_eq!(*ruled.annealing().state.current_solution.bits(), vec![false, true, true, false]);
    let status = ruled.status_snapshot();
    assert_eq!(status.iterations, 3);
    assert_eq!(status.current_fitness, 2);
    assert_eq!(status.current_solution, "0110");
}

#[test]
fn frozen_annealing_as_an_algorithm_never_regresses() {
    let mut rng = Sampling(PcgRng::seed_from_u64(41));
    let sa = SimulatedAnnealing::new(20, SingleBitflip, OneMax, &mut rng);
    let start = sa.current_fitness();
    let mut ruled = RuledAnnealing::new(sa, |_difference: u64, _iteration: u64| -> Option<u64> { Some(0) });
    let trace = drive(&mut ruled, &mut rng, 2000);
    let mut last = start;
    for fitness in trace {
        assert!(fitness >= last);
        last = fitness;
    }
    assert_eq!(last, 20);
}

#[test]
fn ants_on_tours_with_their_parts_run_as_an_algorithm() {
    let tsp = square();
    let graph = tsp.distances();
    let mut rng = MockRng::new()
        .with_shuffle(vec![vec![0, 2, 1, 3]])
        .with_range(vec![0, 1])
        .with_unit(vec![0, 0, 0, 2, 0, 0]);
    let mmas = MMAStsp::new(&graph, tsp, 4, 2, PheromoneUpdateStrategy::GenerationBest, false, &mut rng);
    let log: RefCell<Vec<String>> = RefCell::new(Vec::new());
    let mut ruled = RuledMMAStsp::new(
        mmas,
        || log.borrow_mut().push("evaporate".to_string()),
        |_current: usize, _candidates: &Vec<usize>, draw: u64| draw as usize,
        |tour: &Permutation, length: u64| {
            log.borrow_mut().push(format!("deposit on {:?} of length {}", tour.permutation(), length))
        },
    );
    assert_eq!(drive(&mut ruled, &mut rng, 1), vec![14]);
    assert_eq!(*log.borrow(), vec!["evaporate", "deposit on [0, 1, 2, 3] of length 14"]);
    assert_eq!(ruled.iterations(), 1);
    assert_eq!(*ruled.colony().current_solution().permutation(), vec![0, 1, 2, 3]);
    assert_eq!(ruled.status_snapshot().current_fitness, 14);
}

#[test]
fn ants_on_bits_with_their_parts_run_as_an_algorithm() {
    let mut rng = MockRng::new()
        .with_random(vec![false, false, false])
        .with_unit(vec![0, 9, 9, 0, 0, 9, 0, 0, 0, 9, 9, 9]);
    let mmas = MMASbs::new(OneMax, 3, 2, &mut rng);
    let handed: RefCell<Vec<Vec<bool>>> = RefCell::new(Vec::new());
    let mut ruled = RuledMMASbs::new(
        mmas,
        |_step: usize, draw: u64| draw < 5,
        |bits: &Vec<bool>| handed.borrow_mut().push(bits.clone()),
    );
    assert_eq!(drive(&mut ruled, &mut rng, 2), vec![2, 3]);
    assert_eq!(*handed.borrow(), vec![vec![true, true, false], vec![true, true, true]]);
    assert_eq!(ruled.iterations(), 2);
    assert_eq!(*ruled.colony().current_solution().bits(), vec![true, true, true]);
    assert_eq!(ruled.status_snapshot().current_solution, "111");
}

#[test]
fn every_algorithm_is_driven_the_same_way() {
    let mut rng = Sampling(PcgRng::seed_from_u64(77));
    let mut ea = OnePlusOneEA::new(12, Bitflip, OneMax, &mut rng);
    let trace = drive(&mut ea, &mut rng, 500);
    assert_eq!(trace.len(), 500);
    assert_eq!(ea.iterations(), 500);
    assert_eq!(*trace.last().unwrap(), 12);

    let colony = MMASbs::new(LeadingOnes, 6, 3, &mut rng);
    let start = colony.current_fitness();
    let mut ants = RuledMMASbs::new(colony, |_step: usize, draw: u64| draw < UNIT / 2, |_bits: &Vec<bool>| ());
    let trace = drive(&mut ants, &mut rng, 300);
    let mut last = start;
    for fitness in trace {
        assert!(fitness >= last);
        last = fitness;
    }
    assert_eq!(ants.iterations(), 300);
}

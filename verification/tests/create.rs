use eas::algorithms::mmas::PheromoneUpdateStrategy;
use eas::create::{
    create_aco_runner, create_oneplusone_runner, create_sa_runner, map_strategy, CreateError,
    Problem, Runner, UpdateStrategy,
};
use eas::rng::MockRng;
use eas::schedule::{after_iteration, is_acceptable, Progress};

const SQUARE: &str = "NODE_COORD_SECTION\n1 0 0\n2 0 3\n3 4 3\n4 4 0\nEOF\n";

fn tour_problem(text: &str) -> Problem {
    Problem::TSP {
        tsp_instance: text.to_string(),
        tsp_name: "square".to_string(),
    }
}

#[test]
fn strategies_map_by_name() {
    assert_eq!(map_strategy(UpdateStrategy::BestSoFar), PheromoneUpdateStrategy::BestSoFar);
    assert_eq!(
        map_strategy(UpdateStrategy::GenerationBest),
        PheromoneUpdateStrategy::GenerationBest
    );
    assert_eq!(map_strategy(UpdateStrategy::AllAnts), PheromoneUpdateStrategy::AllAnts);
}

#[test]
fn one_plus_one_is_made_for_each_problem() {
    let mut rng = MockRng::new()
        .with_random(vec![true, false, true, true, true, false])
        .with_shuffle(vec![vec![0, 1, 2, 3]]);
    let made = create_oneplusone_runner(&Problem::OneMax { bitstring_size: 3 }, &mut rng).unwrap();
    assert!(matches!(made, Runner::OnePlusOneOneMax(_)));
    assert_eq!(made.iterations(), 0);
    assert_eq!(made.current_fitness(), 2);
    assert_eq!(made.status_snapshot().current_solution, "101");
    let made = create_oneplusone_runner(&Problem::LeadingOnes { bitstring_size: 3 }, &mut rng).unwrap();
    assert!(matches!(made, Runner::OnePlusOneLeadingOnes(_)));
    assert_eq!(made.current_fitness(), 2);
    let made = create_oneplusone_runner(&tour_problem(SQUARE), &mut rng).unwrap();
    assert!(matches!(made, Runner::OnePlusOneTSPTwoOpt(_)));
    // around the 3 by 4 rectangle
    assert_eq!(made.current_fitness(), 14);
    let status = made.status_snapshot();
    assert_eq!(status.iterations, 0);
    assert_eq!(status.current_fitness, 14);
    assert_eq!(status.current_solution, "0, 1, 2, 3");
}

#[test]
fn annealing_is_made_for_each_problem() {
    let mut rng = MockRng::new()
        .with_random(vec![true, true, true, false])
        .with_shuffle(vec![vec![0, 2, 1, 3]]);
    let made = create_sa_runner(&Problem::OneMax { bitstring_size: 2 }, &mut rng).unwrap();
    assert!(matches!(made, Runner::AnnealingOneMax(_)));
    assert_eq!(made.current_fitness(), 2);
    let made = create_sa_runner(&Problem::LeadingOnes { bitstring_size: 2 }, &mut rng).unwrap();
    assert!(matches!(made, Runner::AnnealingLeadingOnes(_)));
    assert_eq!(made.current_fitness(), 1);
    let made = create_sa_runner(&tour_problem(SQUARE), &mut rng).unwrap();
    assert!(matches!(made, Runner::AnnealingTSPTwoOpt(_)));
    // the diagonals are 5 long: 5 + 4 + 5 + 4
    assert_eq!(made.current_fitness(), 18);
}

#[test]
fn ants_are_made_for_each_problem() {
    let mut rng = MockRng::new().with_random(vec![false, true, false]);
    let made = create_aco_runner(
        &Problem::OneMax { bitstring_size: 3 },
        7,
        false,
        UpdateStrategy::AllAnts,
        &mut rng,
    )
    .unwrap();
    match &made {
        Runner::AntsOneMax(mmas) => {
            assert_eq!(mmas.ants(), 7);
            assert_eq!(mmas.size(), 3);
        }
        _ => panic!("the ant system on bits was asked for"),
    }
    assert_eq!(made.current_fitness(), 1);
    let made = create_aco_runner(&tour_problem(SQUARE), 5, true, UpdateStrategy::GenerationBest, &mut rng)
        .unwrap();
    match &made {
        Runner::AntsTSP(mmas) => {
            assert_eq!(mmas.ants(), 5);
            assert_eq!(mmas.size(), 4);
            assert_eq!(mmas.update_strategy(), PheromoneUpdateStrategy::GenerationBest);
            // nearest neighbour from city 0: 1 (3 away), 2, 3, and 0 is named last
            assert_eq!(*mmas.current_solution().permutation(), vec![1, 2, 3, 0]);
        }
        _ => panic!("the ant system on tours was asked for"),
    }
    assert_eq!(made.current_fitness(), 14);
}

#[test]
fn an_instance_that_cannot_be_read_is_refused() {
    let mut rng = MockRng::new();
    let broken = tour_problem("NODE_COORD_SECTION\n1 0 0\n2 zero 3\nEOF\n");
    assert_eq!(create_oneplusone_runner(&broken, &mut rng).err(), Some(CreateError::InvalidTSP));
    assert_eq!(create_sa_runner(&broken, &mut rng).err(), Some(CreateError::InvalidTSP));
    assert_eq!(
        create_aco_runner(&broken, 3, true, UpdateStrategy::BestSoFar, &mut rng).err(),
        Some(CreateError::InvalidTSP)
    );
    let headless = tour_problem("1 0 0\n2 0 3\nEOF\n");
    assert_eq!(create_oneplusone_runner(&headless, &mut rng).err(), Some(CreateError::InvalidTSP));
}

#[test]
fn schedules_are_accepted_within_their_bounds() {
    assert!(is_acceptable(1, 1000, 1));
    assert!(is_acceptable(100, 100000, 3));
    assert!(!is_acceptable(0, 1000, 1));
    assert!(!is_acceptable(101, 1000, 1));
    assert!(!is_acceptable(1, 999, 1));
    assert!(!is_acceptable(1, 100001, 1));
    assert!(!is_acceptable(1, 1000, 0));
}

#[test]
fn a_task_ends_at_its_last_generation_or_at_the_fitness_asked_for() {
    assert_eq!(after_iteration(10, 10, 5, None, 1000), Progress::Finished);
    assert_eq!(after_iteration(11, 10, 5, None, 1000), Progress::Finished);
    assert_eq!(after_iteration(3, 10, 5, Some(5), 1000), Progress::Finished);
    assert_eq!(after_iteration(3, 10, 5, Some(6), 1000), Progress::Continue);
    assert_eq!(after_iteration(3, 10, 5, None, 1000), Progress::Continue);
}

#[test]
fn a_task_reports_at_its_update_rate() {
    assert_eq!(after_iteration(2000, 5000, 5, None, 1000), Progress::Report);
    assert_eq!(after_iteration(2001, 5000, 5, None, 1000), Progress::Continue);
    assert_eq!(after_iteration(1999, 5000, 5, Some(9), 1000), Progress::Continue);
    // the end comes before the report
    assert_eq!(after_iteration(5000, 5000, 5, None, 1000), Progress::Finished);
}

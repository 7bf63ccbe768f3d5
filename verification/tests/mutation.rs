use eas::mutation::{two_opt, Bitflip, Mutation, NaiveBitflip, SingleBitflip, TwoOpt};
use eas::rng::MockRng;
use eas::search_space::{Bitstring, Permutation};

fn bitstring_to_bools(s: &str) -> Vec<bool> {
    s.chars()
        .map(|c| match c {
            '0' => false,
            '1' => true,
            _ => panic!("invalid character: {}", c),
        })
        .collect()
}

#[test]
fn test_naive_bitflip() {
    // (input, flips, expected)
    let testcases = vec![
        ("00000000", "10001001", "10001001"),
        ("1001010110", "1111111111", "0110101001"),
        ("101010110101010", "000000000000000", "101010110101010"),
    ];

    for t in testcases {
        let bitstring = Bitstring::from_bitstring(t.0).unwrap();
        let mut mock_rng = MockRng::new_ratio(bitstring_to_bools(t.1));
        let got = NaiveBitflip.apply(&bitstring, &mut mock_rng);
        assert_eq!(*got.bits(), bitstring_to_bools(t.2))
    }
}

#[test]
fn mutation_test_naive_bitflip() {
    let testcases = vec![
        ("00000000", "10001001", "10001001"),
        ("1001010110", "1111111111", "0110101001"),
        ("101010110101010", "000000000000000", "101010110101010"),
    ];

    for t in testcases {
        let bitstring = Bitstring::from_bitstring(t.0).unwrap();
        let mut mock_rng = MockRng::new_ratio(bitstring_to_bools(t.1));
        let got = NaiveBitflip::apply(&NaiveBitflip, &bitstring, &mut mock_rng);
        assert_eq!(*got.bits(), bitstring_to_bools(t.2))
    }
}

#[test]
fn test_bitflip() {
    // (input, [flip distance(s)], expected)
    let testcases = vec![
        ("0000000000", vec![4, 10], "0000100000"),
        ("0000000000", vec![1, 2, 10], "0100100000"),
        ("0000000000", vec![0, 0, 0, 10], "1110000000"),
        ("0000000000", vec![10], "0000000000"),
    ];

    for t in testcases {
        let bitstring = Bitstring::from_bitstring(t.0).unwrap();
        let mut mock_rng = MockRng::new_geometric(t.1);
        let got = Bitflip.apply(&bitstring, &mut mock_rng);
        assert_eq!(*got.bits(), bitstring_to_bools(t.2))
    }
}

#[test]
fn mutation_test_bitflip() {
    let testcases = vec![
        ("0000000000", vec![4, 10], "0000100000"),
        ("0000000000", vec![1, 2, 10], "0100100000"),
        ("0000000000", vec![0, 0, 0, 10], "1110000000"),
        ("0000000000", vec![10], "0000000000"),
    ];

    for t in testcases {
        let bitstring = Bitstring::from_bitstring(t.0).unwrap();
        let mut mock_rng = MockRng::new_geometric(t.1);
        let got = Bitflip.apply(&bitstring, &mut mock_rng);
        assert_eq!(*got.bits(), bitstring_to_bools(t.2))
    }
}

#[test]
fn test_single_bitflip() {
    // (input, flip, expected)
    let testcases = vec![
        ("00000000", 7, "00000001"),
        ("1001010110", 3, "1000010110"),
        ("101010110101010", 0, "001010110101010"),
    ];

    for t in testcases {
        let bitstring = Bitstring::from_bitstring(t.0).unwrap();
        let mut mock_rng = MockRng::new_range(vec![t.1]);
        let got = SingleBitflip.apply(&bitstring, &mut mock_rng);
        assert_eq!(*got.bits(), bitstring_to_bools(t.2))
    }
}

#[test]
fn test_two_opt() {
    let initial = Permutation::new(vec![0, 1, 4, 3, 2, 5, 6, 7]);
    let mut mock_rng = MockRng::new_range(vec![1, 4]);
    let result = TwoOpt.apply(&initial, &mut mock_rng);
    assert_eq!(*result.permutation(), vec![0, 1, 2, 3, 4, 5, 6, 7])
}

#[test]
fn mutation_test_two_opt() {
    let initial = Permutation::new(vec![0, 1, 4, 3, 2, 5, 6, 7]);
    let mut mock_rng = MockRng::new_range(vec![1, 4]);
    let result = TwoOpt::apply(&TwoOpt, &initial, &mut mock_rng);
    assert_eq!(*result.permutation(), vec![0, 1, 2, 3, 4, 5, 6, 7])
}

#[test]
fn two_opt_takes_the_cut_points_in_either_order() {
    let tour = vec![0, 1, 4, 3, 2, 5, 6, 7];
    assert_eq!(two_opt(&tour, 1, 4), vec![0, 1, 2, 3, 4, 5, 6, 7]);
    assert_eq!(two_opt(&tour, 4, 1), vec![0, 1, 2, 3, 4, 5, 6, 7]);
}

#[test]
fn two_opt_at_the_ends_keeps_the_first_city() {
    let tour = vec![3, 0, 2, 1];
    assert_eq!(two_opt(&tour, 0, 3), vec![3, 1, 2, 0]);
    assert_eq!(two_opt(&tour, 2, 3), vec![3, 0, 2, 1]);
    assert_eq!(two_opt(&tour, 1, 3), vec![3, 0, 1, 2]);
}

#[test]
fn two_opt_draws_again_when_the_second_cut_equals_the_first() {
    let initial = Permutation::new(vec![0, 1, 4, 3, 2, 5, 6, 7]);
    let mut mock_rng = MockRng::new_range(vec![1, 1, 1, 4]);
    let result = TwoOpt.apply(&initial, &mut mock_rng);
    assert_eq!(*result.permutation(), vec![0, 1, 2, 3, 4, 5, 6, 7]);
}

#[test]
fn two_opt_result_is_a_permutation() {
    let initial = Permutation::new(vec![5, 3, 0, 4, 1, 2]);
    let mut mock_rng = MockRng::new_range(vec![5, 0]);
    let result = TwoOpt.apply(&initial, &mut mock_rng);
    assert!(result.is_valid());
    assert_eq!(*result.permutation(), vec![5, 2, 1, 4, 0, 3]);
}

#[test]
fn bitflip_is_a_function_of_the_script() {
    let bitstring = Bitstring::from_bitstring("0000000000").unwrap();
    let first = Bitflip.apply(&bitstring, &mut MockRng::new_geometric(vec![4, 10]));
    let second = Bitflip.apply(&bitstring, &mut MockRng::new_geometric(vec![4, 10]));
    assert_eq!(*first.bits(), bitstring_to_bools("0000100000"));
    assert_eq!(*first.bits(), *second.bits());
}

#[test]
fn bitflip_stops_at_a_gap_that_does_not_fit_in_the_string() {
    let bitstring = Bitstring::from_bitstring("0000").unwrap();
    let got = Bitflip.apply(&bitstring, &mut MockRng::new_geometric(vec![3, u64::MAX]));
    assert_eq!(*got.bits(), bitstring_to_bools("0001"));
}

#[test]
fn bit_operators_repeat_zero_times() {
    let mut rng = MockRng::new();
    assert_eq!(Mutation::<Bitstring>::repeats(&Bitflip, &mut rng), 0);
    assert_eq!(Mutation::<Bitstring>::repeats(&NaiveBitflip, &mut rng), 0);
    assert_eq!(Mutation::<Bitstring>::repeats(&SingleBitflip, &mut rng), 0);
}

#[test]
fn two_opt_repeats_by_the_poisson_draw() {
    let mut rng = MockRng::new().with_poisson(vec![3, 0]);
    assert_eq!(TwoOpt.repeats(&mut rng), 3);
    assert_eq!(TwoOpt.repeats(&mut rng), 0);
}

#[test]
fn operators_leave_tiny_candidates_as_they_are() {
    let mut rng = MockRng::new();
    let empty = Bitstring::new(vec![]);
    assert_eq!(SingleBitflip.apply(&empty, &mut rng).bits().len(), 0);
    assert_eq!(NaiveBitflip.apply(&empty, &mut rng).bits().len(), 0);
    let none = Permutation::new(vec![]);
    assert_eq!(*TwoOpt.apply(&none, &mut rng).permutation(), Vec::<usize>::new());
    let one = Permutation::new(vec![0]);
    assert_eq!(*TwoOpt.apply(&one, &mut rng).permutation(), vec![0]);
}

#[test]
fn bitflip_on_the_empty_string_reads_one_gap() {
    let mut rng = MockRng::new_geometric(vec![0, 5]);
    let empty = Bitstring::new(vec![]);
    assert_eq!(Bitflip.apply(&empty, &mut rng).bits().len(), 0);
    let one = Bitstring::new(vec![false]);
    assert_eq!(*Bitflip.apply(&one, &mut rng).bits(), vec![false]);
}

#[test]
fn naive_bitflip_inverts_a_single_bit_for_sure() {
    let mut rng = MockRng::new_ratio(vec![true]);
    let one = Bitstring::new(vec![true]);
    assert_eq!(*NaiveBitflip.apply(&one, &mut rng).bits(), vec![false]);
}

#[test]
fn two_opt_falls_back_to_a_free_position_after_too_many_equal_draws() {
    let initial = Permutation::new(vec![0, 1, 4, 3, 2, 5, 6, 7]);
    let mut script = vec![1];
    script.extend(std::iter::repeat(1).take(64));
    // the draw among the seven other positions: 3 stands for position 4
    script.push(3);
    let mut mock_rng = MockRng::new_range(script);
    let result = TwoOpt.apply(&initial, &mut mock_rng);
    assert_eq!(*result.permutation(), vec![0, 1, 2, 3, 4, 5, 6, 7]);
}

#[test]
fn naive_bitflip_replays_the_script_on_a_single_bit() {
    let one = Bitstring::new(vec![true]);
    let mut rng = MockRng::new_ratio(vec![false, true]);
    assert_eq!(*NaiveBitflip.apply(&one, &mut rng).bits(), vec![true]);
    assert_eq!(*NaiveBitflip.apply(&one, &mut rng).bits(), vec![false]);
}

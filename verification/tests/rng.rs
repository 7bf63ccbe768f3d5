use eas::rng::{unit_of_bits, MockRng, MyRng, PcgRng, Script, UniformRng, UNIT};
use eas::search_space::{Bitstring, Permutation, SearchSpace};
use rand::seq::SliceRandom;
use rand::{Rng, SeedableRng};
use rand_pcg::Pcg64;
use std::ops::Range;

/// The samples that need real numbers, on top of any source of uniform
/// draws.
struct Sampling<U: UniformRng>(U);

impl<U: UniformRng> UniformRng for Sampling<U> {
    fn script(&self) -> Option<Script> {
        None
    }

    fn random(&mut self) -> bool {
        self.0.random()
    }

    fn random_bool(&mut self, threshold: u64) -> bool {
        self.0.random_bool(threshold)
    }

    fn random_ratio(&mut self, numerator: u32, denominator: u32) -> bool {
        self.0.random_ratio(numerator, denominator)
    }

    fn random_range(&mut self, range: Range<usize>) -> usize {
        self.0.random_range(range)
    }

    fn random_unit(&mut self) -> u64 {
        self.0.random_unit()
    }

    fn shuffle_vec(&mut self, v: &mut Vec<usize>) {
        self.0.shuffle_vec(v)
    }
}

impl<U: UniformRng> MyRng for Sampling<U> {
    fn sample_geometric(&mut self, numerator: usize, denominator: usize) -> u64 {
        let p = numerator as f64 / denominator as f64;
        let u = self.0.random_unit() as f64 / UNIT as f64;
        (u.log2() / (1.0 - p).log2()).floor() as u64
    }

    fn sample_poisson(&mut self) -> u64 {
        let l = (-1.0_f64).exp();
        let mut k = 0;
        let mut p = 1.0;
        loop {
            p *= self.0.random_unit() as f64 / UNIT as f64;
            if p < l {
                return k;
            }
            k += 1;
        }
    }
}

#[test]
fn mock_replays_each_script_in_order() {
    let mut rng = MockRng::new()
        .with_random(vec![true, false])
        .with_bool(vec![false, true])
        .with_ratio(vec![false, true])
        .with_range(vec![3, 1])
        .with_unit(vec![5, 6])
        .with_geometric(vec![7])
        .with_poisson(vec![2]);
    assert!(rng.random());
    assert!(!rng.random_bool(1 << 63));
    assert!(!rng.random_ratio(1, 2));
    assert_eq!(rng.random_range(0..4), 3);
    assert_eq!(rng.random_unit(), 5);
    assert_eq!(rng.sample_geometric(1, 10), 7);
    assert_eq!(rng.sample_poisson(), 2);
    assert!(!rng.random());
    assert!(rng.random_bool(1 << 63));
    assert!(rng.random_ratio(1, 2));
    assert_eq!(rng.random_range(0..4), 1);
    assert_eq!(rng.random_unit(), 6);
}

#[test]
fn mock_shuffle_applies_the_scripted_arrangement() {
    let mut rng = MockRng::new().with_shuffle(vec![vec![2, 0, 1]]);
    let mut v = vec![10, 20, 30];
    rng.shuffle_vec(&mut v);
    assert_eq!(v, vec![30, 10, 20]);
}

#[test]
fn default_mock_holds_no_script() {
    let rng = MockRng::default();
    let _ = rng;
}

#[test]
fn random_bitstring_takes_its_bits_from_the_script() {
    let mut rng = MockRng::new().with_random(vec![true, false, true, true]);
    let b = Bitstring::new_random(3, &mut rng);
    assert_eq!(*b.bits(), vec![true, false, true]);
    assert_eq!(b.size(), 3);
    assert!(rng.random());
}

#[test]
fn random_permutation_is_the_scripted_arrangement() {
    let mut rng = MockRng::new().with_shuffle(vec![vec![2, 0, 3, 1]]);
    let p = Permutation::new_random(4, &mut rng);
    assert_eq!(*p.permutation(), vec![2, 0, 3, 1]);
    assert!(p.is_valid());
}

#[test]
fn random_candidates_from_a_generator_are_valid() {
    let mut rng = PcgRng::seed_from_u64(7);
    for n in 0..20 {
        let p = Permutation::new_random(n, &mut rng);
        assert_eq!(p.size(), n);
        assert!(p.is_valid());
        let b = Bitstring::new_random(n, &mut rng);
        assert_eq!(b.size(), n);
    }
}

#[test]
fn generator_is_determined_by_its_seed() {
    let mut a = PcgRng::seed_from_u64(99);
    let mut b = PcgRng::seed_from_u64(99);
    let mut c = PcgRng::seed_from_u64(100);
    let mut differs = false;
    for _ in 0..50 {
        let x = a.random_unit();
        assert_eq!(x, b.random_unit());
        differs |= x != c.random_unit();
    }
    assert!(differs);
}

#[test]
fn generator_draws_what_the_seeded_pcg_draws() {
    let mut ours = PcgRng::seed_from_u64(2024);
    let mut theirs = Pcg64::seed_from_u64(2024);
    for round in 0..200usize {
        assert_eq!(ours.random(), theirs.random::<bool>());
        assert_eq!(ours.random_range(3..round + 10), theirs.random_range(3..round + 10));
        assert_eq!(ours.random_ratio(1, 7), theirs.random_ratio(1, 7));
        let mut a: Vec<usize> = (0..round % 17).collect();
        let mut b = a.clone();
        ours.shuffle_vec(&mut a);
        b.shuffle(&mut theirs);
        assert_eq!(a, b);
    }
}

#[test]
fn unit_draw_is_the_float_draw_from_the_unit_interval() {
    let mut ours = PcgRng::seed_from_u64(5);
    let mut theirs = Pcg64::seed_from_u64(5);
    for _ in 0..1000 {
        let k = ours.random_unit();
        assert!(k < UNIT);
        let x: f64 = theirs.random_range(0.0..1.0);
        assert_eq!(k as f64 / UNIT as f64, x);
    }
}

#[test]
fn chance_draw_is_the_bernoulli_draw() {
    let scale = 2.0 * (1u64 << 63) as f64;
    let mut ours = PcgRng::seed_from_u64(31);
    let mut theirs = Pcg64::seed_from_u64(31);
    for p in [0.0, 1.0, 0.5, 0.25, 0.9, 0.001, 0.999999, 1e-12, 0.3333333333333333] {
        let threshold = (p * scale) as u64;
        for _ in 0..200 {
            assert_eq!(ours.random_bool(threshold), theirs.random_bool(p));
        }
    }
}

#[test]
fn certainty_and_impossibility_draw_as_they_must() {
    let mut rng = PcgRng::seed_from_u64(1);
    for _ in 0..100 {
        assert!(rng.random_bool(u64::MAX));
        assert!(!rng.random_bool(0));
        assert!(rng.random_ratio(5, 5));
        assert!(!rng.random_ratio(0, 5));
    }
}

#[test]
fn range_draws_stay_in_the_range() {
    let mut rng = PcgRng::seed_from_u64(8);
    for _ in 0..1000 {
        let x = rng.random_range(10..13);
        assert!((10..13).contains(&x));
    }
    assert_eq!(rng.random_range(4..5), 4);
}

#[test]
fn shuffle_keeps_the_items() {
    let mut rng = PcgRng::seed_from_u64(3);
    let mut v: Vec<usize> = vec![5, 5, 1, 9, 0, 2];
    rng.shuffle_vec(&mut v);
    v.sort();
    assert_eq!(v, vec![0, 1, 2, 5, 5, 9]);
}

#[test]
fn samples_on_top_of_the_generator() {
    let mut rng = Sampling(PcgRng::seed_from_u64(17));
    let mut total = 0;
    for _ in 0..2000 {
        total += rng.sample_poisson();
    }
    // mean 1
    assert!(total > 1700 && total < 2300);
    let mut total = 0;
    for _ in 0..2000 {
        total += rng.sample_geometric(1, 4);
    }
    // mean (1 - p) / p = 3
    assert!(total > 5000 && total < 7000);
    assert_eq!(rng.sample_geometric(1, 1), 0);
}

#[test]
fn unit_of_bits_takes_the_upper_bits() {
    assert_eq!(unit_of_bits(0), 0);
    assert_eq!(unit_of_bits(4095), 0);
    assert_eq!(unit_of_bits(4096), 1);
    assert_eq!(unit_of_bits(8191), 1);
    assert_eq!(unit_of_bits(1 << 63), UNIT / 2);
    assert_eq!(unit_of_bits(u64::MAX), UNIT - 1);
}

#[test]
fn mock_replays_any_value_at_any_probability() {
    let mut rng = MockRng::new()
        .with_bool(vec![true, false])
        .with_ratio(vec![true, false]);
    assert!(rng.random_bool(0));
    assert!(!rng.random_bool(u64::MAX));
    assert!(rng.random_ratio(0, 5));
    assert!(!rng.random_ratio(5, 5));
}

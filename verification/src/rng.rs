//! The randomness that the operators and algorithms draw from.
//!
//! Every draw goes through [`UniformRng`] and [`MyRng`]. A source either
//! never runs dry, or it replays a script: a fixed sequence of values for
//! each primitive. The contracts describe a scripted source exactly, and say
//! of any other source what holds of every outcome.
//!
//! Probabilities and draws from the unit interval are passed as whole
//! numbers: a probability as its numerator over 2^64, a draw from `[0, 1)`
//! as its numerator over 2^52.

use std::ops::Range;
use vstd::prelude::*;

verus! {

/// The values that a scripted source still holds, one sequence per primitive.
pub struct Script {
    pub coins: Seq<bool>,
    pub chances: Seq<bool>,
    pub ratios: Seq<bool>,
    pub ranges: Seq<usize>,
    pub units: Seq<u64>,
    pub geometrics: Seq<u64>,
    pub poissons: Seq<u64>,
    pub shuffles: Seq<Seq<usize>>,
}

impl Script {
    /// The script that holds nothing.
    pub open spec fn empty() -> Script {
        Script {
            coins: Seq::empty(),
            chances: Seq::empty(),
            ratios: Seq::empty(),
            ranges: Seq::empty(),
            units: Seq::empty(),
            geometrics: Seq::empty(),
            poissons: Seq::empty(),
            shuffles: Seq::empty(),
        }
    }

    pub open spec fn skip_coins(self, n: int) -> Script {
        Script { coins: self.coins.skip(n), ..self }
    }

    pub open spec fn skip_chances(self, n: int) -> Script {
        Script { chances: self.chances.skip(n), ..self }
    }

    pub open spec fn skip_ratios(self, n: int) -> Script {
        Script { ratios: self.ratios.skip(n), ..self }
    }

    pub open spec fn skip_ranges(self, n: int) -> Script {
        Script { ranges: self.ranges.skip(n), ..self }
    }

    pub open spec fn skip_units(self, n: int) -> Script {
        Script { units: self.units.skip(n), ..self }
    }

    pub open spec fn skip_geometrics(self, n: int) -> Script {
        Script { geometrics: self.geometrics.skip(n), ..self }
    }

    pub open spec fn skip_poissons(self, n: int) -> Script {
        Script { poissons: self.poissons.skip(n), ..self }
    }

    pub open spec fn skip_shuffles(self, n: int) -> Script {
        Script { shuffles: self.shuffles.skip(n), ..self }
    }
}

/// `p` lists every index below `n` exactly once.
pub open spec fn is_arrangement(p: Seq<usize>, n: nat) -> bool {
    &&& p.len() == n
    &&& forall|i: int| 0 <= i < p.len() ==> (#[trigger] p[i]) < n
    &&& forall|i: int, j: int| 0 <= i < j < p.len() ==> p[i] != p[j]
}

/// The sequence whose `i`-th item is the `p[i]`-th item of `s`.
pub open spec fn rearranged(s: Seq<usize>, p: Seq<usize>) -> Seq<usize> {
    Seq::new(p.len(), |i: int| s[p[i] as int])
}

/// The denominator of a draw from the unit interval: 2^52.
pub const UNIT: u64 = 4_503_599_627_370_496;

/// The uniform draws.
pub trait UniformRng {
    /// What is left of the script, or `None` for a source that never runs dry.
    spec fn script(&self) -> Option<Script>;

    /// A fair coin.
    fn random(&mut self) -> (r: bool)
        requires
            old(self).script() matches Some(s) ==> s.coins.len() > 0,
        ensures
            match old(self).script() {
                Some(s) => r == s.coins[0] && final(self).script() == Some(s.skip_coins(1)),
                None => final(self).script() is None,
            },
    ;

    /// `true` with probability `threshold / 2^64`; the threshold `u64::MAX`
    /// stands for certainty. A script is replayed whatever the threshold.
    fn random_bool(&mut self, threshold: u64) -> (r: bool)
        requires
            old(self).script() matches Some(s) ==> s.chances.len() > 0,
        ensures
            old(self).script() is None && threshold == 0 ==> !r,
            old(self).script() is None && threshold == u64::MAX ==> r,
            match old(self).script() {
                Some(s) => r == s.chances[0] && final(self).script() == Some(s.skip_chances(1)),
                None => final(self).script() is None,
            },
    ;

    /// `true` with probability `numerator / denominator`. A script is
    /// replayed whatever the ratio.
    fn random_ratio(&mut self, numerator: u32, denominator: u32) -> (r: bool)
        requires
            0 < denominator,
            numerator <= denominator,
            old(self).script() matches Some(s) ==> s.ratios.len() > 0,
        ensures
            old(self).script() is None && numerator == 0 ==> !r,
            old(self).script() is None && numerator == denominator ==> r,
            match old(self).script() {
                Some(s) => r == s.ratios[0] && final(self).script() == Some(s.skip_ratios(1)),
                None => final(self).script() is None,
            },
    ;

    /// A position drawn uniformly from `range`. A script has to hold a value
    /// inside the range next.
    fn random_range(&mut self, range: Range<usize>) -> (r: usize)
        requires
            range.start < range.end,
            old(self).script() matches Some(s) ==> s.ranges.len() > 0 && range.start
                <= s.ranges[0] < range.end,
        ensures
            range.start <= r < range.end,
            match old(self).script() {
                Some(s) => r == s.ranges[0] && final(self).script() == Some(s.skip_ranges(1)),
                None => final(self).script() is None,
            },
    ;

    /// A draw from the unit interval `[0, 1)`, as its numerator over `UNIT`.
    /// A script has to hold a value below `UNIT` next.
    fn random_unit(&mut self) -> (r: u64)
        requires
            old(self).script() matches Some(s) ==> s.units.len() > 0 && s.units[0] < UNIT,
        ensures
            r < UNIT,
            match old(self).script() {
                Some(s) => r == s.units[0] && final(self).script() == Some(s.skip_units(1)),
                None => final(self).script() is None,
            },
    ;

    /// Reorders `v` in place. A script holds the arrangement to apply: the
    /// item that ends at position `i` is the one that stood at position
    /// `arrangement[i]`.
    fn shuffle_vec(&mut self, v: &mut Vec<usize>)
        requires
            old(self).script() matches Some(s) ==> s.shuffles.len() > 0 && is_arrangement(
                s.shuffles[0],
                old(v)@.len(),
            ),
        ensures
            exists|p: Seq<usize>| #[trigger]
                is_arrangement(p, old(v)@.len()) && final(v)@ == rearranged(old(v)@, p),
            match old(self).script() {
                Some(s) => final(v)@ == rearranged(old(v)@, s.shuffles[0]) && final(self).script()
                    == Some(s.skip_shuffles(1)),
                None => final(self).script() is None,
            },
    ;
}

/// The draws that the operators and algorithms make: the uniform ones, and
/// samples of two distributions.
pub trait MyRng: UniformRng {
    /// The number of failures before the first success, where each trial
    /// succeeds with probability `numerator / denominator`.
    fn sample_geometric(&mut self, numerator: usize, denominator: usize) -> (r: u64)
        requires
            0 < numerator <= denominator,
            old(self).script() matches Some(s) ==> s.geometrics.len() > 0,
        ensures
            match old(self).script() {
                Some(s) => r == s.geometrics[0] && final(self).script() == Some(
                    s.skip_geometrics(1),
                ),
                None => final(self).script() is None,
            },
    ;

    /// A Poisson sample with mean 1.
    fn sample_poisson(&mut self) -> (r: u64)
        requires
            old(self).script() matches Some(s) ==> s.poissons.len() > 0,
        ensures
            match old(self).script() {
                Some(s) => r == s.poissons[0] && final(self).script() == Some(s.skip_poissons(1)),
                None => final(self).script() is None,
            },
    ;
}

/// A source that replays the values it was made with, in order, one script
/// per primitive. A draw of a primitive whose script is used up is outside
/// every contract; compiled, it stops the program.
pub struct MockRng {
    random_values: Vec<bool>,
    random_index: usize,
    random_bool_values: Vec<bool>,
    random_bool_index: usize,
    random_ratio_values: Vec<bool>,
    random_ratio_index: usize,
    random_range_values: Vec<usize>,
    random_range_index: usize,
    random_unit_values: Vec<u64>,
    random_unit_index: usize,
    random_geometric_values: Vec<u64>,
    random_geometric_index: usize,
    random_poisson_values: Vec<u64>,
    random_poisson_index: usize,
    shuffle_values: Vec<Vec<usize>>,
    shuffle_index: usize,
}

/// What is left of `values` once `index` of them are used.
pub open spec fn remaining<T>(values: Seq<T>, index: usize) -> Seq<T> {
    if index <= values.len() {
        values.skip(index as int)
    } else {
        Seq::empty()
    }
}

impl MockRng {
    /// The scripts that are left.
    pub closed spec fn pending(&self) -> Script {
        Script {
            coins: remaining(self.random_values@, self.random_index),
            chances: remaining(self.random_bool_values@, self.random_bool_index),
            ratios: remaining(self.random_ratio_values@, self.random_ratio_index),
            ranges: remaining(self.random_range_values@, self.random_range_index),
            units: remaining(self.random_unit_values@, self.random_unit_index),
            geometrics: remaining(self.random_geometric_values@, self.random_geometric_index),
            poissons: remaining(self.random_poisson_values@, self.random_poisson_index),
            shuffles: remaining(
                self.shuffle_values@.map_values(|a: Vec<usize>| a@),
                self.shuffle_index,
            ),
        }
    }

    /// A source with nothing scripted.
    pub fn new() -> (rng: MockRng)
        ensures
            rng.pending() == Script::empty(),
    {
        let rng = MockRng {
            random_values: Vec::new(),
            random_index: 0,
            random_bool_values: Vec::new(),
            random_bool_index: 0,
            random_ratio_values: Vec::new(),
            random_ratio_index: 0,
            random_range_values: Vec::new(),
            random_range_index: 0,
            random_unit_values: Vec::new(),
            random_unit_index: 0,
            random_geometric_values: Vec::new(),
            random_geometric_index: 0,
            random_poisson_values: Vec::new(),
            random_poisson_index: 0,
            shuffle_values: Vec::new(),
            shuffle_index: 0,
        };
        proof {
            let shuffles = rng.shuffle_values@.map_values(|a: Vec<usize>| a@);
            assert(remaining(shuffles, 0) =~= Seq::empty());
            assert(remaining(rng.random_values@, 0) =~= Seq::empty());
            assert(remaining(rng.random_bool_values@, 0) =~= Seq::empty());
            assert(remaining(rng.random_ratio_values@, 0) =~= Seq::empty());
            assert(remaining(rng.random_range_values@, 0) =~= Seq::empty());
            assert(remaining(rng.random_unit_values@, 0) =~= Seq::empty());
            assert(remaining(rng.random_geometric_values@, 0) =~= Seq::empty());
            assert(remaining(rng.random_poisson_values@, 0) =~= Seq::empty());
        }
        rng
    }

    /// A source whose `random_ratio` replays `values`.
    pub fn new_ratio(values: Vec<bool>) -> (rng: MockRng)
        ensures
            rng.pending() == (Script { ratios: values@, ..Script::empty() }),
    {
        MockRng::new().with_ratio(values)
    }

    /// A source whose `random_range` replays `values`.
    pub fn new_range(values: Vec<usize>) -> (rng: MockRng)
        ensures
            rng.pending() == (Script { ranges: values@, ..Script::empty() }),
    {
        MockRng::new().with_range(values)
    }

    /// A source whose `sample_geometric` replays `values`.
    pub fn new_geometric(values: Vec<u64>) -> (rng: MockRng)
        ensures
            rng.pending() == (Script { geometrics: values@, ..Script::empty() }),
    {
        MockRng::new().with_geometric(values)
    }

    /// The same source, with `values` as the script of `random`.
    pub fn with_random(self, values: Vec<bool>) -> (rng: MockRng)
        ensures
            rng.pending() == (Script { coins: values@, ..self.pending() }),
    {
        let rng = MockRng { random_values: values, random_index: 0, ..self };
        proof {
            assert(remaining(values@, 0) =~= values@);
        }
        rng
    }

    /// The same source, with `values` as the script of `random_bool`.
    pub fn with_bool(self, values: Vec<bool>) -> (rng: MockRng)
        ensures
            rng.pending() == (Script { chances: values@, ..self.pending() }),
    {
        let rng = MockRng { random_bool_values: values, random_bool_index: 0, ..self };
        proof {
            assert(remaining(values@, 0) =~= values@);
        }
        rng
    }

    /// The same source, with `values` as the script of `random_ratio`.
    pub fn with_ratio(self, values: Vec<bool>) -> (rng: MockRng)
        ensures
            rng.pending() == (Script { ratios: values@, ..self.pending() }),
    {
        let rng = MockRng { random_ratio_values: values, random_ratio_index: 0, ..self };
        proof {
            assert(remaining(values@, 0) =~= values@);
        }
        rng
    }

    /// The same source, with `values` as the script of `random_range`.
    pub fn with_range(self, values: Vec<usize>) -> (rng: MockRng)
        ensures
            rng.pending() == (Script { ranges: values@, ..self.pending() }),
    {
        let rng = MockRng { random_range_values: values, random_range_index: 0, ..self };
        proof {
            assert(remaining(values@, 0) =~= values@);
        }
        rng
    }

    /// The same source, with `values` as the script of `random_unit`.
    pub fn with_unit(self, values: Vec<u64>) -> (rng: MockRng)
        ensures
            rng.pending() == (Script { units: values@, ..self.pending() }),
    {
        let rng = MockRng { random_unit_values: values, random_unit_index: 0, ..self };
        proof {
            assert(remaining(values@, 0) =~= values@);
        }
        rng
    }

    /// The same source, with `values` as the script of `sample_geometric`.
    pub fn with_geometric(self, values: Vec<u64>) -> (rng: MockRng)
        ensures
            rng.pending() == (Script { geometrics: values@, ..self.pending() }),
    {
        let rng = MockRng { random_geometric_values: values, random_geometric_index: 0, ..self };
        proof {
            assert(remaining(values@, 0) =~= values@);
        }
        rng
    }

    /// The same source, with `values` as the script of `sample_poisson`.
    pub fn with_poisson(self, values: Vec<u64>) -> (rng: MockRng)
        ensures
            rng.pending() == (Script { poissons: values@, ..self.pending() }),
    {
        let rng = MockRng { random_poisson_values: values, random_poisson_index: 0, ..self };
        proof {
            assert(remaining(values@, 0) =~= values@);
        }
        rng
    }

    /// The same source, with `values` as the arrangements that `shuffle_vec`
    /// applies.
    pub fn with_shuffle(self, values: Vec<Vec<usize>>) -> (rng: MockRng)
        ensures
            rng.pending() == (Script {
                shuffles: values@.map_values(|a: Vec<usize>| a@),
                ..self.pending()
            }),
    {
        let rng = MockRng { shuffle_values: values, shuffle_index: 0, ..self };
        proof {
            let shuffles = values@.map_values(|a: Vec<usize>| a@);
            assert(remaining(shuffles, 0) =~= shuffles);
        }
        rng
    }
}

impl Default for MockRng {
    fn default() -> (rng: MockRng)
        ensures
            rng.pending() == Script::empty(),
    {
        MockRng::new()
    }
}

impl UniformRng for MockRng {
    open spec fn script(&self) -> Option<Script> {
        Some(self.pending())
    }

    fn random(&mut self) -> (r: bool) {
        let value = self.random_values[self.random_index];
        assert(self.random_index < self.random_values.len());
        self.random_index += 1;
        proof {
            let s = old(self).pending();
            assert(self.pending().coins =~= s.coins.skip(1));
            assert(self.pending() == s.skip_coins(1));
        }
        value
    }

    fn random_bool(&mut self, _threshold: u64) -> (r: bool) {
        let value = self.random_bool_values[self.random_bool_index];
        assert(self.random_bool_index < self.random_bool_values.len());
        self.random_bool_index += 1;
        proof {
            let s = old(self).pending();
            assert(self.pending().chances =~= s.chances.skip(1));
            assert(self.pending() == s.skip_chances(1));
        }
        value
    }

    fn random_ratio(&mut self, _numerator: u32, _denominator: u32) -> (r: bool) {
        let value = self.random_ratio_values[self.random_ratio_index];
        assert(self.random_ratio_index < self.random_ratio_values.len());
        self.random_ratio_index += 1;
        proof {
            let s = old(self).pending();
            assert(self.pending().ratios =~= s.ratios.skip(1));
            assert(self.pending() == s.skip_ratios(1));
        }
        value
    }

    fn random_range(&mut self, _range: Range<usize>) -> (r: usize) {
        let value = self.random_range_values[self.random_range_index];
        assert(self.random_range_index < self.random_range_values.len());
        self.random_range_index += 1;
        proof {
            let s = old(self).pending();
            assert(self.pending().ranges =~= s.ranges.skip(1));
            assert(self.pending() == s.skip_ranges(1));
        }
        value
    }

    fn random_unit(&mut self) -> (r: u64) {
        let value = self.random_unit_values[self.random_unit_index];
        assert(self.random_unit_index < self.random_unit_values.len());
        self.random_unit_index += 1;
        proof {
            let s = old(self).pending();
            assert(self.pending().units =~= s.units.skip(1));
            assert(self.pending() == s.skip_units(1));
        }
        value
    }

    fn shuffle_vec(&mut self, v: &mut Vec<usize>) {
        let ghost before = v@;
        let ghost s = old(self).pending();
        let ghost p = s.shuffles[0];
        assert(p == self.shuffle_values@[self.shuffle_index as int]@);
        let mut result: Vec<usize> = Vec::new();
        let mut i: usize = 0;
        while i < v.len()
            invariant
                i <= v.len(),
                v@ == before,
                self.shuffle_index < self.shuffle_values@.len(),
                p == self.shuffle_values@[self.shuffle_index as int]@,
                is_arrangement(p, before.len()),
                result@.len() == i,
                forall|k: int| 0 <= k < i ==> result@[k] == before[p[k] as int],
            decreases v.len() - i,
        {
            let from = self.shuffle_values[self.shuffle_index][i];
            result.push(v[from]);
            i += 1;
        }
        *v = result;
        assert(self.shuffle_index < self.shuffle_values.len());
        self.shuffle_index += 1;
        proof {
            assert(v@ =~= rearranged(before, p));
            assert(self.pending().shuffles =~= s.shuffles.skip(1));
            assert(self.pending() == s.skip_shuffles(1));
        }
    }
}

impl MyRng for MockRng {

    fn sample_geometric(&mut self, _numerator: usize, _denominator: usize) -> (r: u64) {
        let value = self.random_geometric_values[self.random_geometric_index];
        assert(self.random_geometric_index < self.random_geometric_values.len());
        self.random_geometric_index += 1;
        proof {
            let s = old(self).pending();
            assert(self.pending().geometrics =~= s.geometrics.skip(1));
            assert(self.pending() == s.skip_geometrics(1));
        }
        value
    }

    fn sample_poisson(&mut self) -> (r: u64) {
        let value = self.random_poisson_values[self.random_poisson_index];
        assert(self.random_poisson_index < self.random_poisson_values.len());
        self.random_poisson_index += 1;
        proof {
            let s = old(self).pending();
            assert(self.pending().poissons =~= s.poissons.skip(1));
            assert(self.pending() == s.skip_poissons(1));
        }
        value
    }
}

/// `rand_pcg::Lcg128Xsl64`, the generator that `rand_pcg::Pcg64` names.
/// Nothing of its state is visible.
#[verifier::external_type_specification]
#[verifier::external_body]
pub struct ExLcg128Xsl64(rand_pcg::Lcg128Xsl64);

/// `SeedableRng::seed_from_u64` of `rand_pcg::Pcg64`: the generator that
/// the seed determines. Nothing is claimed of its state.
#[verifier::external_body]
fn pcg_from_seed(seed: u64) -> (rng: rand_pcg::Lcg128Xsl64) {
    rand::SeedableRng::seed_from_u64(seed)
}

/// `Rng::random::<u64>`: the next 64 bits of the generator. Nothing is
/// claimed of their value.
#[verifier::external_body]
fn pcg_next_u64(rng: &mut rand_pcg::Lcg128Xsl64) -> (bits: u64) {
    rand::Rng::random::<u64>(rng)
}

/// `Rng::random::<bool>`: a fair coin. Nothing is claimed of its value.
#[verifier::external_body]
fn pcg_coin(rng: &mut rand_pcg::Lcg128Xsl64) -> (coin: bool) {
    rand::Rng::random::<bool>(rng)
}

/// `Rng::random_ratio`, which panics where the denominator is zero or below
/// the numerator: always `false` for the numerator zero, always `true`
/// where numerator and denominator are equal.
#[verifier::external_body]
fn pcg_ratio(rng: &mut rand_pcg::Lcg128Xsl64, numerator: u32, denominator: u32) -> (hit: bool)
    requires
        0 < denominator,
        numerator <= denominator,
    ensures
        numerator == 0 ==> !hit,
        numerator == denominator ==> hit,
{
    rand::Rng::random_ratio(rng, numerator, denominator)
}

/// `Rng::random_range` on a range of `usize`, which panics on an empty
/// range: a value inside the range.
#[verifier::external_body]
fn pcg_range(rng: &mut rand_pcg::Lcg128Xsl64, low: usize, high: usize) -> (at: usize)
    requires
        low < high,
    ensures
        low <= at < high,
{
    rand::Rng::random_range(rng, low..high)
}

/// `SliceRandom::shuffle`: the items of the slice, in another order.
#[verifier::external_body]
fn pcg_shuffle(rng: &mut rand_pcg::Lcg128Xsl64, v: &mut Vec<usize>)
    ensures
        exists|p: Seq<usize>| #[trigger]
            is_arrangement(p, old(v)@.len()) && final(v)@ == rearranged(old(v)@, p),
{
    rand::seq::SliceRandom::shuffle(v.as_mut_slice(), rng)
}

/// A generator of the PCG family, determined by its seed. It never runs
/// dry.
pub struct PcgRng {
    rng: rand_pcg::Lcg128Xsl64,
}

impl PcgRng {
    /// The generator for `seed`.
    pub fn seed_from_u64(seed: u64) -> (rng: PcgRng)
        ensures
            rng.script() is None,
    {
        PcgRng { rng: pcg_from_seed(seed) }
    }
}

impl UniformRng for PcgRng {
    open spec fn script(&self) -> Option<Script> {
        None
    }

    fn random(&mut self) -> (r: bool) {
        pcg_coin(&mut self.rng)
    }

    /// Compares the next 64 bits with the threshold, and draws nothing
    /// where the threshold stands for certainty.
    fn random_bool(&mut self, threshold: u64) -> (r: bool) {
        if threshold == u64::MAX {
            true
        } else {
            pcg_next_u64(&mut self.rng) < threshold
        }
    }

    fn random_ratio(&mut self, numerator: u32, denominator: u32) -> (r: bool) {
        pcg_ratio(&mut self.rng, numerator, denominator)
    }

    fn random_range(&mut self, range: Range<usize>) -> (r: usize) {
        pcg_range(&mut self.rng, range.start, range.end)
    }

    /// The upper 52 of the next 64 bits: what `unit_of_bits` makes of them.
    fn random_unit(&mut self) -> (r: u64) {
        unit_of_bits(pcg_next_u64(&mut self.rng))
    }

    fn shuffle_vec(&mut self, v: &mut Vec<usize>) {
        pcg_shuffle(&mut self.rng, v)
    }
}

/// The draw from the unit interval that 64 bits stand for, as its numerator
/// over `UNIT`: the upper 52 of the bits, so that each value below `UNIT`
/// stands for as many words as each other.
pub fn unit_of_bits(bits: u64) -> (r: u64)
    ensures
        r == bits / 4096,
        r < UNIT,
{
    assert(bits >> 12 == bits / 4096) by (bit_vector);
    assert(bits >> 12 < 4_503_599_627_370_496u64) by (bit_vector);
    bits >> 12
}

} // verus!

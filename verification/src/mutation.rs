//! Mutation operators: how an offspring is made from a candidate.

use crate::fitness::{FitnessFunction, FitnessOrder};
use crate::rng::{MyRng, Script, UniformRng};
use crate::search_space::{Bitstring, Permutation, SearchSpace};
use vstd::prelude::*;

verus! {

/// A way to make an offspring from a candidate of the kind `S`.
pub trait Mutation<S: SearchSpace> {
    /// The operator works on candidates of this size.
    spec fn admits(&self, size: nat) -> bool;

    /// A scripted source holds the draws that `apply` makes on `solution`.
    spec fn ready(&self, solution: S::V, script: Script) -> bool;

    /// What `apply` makes of `solution` with a scripted source, and what it
    /// leaves of the script.
    spec fn outcome(&self, solution: S::V, script: Script) -> (S::V, Script);

    /// What holds between a candidate and each offspring that `apply` can
    /// make of it, whatever is drawn.
    spec fn reaches(&self, solution: S::V, offspring: S::V) -> bool;

    /// A scripted source holds the draws that `repeats` makes.
    spec fn repeats_ready(&self, script: Script) -> bool;

    /// What `repeats` returns with a scripted source, and what it leaves of
    /// the script.
    spec fn repeats_outcome(&self, script: Script) -> (u64, Script);

    /// An offspring of `solution`.
    fn apply<R: MyRng>(&self, solution: &S, rng: &mut R) -> (offspring: S)
        requires
            solution.valid(),
            self.admits(solution.spec_size()),
            old(rng).script() matches Some(s) ==> self.ready(solution@, s),
        ensures
            offspring.valid(),
            offspring.spec_size() == solution.spec_size(),
            self.reaches(solution@, offspring@),
            match old(rng).script() {
                Some(s) => offspring@ == self.outcome(solution@, s).0 && final(rng).script()
                    == Some(self.outcome(solution@, s).1),
                None => final(rng).script() is None,
            },
    ;

    /// How many more times an algorithm that compounds moves applies the
    /// operator after the first.
    fn repeats<R: MyRng>(&self, rng: &mut R) -> (count: u64)
        requires
            old(rng).script() matches Some(s) ==> self.repeats_ready(s),
        ensures
            match old(rng).script() {
                Some(s) => count == self.repeats_outcome(s).0 && final(rng).script() == Some(
                    self.repeats_outcome(s).1,
                ),
                None => final(rng).script() is None,
            },
    ;
}

/// The bits of `bits`, each inverted where `flips` holds `true`.
pub open spec fn flipped_where(bits: Seq<bool>, flips: Seq<bool>) -> Seq<bool> {
    Seq::new(bits.len(), |i: int| bits[i] != flips[i])
}

/// Inverts each bit with probability `1 / n`, with one draw for each bit.
/// On more than `u32::MAX` bits the probability is `1 / u32::MAX`.
pub struct NaiveBitflip;

impl Mutation<Bitstring> for NaiveBitflip {
    open spec fn admits(&self, size: nat) -> bool {
        true
    }

    open spec fn ready(&self, solution: Seq<bool>, script: Script) -> bool {
        script.ratios.len() >= solution.len()
    }

    open spec fn outcome(&self, solution: Seq<bool>, script: Script) -> (Seq<bool>, Script) {
        (flipped_where(solution, script.ratios), script.skip_ratios(solution.len() as int))
    }

    open spec fn reaches(&self, solution: Seq<bool>, offspring: Seq<bool>) -> bool {
        true
    }

    open spec fn repeats_ready(&self, script: Script) -> bool {
        true
    }

    open spec fn repeats_outcome(&self, script: Script) -> (u64, Script) {
        (0, script)
    }

    /// With a source that is not scripted, a single bit is inverted for
    /// sure.
    fn apply<R: MyRng>(&self, solution: &Bitstring, rng: &mut R) -> (offspring: Bitstring)
        ensures
            old(rng).script() is None && solution@.len() == 1 ==> offspring@[0] != solution@[0],
    {
        let ghost before = rng.script();
        let previous = solution.bits();
        let n = previous.len();
        let chances: u32 = if n > u32::MAX as usize {
            u32::MAX
        } else {
            n as u32
        };
        let mut bits: Vec<bool> = Vec::new();
        let mut i: usize = 0;
        proof {
            if let Some(s) = before {
                assert(s.ratios.skip(0) =~= s.ratios);
            }
        }
        while i < n
            invariant
                i <= n,
                n == previous@.len(),
                n > 0 ==> chances > 0,
                n > 1 ==> chances > 1,
                n == 1 ==> chances == 1,
                bits@.len() == i,
                before is None && n == 1 ==> forall|k: int|
                    0 <= k < i ==> (#[trigger] bits@[k]) != previous@[k],
                before matches Some(s) ==> s.ratios.len() >= n,
                match before {
                    Some(s) => rng.script() == Some(s.skip_ratios(i as int)) && forall|k: int|
                        0 <= k < i ==> (#[trigger] bits@[k]) == (previous@[k] != s.ratios[k]),
                    None => rng.script() is None,
                },
            decreases n - i,
        {
            let to_flip = rng.random_ratio(1, chances);
            bits.push(to_flip ^ previous[i]);
            proof {
                if let Some(s) = before {
                    assert(s.ratios.skip(i as int).skip(1) =~= s.ratios.skip(i + 1));
                }
            }
            i += 1;
        }
        let offspring = Bitstring::new(bits);
        proof {
            if let Some(s) = before {
                assert(offspring@ =~= flipped_where(solution@, s.ratios));
            }
        }
        offspring
    }

    fn repeats<R: MyRng>(&self, rng: &mut R) -> (count: u64) {
        0
    }
}

/// What the walk over the gaps makes of `bits` from position `from` on, and
/// how many gaps it reads: each gap is the number of bits passed over
/// before the next one that is inverted, and the gap that leads past the
/// end is the last one read.
pub open spec fn gap_walk(bits: Seq<bool>, from: int, gaps: Seq<u64>) -> (Seq<bool>, int)
    decreases gaps.len(),
{
    if gaps.len() == 0 {
        (bits, 0)
    } else if from + gaps[0] >= bits.len() {
        (bits, 1)
    } else {
        let at = from + gaps[0];
        let rest = gap_walk(bits.update(at, !bits[at]), at + 1, gaps.skip(1));
        (rest.0, rest.1 + 1)
    }
}

/// The gaps hold one that leads past the end of `n` bits from position
/// `from`.
pub open spec fn gaps_suffice(n: int, from: int, gaps: Seq<u64>) -> bool
    decreases gaps.len(),
{
    gaps.len() > 0 && (from + gaps[0] >= n || gaps_suffice(n, from + gaps[0] + 1, gaps.skip(1)))
}

/// Inverts each bit with probability `1 / n`, drawing the gaps between the
/// inverted bits instead of deciding bit by bit.
pub struct Bitflip;

impl Mutation<Bitstring> for Bitflip {
    open spec fn admits(&self, size: nat) -> bool {
        true
    }

    open spec fn ready(&self, solution: Seq<bool>, script: Script) -> bool {
        gaps_suffice(solution.len() as int, 0, script.geometrics)
    }

    open spec fn outcome(&self, solution: Seq<bool>, script: Script) -> (Seq<bool>, Script) {
        (
            gap_walk(solution, 0, script.geometrics).0,
            script.skip_geometrics(gap_walk(solution, 0, script.geometrics).1),
        )
    }

    open spec fn reaches(&self, solution: Seq<bool>, offspring: Seq<bool>) -> bool {
        true
    }

    open spec fn repeats_ready(&self, script: Script) -> bool {
        true
    }

    open spec fn repeats_outcome(&self, script: Script) -> (u64, Script) {
        (0, script)
    }

    fn apply<R: MyRng>(&self, solution: &Bitstring, rng: &mut R) -> (offspring: Bitstring) {
        let ghost before = rng.script();
        let mut result = solution.clone();
        let n = solution.size();
        let chances = if n == 0 {
            1
        } else {
            n
        };
        let mut from: usize = 0;
        let ghost mut read: int = 0;
        proof {
            if let Some(s) = before {
                assert(s.geometrics.skip(0) =~= s.geometrics);
            }
        }
        loop
            invariant_except_break
                from <= n,
                match before {
                    Some(s) => {
                        &&& 0 <= read <= s.geometrics.len()
                        &&& rng.script() == Some(s.skip_geometrics(read))
                        &&& gaps_suffice(n as int, from as int, s.geometrics.skip(read))
                        &&& gap_walk(solution@, 0, s.geometrics).0 == gap_walk(
                            result@,
                            from as int,
                            s.geometrics.skip(read),
                        ).0
                        &&& gap_walk(solution@, 0, s.geometrics).1 == read + gap_walk(
                            result@,
                            from as int,
                            s.geometrics.skip(read),
                        ).1
                    },
                    None => rng.script() is None,
                },
            invariant
                n == solution@.len(),
                result@.len() == n,
                0 < chances,
            ensures
                match before {
                    Some(s) => result@ == gap_walk(solution@, 0, s.geometrics).0 && rng.script()
                        == Some(s.skip_geometrics(gap_walk(solution@, 0, s.geometrics).1)),
                    None => rng.script() is None,
                },
            decreases n - from,
        {
            let gap = rng.sample_geometric(1, chances);
            proof {
                if let Some(s) = before {
                    let gaps = s.geometrics.skip(read);
                    assert(gaps[0] == gap);
                    assert(gaps.skip(1) =~= s.geometrics.skip(read + 1));
                    assert(s.skip_geometrics(read).skip_geometrics(1) == s.skip_geometrics(
                        read + 1,
                    ));
                }
            }
            if gap >= (n - from) as u64 {
                break;
            }
            let at = from + gap as usize;
            result.flip(at);
            from = at + 1;
            proof {
                read = read + 1;
            }
        }
        result
    }

    fn repeats<R: MyRng>(&self, rng: &mut R) -> (count: u64) {
        0
    }
}

/// The bits with the one at position `i` inverted.
pub open spec fn flipped_at(bits: Seq<bool>, i: int) -> Seq<bool> {
    bits.update(i, !bits[i])
}

/// Inverts one bit, at a position drawn uniformly. The empty bit string
/// stays as it is, and nothing is drawn for it.
pub struct SingleBitflip;

impl Mutation<Bitstring> for SingleBitflip {
    open spec fn admits(&self, size: nat) -> bool {
        true
    }

    open spec fn ready(&self, solution: Seq<bool>, script: Script) -> bool {
        solution.len() == 0 || (script.ranges.len() > 0 && script.ranges[0] < solution.len())
    }

    open spec fn outcome(&self, solution: Seq<bool>, script: Script) -> (Seq<bool>, Script) {
        if solution.len() == 0 {
            (solution, script)
        } else {
            (flipped_at(solution, script.ranges[0] as int), script.skip_ranges(1))
        }
    }

    open spec fn reaches(&self, solution: Seq<bool>, offspring: Seq<bool>) -> bool {
        if solution.len() == 0 {
            offspring == solution
        } else {
            exists|i: int| 0 <= i < solution.len() && offspring == #[trigger] flipped_at(solution, i)
        }
    }

    open spec fn repeats_ready(&self, script: Script) -> bool {
        true
    }

    open spec fn repeats_outcome(&self, script: Script) -> (u64, Script) {
        (0, script)
    }

    fn apply<R: MyRng>(&self, solution: &Bitstring, rng: &mut R) -> (offspring: Bitstring) {
        let mut result = solution.clone();
        if solution.size() == 0 {
            return result;
        }
        let i = rng.random_range(0..solution.size());
        result.flip(i);
        proof {
            assert(result@ == flipped_at(solution@, i as int));
        }
        result
    }

    fn repeats<R: MyRng>(&self, rng: &mut R) -> (count: u64) {
        0
    }
}

/// The tour with the cities at the positions `lo + 1 ..= hi` in reverse
/// order.
pub open spec fn reversed_between(tour: Seq<usize>, lo: int, hi: int) -> Seq<usize> {
    Seq::new(
        tour.len(),
        |i: int|
            if lo < i <= hi {
                tour[lo + 1 + hi - i]
            } else {
                tour[i]
            },
    )
}

/// The 2-opt move on the cut points `a` and `b`: the stretch after the
/// lower one, up to and with the upper one, is reversed.
pub open spec fn two_opt_move(tour: Seq<usize>, a: int, b: int) -> Seq<usize> {
    if a > b {
        reversed_between(tour, b, a)
    } else {
        reversed_between(tour, a, b)
    }
}

/// A 2-opt move makes a permutation of a permutation.
pub proof fn lemma_two_opt_keeps_permutation(tour: Seq<usize>, a: int, b: int)
    requires
        crate::search_space::is_permutation(tour),
        0 <= a < tour.len(),
        0 <= b < tour.len(),
    ensures
        crate::search_space::is_permutation(two_opt_move(tour, a, b)),
        two_opt_move(tour, a, b).len() == tour.len(),
{
    let lo = if a > b {
        b
    } else {
        a
    };
    let hi = if a > b {
        a
    } else {
        b
    };
    let moved = reversed_between(tour, lo, hi);
    assert forall|i: int| 0 <= i < moved.len() implies (#[trigger] moved[i]) < moved.len() by {
        if lo < i <= hi {
            assert(moved[i] == tour[lo + 1 + hi - i]);
        }
    }
    assert forall|i: int, j: int| 0 <= i < j < moved.len() implies moved[i] != moved[j] by {
        let from_i = if lo < i <= hi {
            lo + 1 + hi - i
        } else {
            i
        };
        let from_j = if lo < j <= hi {
            lo + 1 + hi - j
        } else {
            j
        };
        assert(moved[i] == tour[from_i]);
        assert(moved[j] == tour[from_j]);
        assert(from_i != from_j);
        if from_i < from_j {
            assert(tour[from_i] != tour[from_j]);
        } else {
            assert(tour[from_j] != tour[from_i]);
        }
    }
}

/// The tour after the 2-opt move on the cut points `a` and `b`.
pub fn two_opt(previous: &Vec<usize>, a: usize, b: usize) -> (result: Vec<usize>)
    requires
        a < previous@.len(),
        b < previous@.len(),
    ensures
        result@ == two_opt_move(previous@, a as int, b as int),
{
    let (v1, v2) = if a > b {
        (b, a)
    } else {
        (a, b)
    };
    let n = previous.len();
    let ghost moved = reversed_between(previous@, v1 as int, v2 as int);
    let mut result: Vec<usize> = Vec::with_capacity(n);
    let mut i: usize = 0;
    while i <= v1
        invariant
            v1 <= v2 < n,
            n == previous@.len(),
            i <= v1 + 1,
            result@.len() == i,
            moved == reversed_between(previous@, v1 as int, v2 as int),
            forall|k: int| 0 <= k < i ==> (#[trigger] result@[k]) == moved[k],
        decreases v1 + 1 - i,
    {
        result.push(previous[i]);
        i += 1;
    }
    let mut j: usize = v2;
    while j > v1
        invariant
            v1 <= j <= v2 < n,
            n == previous@.len(),
            result@.len() == v1 + 1 + (v2 - j),
            moved == reversed_between(previous@, v1 as int, v2 as int),
            forall|k: int| 0 <= k < result@.len() ==> (#[trigger] result@[k]) == moved[k],
        decreases j - v1,
    {
        result.push(previous[j]);
        j -= 1;
    }
    let mut k: usize = v2 + 1;
    while k < n
        invariant
            v1 <= v2 < n,
            v2 + 1 <= k <= n,
            n == previous@.len(),
            result@.len() == k,
            moved == reversed_between(previous@, v1 as int, v2 as int),
            forall|e: int| 0 <= e < k ==> (#[trigger] result@[e]) == moved[e],
        decreases n - k,
    {
        result.push(previous[k]);
        k += 1;
    }
    proof {
        assert(result@ =~= moved);
    }
    result
}

/// How often a position is drawn again at most when it equals one that is
/// taken already. After that many draws the position comes from one more
/// draw, among the positions that are free.
pub const MAX_REDRAWS: usize = 64;

/// A scripted source holds what `draw_other` reads.
pub open spec fn other_ready(n: int, a: usize, ranges: Seq<usize>, tries: nat) -> bool
    decreases tries,
{
    ranges.len() > 0 && if tries == 0 {
        ranges[0] < n - 1
    } else {
        ranges[0] < n && (ranges[0] != a || other_ready(n, a, ranges.skip(1), (tries - 1) as nat))
    }
}

/// The position that `draw_other` gives with a scripted source, and the
/// number of values it reads.
pub open spec fn other_outcome(a: usize, ranges: Seq<usize>, tries: nat) -> (usize, int)
    decreases tries,
{
    if tries == 0 {
        (
            if ranges[0] >= a {
                (ranges[0] + 1) as usize
            } else {
                ranges[0]
            },
            1,
        )
    } else if ranges[0] != a {
        (ranges[0], 1)
    } else {
        let rest = other_outcome(a, ranges.skip(1), (tries - 1) as nat);
        (rest.0, rest.1 + 1)
    }
}

/// With a script that is ready, `other_outcome` reads at least one value and
/// no more than the script holds.
pub proof fn lemma_other_outcome_reads(n: int, a: usize, ranges: Seq<usize>, tries: nat)
    requires
        other_ready(n, a, ranges, tries),
    ensures
        1 <= other_outcome(a, ranges, tries).1 <= ranges.len(),
    decreases tries,
{
    if tries > 0 && ranges[0] == a {
        lemma_other_outcome_reads(n, a, ranges.skip(1), (tries - 1) as nat);
    }
}

/// A position below `n` other than `a`, each with the same probability.
pub fn draw_other<R: UniformRng>(rng: &mut R, n: usize, a: usize) -> (b: usize)
    requires
        n >= 2,
        a < n,
        old(rng).script() matches Some(s) ==> other_ready(n as int, a, s.ranges, MAX_REDRAWS as nat),
    ensures
        b < n,
        b != a,
        match old(rng).script() {
            Some(s) => b == other_outcome(a, s.ranges, MAX_REDRAWS as nat).0 && final(rng).script()
                == Some(s.skip_ranges(other_outcome(a, s.ranges, MAX_REDRAWS as nat).1)),
            None => final(rng).script() is None,
        },
{
    let ghost before = rng.script();
    let mut tries: usize = MAX_REDRAWS;
    let ghost mut read: int = 0;
    proof {
        if let Some(s) = before {
            assert(s.ranges.skip(0) =~= s.ranges);
        }
    }
    while tries > 0
        invariant
            n >= 2,
            a < n,
            tries <= MAX_REDRAWS,
            before == old(rng).script(),
            match before {
                Some(s) => {
                    &&& 0 <= read <= s.ranges.len()
                    &&& rng.script() == Some(s.skip_ranges(read))
                    &&& other_ready(n as int, a, s.ranges.skip(read), tries as nat)
                    &&& other_outcome(a, s.ranges, MAX_REDRAWS as nat).0 == other_outcome(
                        a,
                        s.ranges.skip(read),
                        tries as nat,
                    ).0
                    &&& other_outcome(a, s.ranges, MAX_REDRAWS as nat).1 == read + other_outcome(
                        a,
                        s.ranges.skip(read),
                        tries as nat,
                    ).1
                },
                None => rng.script() is None,
            },
        decreases tries,
    {
        let b = rng.random_range(0..n);
        proof {
            if let Some(s) = before {
                let ranges = s.ranges.skip(read);
                assert(ranges[0] == b);
                assert(ranges.skip(1) =~= s.ranges.skip(read + 1));
                assert(s.skip_ranges(read).skip_ranges(1) == s.skip_ranges(read + 1));
            }
        }
        if b != a {
            proof {
                if let Some(s) = before {
                    let ranges = s.ranges.skip(read);
                    assert(other_outcome(a, ranges, tries as nat) == (b, 1int));
                    assert(other_outcome(a, s.ranges, MAX_REDRAWS as nat).0 == b);
                    assert(other_outcome(a, s.ranges, MAX_REDRAWS as nat).1 == read + 1);
                    assert(rng.script() == Some(s.skip_ranges(read + 1)));
                }
            }
            return b;
        }
        tries -= 1;
        proof {
            read = read + 1;
        }
    }
    let c = rng.random_range(0..n - 1);
    proof {
        if let Some(s) = before {
            let ranges = s.ranges.skip(read);
            assert(ranges[0] == c);
            assert(ranges.skip(1) =~= s.ranges.skip(read + 1));
            assert(s.skip_ranges(read).skip_ranges(1) == s.skip_ranges(read + 1));
        }
    }
    if c >= a {
        c + 1
    } else {
        c
    }
}

/// The 2-opt move on two cut points drawn uniformly among the pairs of
/// different positions. A tour of fewer than two cities stays as it is, and
/// nothing is drawn for it.
pub struct TwoOpt;

impl Mutation<Permutation> for TwoOpt {
    open spec fn admits(&self, size: nat) -> bool {
        true
    }

    open spec fn ready(&self, solution: Seq<usize>, script: Script) -> bool {
        solution.len() < 2 || {
            &&& script.ranges.len() > 0
            &&& script.ranges[0] < solution.len()
            &&& other_ready(
                solution.len() as int,
                script.ranges[0],
                script.ranges.skip(1),
                MAX_REDRAWS as nat,
            )
        }
    }

    open spec fn outcome(&self, solution: Seq<usize>, script: Script) -> (Seq<usize>, Script) {
        if solution.len() < 2 {
            (solution, script)
        } else {
            let a = script.ranges[0];
            let other = other_outcome(a, script.ranges.skip(1), MAX_REDRAWS as nat);
            (two_opt_move(solution, a as int, other.0 as int), script.skip_ranges(1 + other.1))
        }
    }

    open spec fn reaches(&self, solution: Seq<usize>, offspring: Seq<usize>) -> bool {
        if solution.len() < 2 {
            offspring == solution
        } else {
            exists|a: int, b: int|
                0 <= a < solution.len() && 0 <= b < solution.len() && a != b && offspring
                    == #[trigger] two_opt_move(solution, a, b)
        }
    }

    open spec fn repeats_ready(&self, script: Script) -> bool {
        script.poissons.len() > 0
    }

    open spec fn repeats_outcome(&self, script: Script) -> (u64, Script) {
        (script.poissons[0], script.skip_poissons(1))
    }

    fn apply<R: MyRng>(&self, solution: &Permutation, rng: &mut R) -> (offspring: Permutation) {
        let ghost before = rng.script();
        let previous = solution.permutation();
        let n = previous.len();
        if n < 2 {
            return solution.clone();
        }
        let a = rng.random_range(0..n);
        let b = draw_other(rng, n, a);
        let result = two_opt(previous, a, b);
        proof {
            lemma_two_opt_keeps_permutation(previous@, a as int, b as int);
            if let Some(s) = before {
                let k = other_outcome(a, s.ranges.skip(1), MAX_REDRAWS as nat).1;
                lemma_other_outcome_reads(n as int, a, s.ranges.skip(1), MAX_REDRAWS as nat);
                assert(s.skip_ranges(1).ranges == s.ranges.skip(1));
                assert(s.ranges.skip(1).skip(k) =~= s.ranges.skip(1 + k));
                assert(s.skip_ranges(1).skip_ranges(k) == s.skip_ranges(1 + k));
            }
        }
        Permutation::new(result)
    }

    fn repeats<R: MyRng>(&self, rng: &mut R) -> (count: u64) {
        rng.sample_poisson()
    }
}

/// A scripted source holds what `draw_third` reads.
pub open spec fn third_ready(n: int, a: usize, b: usize, ranges: Seq<usize>, tries: nat) -> bool
    decreases tries,
{
    ranges.len() > 0 && if tries == 0 {
        ranges[0] < n - 2
    } else {
        ranges[0] < n && ((ranges[0] != a && ranges[0] != b) || third_ready(
            n,
            a,
            b,
            ranges.skip(1),
            (tries - 1) as nat,
        ))
    }
}

/// The position that stands `c` places up among those other than `a` and
/// `b`.
pub open spec fn shifted_past(c: usize, a: usize, b: usize) -> usize {
    let lo = if a < b {
        a
    } else {
        b
    };
    let hi = if a < b {
        b
    } else {
        a
    };
    let first = if c >= lo {
        c + 1
    } else {
        c as int
    };
    if first >= hi {
        (first + 1) as usize
    } else {
        first as usize
    }
}

/// The position that `draw_third` gives with a scripted source, and the
/// number of values it reads.
pub open spec fn third_outcome(a: usize, b: usize, ranges: Seq<usize>, tries: nat) -> (usize, int)
    decreases tries,
{
    if tries == 0 {
        (shifted_past(ranges[0], a, b), 1)
    } else if ranges[0] != a && ranges[0] != b {
        (ranges[0], 1)
    } else {
        let rest = third_outcome(a, b, ranges.skip(1), (tries - 1) as nat);
        (rest.0, rest.1 + 1)
    }
}

/// With a script that is ready, `third_outcome` reads at least one value
/// and no more than the script holds.
pub proof fn lemma_third_outcome_reads(n: int, a: usize, b: usize, ranges: Seq<usize>, tries: nat)
    requires
        third_ready(n, a, b, ranges, tries),
    ensures
        1 <= third_outcome(a, b, ranges, tries).1 <= ranges.len(),
    decreases tries,
{
    if tries > 0 && (ranges[0] == a || ranges[0] == b) {
        lemma_third_outcome_reads(n, a, b, ranges.skip(1), (tries - 1) as nat);
    }
}

/// A position below `n` other than `a` and `b`, each with the same
/// probability.
pub fn draw_third<R: UniformRng>(rng: &mut R, n: usize, a: usize, b: usize) -> (c: usize)
    requires
        n >= 3,
        a < n,
        b < n,
        a != b,
        old(rng).script() matches Some(s) ==> third_ready(
            n as int,
            a,
            b,
            s.ranges,
            MAX_REDRAWS as nat,
        ),
    ensures
        c < n,
        c != a,
        c != b,
        match old(rng).script() {
            Some(s) => {
                &&& c == third_outcome(a, b, s.ranges, MAX_REDRAWS as nat).0
                &&& final(rng).script() == Some(
                    s.skip_ranges(third_outcome(a, b, s.ranges, MAX_REDRAWS as nat).1),
                )
            },
            None => final(rng).script() is None,
        },
{
    let ghost before = rng.script();
    let mut tries: usize = MAX_REDRAWS;
    let ghost mut read: int = 0;
    proof {
        if let Some(s) = before {
            assert(s.ranges.skip(0) =~= s.ranges);
        }
    }
    while tries > 0
        invariant
            n >= 3,
            a < n,
            b < n,
            a != b,
            tries <= MAX_REDRAWS,
            before == old(rng).script(),
            match before {
                Some(s) => {
                    &&& 0 <= read <= s.ranges.len()
                    &&& rng.script() == Some(s.skip_ranges(read))
                    &&& third_ready(n as int, a, b, s.ranges.skip(read), tries as nat)
                    &&& third_outcome(a, b, s.ranges, MAX_REDRAWS as nat).0 == third_outcome(
                        a,
                        b,
                        s.ranges.skip(read),
                        tries as nat,
                    ).0
                    &&& third_outcome(a, b, s.ranges, MAX_REDRAWS as nat).1 == read
                        + third_outcome(a, b, s.ranges.skip(read), tries as nat).1
                },
                None => rng.script() is None,
            },
        decreases tries,
    {
        let c = rng.random_range(0..n);
        proof {
            if let Some(s) = before {
                let ranges = s.ranges.skip(read);
                assert(ranges[0] == c);
                assert(ranges.skip(1) =~= s.ranges.skip(read + 1));
                assert(s.skip_ranges(read).skip_ranges(1) == s.skip_ranges(read + 1));
            }
        }
        if c != a && c != b {
            proof {
                if let Some(s) = before {
                    let ranges = s.ranges.skip(read);
                    assert(third_outcome(a, b, ranges, tries as nat) == (c, 1int));
                }
            }
            return c;
        }
        tries -= 1;
        proof {
            read = read + 1;
        }
    }
    let c = rng.random_range(0..n - 2);
    proof {
        if let Some(s) = before {
            let ranges = s.ranges.skip(read);
            assert(ranges[0] == c);
            assert(ranges.skip(1) =~= s.ranges.skip(read + 1));
            assert(s.skip_ranges(read).skip_ranges(1) == s.skip_ranges(read + 1));
        }
    }
    let (lo, hi) = if a < b {
        (a, b)
    } else {
        (b, a)
    };
    let first = if c >= lo {
        c + 1
    } else {
        c
    };
    if first >= hi {
        first + 1
    } else {
        first
    }
}

/// The smallest of three positions.
pub open spec fn low_of(a: int, b: int, c: int) -> int {
    if a <= b && a <= c {
        a
    } else if b <= c {
        b
    } else {
        c
    }
}

/// The largest of three positions.
pub open spec fn high_of(a: int, b: int, c: int) -> int {
    if a >= b && a >= c {
        a
    } else if b >= c {
        b
    } else {
        c
    }
}

/// The one of three positions between the two others.
pub open spec fn mid_of(a: int, b: int, c: int) -> int {
    if a != low_of(a, b, c) && a != high_of(a, b, c) {
        a
    } else if b != low_of(a, b, c) && b != high_of(a, b, c) {
        b
    } else {
        c
    }
}

/// One of the eight reconnections of `tour` at the cut points `low`, `mid`
/// and `high`: the 2-opt move on `low` and `mid` where the first bit of
/// `which` is set, then the one on `mid` and `high` where the second is,
/// then the one on `low` and `high` where the third is.
pub open spec fn reconnection(tour: Seq<usize>, low: int, mid: int, high: int, which: int) -> Seq<
    usize,
> {
    let first = if which % 2 == 1 {
        two_opt_move(tour, low, mid)
    } else {
        tour
    };
    let second = if (which / 2) % 2 == 1 {
        two_opt_move(first, mid, high)
    } else {
        first
    };
    if (which / 4) % 2 == 1 {
        two_opt_move(second, low, high)
    } else {
        second
    }
}

/// The eight reconnections, the tour itself first.
pub open spec fn reconnections(tour: Seq<usize>, low: int, mid: int, high: int) -> Seq<Seq<usize>> {
    Seq::new(8, |which: int| reconnection(tour, low, mid, high, which))
}

/// The scores of the tours.
pub open spec fn tour_scores<F: FitnessFunction<Permutation>>(
    fitness: F,
    tours: Seq<Seq<usize>>,
) -> Seq<u64> {
    tours.map_values(|t: Seq<usize>| fitness.score(t))
}

/// The 3-opt move on the cut points `a`, `b` and `c`: the best of the eight
/// reconnections; of several that are equally good, the first.
pub open spec fn three_opt_move<F: FitnessFunction<Permutation>>(
    fitness: F,
    tour: Seq<usize>,
    a: int,
    b: int,
    c: int,
) -> Seq<usize> {
    let all = reconnections(tour, low_of(a, b, c), mid_of(a, b, c), high_of(a, b, c));
    all[crate::fitness::first_best(fitness.maximizing(), tour_scores(fitness, all))]
}

/// The 3-opt move never makes a tour worse: the tour itself is the first of
/// the reconnections, and the best of them is kept.
pub proof fn lemma_three_opt_is_no_worse<F: FitnessFunction<Permutation>>(
    fitness: F,
    tour: Seq<usize>,
    a: int,
    b: int,
    c: int,
)
    ensures
        crate::fitness::no_worse(
            fitness.maximizing(),
            fitness.score(three_opt_move(fitness, tour, a, b, c)),
            fitness.score(tour),
        ),
{
    let all = reconnections(tour, low_of(a, b, c), mid_of(a, b, c), high_of(a, b, c));
    let marks = tour_scores(fitness, all);
    crate::fitness::lemma_first_best(fitness.maximizing(), marks);
    assert(all[0] == tour);
    assert(marks[0] == fitness.score(tour));
}

/// Each reconnection of a permutation is a permutation.
pub proof fn lemma_reconnection_keeps_permutation(
    tour: Seq<usize>,
    low: int,
    mid: int,
    high: int,
    which: int,
)
    requires
        crate::search_space::is_permutation(tour),
        0 <= low < tour.len(),
        0 <= mid < tour.len(),
        0 <= high < tour.len(),
    ensures
        crate::search_space::is_permutation(reconnection(tour, low, mid, high, which)),
        reconnection(tour, low, mid, high, which).len() == tour.len(),
{
    let first = if which % 2 == 1 {
        two_opt_move(tour, low, mid)
    } else {
        tour
    };
    lemma_two_opt_keeps_permutation(tour, low, mid);
    let second = if (which / 2) % 2 == 1 {
        two_opt_move(first, mid, high)
    } else {
        first
    };
    lemma_two_opt_keeps_permutation(first, mid, high);
    lemma_two_opt_keeps_permutation(second, low, high);
}

/// The 3-opt move on three cut points drawn uniformly among the triples of
/// different positions, judged by the fitness function that the operator
/// holds. A tour of fewer than three cities stays as it is, and nothing is
/// drawn for it.
pub struct ThreeOpt<F: FitnessFunction<Permutation>> {
    fitness: F,
}

impl<F: FitnessFunction<Permutation>> ThreeOpt<F> {
    /// The fitness function that judges the reconnections.
    pub closed spec fn objective(&self) -> F {
        self.fitness
    }

    pub fn new(fitness: F) -> (operator: Self)
        ensures
            operator.objective() == fitness,
    {
        ThreeOpt { fitness }
    }
}

impl<F: FitnessFunction<Permutation>> Mutation<Permutation> for ThreeOpt<F> {
    open spec fn admits(&self, size: nat) -> bool {
        self.objective().fits(size)
    }

    open spec fn ready(&self, solution: Seq<usize>, script: Script) -> bool {
        let n = solution.len() as int;
        let a = script.ranges[0];
        let second = other_outcome(a, script.ranges.skip(1), MAX_REDRAWS as nat);
        n < 3 || {
            &&& script.ranges.len() > 0
            &&& a < n
            &&& other_ready(n, a, script.ranges.skip(1), MAX_REDRAWS as nat)
            &&& third_ready(n, a, second.0, script.ranges.skip(1 + second.1), MAX_REDRAWS as nat)
        }
    }

    open spec fn outcome(&self, solution: Seq<usize>, script: Script) -> (Seq<usize>, Script) {
        let a = script.ranges[0];
        let second = other_outcome(a, script.ranges.skip(1), MAX_REDRAWS as nat);
        let third = third_outcome(
            a,
            second.0,
            script.ranges.skip(1 + second.1),
            MAX_REDRAWS as nat,
        );
        if solution.len() < 3 {
            (solution, script)
        } else {
            (
                three_opt_move(
                    self.objective(),
                    solution,
                    a as int,
                    second.0 as int,
                    third.0 as int,
                ),
                script.skip_ranges(1 + second.1 + third.1),
            )
        }
    }

    open spec fn reaches(&self, solution: Seq<usize>, offspring: Seq<usize>) -> bool {
        if solution.len() < 3 {
            offspring == solution
        } else {
            exists|a: int, b: int, c: int|
                0 <= a < solution.len() && 0 <= b < solution.len() && 0 <= c < solution.len() && a
                    != b && a != c && b != c && offspring == #[trigger] three_opt_move(
                    self.objective(),
                    solution,
                    a,
                    b,
                    c,
                )
        }
    }

    open spec fn repeats_ready(&self, script: Script) -> bool {
        script.poissons.len() > 0
    }

    open spec fn repeats_outcome(&self, script: Script) -> (u64, Script) {
        (script.poissons[0], script.skip_poissons(1))
    }

    fn apply<R: MyRng>(&self, solution: &Permutation, rng: &mut R) -> (offspring: Permutation) {
        let ghost before = rng.script();
        let previous = solution.permutation();
        let n = previous.len();
        if n < 3 {
            return solution.clone();
        }
        let a = rng.random_range(0..n);
        let b = draw_other(rng, n, a);
        proof {
            if let Some(s) = before {
                let second = other_outcome(a, s.ranges.skip(1), MAX_REDRAWS as nat);
                lemma_other_outcome_reads(n as int, a, s.ranges.skip(1), MAX_REDRAWS as nat);
                assert(s.skip_ranges(1).ranges == s.ranges.skip(1));
                assert(s.ranges.skip(1).skip(second.1) =~= s.ranges.skip(1 + second.1));
                assert(s.skip_ranges(1).skip_ranges(second.1) == s.skip_ranges(1 + second.1));
            }
        }
        let c = draw_third(rng, n, a, b);
        proof {
            if let Some(s) = before {
                let second = other_outcome(a, s.ranges.skip(1), MAX_REDRAWS as nat);
                let third = third_outcome(a, b, s.ranges.skip(1 + second.1), MAX_REDRAWS as nat);
                lemma_third_outcome_reads(
                    n as int,
                    a,
                    b,
                    s.ranges.skip(1 + second.1),
                    MAX_REDRAWS as nat,
                );
                assert(s.ranges.skip(1 + second.1).skip(third.1) =~= s.ranges.skip(
                    1 + second.1 + third.1,
                ));
                assert(s.skip_ranges(1 + second.1).skip_ranges(third.1) == s.skip_ranges(
                    1 + second.1 + third.1,
                ));
            }
        }
        let low = if a <= b && a <= c {
            a
        } else if b <= c {
            b
        } else {
            c
        };
        let high = if a >= b && a >= c {
            a
        } else if b >= c {
            b
        } else {
            c
        };
        let mid = if a != low && a != high {
            a
        } else if b != low && b != high {
            b
        } else {
            c
        };
        let ghost all = reconnections(previous@, low as int, mid as int, high as int);
        let ghost marks = tour_scores(self.objective(), all);
        let ghost maximizing = self.objective().maximizing();
        let mut best = solution.clone();
        let mut best_fitness: u64 = 0;
        let mut best_at: usize = 0;
        let mut which: usize = 0;
        while which < 8
            invariant
                which <= 8,
                n == previous@.len(),
                previous@ == solution@,
                solution.valid(),
                self.objective().fits(n as nat),
                low < n,
                mid < n,
                high < n,
                all == reconnections(previous@, low as int, mid as int, high as int),
                marks == tour_scores(self.objective(), all),
                maximizing == self.objective().maximizing(),
                best.valid(),
                best@.len() == n,
                which > 0 ==> best_at == crate::fitness::first_best(
                    maximizing,
                    marks.take(which as int),
                ) && best_at < which && best_fitness == marks[best_at as int] && best@
                    == all[best_at as int],
            decreases 8 - which,
        {
            let mut candidate = Vec::new();
            let mut k: usize = 0;
            while k < n
                invariant
                    k <= n,
                    n == previous@.len(),
                    candidate@ == previous@.take(k as int),
                decreases n - k,
            {
                candidate.push(previous[k]);
                proof {
                    assert(candidate@ =~= previous@.take(k + 1));
                }
                k += 1;
            }
            proof {
                assert(previous@.take(n as int) =~= previous@);
            }
            if which % 2 == 1 {
                candidate = two_opt(&candidate, low, mid);
            }
            if (which / 2) % 2 == 1 {
                candidate = two_opt(&candidate, mid, high);
            }
            if (which / 4) % 2 == 1 {
                candidate = two_opt(&candidate, low, high);
            }
            let tour = Permutation::new(candidate);
            proof {
                lemma_reconnection_keeps_permutation(
                    previous@,
                    low as int,
                    mid as int,
                    high as int,
                    which as int,
                );
                assert(tour@ == reconnection(
                    previous@,
                    low as int,
                    mid as int,
                    high as int,
                    which as int,
                ));
                assert(all[which as int] == tour@);
            }
            let fit_val = self.fitness.evaluate(&tour);
            proof {
                assert(marks[which as int] == fit_val);
                assert(marks.take(which + 1).drop_last() =~= marks.take(which as int));
                assert(marks.take(which + 1).last() == fit_val);
                if which > 0 {
                    assert(marks.take(which + 1)[best_at as int] == marks[best_at as int]);
                }
            }
            if which == 0 {
                best = tour;
                best_fitness = fit_val;
                best_at = 0;
            } else {
                match self.fitness.compare(fit_val, best_fitness) {
                    FitnessOrder::Greater => {
                        best = tour;
                        best_fitness = fit_val;
                        best_at = which;
                    },
                    _ => {},
                }
            }
            which += 1;
        }
        proof {
            assert(marks.take(8) =~= marks);
            assert(low == low_of(a as int, b as int, c as int));
            assert(high == high_of(a as int, b as int, c as int));
            assert(mid == mid_of(a as int, b as int, c as int));
            assert(best@ == three_opt_move(
                self.objective(),
                solution@,
                a as int,
                b as int,
                c as int,
            ));
        }
        best
    }

    fn repeats<R: MyRng>(&self, rng: &mut R) -> (count: u64) {
        rng.sample_poisson()
    }
}

} // verus!

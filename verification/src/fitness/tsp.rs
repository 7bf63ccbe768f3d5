//! The travelling salesman problem on a matrix of distances.

use crate::fitness::FitnessFunction;
use crate::search_space::Permutation;
use crate::text;
use crate::text::{find_section, next_line, next_token, parse_decimal, parse_index, scan, ByteClass};
use vstd::prelude::*;
use vstd::string::*;

verus! {

/// `m` is square, and a tour through all its cities cannot be longer than
/// `u64::MAX`: each distance, taken once per city, stays below that.
pub open spec fn admissible(m: Seq<Seq<u64>>) -> bool {
    &&& forall|i: int| 0 <= i < m.len() ==> (#[trigger] m[i]).len() == m.len()
    &&& forall|i: int, j: int|
        0 <= i < m.len() && 0 <= j < m.len() ==> (#[trigger] m[i][j]) * m.len() <= u64::MAX
}

/// The length of the first `k` legs of `tour`: from its first city to its
/// `k`-th.
pub open spec fn path_length(m: Seq<Seq<u64>>, tour: Seq<usize>, k: nat) -> nat
    decreases k,
{
    if k == 0 {
        0
    } else {
        path_length(m, tour, (k - 1) as nat) + m[tour[k - 1] as int][tour[k as int] as int] as nat
    }
}

/// The length of the round trip: every leg between neighbours in `tour`,
/// and the leg from its last city back to its first.
pub open spec fn tour_length(m: Seq<Seq<u64>>, tour: Seq<usize>) -> nat {
    if tour.len() == 0 {
        0
    } else {
        path_length(m, tour, (tour.len() - 1) as nat) + m[tour.last() as int][tour[0] as int] as nat
    }
}

/// The rows of a matrix as sequences.
pub open spec fn rows(m: Seq<Vec<u64>>) -> Seq<Seq<u64>> {
    m.map_values(|row: Vec<u64>| row@)
}

proof fn lemma_scaled_bound(total: int, n: int, k: int)
    requires
        0 <= total,
        0 < n,
        0 <= k <= n,
        total * n <= k * u64::MAX,
    ensures
        total <= u64::MAX,
{
    assert(k * u64::MAX <= n * u64::MAX) by (nonlinear_arith)
        requires
            0 <= k <= n,
    ;
    assert(total <= u64::MAX) by (nonlinear_arith)
        requires
            total * n <= n * u64::MAX,
            0 < n,
    ;
}

/// The most cities that an instance read from text may have.
pub const MAX_CITIES: usize = 6_000_000;

/// No distance between two points read from text is larger.
pub const MAX_DISTANCE: u64 = 3_000_000_000_000;

/// The point that a record holds, in millionths: an index, which is not
/// used, and two decimals, separated by blanks. What follows them is not
/// read.
pub open spec fn record(line: Seq<u8>) -> Option<(int, int)> {
    let rest = text::after_first_token(line);
    let last = text::after_first_token(rest);
    match (
        text::index_value(text::first_token(line)),
        text::decimal_value(text::first_token(rest)),
        text::decimal_value(text::first_token(last)),
    ) {
        (Some(_), Some(x), Some(y)) => Some((x, y)),
        _ => None,
    }
}

/// The points of the lines, if each line holds a record.
pub open spec fn records(lines: Seq<Seq<u8>>) -> Option<Seq<(int, int)>> {
    if forall|i: int| 0 <= i < lines.len() ==> record(#[trigger] lines[i]) is Some {
        Some(Seq::new(lines.len(), |i: int| record(lines[i]).unwrap()))
    } else {
        None
    }
}

/// The points of an instance: the records on the lines between the first
/// line `NODE_COORD_SECTION` and the first line after it that starts with
/// `EOF`.
pub open spec fn coordinates(input: Seq<u8>) -> Option<Seq<(int, int)>> {
    match text::section(input, "NODE_COORD_SECTION\n".spec_bytes(), "\nEOF".spec_bytes()) {
        None => None,
        Some(body) => records(text::lines(body)),
    }
}

/// The square of the distance between two points.
pub open spec fn squared_gap(a: (int, int), b: (int, int)) -> int {
    (a.0 - b.0) * (a.0 - b.0) + (a.1 - b.1) * (a.1 - b.1)
}

/// `d` is the whole number nearest to the square root of `s` millionths
/// squared, taken in units; a root that ends in one half goes up.
pub open spec fn is_rounded_root(d: int, s: int) -> bool {
    &&& 0 <= d
    &&& 4 * s < (2 * d + 1) * (2 * d + 1) * 1_000_000_000_000
    &&& (d == 0 || (2 * d - 1) * (2 * d - 1) * 1_000_000_000_000 <= 4 * s)
}

/// The distance between two points given in millionths, rounded to the
/// nearest whole unit.
pub open spec fn rounded_distance_of(a: (int, int), b: (int, int)) -> int {
    choose|d: int| is_rounded_root(d, squared_gap(a, b))
}

/// Only one number is the rounded root.
pub proof fn lemma_rounded_root_unique(d: int, e: int, s: int)
    requires
        is_rounded_root(d, s),
        is_rounded_root(e, s),
    ensures
        d == e,
{
    if d < e {
        assert((2 * d + 1) * (2 * d + 1) <= (2 * e - 1) * (2 * e - 1)) by (nonlinear_arith)
            requires
                0 <= d < e,
        ;
    }
    if e < d {
        assert((2 * e + 1) * (2 * e + 1) <= (2 * d - 1) * (2 * d - 1)) by (nonlinear_arith)
            requires
                0 <= e < d,
        ;
    }
}

/// The distance from a point to itself is 0.
pub proof fn lemma_distance_to_itself(a: (int, int))
    ensures
        rounded_distance_of(a, a) == 0,
{
    assert(squared_gap(a, a) == 0) by (nonlinear_arith)
        requires
            squared_gap(a, a) == (a.0 - a.0) * (a.0 - a.0) + (a.1 - a.1) * (a.1 - a.1),
    ;
    let d: int = 0;
    assert((2 * d + 1) * (2 * d + 1) * 1_000_000_000_000 == 1_000_000_000_000)
        by (nonlinear_arith)
        requires
            d == 0,
    ;
    assert(is_rounded_root(d, 0));
    lemma_rounded_root_unique(0, rounded_distance_of(a, a), 0);
}

/// The distance is the same in both directions.
pub proof fn lemma_distance_is_symmetric(a: (int, int), b: (int, int))
    ensures
        rounded_distance_of(a, b) == rounded_distance_of(b, a),
{
    assert(squared_gap(a, b) == squared_gap(b, a)) by (nonlinear_arith)
        requires
            squared_gap(a, b) == (a.0 - b.0) * (a.0 - b.0) + (a.1 - b.1) * (a.1 - b.1),
            squared_gap(b, a) == (b.0 - a.0) * (b.0 - a.0) + (b.1 - a.1) * (b.1 - a.1),
    ;
}

/// The largest whole number whose square is at most `n`.
fn integer_root(n: u128) -> (r: u64)
    ensures
        r * r <= n < (r + 1) * (r + 1),
{
    let mut lo: u128 = 0;
    let mut hi: u128 = 0x1_0000_0000_0000_0000;
    while hi - lo > 1
        invariant
            lo < hi <= 0x1_0000_0000_0000_0000,
            lo * lo <= n < hi * hi,
        decreases hi - lo,
    {
        let mid = lo + (hi - lo) / 2;
        assert(mid * mid <= u128::MAX) by (nonlinear_arith)
            requires
                mid <= 0xFFFF_FFFF_FFFF_FFFF,
        ;
        if mid * mid <= n {
            lo = mid;
        } else {
            hi = mid;
        }
    }
    lo as u64
}

/// The distance between two points given in millionths, rounded to the
/// nearest whole unit.
fn rounded_distance(a: (i64, i64), b: (i64, i64)) -> (d: u64)
    requires
        -text::DECIMAL_LIMIT < a.0 < text::DECIMAL_LIMIT,
        -text::DECIMAL_LIMIT < a.1 < text::DECIMAL_LIMIT,
        -text::DECIMAL_LIMIT < b.0 < text::DECIMAL_LIMIT,
        -text::DECIMAL_LIMIT < b.1 < text::DECIMAL_LIMIT,
    ensures
        is_rounded_root(d as int, squared_gap((a.0 as int, a.1 as int), (b.0 as int, b.1 as int))),
        d <= MAX_DISTANCE,
{
    let dx: i128 = a.0 as i128 - b.0 as i128;
    let dy: i128 = a.1 as i128 - b.1 as i128;
    assert(0 <= dx * dx <= 4_000_000_000_000_000_000_000_000_000_000_000_000) by (nonlinear_arith)
        requires
            -2_000_000_000_000_000_000 < dx < 2_000_000_000_000_000_000,
    ;
    assert(0 <= dy * dy <= 4_000_000_000_000_000_000_000_000_000_000_000_000) by (nonlinear_arith)
        requires
            -2_000_000_000_000_000_000 < dy < 2_000_000_000_000_000_000,
    ;
    let s: u128 = (dx * dx + dy * dy) as u128;
    let n: u128 = 4 * s;
    let r = integer_root(n);
    assert(r < 6_000_000_000_000_000_000) by (nonlinear_arith)
        requires
            r * r <= n,
            n <= 32_000_000_000_000_000_000_000_000_000_000_000_000,
    ;
    let d = (r + 1_000_000) / 2_000_000;
    proof {
        let di = d as int;
        let ri = r as int;
        assert(2_000_000 * di <= ri + 1_000_000 < 2_000_000 * di + 2_000_000);
        assert((ri + 1) * (ri + 1) <= (2 * di + 1) * (2 * di + 1) * 1_000_000_000_000)
            by (nonlinear_arith)
            requires
                0 <= ri + 1 <= (2 * di + 1) * 1_000_000,
        ;
        if di > 0 {
            assert((2 * di - 1) * (2 * di - 1) * 1_000_000_000_000 <= ri * ri)
                by (nonlinear_arith)
                requires
                    0 <= (2 * di - 1) * 1_000_000 <= ri,
            ;
        }
    }
    d
}

/// Reads the record of `text[from..to]`.
fn parse_record(text: &[u8], from: usize, to: usize) -> (point: Option<(i64, i64)>)
    requires
        from <= to <= text@.len(),
    ensures
        match point {
            Some(p) => record(text@.subrange(from as int, to as int)) == Some(
                (p.0 as int, p.1 as int),
            ) && -text::DECIMAL_LIMIT < p.0 < text::DECIMAL_LIMIT && -text::DECIMAL_LIMIT < p.1
                < text::DECIMAL_LIMIT,
            None => record(text@.subrange(from as int, to as int)) is None,
        },
{
    let (a0, a1) = next_token(text, from, to);
    let index = parse_index(text, a0, a1);
    let (b0, b1) = next_token(text, a1, to);
    let x = parse_decimal(text, b0, b1);
    let (c0, c1) = next_token(text, b1, to);
    let y = parse_decimal(text, c0, c1);
    match (index, x, y) {
        (Some(_), Some(x), Some(y)) => Some((x, y)),
        _ => None,
    }
}

/// The points as pairs of whole numbers.
pub open spec fn points(coords: Seq<(i64, i64)>) -> Seq<(int, int)> {
    coords.map_values(|p: (i64, i64)| (p.0 as int, p.1 as int))
}

/// Reads the records on the lines of `text[from..to]`.
fn parse_records(text: &[u8], from: usize, to: usize) -> (coords: Option<Vec<(i64, i64)>>)
    requires
        from <= to <= text@.len(),
    ensures
        match coords {
            Some(c) => records(text::lines(text@.subrange(from as int, to as int))) == Some(
                points(c@),
            ) && forall|i: int|
                0 <= i < c@.len() ==> -text::DECIMAL_LIMIT < (#[trigger] c@[i]).0
                    < text::DECIMAL_LIMIT && -text::DECIMAL_LIMIT < c@[i].1 < text::DECIMAL_LIMIT,
            None => records(text::lines(text@.subrange(from as int, to as int))) is None,
        },
{
    let ghost body = text@.subrange(from as int, to as int);
    let ghost mut done: Seq<Seq<u8>> = Seq::empty();
    let mut coords: Vec<(i64, i64)> = Vec::new();
    let mut pos: usize = from;
    proof {
        assert(done + text::lines(body) =~= text::lines(body));
    }
    while pos < to
        invariant
            from <= pos <= to <= text@.len(),
            body == text@.subrange(from as int, to as int),
            text::lines(body) == done + text::lines(text@.subrange(pos as int, to as int)),
            done.len() == coords@.len(),
            forall|k: int|
                0 <= k < done.len() ==> record(#[trigger] done[k]) == Some(
                    (coords@[k].0 as int, coords@[k].1 as int),
                ),
            forall|i: int|
                0 <= i < coords@.len() ==> -text::DECIMAL_LIMIT < (#[trigger] coords@[i]).0
                    < text::DECIMAL_LIMIT && -text::DECIMAL_LIMIT < coords@[i].1
                    < text::DECIMAL_LIMIT,
        decreases to - pos,
    {
        let (stop, next) = next_line(text, pos, to);
        let ghost line = text@.subrange(pos as int, stop as int);
        proof {
            assert(text::lines(body) =~= done.push(line) + text::lines(
                text@.subrange(next as int, to as int),
            ));
        }
        match parse_record(text, pos, stop) {
            Some(p) => {
                coords.push(p);
            },
            None => {
                proof {
                    assert(text::lines(body)[done.len() as int] == line);
                }
                return None;
            },
        }
        proof {
            done = done.push(line);
        }
        pos = next;
    }
    proof {
        assert(text@.subrange(pos as int, to as int) =~= Seq::<u8>::empty());
        assert(text::lines(body) =~= done);
        assert(records(done).unwrap() =~= points(coords@));
    }
    Some(coords)
}

/// The city that a line of a tour names: one index, counted from 1, with
/// nothing but blanks around it; the city is counted from 0.
pub open spec fn tour_entry(line: Seq<u8>) -> Option<usize> {
    let rest = text::after_first_token(line);
    match text::index_value(text::first_token(line)) {
        Some(v) => if v >= 1 && text::run(rest, ByteClass::Blank) == rest.len() {
            Some((v - 1) as usize)
        } else {
            None
        },
        None => None,
    }
}

/// The cities of the lines, if each line names one.
pub open spec fn tour_entries(lines: Seq<Seq<u8>>) -> Option<Seq<usize>> {
    if forall|i: int| 0 <= i < lines.len() ==> tour_entry(#[trigger] lines[i]) is Some {
        Some(Seq::new(lines.len(), |i: int| tour_entry(lines[i]).unwrap()))
    } else {
        None
    }
}

/// The cities of a tour: the entries on the lines between the first line
/// `TOUR_SECTION` and the first line `-1` after it that a line starting
/// with `EOF` follows.
pub open spec fn tour_cities(input: Seq<u8>) -> Option<Seq<usize>> {
    match text::section(input, "TOUR_SECTION\n".spec_bytes(), "\n-1\nEOF".spec_bytes()) {
        None => None,
        Some(body) => tour_entries(text::lines(body)),
    }
}

/// Reads the entry of `text[from..to]`.
fn parse_tour_entry(text: &[u8], from: usize, to: usize) -> (city: Option<usize>)
    requires
        from <= to <= text@.len(),
    ensures
        city == tour_entry(text@.subrange(from as int, to as int)),
{
    let (a0, a1) = next_token(text, from, to);
    let index = parse_index(text, a0, a1);
    let end = scan(text, a1, to, ByteClass::Blank);
    match index {
        Some(v) => if v >= 1 && end == to {
            Some(v - 1)
        } else {
            None
        },
        None => None,
    }
}

/// Reads a tour from text: the cities in the tour section, each counted
/// from 0. `None` where the section's first or last line is missing or a
/// line of it names no city.
pub fn parse_tour(input: &str) -> (tour: Option<Vec<usize>>)
    ensures
        match tour {
            Some(t) => tour_cities(input.spec_bytes()) == Some(t@),
            None => tour_cities(input.spec_bytes()) is None,
        },
{
    let text = input.as_bytes();
    let header = "TOUR_SECTION\n".as_bytes();
    let footer = "\n-1\nEOF".as_bytes();
    let (from, to) = match find_section(text, header, footer) {
        Some(bounds) => bounds,
        None => {
            return None;
        },
    };
    let ghost body = text@.subrange(from as int, to as int);
    let ghost mut done: Seq<Seq<u8>> = Seq::empty();
    let mut cities: Vec<usize> = Vec::new();
    let mut pos: usize = from;
    proof {
        assert(done + text::lines(body) =~= text::lines(body));
    }
    while pos < to
        invariant
            from <= pos <= to <= text@.len(),
            body == text@.subrange(from as int, to as int),
            text::lines(body) == done + text::lines(text@.subrange(pos as int, to as int)),
            done.len() == cities@.len(),
            tour_cities(input.spec_bytes()) == tour_entries(text::lines(body)),
            forall|k: int| 0 <= k < done.len() ==> tour_entry(#[trigger] done[k]) == Some(cities@[k]),
        decreases to - pos,
    {
        let (stop, next) = next_line(text, pos, to);
        let ghost line = text@.subrange(pos as int, stop as int);
        proof {
            assert(text::lines(body) =~= done.push(line) + text::lines(
                text@.subrange(next as int, to as int),
            ));
        }
        match parse_tour_entry(text, pos, stop) {
            Some(city) => {
                cities.push(city);
            },
            None => {
                proof {
                    assert(text::lines(body)[done.len() as int] == line);
                }
                return None;
            },
        }
        proof {
            done = done.push(line);
        }
        pos = next;
    }
    proof {
        assert(text@.subrange(pos as int, to as int) =~= Seq::<u8>::empty());
        assert(text::lines(body) =~= done);
        assert(tour_entries(done).unwrap() =~= cities@);
    }
    Some(cities)
}

/// A problem instance: the distance from each city to each other one. The
/// matrix need not be symmetric.
pub struct TSP {
    distances: Vec<Vec<u64>>,
}

impl TSP {
    /// The distance matrix.
    pub closed spec fn matrix(&self) -> Seq<Seq<u64>> {
        rows(self.distances@)
    }

    /// The matrix is admissible.
    pub closed spec fn wf(&self) -> bool {
        admissible(self.matrix())
    }

    pub fn new(distances: Vec<Vec<u64>>) -> (tsp: Self)
        requires
            admissible(rows(distances@)),
        ensures
            tsp.wf(),
            tsp.matrix() == rows(distances@),
    {
        TSP { distances }
    }

    /// The matrix of an instance is square.
    pub proof fn lemma_square(&self)
        requires
            self.wf(),
        ensures
            admissible(self.matrix()),
            forall|i: int|
                0 <= i < self.matrix().len() ==> (#[trigger] self.matrix()[i]).len()
                    == self.matrix().len(),
    {
    }

    pub fn num_vertices(&self) -> (n: u64)
        ensures
            n == self.matrix().len(),
    {
        self.distances.len() as u64
    }

    pub fn num_cities(&self) -> (n: usize)
        ensures
            n == self.matrix().len(),
    {
        self.distances.len()
    }

    /// Reads an instance from text: the points in the coordinate section,
    /// and between each two of them the Euclidean distance, rounded to the
    /// nearest whole number. A coordinate is a decimal, with an exponent or
    /// without; it is read to the nearest millionth, and a magnitude of a
    /// million millions or more counts as the largest one below that.
    ///
    /// `None` where the section's first or last line is missing, a line of
    /// it holds no record, or there are more than `MAX_CITIES` points.
    pub fn from_euc2d(input: &str) -> (tsp: Option<TSP>)
        ensures
            match tsp {
                Some(t) => {
                    &&& coordinates(input.spec_bytes()) matches Some(c)
                    &&& c.len() <= MAX_CITIES
                    &&& t.wf()
                    &&& t.matrix().len() == c.len()
                    &&& forall|i: int, j: int|
                        0 <= i < c.len() && 0 <= j < c.len() ==> (#[trigger] t.matrix()[i][j])
                            == rounded_distance_of(c[i], c[j])
                },
                None => coordinates(input.spec_bytes()) matches Some(c) ==> c.len() > MAX_CITIES,
            },
    {
        let bytes = input.as_bytes();
        let header = "NODE_COORD_SECTION\n".as_bytes();
        let footer = "\nEOF".as_bytes();
        let (from, to) = match find_section(bytes, header, footer) {
            Some(bounds) => bounds,
            None => {
                return None;
            },
        };
        let coords = match parse_records(bytes, from, to) {
            Some(coords) => coords,
            None => {
                return None;
            },
        };
        let n = coords.len();
        if n > MAX_CITIES {
            return None;
        }
        let ghost c = points(coords@);
        let mut distances: Vec<Vec<u64>> = Vec::new();
        let mut i: usize = 0;
        while i < n
            invariant
                i <= n,
                n == coords@.len(),
                n <= MAX_CITIES,
                c == points(coords@),
                distances@.len() == i,
                forall|k: int|
                    0 <= k < coords@.len() ==> -text::DECIMAL_LIMIT < (#[trigger] coords@[k]).0
                        < text::DECIMAL_LIMIT && -text::DECIMAL_LIMIT < coords@[k].1
                        < text::DECIMAL_LIMIT,
                forall|a: int| 0 <= a < i ==> (#[trigger] distances@[a])@.len() == n,
                forall|a: int, b: int|
                    0 <= a < i && 0 <= b < n ==> is_rounded_root(
                        (#[trigger] distances@[a]@[b]) as int,
                        squared_gap(c[a], c[b]),
                    ) && distances@[a]@[b] <= MAX_DISTANCE,
            decreases n - i,
        {
            let mut row: Vec<u64> = Vec::new();
            let mut j: usize = 0;
            while j < n
                invariant
                    i < n,
                    j <= n,
                    n == coords@.len(),
                    c == points(coords@),
                    row@.len() == j,
                    forall|k: int|
                        0 <= k < coords@.len() ==> -text::DECIMAL_LIMIT < (#[trigger] coords@[k]).0
                            < text::DECIMAL_LIMIT && -text::DECIMAL_LIMIT < coords@[k].1
                            < text::DECIMAL_LIMIT,
                    forall|b: int|
                        0 <= b < j ==> is_rounded_root(
                            (#[trigger] row@[b]) as int,
                            squared_gap(c[i as int], c[b]),
                        ) && row@[b] <= MAX_DISTANCE,
                decreases n - j,
            {
                let d = rounded_distance(coords[i], coords[j]);
                row.push(d);
                j += 1;
            }
            distances.push(row);
            i += 1;
        }
        let tsp = TSP { distances };
        proof {
            let m = tsp.matrix();
            assert(m.len() == n);
            assert forall|a: int| 0 <= a < m.len() implies (#[trigger] m[a]).len() == m.len() by {
                assert(m[a] == tsp.distances@[a]@);
            }
            assert forall|a: int, b: int| 0 <= a < m.len() && 0 <= b < m.len() implies (
            #[trigger] m[a][b]) * m.len() <= u64::MAX by {
                assert(m[a] == tsp.distances@[a]@);
                assert(tsp.distances@[a]@[b] <= MAX_DISTANCE);
                assert(m[a][b] * n <= MAX_DISTANCE * MAX_CITIES) by (nonlinear_arith)
                    requires
                        0 <= m[a][b] <= MAX_DISTANCE,
                        0 <= n <= MAX_CITIES,
                ;
            }
            assert forall|a: int, b: int| 0 <= a < c.len() && 0 <= b < c.len() implies (
            #[trigger] tsp.matrix()[a][b]) == rounded_distance_of(c[a], c[b]) by {
                assert(m[a] == tsp.distances@[a]@);
                assert(is_rounded_root(tsp.distances@[a]@[b] as int, squared_gap(c[a], c[b])));
                lemma_rounded_root_unique(
                    tsp.distances@[a]@[b] as int,
                    rounded_distance_of(c[a], c[b]),
                    squared_gap(c[a], c[b]),
                );
            }
        }
        Some(tsp)
    }

    /// A copy of the distance matrix.
    pub fn distances(&self) -> (copy: Vec<Vec<u64>>)
        ensures
            rows(copy@) == self.matrix(),
    {
        let mut copy: Vec<Vec<u64>> = Vec::new();
        let mut i: usize = 0;
        while i < self.distances.len()
            invariant
                i <= self.distances@.len(),
                copy@.len() == i,
                forall|k: int| 0 <= k < i ==> (#[trigger] copy@[k])@ == self.distances@[k]@,
            decreases self.distances.len() - i,
        {
            let row = &self.distances[i];
            let mut fresh: Vec<u64> = Vec::new();
            let mut j: usize = 0;
            while j < row.len()
                invariant
                    j <= row@.len(),
                    fresh@ == row@.take(j as int),
                decreases row.len() - j,
            {
                fresh.push(row[j]);
                proof {
                    assert(fresh@ =~= row@.take(j + 1));
                }
                j += 1;
            }
            proof {
                assert(row@.take(j as int) =~= row@);
            }
            copy.push(fresh);
            i += 1;
        }
        proof {
            assert(rows(copy@) =~= rows(self.distances@));
        }
        copy
    }
}

impl FitnessFunction<Permutation> for TSP {
    open spec fn fits(&self, size: nat) -> bool {
        self.wf() && size == self.matrix().len()
    }

    open spec fn score(&self, instance: Seq<usize>) -> u64 {
        tour_length(self.matrix(), instance) as u64
    }

    open spec fn maximizing(&self) -> bool {
        false
    }

    /// The length of the round trip; 0 for the empty tour.
    fn evaluate(&self, instance: &Permutation) -> (fitness: u64)
        ensures
            fitness == tour_length(self.matrix(), instance@),
    {
        let p = instance.permutation();
        let n = p.len();
        if n == 0 {
            return 0;
        }
        let ghost m = self.matrix();
        let mut total: u64 = 0;
        let mut k: usize = 0;
        while k < n - 1
            invariant
                n == p@.len(),
                n == m.len(),
                n > 0,
                m == rows(self.distances@),
                admissible(m),
                crate::search_space::is_permutation(p@),
                k <= n - 1,
                total == path_length(m, p@, k as nat),
                total * n <= k * u64::MAX,
            decreases n - 1 - k,
        {
            let from = p[k];
            let to = p[k + 1];
            assert(from < n && to < n);
            assert(m[from as int] == self.distances@[from as int]@);
            let leg = self.distances[from][to];
            proof {
                assert(leg * n <= u64::MAX);
                assert((total + leg) * n <= (k + 1) * u64::MAX) by (nonlinear_arith)
                    requires
                        total * n <= k * u64::MAX,
                        leg * n <= u64::MAX,
                ;
                lemma_scaled_bound(total + leg, n as int, k + 1);
            }
            total += leg;
            k += 1;
        }
        let from = p[n - 1];
        let to = p[0];
        assert(from < n && to < n);
        assert(m[from as int] == self.distances@[from as int]@);
        let leg = self.distances[from][to];
        proof {
            assert(leg * n <= u64::MAX);
            assert((total + leg) * n <= n * u64::MAX) by (nonlinear_arith)
                requires
                    total * n <= (n - 1) * u64::MAX,
                    leg * n <= u64::MAX,
            ;
            lemma_scaled_bound(total + leg, n as int, n as int);
        }
        total + leg
    }

    fn is_maximizing(&self) -> (maximizing: bool) {
        false
    }
}

} // verus!

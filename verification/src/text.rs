//! Reading bytes: runs of a class of bytes, occurrences of a pattern, lines,
//! blank-separated tokens and decimal numbers.

use vstd::prelude::*;

verus! {

/// A class of bytes.
#[derive(Debug, Clone, Copy, PartialEq, Eq, Structural)]
pub enum ByteClass {
    /// A blank, a tab, a line feed, a vertical tab, a form feed or a
    /// carriage return.
    Blank,
    /// Any byte that is not in `Blank`.
    Solid,
    /// A decimal digit.
    Digit,
    /// Any byte but the line feed.
    Inline,
}

impl ByteClass {
    pub open spec fn holds(self, b: u8) -> bool {
        match self {
            ByteClass::Blank => b == 32 || 9 <= b <= 13,
            ByteClass::Solid => !(b == 32 || 9 <= b <= 13),
            ByteClass::Digit => 48 <= b <= 57,
            ByteClass::Inline => b != 10,
        }
    }

    pub fn test(self, b: u8) -> (r: bool)
        ensures
            r == self.holds(b),
    {
        match self {
            ByteClass::Blank => b == 32 || (9 <= b && b <= 13),
            ByteClass::Solid => !(b == 32 || (9 <= b && b <= 13)),
            ByteClass::Digit => 48 <= b && b <= 57,
            ByteClass::Inline => b != 10,
        }
    }
}

/// The length of the longest prefix of `text` whose bytes are all in
/// `class`.
pub open spec fn run(text: Seq<u8>, class: ByteClass) -> nat
    decreases text.len(),
{
    if text.len() == 0 || !class.holds(text[0]) {
        0
    } else {
        1 + run(text.skip(1), class)
    }
}

/// The run is a prefix of bytes of the class that ends at the end of the
/// text or before a byte outside the class.
pub proof fn lemma_run_is_prefix(text: Seq<u8>, class: ByteClass)
    ensures
        run(text, class) <= text.len(),
        forall|i: int| 0 <= i < run(text, class) ==> class.holds(#[trigger] text[i]),
        run(text, class) < text.len() ==> !class.holds(text[run(text, class) as int]),
    decreases text.len(),
{
    if text.len() > 0 && class.holds(text[0]) {
        let rest = text.skip(1);
        lemma_run_is_prefix(rest, class);
        assert forall|i: int| 0 <= i < run(text, class) implies class.holds(#[trigger] text[i]) by {
            if i > 0 {
                assert(rest[i - 1] == text[i]);
            }
        }
        if run(text, class) < text.len() {
            assert(rest[run(rest, class) as int] == text[run(text, class) as int]);
        }
    }
}

/// A prefix of bytes of the class that ends at the end of the text or
/// before a byte outside the class is the run.
pub proof fn lemma_prefix_is_run(text: Seq<u8>, class: ByteClass, k: int)
    requires
        0 <= k <= text.len(),
        forall|i: int| 0 <= i < k ==> class.holds(#[trigger] text[i]),
        k < text.len() ==> !class.holds(text[k]),
    ensures
        run(text, class) == k,
    decreases text.len(),
{
    if k > 0 {
        assert(class.holds(text[0]));
        let rest = text.skip(1);
        assert forall|i: int| 0 <= i < k - 1 implies class.holds(#[trigger] rest[i]) by {
            assert(rest[i] == text[i + 1]);
        }
        lemma_prefix_is_run(rest, class, k - 1);
    }
}

/// Where the run of `class` that starts at `from` ends, looking no further
/// than `to`.
pub fn scan(text: &[u8], from: usize, to: usize, class: ByteClass) -> (end: usize)
    requires
        from <= to <= text@.len(),
    ensures
        from <= end <= to,
        end == from + run(text@.subrange(from as int, to as int), class),
{
    let mut end = from;
    while end < to && class.test(text[end])
        invariant
            from <= end <= to <= text@.len(),
            forall|i: int| from <= i < end ==> class.holds(#[trigger] text@[i]),
        decreases to - end,
    {
        end += 1;
    }
    proof {
        let part = text@.subrange(from as int, to as int);
        assert forall|i: int| 0 <= i < end - from implies class.holds(#[trigger] part[i]) by {
            assert(part[i] == text@[from + i]);
        }
        lemma_prefix_is_run(part, class, end - from);
    }
    end
}

/// `pattern` stands in `text` at position `at`.
pub open spec fn occurs_at(text: Seq<u8>, pattern: Seq<u8>, at: int) -> bool {
    &&& 0 <= at
    &&& at + pattern.len() <= text.len()
    &&& text.subrange(at, at + pattern.len()) == pattern
}

/// `pattern` stands at `at`, and nowhere before.
pub open spec fn first_at(text: Seq<u8>, pattern: Seq<u8>, at: int) -> bool {
    &&& occurs_at(text, pattern, at)
    &&& forall|e: int| 0 <= e < at ==> !occurs_at(text, pattern, e)
}

/// The position of the first occurrence of `pattern` in `text`.
pub open spec fn first_occurrence(text: Seq<u8>, pattern: Seq<u8>) -> Option<int> {
    if exists|at: int| first_at(text, pattern, at) {
        Some(choose|at: int| first_at(text, pattern, at))
    } else {
        None
    }
}

/// There is at most one first occurrence.
pub proof fn lemma_first_occurrence(text: Seq<u8>, pattern: Seq<u8>, at: int)
    requires
        first_at(text, pattern, at),
    ensures
        first_occurrence(text, pattern) == Some(at),
{
    let chosen = choose|c: int| first_at(text, pattern, c);
    assert(first_at(text, pattern, chosen));
    if chosen < at {
        assert(!occurs_at(text, pattern, chosen));
    }
    if at < chosen {
        assert(!occurs_at(text, pattern, at));
    }
}

/// Where `pattern` first stands in `text[from..]`, counted from `from`.
pub fn find(text: &[u8], from: usize, pattern: &[u8]) -> (found: Option<usize>)
    requires
        from <= text@.len(),
    ensures
        match found {
            Some(at) => first_occurrence(text@.skip(from as int), pattern@) == Some(at as int),
            None => first_occurrence(text@.skip(from as int), pattern@) is None,
        },
{
    let ghost tail = text@.skip(from as int);
    let n = text.len() - from;
    let m = pattern.len();
    if m > n {
        proof {
            assert forall|at: int| !first_at(tail, pattern@, at) by {}
        }
        return None;
    }
    let mut at: usize = 0;
    while at <= n - m
        invariant
            m <= n,
            from <= text@.len() <= usize::MAX,
            n == text@.len() - from,
            m == pattern@.len(),
            tail == text@.skip(from as int),
            at <= n - m + 1,
            forall|e: int| 0 <= e < at ==> !occurs_at(tail, pattern@, e),
        decreases n - m + 1 - at,
    {
        let mut k: usize = 0;
        while k < m && text[from + at + k] == pattern[k]
            invariant
                m == pattern@.len(),
                from <= text@.len() <= usize::MAX,
                n == text@.len() - from,
                at + m <= n,
                k <= m,
                tail == text@.skip(from as int),
                forall|i: int| 0 <= i < k ==> tail[at + i] == #[trigger] pattern@[i],
            decreases m - k,
        {
            k += 1;
        }
        if k == m {
            proof {
                assert(tail.subrange(at as int, at + m) =~= pattern@);
                lemma_first_occurrence(tail, pattern@, at as int);
            }
            return Some(at);
        }
        proof {
            if occurs_at(tail, pattern@, at as int) {
                assert(tail.subrange(at as int, at + m)[k as int] == pattern@[k as int]);
                assert(tail[at + k] == text@[from + at + k]);
            }
        }
        at += 1;
    }
    proof {
        assert forall|e: int| !first_at(tail, pattern@, e) by {
            if occurs_at(tail, pattern@, e) {
                assert(e <= n - m);
            }
        }
    }
    None
}

/// What stands between the first `header` of `text` and the first `footer`
/// after it.
pub open spec fn section(text: Seq<u8>, header: Seq<u8>, footer: Seq<u8>) -> Option<Seq<u8>> {
    match first_occurrence(text, header) {
        None => None,
        Some(h) => {
            let data = text.skip(h + header.len());
            match first_occurrence(data, footer) {
                None => None,
                Some(f) => Some(data.take(f)),
            }
        },
    }
}

/// The bounds of the section of `text` between `header` and `footer`.
pub fn find_section(text: &[u8], header: &[u8], footer: &[u8]) -> (bounds: Option<(usize, usize)>)
    ensures
        match bounds {
            Some((from, to)) => from <= to <= text@.len() && section(text@, header@, footer@)
                == Some(text@.subrange(from as int, to as int)),
            None => section(text@, header@, footer@) is None,
        },
{
    proof {
        assert(text@.skip(0) =~= text@);
    }
    let h = match find(text, 0, header) {
        Some(h) => h,
        None => {
            return None;
        },
    };
    proof {
        let chosen = first_occurrence(text@, header@).unwrap();
        assert(first_at(text@, header@, chosen));
        assert(text@.len() == text.len());
    }
    let from = h + header.len();
    let f = match find(text, from, footer) {
        Some(f) => f,
        None => {
            return None;
        },
    };
    proof {
        let data = text@.skip(from as int);
        let chosen = first_occurrence(data, footer@).unwrap();
        assert(first_at(data, footer@, chosen));
        assert(data.take(f as int) =~= text@.subrange(from as int, from + f));
    }
    Some((from, from + f))
}

/// The lines of `text`: the pieces between line feeds. A line feed at the
/// very end closes the last line and opens no empty one.
pub open spec fn lines(text: Seq<u8>) -> Seq<Seq<u8>>
    decreases text.len(),
{
    if text.len() == 0 {
        Seq::empty()
    } else {
        let k = run(text, ByteClass::Inline);
        if k >= text.len() {
            seq![text]
        } else {
            seq![text.take(k as int)] + lines(text.skip(k as int + 1))
        }
    }
}

/// Where the first line of `text[from..to]` ends, and where what follows it
/// starts.
pub fn next_line(text: &[u8], from: usize, to: usize) -> (bounds: (usize, usize))
    requires
        from < to <= text@.len(),
    ensures
        from <= bounds.0 <= to,
        from < bounds.1 <= to,
        lines(text@.subrange(from as int, to as int)) == seq![
            text@.subrange(from as int, bounds.0 as int),
        ] + lines(text@.subrange(bounds.1 as int, to as int)),
{
    let stop = scan(text, from, to, ByteClass::Inline);
    let next = if stop < to {
        stop + 1
    } else {
        to
    };
    proof {
        let rest = text@.subrange(from as int, to as int);
        let line = text@.subrange(from as int, stop as int);
        let after = text@.subrange(next as int, to as int);
        if stop < to {
            assert(rest.take(stop - from) =~= line);
            assert(rest.skip(stop - from + 1) =~= after);
        } else {
            assert(rest =~= line);
            assert(after =~= Seq::<u8>::empty());
            assert(lines(rest) =~= seq![line] + lines(after));
        }
    }
    (stop, next)
}

/// The first blank-separated token of `line`; empty where there is none.
pub open spec fn first_token(line: Seq<u8>) -> Seq<u8> {
    let solid = line.skip(run(line, ByteClass::Blank) as int);
    solid.take(run(solid, ByteClass::Solid) as int)
}

/// What follows the first token of `line`.
pub open spec fn after_first_token(line: Seq<u8>) -> Seq<u8> {
    let solid = line.skip(run(line, ByteClass::Blank) as int);
    solid.skip(run(solid, ByteClass::Solid) as int)
}

/// The bounds of the first token of `text[from..to]`.
pub fn next_token(text: &[u8], from: usize, to: usize) -> (bounds: (usize, usize))
    requires
        from <= to <= text@.len(),
    ensures
        from <= bounds.0 <= bounds.1 <= to,
        text@.subrange(bounds.0 as int, bounds.1 as int) == first_token(
            text@.subrange(from as int, to as int),
        ),
        text@.subrange(bounds.1 as int, to as int) == after_first_token(
            text@.subrange(from as int, to as int),
        ),
{
    let start = scan(text, from, to, ByteClass::Blank);
    let end = scan(text, start, to, ByteClass::Solid);
    proof {
        let line = text@.subrange(from as int, to as int);
        let solid = line.skip(run(line, ByteClass::Blank) as int);
        assert(solid =~= text@.subrange(start as int, to as int));
        assert(solid.take(run(solid, ByteClass::Solid) as int) =~= text@.subrange(
            start as int,
            end as int,
        ));
        assert(solid.skip(run(solid, ByteClass::Solid) as int) =~= text@.subrange(
            end as int,
            to as int,
        ));
    }
    (start, end)
}

/// Every byte is a decimal digit.
pub open spec fn all_digits(text: Seq<u8>) -> bool {
    forall|i: int| 0 <= i < text.len() ==> ByteClass::Digit.holds(#[trigger] text[i])
}

/// The number that the decimal digits spell; 0 for none.
pub open spec fn digits_value(digits: Seq<u8>) -> nat
    decreases digits.len(),
{
    if digits.len() == 0 {
        0
    } else {
        digits_value(digits.drop_last()) * 10 + (digits.last() - 48) as nat
    }
}

/// Ten to the power of `e`.
pub open spec fn pow10(e: nat) -> nat
    decreases e,
{
    if e == 0 {
        1
    } else {
        10 * pow10((e - 1) as nat)
    }
}

/// A number of `k` digits is below ten to the power of `k`.
pub proof fn lemma_digits_value_bound(digits: Seq<u8>)
    requires
        all_digits(digits),
    ensures
        digits_value(digits) < pow10(digits.len()),
    decreases digits.len(),
{
    if digits.len() > 0 {
        let front = digits.drop_last();
        assert forall|i: int| 0 <= i < front.len() implies ByteClass::Digit.holds(
            #[trigger] front[i],
        ) by {
            assert(front[i] == digits[i]);
        }
        lemma_digits_value_bound(front);
        assert(ByteClass::Digit.holds(digits[digits.len() - 1]));
    }
}

/// More digits never spell a smaller number.
pub proof fn lemma_digits_value_grows(digits: Seq<u8>, k: int)
    requires
        all_digits(digits),
        0 <= k <= digits.len(),
    ensures
        digits_value(digits.take(k)) <= digits_value(digits),
    decreases digits.len() - k,
{
    if k < digits.len() {
        let front = digits.drop_last();
        assert forall|i: int| 0 <= i < front.len() implies ByteClass::Digit.holds(
            #[trigger] front[i],
        ) by {
            assert(front[i] == digits[i]);
        }
        assert(ByteClass::Digit.holds(digits[digits.len() - 1]));
        if k == digits.len() - 1 {
            assert(digits.take(k) =~= front);
        } else {
            lemma_digits_value_grows(front, k);
            assert(front.take(k) =~= digits.take(k));
        }
    } else {
        assert(digits.take(k) =~= digits);
    }
}

/// The digits without the `+` that may stand before them.
pub open spec fn unsigned_digits(token: Seq<u8>) -> Seq<u8> {
    if token.len() > 0 && token[0] == 43 {
        token.skip(1)
    } else {
        token
    }
}

/// The index that `token` spells: decimal digits, at least one, with or
/// without a `+` before them, and a value that `usize` holds.
pub open spec fn index_value(token: Seq<u8>) -> Option<nat> {
    let digits = unsigned_digits(token);
    if digits.len() > 0 && all_digits(digits) && digits_value(digits) <= usize::MAX {
        Some(digits_value(digits))
    } else {
        None
    }
}

/// Reads `text[from..to]` as an index.
pub fn parse_index(text: &[u8], from: usize, to: usize) -> (value: Option<usize>)
    requires
        from <= to <= text@.len(),
    ensures
        match value {
            Some(v) => index_value(text@.subrange(from as int, to as int)) == Some(v as nat),
            None => index_value(text@.subrange(from as int, to as int)) is None,
        },
{
    let ghost token = text@.subrange(from as int, to as int);
    let start = if from < to && text[from] == 43 {
        from + 1
    } else {
        from
    };
    let ghost digits = text@.subrange(start as int, to as int);
    proof {
        if from < to {
            assert(token[0] == text@[from as int]);
        }
        assert(digits =~= unsigned_digits(token));
    }
    if start == to {
        return None;
    }
    let mut value: usize = 0;
    let mut i: usize = start;
    while i < to
        invariant
            start <= i <= to <= text@.len(),
            start < to,
            digits == text@.subrange(start as int, to as int),
            digits == unsigned_digits(token),
            token == text@.subrange(from as int, to as int),
            forall|k: int| 0 <= k < i - start ==> ByteClass::Digit.holds(#[trigger] digits[k]),
            value == digits_value(digits.take(i - start)),
        decreases to - i,
    {
        let byte = text[i];
        proof {
            assert(digits[i - start] == byte);
        }
        if !ByteClass::Digit.test(byte) {
            proof {
                assert(!ByteClass::Digit.holds(digits[i - start]));
            }
            return None;
        }
        let d = (byte - 48) as usize;
        proof {
            assert(digits.take(i - start + 1).drop_last() =~= digits.take(i - start));
            assert(digits.take(i - start + 1).last() == byte);
        }
        if value > (usize::MAX - d) / 10 {
            proof {
                assert(value * 10 + d > usize::MAX);
                assert(digits_value(digits.take(i - start + 1)) == value * 10 + d);
                if all_digits(digits) {
                    lemma_digits_value_grows(digits, i - start + 1);
                }
            }
            return None;
        }
        value = value * 10 + d;
        i += 1;
    }
    proof {
        assert(digits.take(i - start) =~= digits);
    }
    Some(value)
}

/// The magnitude of a decimal, in millionths, is below this.
pub const DECIMAL_LIMIT: i64 = 1_000_000_000_000_000_000;

/// The token without the sign that may stand before it.
pub open spec fn unsigned_part(token: Seq<u8>) -> Seq<u8> {
    if token.len() > 0 && (token[0] == 43 || token[0] == 45) {
        token.skip(1)
    } else {
        token
    }
}

/// The digits before the point.
pub open spec fn whole_of(body: Seq<u8>) -> Seq<u8> {
    body.take(run(body, ByteClass::Digit) as int)
}

/// What follows the digits before the point.
pub open spec fn after_whole(body: Seq<u8>) -> Seq<u8> {
    body.skip(run(body, ByteClass::Digit) as int)
}

/// A point follows the digits before it.
pub open spec fn has_point(body: Seq<u8>) -> bool {
    after_whole(body).len() > 0 && after_whole(body)[0] == 46
}

/// The digits after the point; none where there is no point.
pub open spec fn fraction_of(body: Seq<u8>) -> Seq<u8> {
    if has_point(body) {
        let tail = after_whole(body).skip(1);
        tail.take(run(tail, ByteClass::Digit) as int)
    } else {
        Seq::empty()
    }
}

/// What follows the digits and the point.
pub open spec fn after_fraction(body: Seq<u8>) -> Seq<u8> {
    if has_point(body) {
        let tail = after_whole(body).skip(1);
        tail.skip(run(tail, ByteClass::Digit) as int)
    } else {
        after_whole(body)
    }
}

/// The whole number that `text` spells: a sign or none, and at least one
/// digit.
pub open spec fn signed_value(text: Seq<u8>) -> Option<int> {
    let digits = unsigned_part(text);
    if digits.len() >= 1 && all_digits(digits) {
        if text[0] == 45 {
            Some(-(digits_value(digits) as int))
        } else {
            Some(digits_value(digits) as int)
        }
    } else {
        None
    }
}

/// The exponent that follows the digits and the point: 0 where nothing
/// follows them, else the whole number after the letter `e` or `E`.
pub open spec fn exponent_of(body: Seq<u8>) -> Option<int> {
    let tail = after_fraction(body);
    if tail.len() == 0 {
        Some(0)
    } else if tail[0] == 101 || tail[0] == 69 {
        signed_value(tail.skip(1))
    } else {
        None
    }
}

/// The number that the digits spell with the point after the first `k` of
/// them, rounded to the nearest whole number; a half goes up. Where `k` is
/// past the digits, zeros stand in the places that are missing; where `k`
/// is negative, zeros stand before the digits, and the number rounds to 0.
pub open spec fn rounded_at(digits: Seq<u8>, k: int) -> nat {
    if k < 0 {
        0
    } else if k < digits.len() {
        digits_value(digits.take(k)) + if digits[k] >= 53 {
            1nat
        } else {
            0nat
        }
    } else {
        digits_value(digits) * pow10((k - digits.len()) as nat)
    }
}

/// `x`, or `limit` where `x` is that much or more.
pub open spec fn capped(x: int, limit: int) -> int {
    if x >= limit {
        limit
    } else {
        x
    }
}

/// The decimal that `token` spells, in millionths: a sign or none; digits,
/// with or without a point among them or beside them, at least one digit;
/// and an exponent or none. The value is rounded to the nearest millionth,
/// a half away from zero, and a magnitude of `DECIMAL_LIMIT` millionths or
/// more counts as the largest one below it. `None` where the token is of
/// another form.
pub open spec fn decimal_value(token: Seq<u8>) -> Option<int> {
    let body = unsigned_part(token);
    let whole = whole_of(body);
    let fraction = fraction_of(body);
    if whole.len() + fraction.len() == 0 {
        None
    } else {
        match exponent_of(body) {
            None => None,
            Some(exponent) => {
                let exact = rounded_at(whole + fraction, whole.len() + exponent + 6);
                let magnitude = if exact >= DECIMAL_LIMIT {
                    DECIMAL_LIMIT - 1
                } else {
                    exact as int
                };
                if token[0] == 45 {
                    Some(-magnitude)
                } else {
                    Some(magnitude)
                }
            },
        }
    }
}

proof fn lemma_pow10_values()
    ensures
        pow10(0) == 1,
        pow10(1) == 10,
        pow10(18) == 1_000_000_000_000_000_000,
{
    reveal_with_fuel(pow10, 19);
}

proof fn lemma_pow10_positive(e: nat)
    ensures
        pow10(e) > 0,
    decreases e,
{
    if e > 0 {
        lemma_pow10_positive((e - 1) as nat);
    }
}

proof fn lemma_pow10_monotonic(a: nat, b: nat)
    requires
        a <= b,
    ensures
        pow10(a) <= pow10(b),
    decreases b,
{
    if a < b {
        lemma_pow10_monotonic(a, (b - 1) as nat);
    }
}

/// The digits of two sequences in a row spell the number of the first,
/// moved up by the length of the second, plus the number of the second.
pub proof fn lemma_digits_value_concat(a: Seq<u8>, b: Seq<u8>)
    ensures
        digits_value(a + b) == digits_value(a) * pow10(b.len()) + digits_value(b),
    decreases b.len(),
{
    if b.len() == 0 {
        assert(a + b =~= a);
        assert(pow10(0) == 1);
        assert(digits_value(b) == 0);
        assert(digits_value(a) * 1 == digits_value(a));
    } else {
        let front = b.drop_last();
        let last = (b.last() - 48) as nat;
        lemma_digits_value_concat(a, front);
        assert((a + b).drop_last() =~= a + front);
        assert((a + b).last() == b.last());
        assert(pow10(b.len()) == 10 * pow10(front.len()));
        assert(digits_value(a + b) == digits_value(a + front) * 10 + last);
        assert(digits_value(b) == digits_value(front) * 10 + last);
        assert((digits_value(a) * pow10(front.len()) + digits_value(front)) * 10 + last
            == digits_value(a) * (10 * pow10(front.len())) + (digits_value(front) * 10 + last))
            by (nonlinear_arith);
    }
}

/// What is capped may be capped before it is moved up and added to.
proof fn lemma_capped_absorbs(a: int, p: int, d: int, limit: int)
    requires
        a >= 0,
        d >= 0,
        limit >= 0,
        p >= 1,
    ensures
        capped(capped(a, limit) * p + d, limit) == capped(a * p + d, limit),
{
    if a >= limit {
        assert(a * p >= limit) by (nonlinear_arith)
            requires
                a >= limit,
                limit >= 0,
                p >= 1,
        ;
        assert(limit * p >= limit) by (nonlinear_arith)
            requires
                limit >= 0,
                p >= 1,
        ;
    }
}

/// `rounded_at` is the nearest whole number, and a half goes up: with `n`
/// digits after the point, twice the number that all digits spell lies from
/// `2 * rounded - 1` to just below `2 * rounded + 1`, each taken `10^n`
/// times.
pub proof fn lemma_rounded_at_is_nearest(digits: Seq<u8>, k: int)
    requires
        all_digits(digits),
        0 <= k <= digits.len(),
    ensures
        (2 * rounded_at(digits, k) - 1) * pow10((digits.len() - k) as nat) <= 2 * digits_value(
            digits,
        ),
        2 * digits_value(digits) < (2 * rounded_at(digits, k) + 1) * pow10(
            (digits.len() - k) as nat,
        ),
{
    let n = (digits.len() - k) as nat;
    let v = digits_value(digits) as int;
    if n == 0 {
        assert(pow10(0) == 1);
        assert(v * pow10(0) == v) by (nonlinear_arith)
            requires
                pow10(0) == 1,
        ;
        assert((2 * v - 1) * pow10(0) == 2 * v - 1 && (2 * v + 1) * pow10(0) == 2 * v + 1)
            by (nonlinear_arith)
            requires
                pow10(0) == 1,
        ;
    } else {
        let head = digits_value(digits.take(k)) as int;
        let rest = digits.skip(k);
        let first = seq![rest[0]];
        let tail = rest.skip(1);
        let c = (rest[0] - 48) as int;
        let t = digits_value(tail) as int;
        let p = pow10((n - 1) as nat) as int;
        assert(digits.take(k) + rest =~= digits);
        assert(first + tail =~= rest);
        lemma_digits_value_concat(digits.take(k), rest);
        lemma_digits_value_concat(first, tail);
        assert(ByteClass::Digit.holds(digits[k]));
        assert(rest[0] == digits[k]);
        assert(digits_value(first) == c) by {
            assert(first.drop_last() =~= Seq::<u8>::empty());
            assert(digits_value(first.drop_last()) == 0);
        }
        assert forall|i: int| 0 <= i < tail.len() implies ByteClass::Digit.holds(
            #[trigger] tail[i],
        ) by {
            assert(tail[i] == digits[k + 1 + i]);
        }
        lemma_digits_value_bound(tail);
        lemma_pow10_positive((n - 1) as nat);
        assert(pow10(n) == 10 * p);
        assert(v == head * (10 * p) + (c * p + t));
        let r = rounded_at(digits, k) as int;
        assert(r == head + if c >= 5 {
            1int
        } else {
            0int
        });
        assert((2 * r - 1) * (10 * p) <= 2 * v && 2 * v < (2 * r + 1) * (10 * p))
            by (nonlinear_arith)
            requires
                v == head * (10 * p) + (c * p + t),
                0 <= c <= 9,
                0 <= t < p,
                0 <= head,
                r == head + if c >= 5 {
                    1int
                } else {
                    0int
                },
        ;
    }
}

/// A number with its point eighteen places or more past its digits is 0
/// or reaches the limit of a decimal.
proof fn lemma_far_right(digits: Seq<u8>, k: int)
    requires
        k >= digits.len() + 18,
    ensures
        capped(rounded_at(digits, k) as int, 1_000_000_000_000_000_000) == if digits_value(digits)
            == 0 {
            0int
        } else {
            1_000_000_000_000_000_000int
        },
{
    let places = (k - digits.len()) as nat;
    let d = digits_value(digits);
    lemma_pow10_values();
    lemma_pow10_monotonic(18, places);
    if d == 0 {
        assert(d * pow10(places) == 0) by (nonlinear_arith)
            requires
                d == 0,
        ;
    } else {
        assert(d * pow10(places) >= 1_000_000_000_000_000_000) by (nonlinear_arith)
            requires
                d >= 1,
                pow10(places) >= 1_000_000_000_000_000_000,
        ;
    }
}

/// Reads the digits of `text[from..to]` on top of the number `start`, and
/// stops counting at `limit`.
fn accumulate(text: &[u8], from: usize, to: usize, start: u128, limit: u128) -> (value: u128)
    requires
        from <= to <= text@.len(),
        all_digits(text@.subrange(from as int, to as int)),
        start <= limit <= 1_000_000_000_000_000_000_000_000_000_000_000_000,
    ensures
        value == capped(
            start * pow10((to - from) as nat) + digits_value(
                text@.subrange(from as int, to as int),
            ),
            limit as int,
        ),
{
    let ghost digits = text@.subrange(from as int, to as int);
    let mut value: u128 = start;
    let mut i: usize = from;
    proof {
        assert(digits.take(0) =~= Seq::<u8>::empty());
        assert(start * pow10(0) == start) by (nonlinear_arith)
            requires
                pow10(0) == 1,
        ;
    }
    while i < to
        invariant
            from <= i <= to <= text@.len(),
            digits == text@.subrange(from as int, to as int),
            all_digits(digits),
            limit <= 1_000_000_000_000_000_000_000_000_000_000_000_000,
            value == capped(
                start * pow10((i - from) as nat) + digits_value(digits.take(i - from)),
                limit as int,
            ),
        decreases to - i,
    {
        let byte = text[i];
        let ghost exact: int = start * pow10((i - from) as nat) + digits_value(
            digits.take(i - from),
        );
        let ghost d: int = (byte - 48) as int;
        proof {
            assert(digits[i - from] == byte);
            assert(ByteClass::Digit.holds(digits[i - from]));
            assert(digits.take(i - from + 1).drop_last() =~= digits.take(i - from));
            assert(digits.take(i - from + 1).last() == byte);
            assert(pow10((i - from + 1) as nat) == 10 * pow10((i - from) as nat));
            assert(start * (10 * pow10((i - from) as nat)) == start * pow10((i - from) as nat) * 10)
                by (nonlinear_arith);
            assert(start * pow10((i - from + 1) as nat) + digits_value(digits.take(i - from + 1))
                == exact * 10 + d) by (nonlinear_arith)
                requires
                    exact == start * pow10((i - from) as nat) + digits_value(
                        digits.take(i - from),
                    ),
                    digits_value(digits.take(i - from + 1)) == digits_value(
                        digits.take(i - from),
                    ) * 10 + d,
                    start * pow10((i - from + 1) as nat) == start * pow10((i - from) as nat) * 10,
            ;
            lemma_capped_absorbs(exact, 10, d, limit as int);
        }
        let next = value * 10 + (byte - 48) as u128;
        value = if next >= limit {
            limit
        } else {
            next
        };
        i += 1;
    }
    proof {
        assert(digits.take(i - from) =~= digits);
    }
    value
}

/// The most that is counted of the magnitude of an exponent.
const EXPONENT_CAP: u128 = 1_000_000_000_000_000_000_000_000_000_000;

/// The exponent as it is counted: no further than `EXPONENT_CAP` either
/// way.
spec fn counted_exponent(e: int) -> int {
    if e >= EXPONENT_CAP {
        EXPONENT_CAP as int
    } else if e <= -EXPONENT_CAP {
        -(EXPONENT_CAP as int)
    } else {
        e
    }
}

/// Reads `text[from..to]` as the exponent of a decimal. An exponent of a
/// magnitude beyond `EXPONENT_CAP` is given as that much.
fn parse_exponent(text: &[u8], from: usize, to: usize) -> (value: Option<i128>)
    requires
        from <= to <= text@.len(),
    ensures
        match value {
            Some(v) => (signed_value(text@.subrange(from as int, to as int)) matches Some(e)
                && v == counted_exponent(e)),
            None => signed_value(text@.subrange(from as int, to as int)) is None,
        },
{
    let ghost token = text@.subrange(from as int, to as int);
    let negative = from < to && text[from] == 45;
    let start = if from < to && (text[from] == 43 || text[from] == 45) {
        from + 1
    } else {
        from
    };
    let ghost digits = text@.subrange(start as int, to as int);
    proof {
        if from < to {
            assert(token[0] == text@[from as int]);
        }
        assert(digits =~= unsigned_part(token));
    }
    if start == to {
        return None;
    }
    let end = scan(text, start, to, ByteClass::Digit);
    proof {
        lemma_run_is_prefix(digits, ByteClass::Digit);
    }
    if end < to {
        proof {
            assert(!ByteClass::Digit.holds(digits[end - start]));
        }
        return None;
    }
    proof {
        assert(0 * pow10((to - start) as nat) == 0) by (nonlinear_arith);
    }
    let magnitude = accumulate(text, start, to, 0, EXPONENT_CAP);
    if negative {
        Some(-(magnitude as i128))
    } else {
        Some(magnitude as i128)
    }
}

/// Where the parts of the decimal `text[start..to]` lie: the end of the
/// digits before the point, and the bounds of the digits after it.
fn split_decimal(text: &[u8], start: usize, to: usize) -> (bounds: (usize, usize, usize))
    requires
        start <= to <= text@.len(),
    ensures
        start <= bounds.0 <= bounds.1 <= bounds.2 <= to,
        whole_of(text@.subrange(start as int, to as int)) == text@.subrange(
            start as int,
            bounds.0 as int,
        ),
        fraction_of(text@.subrange(start as int, to as int)) == text@.subrange(
            bounds.1 as int,
            bounds.2 as int,
        ),
        after_fraction(text@.subrange(start as int, to as int)) == text@.subrange(
            bounds.2 as int,
            to as int,
        ),
        all_digits(text@.subrange(start as int, bounds.0 as int)),
        all_digits(text@.subrange(bounds.1 as int, bounds.2 as int)),
{
    let ghost body = text@.subrange(start as int, to as int);
    let point = scan(text, start, to, ByteClass::Digit);
    let ghost whole = whole_of(body);
    proof {
        lemma_run_is_prefix(body, ByteClass::Digit);
        assert(whole =~= text@.subrange(start as int, point as int));
        assert(after_whole(body) =~= text@.subrange(point as int, to as int));
        assert forall|i: int| 0 <= i < whole.len() implies ByteClass::Digit.holds(
            #[trigger] whole[i],
        ) by {
            assert(whole[i] == body[i]);
        }
        if point < to {
            assert(after_whole(body)[0] == text@[point as int]);
        }
    }
    if point < to && text[point] == 46 {
        let fraction_to = scan(text, point + 1, to, ByteClass::Digit);
        proof {
            let fraction = fraction_of(body);
            let tail = after_whole(body).skip(1);
            assert(tail =~= text@.subrange(point + 1, to as int));
            lemma_run_is_prefix(tail, ByteClass::Digit);
            assert(fraction =~= text@.subrange(point + 1, fraction_to as int));
            assert(after_fraction(body) =~= text@.subrange(fraction_to as int, to as int));
            assert forall|i: int| 0 <= i < fraction.len() implies ByteClass::Digit.holds(
                #[trigger] fraction[i],
            ) by {
                assert(fraction[i] == tail[i]);
            }
        }
        (point, point + 1, fraction_to)
    } else {
        proof {
            assert(fraction_of(body) =~= text@.subrange(point as int, point as int));
            assert(after_fraction(body) =~= text@.subrange(point as int, to as int));
        }
        (point, point, point)
    }
}

/// Reads the exponent that follows the digits of a decimal in
/// `text[from..to]`.
fn read_exponent(text: &[u8], from: usize, to: usize) -> (value: Option<i128>)
    requires
        from <= to <= text@.len(),
    ensures
        match value {
            Some(v) => if from == to {
                v == 0
            } else {
                (text@[from as int] == 101 || text@[from as int] == 69) && (signed_value(
                    text@.subrange(from + 1, to as int),
                ) matches Some(e) && v == counted_exponent(e))
            },
            None => from < to && !((text@[from as int] == 101 || text@[from as int] == 69)
                && signed_value(text@.subrange(from + 1, to as int)) is Some),
        },
{
    if from == to {
        return Some(0);
    }
    if text[from] != 101 && text[from] != 69 {
        return None;
    }
    parse_exponent(text, from + 1, to)
}

/// The number that the digits `text[start..point]` and
/// `text[fraction_from..fraction_to]` spell in a row with the point after
/// the first `k` of them, rounded, and counted no further than the limit of
/// a decimal.
fn round_digits(
    text: &[u8],
    start: usize,
    point: usize,
    fraction_from: usize,
    fraction_to: usize,
    k: i128,
) -> (value: u64)
    requires
        start <= point <= fraction_from <= fraction_to <= text@.len(),
        all_digits(text@.subrange(start as int, point as int)),
        all_digits(text@.subrange(fraction_from as int, fraction_to as int)),
        -2_000_000_000_000_000_000_000_000_000_000 < k < 2_000_000_000_000_000_000_000_000_000_000,
    ensures
        value == capped(
            rounded_at(
                text@.subrange(start as int, point as int) + text@.subrange(
                    fraction_from as int,
                    fraction_to as int,
                ),
                k as int,
            ) as int,
            1_000_000_000_000_000_000,
        ),
{
    let ghost whole = text@.subrange(start as int, point as int);
    let ghost fraction = text@.subrange(fraction_from as int, fraction_to as int);
    let ghost digits = whole + fraction;
    let limit: u128 = 1_000_000_000_000_000_000;
    let whole_len = point - start;
    let fraction_len = fraction_to - fraction_from;
    let len = whole_len + fraction_len;
    if k < 0 {
        return 0;
    }
    if k >= len as i128 {
        proof {
            lemma_digits_value_concat(whole, fraction);
            assert(0 * pow10(whole.len()) == 0) by (nonlinear_arith);
            lemma_pow10_positive(fraction.len());
            lemma_capped_absorbs(
                digits_value(whole) as int,
                pow10(fraction.len()) as int,
                digits_value(fraction) as int,
                limit as int,
            );
        }
        let head = accumulate(text, start, point, 0, limit);
        let mut value = accumulate(text, fraction_from, fraction_to, head, limit);
        let places = k - len as i128;
        let mut done: i128 = 0;
        proof {
            assert(digits_value(digits) * pow10(0) == digits_value(digits)) by (nonlinear_arith)
                requires
                    pow10(0) == 1,
            ;
        }
        while done < places && value != 0 && value < limit
            invariant
                0 <= done <= places,
                limit == 1_000_000_000_000_000_000,
                value == capped((digits_value(digits) * pow10(done as nat)) as int, limit as int),
            decreases places - done,
        {
            proof {
                assert(pow10((done + 1) as nat) == 10 * pow10(done as nat));
                assert(digits_value(digits) * (10 * pow10(done as nat)) == digits_value(digits)
                    * pow10(done as nat) * 10) by (nonlinear_arith);
                lemma_capped_absorbs(
                    (digits_value(digits) * pow10(done as nat)) as int,
                    10,
                    0,
                    limit as int,
                );
            }
            let next = value * 10;
            value = if next >= limit {
                limit
            } else {
                next
            };
            done = done + 1;
        }
        proof {
            let d = digits_value(digits);
            let more = (places - done) as nat;
            if done < places {
                lemma_pow10_positive(more);
                assert(pow10(done as nat) * pow10(more) == pow10(places as nat)) by {
                    lemma_pow10_adds(done as nat, more);
                    assert(done as nat + more == places as nat);
                }
                if value == 0 {
                    lemma_pow10_positive(done as nat);
                    assert(d == 0) by (nonlinear_arith)
                        requires
                            d * pow10(done as nat) == 0,
                            pow10(done as nat) > 0,
                    ;
                    assert(d * pow10(places as nat) == 0) by (nonlinear_arith)
                        requires
                            d == 0,
                    ;
                } else {
                    assert(d * pow10(places as nat) >= d * pow10(done as nat)) by (nonlinear_arith)
                        requires
                            pow10(done as nat) * pow10(more) == pow10(places as nat),
                            pow10(more) >= 1,
                            d >= 0,
                            pow10(done as nat) >= 0,
                    ;
                }
            }
        }
        return value as u64;
    }
    let kept = k as usize;
    proof {
        assert(digits.len() == len);
    }
    if kept <= whole_len {
        proof {
            assert(digits.take(kept as int) =~= text@.subrange(start as int, start + kept));
            assert forall|i: int| 0 <= i < kept implies ByteClass::Digit.holds(
                #[trigger] text@.subrange(start as int, start + kept)[i],
            ) by {
                assert(text@.subrange(start as int, start + kept)[i] == whole[i]);
            }
            assert(0 * pow10(kept as nat) == 0) by (nonlinear_arith);
        }
        let head = accumulate(text, start, start + kept, 0, limit);
        let next = if kept < whole_len {
            text[start + kept]
        } else {
            text[fraction_from]
        };
        proof {
            if kept < whole_len {
                assert(digits[kept as int] == whole[kept as int]);
            } else {
                assert(digits[kept as int] == fraction[0]);
            }
            lemma_capped_absorbs(
                digits_value(digits.take(kept as int)) as int,
                1,
                if next >= 53 {
                    1int
                } else {
                    0int
                },
                limit as int,
            );
            assert(digits_value(digits.take(kept as int)) * 1 == digits_value(
                digits.take(kept as int),
            ));
            assert(head * 1 == head);
        }
        let up: u128 = if next >= 53 {
            1
        } else {
            0
        };
        let value = if head + up >= limit {
            limit
        } else {
            head + up
        };
        value as u64
    } else {
        let over = kept - whole_len;
        let ghost part = text@.subrange(fraction_from as int, fraction_from + over);
        proof {
            assert(part =~= fraction.take(over as int));
            assert(digits.take(kept as int) =~= whole + part);
            assert forall|i: int| 0 <= i < over implies ByteClass::Digit.holds(#[trigger] part[i]) by {
                assert(part[i] == fraction[i]);
            }
            lemma_digits_value_concat(whole, part);
            assert(0 * pow10(whole.len()) == 0) by (nonlinear_arith);
            lemma_pow10_positive(part.len());
            lemma_capped_absorbs(
                digits_value(whole) as int,
                pow10(part.len()) as int,
                digits_value(part) as int,
                limit as int,
            );
        }
        let whole_value = accumulate(text, start, point, 0, limit);
        let head = accumulate(text, fraction_from, fraction_from + over, whole_value, limit);
        let next = text[fraction_from + over];
        proof {
            assert(digits[kept as int] == fraction[over as int]);
            lemma_capped_absorbs(
                digits_value(digits.take(kept as int)) as int,
                1,
                if next >= 53 {
                    1int
                } else {
                    0int
                },
                limit as int,
            );
            assert(digits_value(digits.take(kept as int)) * 1 == digits_value(
                digits.take(kept as int),
            ));
            assert(head * 1 == head);
        }
        let up: u128 = if next >= 53 {
            1
        } else {
            0
        };
        let value = if head + up >= limit {
            limit
        } else {
            head + up
        };
        value as u64
    }
}

proof fn lemma_pow10_adds(a: nat, b: nat)
    ensures
        pow10(a) * pow10(b) == pow10(a + b),
    decreases a,
{
    if a > 0 {
        lemma_pow10_adds((a - 1) as nat, b);
        assert(((a - 1) as nat + b) as nat == (a + b - 1) as nat);
        assert(pow10(a + b) == 10 * pow10((a + b - 1) as nat));
        assert(10 * pow10((a - 1) as nat) * pow10(b) == 10 * (pow10((a - 1) as nat) * pow10(b)))
            by (nonlinear_arith);
    } else {
        assert(pow10(0) == 1);
        assert(0 + b == b);
    }
}

/// Reads `text[from..to]` as a decimal, in millionths.
pub fn parse_decimal(text: &[u8], from: usize, to: usize) -> (value: Option<i64>)
    requires
        from <= to <= text@.len(),
    ensures
        match value {
            Some(v) => decimal_value(text@.subrange(from as int, to as int)) == Some(v as int)
                && -DECIMAL_LIMIT < v < DECIMAL_LIMIT,
            None => decimal_value(text@.subrange(from as int, to as int)) is None,
        },
{
    let ghost token = text@.subrange(from as int, to as int);
    let negative = from < to && text[from] == 45;
    let start = if from < to && (text[from] == 43 || text[from] == 45) {
        from + 1
    } else {
        from
    };
    let ghost body = text@.subrange(start as int, to as int);
    proof {
        if from < to {
            assert(token[0] == text@[from as int]);
        }
        assert(body =~= unsigned_part(token));
    }
    let (point, fraction_from, fraction_to) = split_decimal(text, start, to);
    let ghost whole = whole_of(body);
    let ghost fraction = fraction_of(body);
    if (point - start) + (fraction_to - fraction_from) == 0 {
        return None;
    }
    proof {
        let tail = after_fraction(body);
        if fraction_to < to {
            assert(tail[0] == text@[fraction_to as int]);
            assert(tail.skip(1) =~= text@.subrange(fraction_to + 1, to as int));
        }
    }
    let exponent = match read_exponent(text, fraction_to, to) {
        Some(e) => e,
        None => {
            return None;
        },
    };
    let k: i128 = (point - start) as i128 + exponent + 6;
    let value = round_digits(text, start, point, fraction_from, fraction_to, k);
    proof {
        let e = exponent_of(body).unwrap();
        let digits = whole + fraction;
        let exact = whole.len() + e + 6;
        if e >= EXPONENT_CAP {
            lemma_far_right(digits, exact);
            lemma_far_right(digits, k as int);
        } else if e <= -EXPONENT_CAP {
            assert(exact < 0);
            assert(k < 0);
        } else {
            assert(exact == k);
        }
        assert(value == capped(rounded_at(digits, exact) as int, 1_000_000_000_000_000_000));
    }
    let magnitude: i64 = if value >= 1_000_000_000_000_000_000 {
        999_999_999_999_999_999
    } else {
        value as i64
    };
    if negative {
        Some(-magnitude)
    } else {
        Some(magnitude)
    }
}

} // verus!

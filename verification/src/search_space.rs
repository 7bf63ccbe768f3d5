//! The candidates that the algorithms search over: bit strings of a fixed
//! length, and permutations of `0..n`.

use crate::rng::{Script, UniformRng};
use vstd::prelude::*;
use vstd::string::*;

verus! {

/// A kind of candidate. Its view is the candidate's mathematical value.
pub trait SearchSpace: Sized + View {
    /// The candidate keeps its representation's invariant.
    spec fn valid(&self) -> bool;

    /// The number of positions of the candidate.
    spec fn spec_size(&self) -> nat;

    /// A scripted source holds what `new_random` draws for this size.
    spec fn random_ready(size: usize, script: Script) -> bool;

    /// What `new_random` builds from `script`, and what it leaves of the
    /// script.
    spec fn random_outcome(size: usize, script: Script) -> (Self::V, Script);

    /// A candidate of the given size, drawn uniformly.
    fn new_random<R: UniformRng>(size: usize, rng: &mut R) -> (made: Self)
        requires
            old(rng).script() matches Some(s) ==> Self::random_ready(size, s),
        ensures
            made.valid(),
            made.spec_size() == size,
            match old(rng).script() {
                Some(s) => made@ == Self::random_outcome(size, s).0 && final(rng).script() == Some(
                    Self::random_outcome(size, s).1,
                ),
                None => final(rng).script() is None,
            },
    ;

    fn size(&self) -> (n: usize)
        ensures
            n == self.spec_size(),
    ;

    /// How a candidate of this value is written out.
    spec fn text(value: Self::V) -> Seq<char>;

    /// The candidate, written out.
    fn to_string(&self) -> (s: String)
        ensures
            s@ == Self::text(self@),
    ;
}

/// A string of bits. Its length is fixed when it is made.
#[derive(Debug)]
pub struct Bitstring {
    bits: Vec<bool>,
}

impl View for Bitstring {
    type V = Seq<bool>;

    closed spec fn view(&self) -> Seq<bool> {
        self.bits@
    }
}

/// The bits written as the characters `0` and `1`.
pub open spec fn bits_text(bits: Seq<bool>) -> Seq<char> {
    Seq::new(
        bits.len(),
        |i: int|
            if bits[i] {
                '1'
            } else {
                '0'
            },
    )
}

/// Every character is `0` or `1`.
pub open spec fn is_bits_text(text: Seq<char>) -> bool {
    forall|i: int| 0 <= i < text.len() ==> (#[trigger] text[i]) == '0' || text[i] == '1'
}

impl Bitstring {
    pub fn bits(&self) -> (bits: &Vec<bool>)
        ensures
            bits@ == self@,
    {
        &self.bits
    }

    pub fn new(bits: Vec<bool>) -> (made: Self)
        ensures
            made@ == bits@,
    {
        Bitstring { bits }
    }

    /// Inverts the bit at position `i`.
    pub fn flip(&mut self, i: usize)
        requires
            i < old(self)@.len(),
        ensures
            final(self)@ == old(self)@.update(i as int, !old(self)@[i as int]),
    {
        let bit = self.bits[i];
        self.bits[i] = !bit;
    }

    /// Reads a bit string from its text: `Some` exactly when every character
    /// is `0` or `1`.
    pub fn from_bitstring(s: &str) -> (made: Option<Self>)
        ensures
            made is Some <==> is_bits_text(s@),
            made matches Some(b) ==> bits_text(b@) == s@,
    {
        broadcast use vstd::string::is_ascii_spec_bytes;

        if !s.is_ascii() {
            proof {
                if is_bits_text(s@) {
                    assert forall|i: int| 0 <= i < s@.len() implies '\0' <= #[trigger] s@[i]
                        <= '\u{7f}' by {
                        assert(s@[i] == '0' || s@[i] == '1');
                    }
                }
            }
            return None;
        }
        let bytes = s.as_bytes();
        let mut bits: Vec<bool> = Vec::new();
        let mut i: usize = 0;
        while i < bytes.len()
            invariant
                i <= bytes@.len(),
                bytes@.len() == s@.len(),
                forall|k: int| 0 <= k < bytes@.len() ==> bytes@[k] == (#[trigger] s@[k]) as u8,
                forall|k: int| 0 <= k < s@.len() ==> '\0' <= (#[trigger] s@[k]) <= '\u{7f}',
                bits@.len() == i,
                forall|k: int| 0 <= k < i ==> (#[trigger] s@[k]) == '0' || s@[k] == '1',
                forall|k: int| 0 <= k < i ==> (#[trigger] bits@[k]) == (s@[k] == '1'),
            decreases bytes.len() - i,
        {
            let byte = bytes[i];
            proof {
                let c = s@[i as int];
                assert(bytes@[i as int] == c as u8);
                assert('\0' <= c <= '\u{7f}');
                assert(byte == 48 <==> c == '0');
                assert(byte == 49 <==> c == '1');
            }
            if byte == 48 {
                bits.push(false);
            } else if byte == 49 {
                bits.push(true);
            } else {
                return None;
            }
            i += 1;
        }
        let made = Bitstring { bits };
        proof {
            assert(bits_text(made@) =~= s@);
        }
        Some(made)
    }
}

impl Clone for Bitstring {
    fn clone(&self) -> (copy: Self)
        ensures
            copy@ == self@,
    {
        Bitstring { bits: self.bits.clone() }
    }
}

impl SearchSpace for Bitstring {
    open spec fn valid(&self) -> bool {
        true
    }

    open spec fn spec_size(&self) -> nat {
        self@.len()
    }

    open spec fn random_ready(size: usize, script: Script) -> bool {
        script.coins.len() >= size
    }

    open spec fn random_outcome(size: usize, script: Script) -> (Seq<bool>, Script) {
        (script.coins.take(size as int), script.skip_coins(size as int))
    }

    fn new_random<R: UniformRng>(size: usize, rng: &mut R) -> (made: Self) {
        let ghost before = rng.script();
        let mut bits: Vec<bool> = Vec::new();
        let mut i: usize = 0;
        proof {
            if let Some(s) = before {
                assert(s.coins.skip(0) =~= s.coins);
            }
        }
        while i < size
            invariant
                i <= size,
                bits@.len() == i,
                before matches Some(s) ==> s.coins.len() >= size,
                match before {
                    Some(s) => rng.script() == Some(s.skip_coins(i as int)) && bits@
                        == s.coins.take(i as int),
                    None => rng.script() is None,
                },
            decreases size - i,
        {
            let ghost taken = bits@;
            let bit = rng.random();
            bits.push(bit);
            proof {
                if let Some(s) = before {
                    assert(s.coins.skip(i as int).skip(1) =~= s.coins.skip(i + 1));
                    assert(bits@ =~= s.coins.take(i + 1));
                }
            }
            i += 1;
        }
        Bitstring { bits }
    }

    fn size(&self) -> (n: usize) {
        self.bits.len()
    }

    open spec fn text(value: Seq<bool>) -> Seq<char> {
        bits_text(value)
    }

    fn to_string(&self) -> (s: String) {
        let mut s = String::new();
        let mut i: usize = 0;
        while i < self.bits.len()
            invariant
                i <= self.bits@.len(),
                s@ == bits_text(self.bits@.take(i as int)),
            decreases self.bits.len() - i,
        {
            proof {
                reveal_strlit("1");
                reveal_strlit("0");
            }
            if self.bits[i] {
                s.append("1");
            } else {
                s.append("0");
            }
            proof {
                assert(s@ =~= bits_text(self.bits@.take(i + 1)));
            }
            i += 1;
        }
        proof {
            assert(self.bits@.take(i as int) =~= self.bits@);
        }
        s
    }
}

/// An ordering of the values `0..n`.
#[derive(Debug)]
pub struct Permutation {
    permutation: Vec<usize>,
}

impl View for Permutation {
    type V = Seq<usize>;

    closed spec fn view(&self) -> Seq<usize> {
        self.permutation@
    }
}

/// `s` holds each value below its length exactly once.
pub open spec fn is_permutation(s: Seq<usize>) -> bool {
    crate::rng::is_arrangement(s, s.len())
}

/// A permutation misses no value: each value below its length stands in
/// it. Together with `is_permutation`, which rules out values twice, this
/// makes it a bijection on `0..n`.
pub proof fn lemma_permutation_covers(s: Seq<usize>)
    requires
        is_permutation(s),
    ensures
        forall|v: usize| v < s.len() ==> #[trigger] s.contains(v),
{
    let n = s.len() as int;
    let t = s.map_values(|v: usize| v as int);
    let range = vstd::set_lib::set_int_range(0, n);
    assert(t.no_duplicates()) by {
        assert forall|i: int, j: int| 0 <= i < t.len() && 0 <= j < t.len() && i != j implies t[i]
            != t[j] by {
            if i < j {
                assert(s[i] != s[j]);
            } else {
                assert(s[j] != s[i]);
            }
        }
    }
    t.unique_seq_to_set();
    vstd::set_lib::lemma_int_range(0, n);
    assert(t.to_set().subset_of(range)) by {
        assert forall|x: int| t.to_set().contains(x) implies range.contains(x) by {
            let i = choose|i: int| 0 <= i < t.len() && t[i] == x;
            assert(s[i] < n);
        }
    }
    vstd::set_lib::lemma_len_subset(t.to_set(), range);
    vstd::set_lib::lemma_subset_equality(t.to_set(), range);
    assert forall|v: usize| v < s.len() implies #[trigger] s.contains(v) by {
        assert(range.contains(v as int));
        assert(t.to_set().contains(v as int));
        assert(t.contains(v as int));
        let i = choose|i: int| 0 <= i < t.len() && t[i] == v as int;
        assert(s[i] == v);
    }
}

/// The values `0, 1, .., n - 1` in order.
pub open spec fn identity(n: nat) -> Seq<usize> {
    Seq::new(n, |i: int| i as usize)
}

/// The decimal digit for `d`, which is below ten.
pub open spec fn digit_char(d: nat) -> char {
    if d == 0 {
        '0'
    } else if d == 1 {
        '1'
    } else if d == 2 {
        '2'
    } else if d == 3 {
        '3'
    } else if d == 4 {
        '4'
    } else if d == 5 {
        '5'
    } else if d == 6 {
        '6'
    } else if d == 7 {
        '7'
    } else if d == 8 {
        '8'
    } else {
        '9'
    }
}

/// `n` in decimal, without leading zeros.
pub open spec fn decimal(n: nat) -> Seq<char>
    decreases n,
{
    if n < 10 {
        seq![digit_char(n)]
    } else {
        decimal(n / 10).push(digit_char(n % 10))
    }
}

/// The values in decimal, each two separated by a comma and a blank.
pub open spec fn listed(values: Seq<usize>) -> Seq<char>
    decreases values.len(),
{
    if values.len() == 0 {
        Seq::empty()
    } else if values.len() == 1 {
        decimal(values[0] as nat)
    } else {
        listed(values.drop_last()) + seq![',', ' '] + decimal(values.last() as nat)
    }
}

fn push_decimal(out: &mut String, n: usize)
    ensures
        final(out)@ == old(out)@ + decimal(n as nat),
    decreases n,
{
    if n >= 10 {
        push_decimal(out, n / 10);
    }
    let d = n % 10;
    proof {
        reveal_strlit("0");
        reveal_strlit("1");
        reveal_strlit("2");
        reveal_strlit("3");
        reveal_strlit("4");
        reveal_strlit("5");
        reveal_strlit("6");
        reveal_strlit("7");
        reveal_strlit("8");
        reveal_strlit("9");
    }
    let ghost before = out@;
    let text = if d == 0 {
        "0"
    } else if d == 1 {
        "1"
    } else if d == 2 {
        "2"
    } else if d == 3 {
        "3"
    } else if d == 4 {
        "4"
    } else if d == 5 {
        "5"
    } else if d == 6 {
        "6"
    } else if d == 7 {
        "7"
    } else if d == 8 {
        "8"
    } else {
        "9"
    };
    assert(text@ =~= seq![digit_char(d as nat)]);
    out.append(text);
    proof {
        if n >= 10 {
            assert(out@ =~= old(out)@ + decimal((n / 10) as nat).push(digit_char((n % 10) as nat)));
        } else {
            assert(out@ =~= old(out)@ + seq![digit_char(n as nat)]);
        }
    }
}

impl Permutation {
    pub fn permutation(&self) -> (values: &Vec<usize>)
        ensures
            values@ == self@,
    {
        &self.permutation
    }

    /// Wraps the values as they are; whether they form a permutation is
    /// what `valid` says and `is_valid` tests.
    pub fn new(permutation: Vec<usize>) -> (made: Self)
        ensures
            made@ == permutation@,
    {
        Permutation { permutation }
    }

    /// Tests whether the values are each of `0..n` exactly once.
    pub fn is_valid(&self) -> (ok: bool)
        ensures
            ok == self.valid(),
    {
        let n = self.permutation.len();
        let mut seen: Vec<bool> = Vec::new();
        let mut k: usize = 0;
        while k < n
            invariant
                k <= n,
                seen@.len() == k,
                forall|j: int| 0 <= j < k ==> !(#[trigger] seen@[j]),
            decreases n - k,
        {
            seen.push(false);
            k += 1;
        }
        let mut i: usize = 0;
        while i < n
            invariant
                i <= n,
                n == self.permutation@.len(),
                seen@.len() == n,
                forall|j: int| 0 <= j < i ==> (#[trigger] self.permutation@[j]) < n,
                forall|a: int, b: int| 0 <= a < b < i ==> self.permutation@[a] != self.permutation@[b],
                forall|v: int|
                    0 <= v < n ==> ((#[trigger] seen@[v]) <==> exists|j: int|
                        0 <= j < i && self.permutation@[j] == v),
            decreases n - i,
        {
            let value = self.permutation[i];
            if value >= n {
                return false;
            }
            if seen[value] {
                proof {
                    let j = choose|j: int| 0 <= j < i && self.permutation@[j] == value;
                    assert(self.permutation@[j] == self.permutation@[i as int]);
                }
                return false;
            }
            let ghost seen_before = seen@;
            seen.set(value, true);
            proof {
                assert forall|v: int| 0 <= v < n implies ((#[trigger] seen@[v]) <==> exists|j: int|
                    0 <= j < i + 1 && self.permutation@[j] == v) by {
                    if v == value {
                        assert(self.permutation@[i as int] == v);
                    } else {
                        assert(seen@[v] == seen_before[v]);
                        if seen_before[v] {
                            let j = choose|j: int| 0 <= j < i && self.permutation@[j] == v;
                            assert(0 <= j < i + 1 && self.permutation@[j] == v);
                        }
                        if exists|j: int| 0 <= j < i + 1 && self.permutation@[j] == v {
                            let j = choose|j: int| 0 <= j < i + 1 && self.permutation@[j] == v;
                            assert(j != i);
                            assert(0 <= j < i && self.permutation@[j] == v);
                        }
                    }
                }
                assert forall|a: int, b: int| 0 <= a < b < i + 1 implies self.permutation@[a]
                    != self.permutation@[b] by {
                    if b == i {
                        if self.permutation@[a] == self.permutation@[b] {
                            assert(0 <= a < i && self.permutation@[a] == value);
                            assert(seen_before[value as int]);
                        }
                    }
                }
            }
            i += 1;
        }
        true
    }
}

impl Clone for Permutation {
    fn clone(&self) -> (copy: Self)
        ensures
            copy@ == self@,
    {
        Permutation { permutation: self.permutation.clone() }
    }
}

impl SearchSpace for Permutation {
    open spec fn valid(&self) -> bool {
        is_permutation(self@)
    }

    open spec fn spec_size(&self) -> nat {
        self@.len()
    }

    open spec fn random_ready(size: usize, script: Script) -> bool {
        script.shuffles.len() > 0 && crate::rng::is_arrangement(script.shuffles[0], size as nat)
    }

    open spec fn random_outcome(size: usize, script: Script) -> (Seq<usize>, Script) {
        (script.shuffles[0], script.skip_shuffles(1))
    }

    fn new_random<R: UniformRng>(size: usize, rng: &mut R) -> (made: Self) {
        let mut values: Vec<usize> = Vec::new();
        let mut i: usize = 0;
        while i < size
            invariant
                i <= size,
                values@ == identity(i as nat),
            decreases size - i,
        {
            values.push(i);
            proof {
                assert(values@ =~= identity((i + 1) as nat));
            }
            i += 1;
        }
        let ghost before = rng.script();
        rng.shuffle_vec(&mut values);
        proof {
            let p = choose|p: Seq<usize>| #[trigger]
                crate::rng::is_arrangement(p, size as nat) && values@ == crate::rng::rearranged(
                    identity(size as nat),
                    p,
                );
            assert(values@ =~= p);
            if let Some(s) = before {
                assert(values@ =~= s.shuffles[0]);
            }
        }
        Permutation { permutation: values }
    }

    fn size(&self) -> (n: usize) {
        self.permutation.len()
    }

    open spec fn text(value: Seq<usize>) -> Seq<char> {
        listed(value)
    }

    fn to_string(&self) -> (s: String) {
        let mut s = String::new();
        let mut i: usize = 0;
        while i < self.permutation.len()
            invariant
                i <= self.permutation@.len(),
                s@ == listed(self.permutation@.take(i as int)),
            decreases self.permutation.len() - i,
        {
            let ghost before = s@;
            if i > 0 {
                proof {
                    reveal_strlit(", ");
                }
                s.append(", ");
                assert(s@ =~= before + seq![',', ' ']);
            }
            push_decimal(&mut s, self.permutation[i]);
            proof {
                let head = self.permutation@.take(i + 1);
                assert(head.drop_last() =~= self.permutation@.take(i as int));
                assert(head.last() == self.permutation@[i as int]);
                if i == 0 {
                    assert(before =~= Seq::<char>::empty());
                    assert(s@ =~= decimal(self.permutation@[0] as nat));
                }
            }
            i += 1;
        }
        proof {
            assert(self.permutation@.take(i as int) =~= self.permutation@);
        }
        s
    }
}

} // verus!

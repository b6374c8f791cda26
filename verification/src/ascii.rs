//! Byte-level text helpers: ASCII case folding, byte search and decimal numbers.

use vstd::prelude::*;
use vstd::slice::slice_to_vec;
use vstd::string::StringSliceAdditionalSpecFns;

verus! {

/// The line feed.
pub const LF: u8 = 10;

/// The carriage return.
pub const CR: u8 = 13;

pub const SPACE: u8 = 32;

pub const PLUS: u8 = 43;

pub const COLON: u8 = 58;

/// One byte with an ASCII capital letter folded to its small letter.
pub open spec fn lower_byte(b: u8) -> u8 {
    if 65 <= b <= 90 {
        (b + 32) as u8
    } else {
        b
    }
}

/// A byte string with every ASCII capital letter folded to its small letter.
pub open spec fn lower(s: Seq<u8>) -> Seq<u8> {
    Seq::new(s.len(), |i: int| lower_byte(s[i]))
}

/// The lower-case form of one byte.
pub fn to_lower_byte(b: u8) -> (r: u8)
    ensures
        r == lower_byte(b),
{
    if b >= 65 && b <= 90 {
        b + 32
    } else {
        b
    }
}

/// The lower-case form of a byte string.
pub fn to_lower(s: &[u8]) -> (r: Vec<u8>)
    ensures
        r@ == lower(s@),
{
    let mut out: Vec<u8> = Vec::new();
    let mut i: usize = 0;
    while i < s.len()
        invariant
            i <= s.len(),
            out@ == lower(s@.take(i as int)),
        decreases s.len() - i,
    {
        out.push(to_lower_byte(s[i]));
        i += 1;
        assert(out@ =~= lower(s@.take(i as int)));
    }
    assert(s@.take(i as int) =~= s@);
    out
}

/// Whether two byte strings hold the same bytes.
pub fn same_bytes(a: &[u8], b: &[u8]) -> (r: bool)
    ensures
        r == (a@ == b@),
{
    if a.len() != b.len() {
        return false;
    }
    let mut i: usize = 0;
    while i < a.len()
        invariant
            i <= a.len(),
            a.len() == b.len(),
            a@.take(i as int) == b@.take(i as int),
        decreases a.len() - i,
    {
        if a[i] != b[i] {
            return false;
        }
        i += 1;
        assert(a@.take(i as int) =~= a@.take(i - 1).push(a@[i - 1]));
        assert(b@.take(i as int) =~= b@.take(i - 1).push(b@[i - 1]));
    }
    assert(a@.take(i as int) =~= a@);
    assert(b@.take(i as int) =~= b@);
    true
}

/// Whether two byte strings are equal once ASCII letter case is ignored.
pub fn same_bytes_ignoring_case(a: &[u8], b: &[u8]) -> (r: bool)
    ensures
        r == (lower(a@) == lower(b@)),
{
    if a.len() != b.len() {
        assert(lower(a@).len() != lower(b@).len());
        return false;
    }
    let mut i: usize = 0;
    while i < a.len()
        invariant
            i <= a.len(),
            a.len() == b.len(),
            forall|j: int| 0 <= j < i ==> lower_byte(a@[j]) == lower_byte(b@[j]),
        decreases a.len() - i,
    {
        if to_lower_byte(a[i]) != to_lower_byte(b[i]) {
            assert(lower(a@)[i as int] != lower(b@)[i as int]);
            return false;
        }
        i += 1;
    }
    assert(lower(a@) =~= lower(b@));
    true
}

/// The first position at or after `from` that holds the byte `b`, or the
/// length of `s` where no such position exists.
pub open spec fn find_byte(s: Seq<u8>, b: u8, from: int) -> int
    decreases s.len() - from,
{
    if from >= s.len() {
        s.len() as int
    } else if s[from] == b {
        from
    } else {
        find_byte(s, b, from + 1)
    }
}

/// `find_byte` is the least position at or after `from` that holds `b`.
pub proof fn lemma_find_byte(s: Seq<u8>, b: u8, from: int)
    requires
        from <= s.len(),
    ensures
        from <= find_byte(s, b, from) <= s.len(),
        find_byte(s, b, from) < s.len() ==> s[find_byte(s, b, from)] == b,
        forall|j: int| from <= j < find_byte(s, b, from) ==> s[j] != b,
    decreases s.len() - from,
{
    if from < s.len() && s[from] != b {
        lemma_find_byte(s, b, from + 1);
    }
}

/// A position that holds `b`, with no `b` between `from` and it, is what
/// `find_byte` finds; so is the length of `s` where `b` does not occur.
pub proof fn lemma_find_byte_at(s: Seq<u8>, b: u8, from: int, at: int)
    requires
        0 <= from <= at <= s.len(),
        forall|j: int| from <= j < at ==> s[j] != b,
        at < s.len() ==> s[at] == b,
    ensures
        find_byte(s, b, from) == at,
    decreases at - from,
{
    if from < at {
        lemma_find_byte_at(s, b, from + 1, at);
    }
}

/// What `find_byte` finds in `s` it finds in every extension of `s`.
pub proof fn lemma_find_byte_in_prefix(s: Seq<u8>, more: Seq<u8>, b: u8, from: int)
    requires
        0 <= from,
        find_byte(s, b, from) < s.len(),
    ensures
        find_byte(s + more, b, from) == find_byte(s, b, from),
    decreases s.len() - from,
{
    if from < s.len() {
        assert((s + more)[from] == s[from]);
        if s[from] != b {
            lemma_find_byte_in_prefix(s, more, b, from + 1);
        }
    }
}

/// The first position at or after `from` that holds `b`, or the length of
/// `s` where there is none.
pub fn position_of(s: &[u8], b: u8, from: usize) -> (r: usize)
    ensures
        r == find_byte(s@, b, from as int),
        r <= s.len(),
        from <= s.len() ==> from <= r,
{
    if from >= s.len() {
        return s.len();
    }
    let mut i: usize = from;
    while i < s.len() && s[i] != b
        invariant
            from <= i <= s.len(),
            find_byte(s@, b, from as int) == find_byte(s@, b, i as int),
        decreases s.len() - i,
    {
        i += 1;
    }
    i
}

/// Whether a byte is an ASCII decimal digit.
pub open spec fn is_digit(b: u8) -> bool {
    48 <= b <= 57
}

/// Whether every byte of `s` is a decimal digit.
pub open spec fn all_digits(s: Seq<u8>) -> bool {
    forall|i: int| 0 <= i < s.len() ==> is_digit(#[trigger] s[i])
}

/// The number that a string of decimal digits denotes, most significant
/// digit first. The empty string denotes zero.
pub open spec fn digits_value(s: Seq<u8>) -> nat
    decreases s.len(),
{
    if s.len() == 0 {
        0
    } else {
        digits_value(s.drop_last()) * 10 + (s.last() - 48) as nat
    }
}

/// The shortest decimal rendering of a number.
pub open spec fn decimal(n: nat) -> Seq<u8>
    decreases n,
{
    if n < 10 {
        seq![(48 + n) as u8]
    } else {
        decimal(n / 10).push((48 + n % 10) as u8)
    }
}

/// The number written in `s`: an optional `+` followed by at least one
/// decimal digit and nothing else.
pub open spec fn unsigned_number(s: Seq<u8>) -> Option<nat> {
    let digits = if s.len() > 0 && s[0] == PLUS {
        s.skip(1)
    } else {
        s
    };
    if digits.len() > 0 && all_digits(digits) {
        Some(digits_value(digits))
    } else {
        None
    }
}

/// Reading back the decimal rendering of a number gives the number.
pub proof fn lemma_decimal_round_trip(n: nat)
    ensures
        decimal(n).len() > 0,
        all_digits(decimal(n)),
        digits_value(decimal(n)) == n,
        unsigned_number(decimal(n)) == Some(n),
    decreases n,
{
    let s = decimal(n);
    if n < 10 {
        assert(s.drop_last() =~= Seq::<u8>::empty());
        reveal_with_fuel(digits_value, 2);
    } else {
        lemma_decimal_round_trip(n / 10);
        assert(s.drop_last() =~= decimal(n / 10));
    }
    assert(s[0] != PLUS);
}

/// A prefix of a digit string never denotes more than the whole string.
pub proof fn lemma_digits_prefix(s: Seq<u8>, k: int)
    requires
        0 <= k <= s.len(),
        all_digits(s),
    ensures
        digits_value(s.take(k)) <= digits_value(s),
    decreases s.len() - k,
{
    if k < s.len() {
        lemma_digits_prefix(s, k + 1);
        assert(s.take(k + 1).drop_last() =~= s.take(k));
    } else {
        assert(s.take(k) =~= s);
    }
}

/// Appends the decimal rendering of `n` to `out`.
pub fn push_decimal(out: &mut Vec<u8>, n: usize)
    ensures
        final(out)@ == old(out)@ + decimal(n as nat),
    decreases n,
{
    if n >= 10 {
        push_decimal(out, n / 10);
    }
    out.push(48 + (n % 10) as u8);
    assert(out@ =~= old(out)@ + decimal(n as nat));
}

/// Reads an unsigned number; `None` where `s` is no number or the number
/// does not fit in `usize`.
pub fn parse_unsigned(s: &[u8]) -> (r: Option<usize>)
    ensures
        r == (match unsigned_number(s@) {
            Some(n) => if n <= usize::MAX {
                Some(n as usize)
            } else {
                None
            },
            None => None,
        }),
{
    let start: usize = if s.len() > 0 && s[0] == PLUS {
        1
    } else {
        0
    };
    if start == s.len() {
        return None;
    }
    let ghost digits = s@.skip(start as int);
    assert(s@.skip(0) =~= s@);
    let mut value: usize = 0;
    let mut i: usize = start;
    while i < s.len()
        invariant
            start <= i <= s.len(),
            start < s.len(),
            digits == s@.skip(start as int),
            unsigned_number(s@) == if all_digits(digits) {
                Some(digits_value(digits))
            } else {
                None
            },
            all_digits(digits.take(i - start)),
            value == digits_value(digits.take(i - start)),
        decreases s.len() - i,
    {
        let b: u8 = s[i];
        if b < 48 || b > 57 {
            assert(!is_digit(digits[i - start]));
            return None;
        }
        let d: usize = (b - 48) as usize;
        assert(digits.take(i + 1 - start).drop_last() =~= digits.take(i - start));
        if value > (usize::MAX - d) / 10 {
            proof {
                if all_digits(digits) {
                    lemma_digits_prefix(digits, i + 1 - start);
                }
            }
            return None;
        }
        value = value * 10 + d;
        i += 1;
    }
    assert(digits.take(i - start) =~= digits);
    Some(value)
}

/// Appends the bytes of `s` to `out`.
pub fn append(out: &mut Vec<u8>, s: &[u8])
    ensures
        final(out)@ == old(out)@ + s@,
{
    out.extend_from_slice(s);
    assert(out@ =~= old(out)@ + s@);
}

/// A copy of the bytes of `text`.
pub fn bytes_of(text: &str) -> (r: Vec<u8>)
    ensures
        r@ == text.spec_bytes(),
{
    slice_to_vec(text.as_bytes())
}

} // verus!

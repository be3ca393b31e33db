//! Decimal amounts as they are written in the input, read as ten-thousandths.

use vstd::prelude::*;
use crate::processor::fits;

verus! {

pub open spec fn is_digit(c: u8) -> bool {
    48 <= c <= 57
}

pub open spec fn all_digits(s: Seq<u8>) -> bool {
    forall|i: int| 0 <= i < s.len() ==> is_digit(#[trigger] s[i])
}

/// The number that a run of ASCII digits spells in base ten.
pub open spec fn digits_value(s: Seq<u8>) -> nat
    decreases s.len(),
{
    if s.len() == 0 {
        0
    } else {
        digits_value(s.drop_last()) * 10 + (s.last() - 48) as nat
    }
}

/// How many ASCII digits `s` starts with.
pub open spec fn digit_run(s: Seq<u8>) -> nat
    decreases s.len(),
{
    if s.len() > 0 && is_digit(s[0]) {
        1 + digit_run(s.drop_first())
    } else {
        0
    }
}

pub open spec fn pow10(n: nat) -> nat
    decreases n,
{
    if n == 0 {
        1
    } else {
        10 * pow10((n - 1) as nat)
    }
}

/// An unsigned decimal such as `12`, `12.5`, `.5` or `12.` with at most four
/// fractional digits, in ten-thousandths.
pub open spec fn magnitude_of(s: Seq<u8>) -> Option<nat> {
    let p = digit_run(s) as int;
    let frac = if p < s.len() { s.subrange(p + 1, s.len() as int) } else { Seq::<u8>::empty() };
    let whole = digits_value(s.subrange(0, p));
    if p == s.len() && p > 0 {
        Some(whole * 10000)
    } else if p < s.len() && s[p] == 46 && all_digits(frac) && frac.len() <= 4 && p + frac.len() > 0 {
        Some(whole * 10000 + digits_value(frac) * pow10((4 - frac.len()) as nat))
    } else {
        None
    }
}

/// A decimal with an optional leading `-`, in ten-thousandths.
pub open spec fn amount_of(s: Seq<u8>) -> Option<int> {
    if s.len() > 0 && s[0] == 45 {
        match magnitude_of(s.drop_first()) {
            Some(m) => Some(-m),
            None => None,
        }
    } else {
        match magnitude_of(s) {
            Some(m) => Some(m as int),
            None => None,
        }
    }
}

proof fn lemma_digits_value_step(s: Seq<u8>, i: int)
    requires
        0 <= i < s.len(),
    ensures
        digits_value(s.subrange(0, i + 1)) == digits_value(s.subrange(0, i)) * 10 + (s[i] - 48) as nat,
{
    assert(s.subrange(0, i + 1).drop_last() =~= s.subrange(0, i));
}

proof fn lemma_digit_run_step(s: Seq<u8>, i: int)
    requires
        0 <= i < s.len(),
    ensures
        is_digit(s[i]) ==> digit_run(s.subrange(i, s.len() as int)) == 1 + digit_run(s.subrange(i + 1, s.len() as int)),
        !is_digit(s[i]) ==> digit_run(s.subrange(i, s.len() as int)) == 0,
{
    assert(s.subrange(i, s.len() as int).drop_first() =~= s.subrange(i + 1, s.len() as int));
}

proof fn lemma_pow10_bound(n: nat)
    requires
        n <= 4,
    ensures
        1 <= pow10(n) <= 10000,
{
    reveal_with_fuel(pow10, 5);
}

proof fn lemma_digits_value_bound(s: Seq<u8>)
    requires
        all_digits(s),
    ensures
        digits_value(s) < pow10(s.len()),
    decreases s.len(),
{
    if s.len() > 0 {
        lemma_digits_value_bound(s.drop_last());
    }
}

/// Reads the ASCII digits of `s` from `start` to `end` as a number below
/// `limit`, or says that the number is `limit` or more.
fn read_digits(s: &[u8], start: usize, end: usize, limit: u64) -> (r: Option<u64>)
    requires
        start <= end <= s@.len(),
        all_digits(s@.subrange(start as int, end as int)),
        0 < limit <= 1_000_000_000_000_000_000,
    ensures
        r matches Some(v) ==> v == digits_value(s@.subrange(start as int, end as int)) && v < limit,
        r is None ==> digits_value(s@.subrange(start as int, end as int)) >= limit,
{
    let ghost d = s@.subrange(start as int, end as int);
    let mut acc: u64 = 0;
    let mut i: usize = start;
    while i < end
        invariant
            start <= i <= end <= s@.len(),
            d == s@.subrange(start as int, end as int),
            all_digits(d),
            acc == digits_value(d.subrange(0, i - start)),
            acc < limit,
            0 < limit <= 1_000_000_000_000_000_000,
        decreases end - i,
    {
        assert(is_digit(d[i - start]));
        proof {
            lemma_digits_value_step(d, i - start);
        }
        let next: u64 = acc * 10 + (s[i] - 48) as u64;
        if next >= limit {
            proof {
                lemma_digits_value_prefix_le(d, i - start + 1);
            }
            return None;
        }
        acc = next;
        i = i + 1;
    }
    assert(d.subrange(0, end - start) =~= d);
    Some(acc)
}

proof fn lemma_digits_value_prefix_le(s: Seq<u8>, k: int)
    requires
        0 <= k <= s.len(),
    ensures
        digits_value(s.subrange(0, k)) <= digits_value(s),
    decreases s.len() - k,
{
    if k < s.len() {
        lemma_digits_value_prefix_le(s, k + 1);
        lemma_digits_value_step(s, k);
    } else {
        assert(s.subrange(0, k) =~= s);
    }
}

/// `m` or `-m`, where that fits in an `i64`.
fn signed_in_range(negative: bool, m: i128) -> (r: Option<i64>)
    requires
        0 <= m <= 100_000_000_000_000_000_000,
    ensures
        r is Some <==> fits(if negative { -m } else { m as int }),
        r matches Some(v) ==> v == (if negative { -m } else { m as int }),
{
    let v: i128 = if negative { -m } else { m };
    if v < i64::MIN as i128 || v > i64::MAX as i128 {
        None
    } else {
        Some(v as i64)
    }
}

/// Where the run of ASCII digits that starts at `start` ends.
fn digit_run_end(s: &[u8], start: usize) -> (p: usize)
    requires
        start <= s@.len(),
    ensures
        start <= p <= s@.len(),
        p - start == digit_run(s@.subrange(start as int, s@.len() as int)),
        all_digits(s@.subrange(start as int, p as int)),
        p < s@.len() ==> !is_digit(s@[p as int]),
{
    let n = s.len();
    let mut p: usize = start;
    while p < n && 48 <= s[p] && s[p] <= 57
        invariant
            start <= p <= n == s@.len(),
            digit_run(s@.subrange(start as int, n as int)) == (p - start) + digit_run(s@.subrange(p as int, n as int)),
            all_digits(s@.subrange(start as int, p as int)),
        decreases n - p,
    {
        proof {
            lemma_digit_run_step(s@, p as int);
            assert forall|j: int| 0 <= j < p + 1 - start implies is_digit(#[trigger] s@.subrange(start as int, p + 1)[j]) by {
                if j < p - start {
                    assert(s@.subrange(start as int, p + 1)[j] == s@.subrange(start as int, p as int)[j]);
                }
            }
        }
        p = p + 1;
    }
    proof {
        if p < n {
            lemma_digit_run_step(s@, p as int);
        } else {
            assert(s@.subrange(p as int, n as int).len() == 0);
        }
    }
    p
}

/// Whether every byte from `from` to the end is an ASCII digit.
fn digits_to_end(s: &[u8], from: usize) -> (r: bool)
    requires
        from <= s@.len(),
    ensures
        r == all_digits(s@.subrange(from as int, s@.len() as int)),
{
    let p = digit_run_end(s, from);
    if p == s.len() {
        true
    } else {
        assert(s@.subrange(from as int, s@.len() as int)[p - from] == s@[p as int]);
        false
    }
}

/// The unsigned decimal from `start` to the end of `s`, in ten-thousandths;
/// `None` where there is none, or where it is `10^19` or more.
fn read_magnitude(s: &[u8], start: usize) -> (r: Option<u128>)
    requires
        start <= s@.len(),
    ensures
        r matches Some(m) ==> magnitude_of(s@.subrange(start as int, s@.len() as int)) == Some(m as nat),
        r is None ==> (magnitude_of(s@.subrange(start as int, s@.len() as int)) matches Some(m) ==> m >= 10_000_000_000_000_000_000),
{
    let n = s.len();
    let ghost body = s@.subrange(start as int, n as int);
    let p = digit_run_end(s, start);
    proof {
        assert(body.subrange(0, p - start) =~= s@.subrange(start as int, p as int));
    }
    // a whole part of 10^15 or more is out of reach of an i64 once scaled
    let whole = match read_digits(s, start, p, 1_000_000_000_000_000) {
        Some(w) => w,
        None => return None,
    };
    if p == n {
        if p == start {
            return None;
        }
        return Some(whole as u128 * 10000);
    }
    let ghost frac = s@.subrange(p + 1, n as int);
    proof {
        assert(body.subrange(p - start + 1, body.len() as int) =~= frac);
        assert(body[p - start] == s@[p as int]);
    }
    if s[p] != 46 {
        return None;
    }
    let first: usize = p + 1;
    if n - first > 4 || (p == start && n == first) {
        return None;
    }
    if !digits_to_end(s, first) {
        return None;
    }
    proof {
        lemma_digits_value_bound(frac);
        lemma_pow10_bound(frac.len());
        reveal_with_fuel(pow10, 5);
    }
    let fraction = match read_digits(s, first, n, 10000) {
        Some(f) => f,
        None => return None,
    };
    let places = n - first;
    let unit: u64 = if places == 0 {
        10000
    } else if places == 1 {
        1000
    } else if places == 2 {
        100
    } else if places == 3 {
        10
    } else {
        1
    };
    assert(unit == pow10((4 - frac.len()) as nat));
    Some(whole as u128 * 10000 + fraction as u128 * unit as u128)
}

/// Reads a decimal amount such as `42.1234`, `-3.5` or `7` as ten-thousandths.
/// Refuses anything else, more than four fractional digits, and values that
/// an `i64` cannot hold.
pub fn parse_amount(text: &[u8]) -> (r: Option<i64>)
    ensures
        r is Some <==> (amount_of(text@) is Some && fits(amount_of(text@)->0)),
        r matches Some(v) ==> v == amount_of(text@)->0,
{
    let negative = text.len() > 0 && text[0] == 45;
    let start: usize = if negative { 1 } else { 0 };
    proof {
        assert(negative ==> text@.subrange(1, text@.len() as int) =~= text@.drop_first());
        assert(!negative ==> text@.subrange(0, text@.len() as int) =~= text@);
    }
    match read_magnitude(text, start) {
        Some(m) => {
            if m > 10_000_000_000_000_000_000 {
                return None;
            }
            signed_in_range(negative, m as i128)
        },
        None => None,
    }
}

} // verus!

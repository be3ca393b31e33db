//! The text of the account report: amounts with four fractional digits.

use vstd::prelude::*;
use crate::funds::AccountRow;

verus! {

pub open spec fn digit_byte(d: nat) -> u8 {
    (48 + d % 10) as u8
}

/// The base-ten digits of `n`, most significant first, without leading zeros.
pub open spec fn decimal(n: nat) -> Seq<u8>
    decreases n,
{
    if n < 10 {
        seq![digit_byte(n)]
    } else {
        decimal(n / 10).push(digit_byte(n % 10))
    }
}

pub open spec fn abs(x: int) -> nat {
    if x < 0 {
        (-x) as nat
    } else {
        x as nat
    }
}

/// A fixed-point value in ten-thousandths written with four fractional
/// digits, as in `-12.3400`.
pub open spec fn amount_text(x: int) -> Seq<u8> {
    let m = abs(x);
    let f = m % 10000;
    let sign = if x < 0 { seq![45u8] } else { Seq::<u8>::empty() };
    sign + decimal(m / 10000) + seq![
        46u8,
        digit_byte(f / 1000),
        digit_byte(f / 100),
        digit_byte(f / 10),
        digit_byte(f),
    ]
}

pub open spec fn bool_text(b: bool) -> Seq<u8> {
    if b {
        seq![116u8, 114, 117, 101]
    } else {
        seq![102u8, 97, 108, 115, 101]
    }
}

/// One report line: client, available, held, total and locked, comma separated.
pub open spec fn row_text(row: AccountRow) -> Seq<u8> {
    decimal(row.client as nat) + seq![44u8] + amount_text(row.available as int) + seq![44u8]
        + amount_text(row.held as int) + seq![44u8] + amount_text(row.total as int) + seq![44u8]
        + bool_text(row.locked)
}

fn push_decimal(out: &mut Vec<u8>, n: u128)
    ensures
        final(out)@ == old(out)@ + decimal(n as nat),
    decreases n,
{
    if n < 10 {
        out.push(48 + n as u8);
    } else {
        push_decimal(out, n / 10);
        out.push(48 + (n % 10) as u8);
    }
}

fn push_amount(out: &mut Vec<u8>, x: i128)
    ensures
        final(out)@ == old(out)@ + amount_text(x as int),
{
    let m: u128 = if x < 0 {
        (-(x + 1)) as u128 + 1
    } else {
        x as u128
    };
    let ghost start = out@;
    if x < 0 {
        out.push(45);
    }
    let ghost signed = out@;
    push_decimal(out, m / 10000);
    let f: u128 = m % 10000;
    out.push(46);
    out.push(48 + (f / 1000 % 10) as u8);
    out.push(48 + (f / 100 % 10) as u8);
    out.push(48 + (f / 10 % 10) as u8);
    out.push(48 + (f % 10) as u8);
    assert(out@ =~= start + amount_text(x as int));
}

fn push_bool(out: &mut Vec<u8>, b: bool)
    ensures
        final(out)@ == old(out)@ + bool_text(b),
{
    let ghost start = out@;
    if b {
        out.push(116);
        out.push(114);
        out.push(117);
        out.push(101);
    } else {
        out.push(102);
        out.push(97);
        out.push(108);
        out.push(115);
        out.push(101);
    }
    assert(out@ =~= start + bool_text(b));
}

/// `x` ten-thousandths written with four fractional digits.
pub fn format_amount(x: i128) -> (r: Vec<u8>)
    ensures
        r@ == amount_text(x as int),
{
    let mut out: Vec<u8> = Vec::new();
    push_amount(&mut out, x);
    assert(out@ =~= amount_text(x as int));
    out
}

/// The report line of `row`, without its line break.
pub fn format_row(row: &AccountRow) -> (r: Vec<u8>)
    ensures
        r@ == row_text(*row),
{
    let mut out: Vec<u8> = Vec::new();
    push_decimal(&mut out, row.client as u128);
    out.push(44);
    push_amount(&mut out, row.available as i128);
    out.push(44);
    push_amount(&mut out, row.held as i128);
    out.push(44);
    push_amount(&mut out, row.total);
    out.push(44);
    push_bool(&mut out, row.locked);
    assert(out@ =~= row_text(*row));
    out
}

} // verus!

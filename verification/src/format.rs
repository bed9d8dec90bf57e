//! Rendering byte counts as short suffixed strings.

use vstd::prelude::*;
use vstd::string::StringExecFns;

verus! {

pub open spec fn digit_char(d: nat) -> char {
    if d == 0 {
        '0'
    } else if d == 1 {
        '1'
    } else if d == 2 {
        '2'
    } else if d == 3 {
        '3'
    } else if d == 4 {
        '4'
    } else if d == 5 {
        '5'
    } else if d == 6 {
        '6'
    } else if d == 7 {
        '7'
    } else if d == 8 {
        '8'
    } else {
        '9'
    }
}

/// The decimal digits of `n`, most significant first, without leading
/// zeroes (zero itself is a single `'0'`).
pub open spec fn dec_digits(n: nat) -> Seq<char>
    decreases n,
{
    if n < 10 {
        seq![digit_char(n)]
    } else {
        dec_digits(n / 10) + seq![digit_char(n % 10)]
    }
}

/// Relies on `u64`'s `Display` implementation, through `format!`: plain
/// decimal digits, most significant first, without leading zeroes,
/// signs or separators.
#[verifier::external_body]
fn u64_to_decimal(n: u64) -> (r: String)
    ensures
        r@ == dec_digits(n as nat),
{
    format!("{}", n)
}

/// How many times an amount is divided by 1000 before it reads well.
pub open spec fn scale_order(n: nat) -> nat
    decreases n,
{
    if n > 1000 {
        1 + scale_order(n / 1000)
    } else {
        0
    }
}

/// What is left of an amount after those divisions.
pub open spec fn scale_amount(n: nat) -> nat
    decreases n,
{
    if n > 1000 {
        scale_amount(n / 1000)
    } else {
        n
    }
}

proof fn lemma_scale_order_lt(n: nat)
    requires
        n > 1000,
    ensures
        scale_order(n) < n,
    decreases n,
{
    assert(n / 1000 < n);
    if n / 1000 > 1000 {
        lemma_scale_order_lt(n / 1000);
        assert(scale_order(n) == 1 + scale_order(n / 1000));
        assert(scale_order(n / 1000) < n / 1000);
    } else {
        assert(scale_order(n / 1000) == 0);
        assert(scale_order(n) == 1);
    }
}

/// The unit that goes with an order of scaling.
pub open spec fn order_suffix(order: nat) -> Seq<char> {
    if order == 0 {
        " b"@
    } else if order == 1 {
        " Kb"@
    } else if order == 2 {
        " Mb"@
    } else if order == 3 {
        " Gb"@
    } else if order == 4 {
        " Tb"@
    } else if order == 5 {
        " Pb"@
    } else if order == 6 {
        " Exa"@
    } else if order == 7 {
        " Zetta"@
    } else {
        " Yotta"@
    }
}

/// What `pretty_bytes` prints: the scaled amount with its unit, or the
/// plain amount where the scale runs off the table.
pub open spec fn pretty_view(n: nat) -> Seq<char> {
    if scale_order(n) <= 8 {
        dec_digits(scale_amount(n)) + order_suffix(scale_order(n))
    } else {
        dec_digits(n)
    }
}

/// A byte count as a short suffixed string: the amount is divided by
/// 1000 until it is at most 1000, and the matching unit is appended.
pub fn pretty_bytes(orig_amount: u64) -> (r: String)
    ensures
        r@ == pretty_view(orig_amount as nat),
{
    let mut amount = orig_amount;
    let mut order: u64 = 0;
    while amount > 1000
        invariant
            amount <= orig_amount,
            order + scale_order(amount as nat) == scale_order(orig_amount as nat),
            scale_amount(orig_amount as nat) == scale_amount(amount as nat),
        decreases amount,
    {
        proof {
            lemma_scale_order_lt(amount as nat);
            lemma_scale_order_lt(orig_amount as nat);
            assert(scale_order(amount as nat) >= 1);
        }
        amount = amount / 1000;
        order = order + 1;
    }
    let digits = u64_to_decimal(amount);
    match order {
        0 => digits.concat(" b"),
        1 => digits.concat(" Kb"),
        2 => digits.concat(" Mb"),
        3 => digits.concat(" Gb"),
        4 => digits.concat(" Tb"),
        5 => digits.concat(" Pb"),
        6 => digits.concat(" Exa"),
        7 => digits.concat(" Zetta"),
        8 => digits.concat(" Yotta"),
        _ => u64_to_decimal(orig_amount),
    }
}

} // verus!

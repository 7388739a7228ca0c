//! Sizes as people read them.

use vstd::prelude::*;
use crate::text::{chars, number};

verus! {

/// `a` divided by `b`, rounded to the nearest number, and to the even one of
/// two that are equally near.
pub open spec fn rounded(a: nat, b: nat) -> nat
    recommends
        b > 0,
{
    let q = a / b;
    let r = a % b;
    if 2 * r > b || 2 * r == b && q % 2 == 1 {
        q + 1
    } else {
        q
    }
}

/// The weight of the last of the 53 binary digits that a double-precision
/// number keeps of `n`.
pub open spec fn last_weight(n: nat) -> nat
    decreases n,
{
    if n < 0x20_0000_0000_0000 {
        1
    } else {
        2 * last_weight(n / 2)
    }
}

/// `n` as a double-precision number.
pub open spec fn as_double(n: nat) -> nat {
    rounded(n, last_weight(n)) * last_weight(n)
}

/// A number of tenths with its point.
pub open spec fn tenths_text(tenths: nat) -> Seq<char> {
    number::decimal(tenths / 10).push('.').push(number::digit(tenths % 10))
}

/// A size in bytes, in kilobytes, or in megabytes, the latter two with one
/// decimal place.
pub open spec fn human_size(bytes: nat) -> Seq<char> {
    if bytes < 1024 {
        number::decimal(bytes) + " B"@
    } else if bytes < 1024 * 1024 {
        tenths_text(rounded(bytes * 10, 1024)) + " KB"@
    } else {
        tenths_text(rounded(as_double(bytes) * 10, 1024 * 1024)) + " MB"@
    }
}

/// `a` divided by `b`, rounded to the nearest number, and to the even one of
/// two that are equally near.
fn round_quotient(a: u128, b: u128) -> (r: u128)
    requires
        0 < b <= 0x1_0000_0000_0000_0000,
    ensures
        r == rounded(a as nat, b as nat),
        r <= a / b + 1,
{
    let q: u128 = a / b;
    let rest: u128 = a % b;
    proof {
        assert(a / b <= a) by (nonlinear_arith)
            requires
                b > 0,
        ;
    }
    if 2 * rest > b || (2 * rest == b && q % 2 == 1) {
        proof {
            if b == 1 {
                assert(rest == 0) by (nonlinear_arith)
                    requires
                        b == 1,
                        rest == a % b,
                ;
            }
            assert(b >= 2 ==> a / b < 0x8000_0000_0000_0000_0000_0000_0000_0000) by (nonlinear_arith)
                requires
                    a <= 0xffff_ffff_ffff_ffff_ffff_ffff_ffff_ffff,
            ;
        }
        q + 1
    } else {
        q
    }
}

/// The weight of the last binary digit that a double-precision number keeps
/// of a 64-bit number is at most 2048.
proof fn lemma_last_weight(n: nat)
    requires
        n <= 0xffff_ffff_ffff_ffff,
    ensures
        1 <= last_weight(n) <= 2048,
{
    reveal_with_fuel(last_weight, 13);
}

/// The weight of the last binary digit that a double-precision number keeps
/// of `n`.
fn digit_weight(n: u64) -> (r: u64)
    ensures
        r == last_weight(n as nat),
        1 <= r <= 2048,
{
    let mut weight: u64 = 1;
    let mut rest: u64 = n;
    proof {
        lemma_last_weight(n as nat);
    }
    while rest >= 0x20_0000_0000_0000
        invariant
            1 <= weight <= 2048,
            last_weight(n as nat) == weight * last_weight(rest as nat),
            1 <= last_weight(n as nat) <= 2048,
            last_weight(rest as nat) >= 1,
        decreases rest,
    {
        let ghost w = last_weight((rest / 2) as nat);
        proof {
            lemma_last_weight((rest / 2) as nat);
            assert(weight * (2 * w) == (2 * weight) * w) by (nonlinear_arith);
            assert(2 * weight <= 2048) by (nonlinear_arith)
                requires
                    w >= 1,
                    (2 * weight) * w <= 2048,
                    weight >= 1,
            ;
        }
        weight = 2 * weight;
        rest = rest / 2;
    }
    assert(weight * 1 == weight) by (nonlinear_arith);
    weight
}

/// A number of tenths with its point.
fn text_of_tenths(tenths: u64) -> (r: String)
    ensures
        r@ == tenths_text(tenths as nat),
{
    let mut s = number::decimal_text(tenths / 10);
    s.push('.');
    let last = number::decimal_text(tenths % 10);
    s.append(&last);
    assert(s@ =~= tenths_text(tenths as nat));
    s
}

/// The size `bytes` as people read it.
pub fn format_bytes_human(bytes: usize) -> (r: String)
    ensures
        r@ == human_size(bytes as nat),
{
    let n: u64 = bytes as u64;
    if n < 1024 {
        let s = number::decimal_text(n);
        chars::concat2(&s, " B")
    } else if n < 1024 * 1024 {
        let tenths: u128 = round_quotient(n as u128 * 10, 1024);
        let s = text_of_tenths(tenths as u64);
        chars::concat2(&s, " KB")
    } else {
        let weight: u64 = digit_weight(n);
        let kept: u128 = round_quotient(n as u128, weight as u128);
        proof {
            assert(kept <= 0x1_0000_0000_0000_0000) by {
                assert(n as int / weight as int <= n) by (nonlinear_arith)
                    requires
                        weight >= 1,
                ;
            }
            assert(kept * weight <= 0x1_0000_0000_0000_0000 * 2048) by (nonlinear_arith)
                requires
                    kept <= 0x1_0000_0000_0000_0000,
                    weight <= 2048,
            ;
        }
        let double: u128 = kept * weight as u128;
        let tenths: u128 = round_quotient(double * 10, 1024 * 1024);
        proof {
            lemma_double_close(n as nat);
        }
        let s = text_of_tenths(tenths as u64);
        chars::concat2(&s, " MB")
    }
}

/// A double-precision number is close to the number that it stands for.
proof fn lemma_double_close(n: nat)
    requires
        n <= 0xffff_ffff_ffff_ffff,
    ensures
        as_double(n) <= n + 2048,
{
    lemma_last_weight(n);
    let w = last_weight(n);
    assert((n / w) * w <= n) by (nonlinear_arith)
        requires
            w > 0,
    ;
    assert((n / w + 1) * w == (n / w) * w + w) by (nonlinear_arith);
}

} // verus!

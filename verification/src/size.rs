//! Sizes of files in words.

use crate::text::{decimal, digit, push_decimal};
use vstd::prelude::*;
use vstd::string::*;

verus! {

/// `n / d` rounded to the nearest whole number; half-way goes to the even one.
pub open spec fn half_even(n: nat, d: nat) -> nat {
    let q = n / d;
    let r = n % d;
    if 2 * r < d {
        q
    } else if 2 * r > d {
        q + 1
    } else if q % 2 == 0 {
        q
    } else {
        q + 1
    }
}

/// Rounds `n / d` to the nearest whole number; half-way goes to the even one.
pub fn round_half_even(n: u128, d: u128) -> (r: u128)
    requires
        0 < d <= u64::MAX,
        n < u128::MAX,
    ensures
        r == half_even(n as nat, d as nat),
{
    let q: u128 = n / d;
    let rest: u128 = n % d;
    proof {
        vstd::arithmetic::div_mod::lemma_div_is_ordered_by_denominator(n as int, 1, d as int);
        vstd::arithmetic::div_mod::lemma_mod_bound(n as int, d as int);
    }
    if 2 * rest < d || (2 * rest == d && q % 2 == 0) {
        q
    } else {
        q + 1
    }
}

/// A nearest whole number is at most half away.
pub proof fn law_half_even_is_nearest(n: nat, d: nat)
    requires
        d > 0,
    ensures
        2 * n <= 2 * (half_even(n, d) * d) + d,
        2 * (half_even(n, d) * d) <= 2 * n + d,
{
    let q = n / d;
    vstd::arithmetic::div_mod::lemma_fundamental_div_mod(n as int, d as int);
    vstd::arithmetic::div_mod::lemma_mod_bound(n as int, d as int);
    assert(d * q == q * d) by (nonlinear_arith);
    assert((q + 1) * d == q * d + d) by (nonlinear_arith);
}

/// Numbers below this are exact as IEEE 754 doubles.
pub const EXACT_BELOW: u64 = 0x20_0000_0000_0000;

/// The distance between the IEEE 754 doubles around a whole number, or 1 where the number
/// itself is a double.
pub open spec fn double_step(n: nat) -> nat
    decreases n,
{
    if n < EXACT_BELOW {
        1
    } else {
        2 * double_step(n / 2)
    }
}

/// The IEEE 754 double nearest to a whole number.
pub open spec fn nearest_double(n: nat) -> nat {
    half_even(n, double_step(n)) * double_step(n)
}

fn to_double(n: u64) -> (r: u128)
    ensures
        r == nearest_double(n as nat),
        r <= 2 * u64::MAX,
        n < EXACT_BELOW ==> r == n,
{
    let mut m: u64 = n;
    let mut step: u128 = 1;
    while m >= EXACT_BELOW
        invariant
            step >= 1,
            step * m <= n,
            m >= 1 || n == 0,
            m <= n,
            n < EXACT_BELOW ==> step == 1,
            double_step(n as nat) == step * double_step(m as nat),
        decreases m,
    {
        let ghost half = (m / 2) as nat;
        assert(step <= step * m) by (nonlinear_arith)
            requires
                step >= 1,
                m >= 1,
        ;
        assert((2 * step) * half <= step * m) by (nonlinear_arith)
            requires
                2 * half <= m,
                step >= 1,
        ;
        assert(step * (2 * double_step(half)) == (2 * step) * double_step(half))
            by (nonlinear_arith);
        m = m / 2;
        step = step * 2;
    }
    assert(double_step(m as nat) == 1);
    assert(step * 1 == step);
    proof {
        if n > 0 {
            assert(step <= step * m) by (nonlinear_arith)
                requires
                    step >= 1,
                    m >= 1,
            ;
        }
        law_half_even_is_nearest(n as nat, step as nat);
    }
    let q: u128 = round_half_even(n as u128, step);
    assert(q * step == half_even(n as nat, step as nat) * step);
    assert(n < EXACT_BELOW ==> q * step == n) by {
        if n < EXACT_BELOW {
            assert(step == 1);
        }
    }
    q * step
}

/// A size in words: megabytes with one digit behind the point, kilobytes, or bytes.
pub open spec fn size_words(bytes: nat) -> Seq<char> {
    if bytes >= 1_048_576 {
        let tenths = half_even(nearest_double(bytes) * 10, 1_048_576);
        decimal(tenths / 10) + "."@ + seq![digit(tenths % 10)] + " MB"@
    } else if bytes >= 1024 {
        decimal(half_even(bytes, 1024)) + " KB"@
    } else {
        decimal(bytes) + " B"@
    }
}

/// Puts a size in words.
pub fn format_size(bytes: u64) -> (r: String)
    ensures
        r@ == size_words(bytes as nat),
{
    let mut out: String = String::new();
    if bytes >= 1_048_576 {
        let double: u128 = to_double(bytes);
        let tenths: u128 = round_half_even(double * 10, 1_048_576);
        push_decimal(&mut out, (tenths / 10) as u64);
        out.append(".");
        push_decimal(&mut out, (tenths % 10) as u64);
        assert(decimal(tenths as nat % 10) =~= seq![digit(tenths as nat % 10)]);
        out.append(" MB");
        assert(out@ =~= size_words(bytes as nat));
    } else if bytes >= 1024 {
        push_decimal(&mut out, round_half_even(bytes as u128, 1024) as u64);
        out.append(" KB");
        assert(out@ =~= size_words(bytes as nat));
    } else {
        push_decimal(&mut out, bytes);
        out.append(" B");
        assert(out@ =~= size_words(bytes as nat));
    }
    out
}

/// Half-way between two whole numbers the even one is taken.
pub proof fn law_half_goes_to_the_even(n: nat, d: nat)
    requires
        d > 0,
    ensures
        2 * (n % d) == d ==> half_even(n, d) % 2 == 0,
        n % d == 0 ==> half_even(n, d) * d == n,
{
    vstd::arithmetic::div_mod::lemma_fundamental_div_mod(n as int, d as int);
    let q = n / d;
    if n % d == 0 {
        assert(q * d == d * q) by (nonlinear_arith);
    }
}

/// Sizes up to 1023 are told in bytes as they are; up to a megabyte in kilobytes, and beyond in
/// tenths of a megabyte, off by half of one at most.
pub proof fn law_sizes_are_told_to_the_nearest(bytes: nat) -> (told: nat)
    ensures
        bytes < 1024 ==> told == bytes && size_words(bytes) == decimal(told) + " B"@,
        1024 <= bytes < 1_048_576 ==> {
            &&& size_words(bytes) == decimal(told) + " KB"@
            &&& 2 * bytes <= 2 * (told * 1024) + 1024
            &&& 2 * (told * 1024) <= 2 * bytes + 1024
        },
        1_048_576 <= bytes < 0x20_0000_0000_0000 ==> {
            &&& size_words(bytes) == decimal(told / 10) + "."@ + decimal(told % 10) + " MB"@
            &&& 2 * (bytes * 10) <= 2 * (told * 1_048_576) + 1_048_576
            &&& 2 * (told * 1_048_576) <= 2 * (bytes * 10) + 1_048_576
        },
{
    if bytes < 1024 {
        bytes
    } else if bytes < 1_048_576 {
        law_half_even_is_nearest(bytes, 1024);
        half_even(bytes, 1024)
    } else {
        assert(bytes < 0x20_0000_0000_0000 ==> double_step(bytes) == 1);
        if bytes < 0x20_0000_0000_0000 {
            law_half_goes_to_the_even(bytes, 1);
            assert(nearest_double(bytes) == bytes);
            law_half_even_is_nearest(bytes * 10, 1_048_576);
        }
        let told = half_even(nearest_double(bytes) * 10, 1_048_576);
        assert(decimal(told % 10) == seq![digit(told % 10)]);
        told
    }
}

} // verus!

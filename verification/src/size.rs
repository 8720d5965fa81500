//! Human-readable sizes: a byte count scaled to B, K, M, G, T or P and shown
//! with two decimals, digit for digit as a double-precision value prints.

use vstd::prelude::*;
use vstd::string::*;
use crate::text::{decimal, digit_char, digit_str, push_decimal};

verus! {

/// `1024` to the power `k`.
pub open spec fn pow1024(k: nat) -> nat
    decreases k,
{
    if k == 0 {
        1
    } else {
        1024 * pow1024((k - 1) as nat)
    }
}

/// `a / d` rounded to the nearest integer, a tie going to the even one.
pub open spec fn round_half_even(a: nat, d: nat) -> nat {
    let q = a / d;
    let r = a % d;
    if 2 * r > d || (2 * r == d && q % 2 == 1) {
        q + 1
    } else {
        q
    }
}

/// The distance between neighbouring double-precision values at `n`: 1 below
/// 2^53, doubling with every further bit.
pub open spec fn double_step(n: nat) -> nat
    decreases n,
{
    if n < 0x20_0000_0000_0000 {
        1
    } else {
        2 * double_step(n / 2)
    }
}

/// The double-precision value nearest to `n`; a tie goes to the value with
/// the even significand. Counts below 2^53 are exact.
pub open spec fn nearest_double(n: nat) -> nat {
    round_half_even(n, double_step(n)) * double_step(n)
}

/// How often `value` is divided by 1024: once for each unit it exceeds 1024
/// of, five times at most. A value of exactly 1024 of a unit stays in it.
pub open spec fn unit_index(value: nat) -> nat {
    if value <= pow1024(1) {
        0
    } else if value <= pow1024(2) {
        1
    } else if value <= pow1024(3) {
        2
    } else if value <= pow1024(4) {
        3
    } else if value <= pow1024(5) {
        4
    } else {
        5
    }
}

/// The letter of a unit.
pub open spec fn unit_char(k: nat) -> char {
    if k == 0 {
        'B'
    } else if k == 1 {
        'K'
    } else if k == 2 {
        'M'
    } else if k == 3 {
        'G'
    } else if k == 4 {
        'T'
    } else {
        'P'
    }
}

/// The scaled value of `size` in hundredths of its unit.
pub open spec fn scaled_hundredths(size: nat) -> nat {
    let value = nearest_double(size);
    round_half_even(value * 100, pow1024(unit_index(value)))
}

/// The text of a size: integer part, a point, two decimals and the unit.
pub open spec fn human_readable(size: nat) -> Seq<char> {
    let h = scaled_hundredths(size);
    decimal(h / 100) + seq![
        '.',
        digit_char((h / 10) % 10),
        digit_char(h % 10),
        unit_char(unit_index(nearest_double(size))),
    ]
}

/// `a / d` rounded half to even.
fn divide_half_even(a: u128, d: u128) -> (q: u128)
    requires
        0 < d <= 0x1_0000_0000_0000_0000,
        a < 0x1_0000_0000_0000_0000_0000,
    ensures
        q == round_half_even(a as nat, d as nat),
        q <= a + 1,
{
    let q = a / d;
    let r = a % d;
    assert(q <= a) by (nonlinear_arith)
        requires
            q == a / d,
            d > 0,
    ;
    if r + r > d || (r + r == d && q % 2 == 1) {
        q + 1
    } else {
        q
    }
}

/// The double-precision value nearest to `size`.
fn round_to_double(size: u64) -> (value: u128)
    ensures
        value == nearest_double(size as nat),
        value <= size + 0x1000,
{
    let mut step: u64 = 1;
    let mut rest: u64 = size;
    while rest >= 0x20_0000_0000_0000
        invariant
            step >= 1,
            step * rest <= size,
            rest >= 0x10_0000_0000_0000 || step == 1,
            double_step(size as nat) == step * double_step(rest as nat),
        decreases rest,
    {
        proof {
            let half = (rest / 2) as nat;
            assert(step * (2 * double_step(half)) == (step * 2) * double_step(half))
                by (nonlinear_arith);
            assert((step * 2) * (rest / 2) <= step * rest) by (nonlinear_arith)
                requires
                    step >= 1,
            ;
            assert(step * 2 <= 0x1000) by (nonlinear_arith)
                requires
                    step * rest <= 0xffff_ffff_ffff_ffff,
                    rest >= 0x20_0000_0000_0000,
                    step >= 1,
            ;
        }
        rest = rest / 2;
        step = step * 2;
    }
    assert(step < 0x1000) by (nonlinear_arith)
        requires
            step * rest <= 0xffff_ffff_ffff_ffff,
            rest >= 0x10_0000_0000_0000 || step == 1,
    ;
    assert(double_step(size as nat) == step) by {
        assert(double_step(rest as nat) == 1);
        assert(step * 1 == step) by (nonlinear_arith);
    }
    let q = divide_half_even(size as u128, step as u128);
    assert(q * step <= size + step) by (nonlinear_arith)
        requires
            q == round_half_even(size as nat, step as nat),
            step >= 1,
    ;
    q * (step as u128)
}

/// The unit of `value`: its index, its divisor and its letter.
fn pick_unit(value: u128) -> (unit: (u8, u128, &'static str))
    ensures
        unit.0 == unit_index(value as nat),
        unit.1 == pow1024(unit_index(value as nat)),
        unit.2@ == seq![unit_char(unit_index(value as nat))],
        0 < unit.1 <= 0x4_0000_0000_0000,
{
    proof {
        reveal_with_fuel(pow1024, 6);
        reveal_strlit("B");
        reveal_strlit("K");
        reveal_strlit("M");
        reveal_strlit("G");
        reveal_strlit("T");
        reveal_strlit("P");
    }
    let unit = if value <= 0x400 {
        (0u8, 1u128, "B")
    } else if value <= 0x10_0000 {
        (1u8, 0x400u128, "K")
    } else if value <= 0x4000_0000 {
        (2u8, 0x10_0000u128, "M")
    } else if value <= 0x100_0000_0000 {
        (3u8, 0x4000_0000u128, "G")
    } else if value <= 0x4_0000_0000_0000 {
        (4u8, 0x100_0000_0000u128, "T")
    } else {
        (5u8, 0x4_0000_0000_0000u128, "P")
    };
    assert(unit.2@ =~= seq![unit_char(unit_index(value as nat))]);
    unit
}

/// Turns a byte count into its human-readable text, such as `1.50K`.
///
/// The count is taken as the nearest double-precision value, divided by 1024
/// while it exceeds 1024 (five times at most, so petabytes are the last
/// unit), and rounded to two decimals, a tie going to the even digit.
pub fn human_readable_size(size: u64) -> (text: String)
    ensures
        text@ == human_readable(size as nat),
{
    let value = round_to_double(size);
    let (_, divisor, letter) = pick_unit(value);
    let h = divide_half_even(value * 100, divisor);
    let mut text = String::new();
    push_decimal(&mut text, h / 100);
    proof {
        reveal_strlit(".");
    }
    text.append(".");
    text.append(digit_str(((h / 10) % 10) as u64));
    text.append(digit_str((h % 10) as u64));
    text.append(letter);
    assert(text@ =~= human_readable(size as nat));
    text
}

} // verus!

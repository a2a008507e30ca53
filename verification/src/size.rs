//! Sizes in bytes as people read them.

use vstd::prelude::*;
use vstd::arithmetic::div_mod::lemma_fundamental_div_mod;
use crate::text::{decimal, digit, push_decimal, push_str, text_of};

verus! {

/// Bytes in a kilobyte.
pub const KB: u64 = 1024;

/// Bytes in a megabyte.
pub const MB: u64 = 1048576;

/// Bytes in a gigabyte.
pub const GB: u64 = 1073741824;

/// Bytes in a terabyte.
pub const TB: u64 = 1099511627776;

/// The largest count below which every whole number is a binary64 value.
pub const EXACT_LIMIT: u64 = 9007199254740992;

/// `num / den`, rounded to the nearest whole number, a tie to the even one.
pub open spec fn round_half_even(num: nat, den: nat) -> nat
    recommends
        den > 0,
{
    let q = num / den;
    let r = num % den;
    if 2 * r > den || (2 * r == den && q % 2 == 1) {
        q + 1
    } else {
        q
    }
}

/// The distance between neighbouring binary64 values at `n`: 53 binary
/// digits are kept.
pub open spec fn float_step(n: nat) -> nat {
    if n < 0x20_0000_0000_0000 {
        1
    } else if n < 0x40_0000_0000_0000 {
        2
    } else if n < 0x80_0000_0000_0000 {
        4
    } else if n < 0x100_0000_0000_0000 {
        8
    } else if n < 0x200_0000_0000_0000 {
        16
    } else if n < 0x400_0000_0000_0000 {
        32
    } else if n < 0x800_0000_0000_0000 {
        64
    } else if n < 0x1000_0000_0000_0000 {
        128
    } else if n < 0x2000_0000_0000_0000 {
        256
    } else if n < 0x4000_0000_0000_0000 {
        512
    } else if n < 0x8000_0000_0000_0000 {
        1024
    } else {
        2048
    }
}

/// The binary64 value nearest to a 64-bit count, a tie to the one with the
/// even last digit: the value that the count is shown by.
pub open spec fn nearest_float(n: nat) -> nat {
    round_half_even(n, float_step(n)) * float_step(n)
}

/// A count below the limit is shown by itself.
pub proof fn law_small_counts_are_shown_as_they_are(n: nat)
    requires
        n < EXACT_LIMIT,
    ensures
        nearest_float(n) == n,
{
}

/// Hundredths of `unit` in `n`, rounded half to even.
pub open spec fn hundredths(n: nat, unit: nat) -> nat {
    round_half_even(nearest_float(n) * 100, unit)
}

/// A count of hundredths as a number with two decimals.
pub open spec fn two_decimals(h: nat) -> Seq<char> {
    decimal(h / 100) + seq!['.', digit((h % 100) / 10), digit(h % 10)]
}

/// A size with its unit: bytes as they are, larger sizes in the largest
/// unit that they reach, with two decimals.
pub open spec fn size_text(bytes: nat) -> Seq<char> {
    if bytes >= TB {
        two_decimals(hundredths(bytes, TB as nat)) + " TB"@
    } else if bytes >= GB {
        two_decimals(hundredths(bytes, GB as nat)) + " GB"@
    } else if bytes >= MB {
        two_decimals(hundredths(bytes, MB as nat)) + " MB"@
    } else if bytes >= KB {
        two_decimals(hundredths(bytes, KB as nat)) + " KB"@
    } else {
        decimal(bytes) + " B"@
    }
}

fn rounded_quotient(num: u128, den: u128) -> (out: u128)
    requires
        den > 0,
        num / den < u128::MAX,
        den <= u128::MAX / 2,
    ensures
        out == round_half_even(num as nat, den as nat),
{
    let q: u128 = num / den;
    let r: u128 = num % den;
    if 2 * r > den || (2 * r == den && q % 2 == 1) {
        q + 1
    } else {
        q
    }
}

fn step_of(n: u64) -> (out: u64)
    ensures
        out == float_step(n as nat),
        1 <= out <= 2048,
{
    if n < 0x20_0000_0000_0000 {
        1
    } else if n < 0x40_0000_0000_0000 {
        2
    } else if n < 0x80_0000_0000_0000 {
        4
    } else if n < 0x100_0000_0000_0000 {
        8
    } else if n < 0x200_0000_0000_0000 {
        16
    } else if n < 0x400_0000_0000_0000 {
        32
    } else if n < 0x800_0000_0000_0000 {
        64
    } else if n < 0x1000_0000_0000_0000 {
        128
    } else if n < 0x2000_0000_0000_0000 {
        256
    } else if n < 0x4000_0000_0000_0000 {
        512
    } else if n < 0x8000_0000_0000_0000 {
        1024
    } else {
        2048
    }
}

fn hundredths_of(bytes: u64, unit: u64) -> (out: u64)
    requires
        unit >= 1024,
    ensures
        out == hundredths(bytes as nat, unit as nat),
{
    let step: u128 = step_of(bytes) as u128;
    let n: u128 = bytes as u128;
    proof {
        lemma_fundamental_div_mod(n as int, step as int);
        assert(n as int / step as int <= n as int) by (nonlinear_arith)
            requires
                step >= 1,
                n >= 0,
        ;
    }
    let kept: u128 = rounded_quotient(n, step);
    assert(kept * step <= n + step) by (nonlinear_arith)
        requires
            kept <= n as int / step as int + 1,
            n == step as int * (n as int / step as int) + n as int % step as int,
            n as int % step as int >= 0,
            step >= 1,
    ;
    let value: u128 = kept * step;
    let den: u128 = unit as u128;
    let scaled: u128 = value * 100;
    assert(scaled as int / den as int <= scaled as int / 1024) by (nonlinear_arith)
        requires
            den >= 1024,
            scaled >= 0,
    ;
    let h: u128 = rounded_quotient(scaled, den);
    assert(h <= u64::MAX);
    h as u64
}

fn push_two_decimals(buf: &mut Vec<char>, h: u64)
    ensures
        final(buf)@ == old(buf)@ + two_decimals(h as nat),
{
    push_decimal(buf, h / 100);
    buf.push('.');
    let ghost mid = buf@;
    push_decimal(buf, (h % 100) / 10);
    push_decimal(buf, h % 10);
    proof {
        assert(decimal(((h % 100) / 10) as nat) =~= seq![digit(((h % 100) / 10) as nat)]);
        assert(decimal((h % 10) as nat) =~= seq![digit((h % 10) as nat)]);
        assert(buf@ =~= old(buf)@ + two_decimals(h as nat));
    }
}

/// A size in bytes with its unit, as people read it.
pub fn format_size(bytes: u64) -> (out: String)
    ensures
        out@ == size_text(bytes as nat),
{
    let mut buf: Vec<char> = Vec::new();
    if bytes >= TB {
        push_two_decimals(&mut buf, hundredths_of(bytes, TB));
        push_str(&mut buf, " TB");
    } else if bytes >= GB {
        push_two_decimals(&mut buf, hundredths_of(bytes, GB));
        push_str(&mut buf, " GB");
    } else if bytes >= MB {
        push_two_decimals(&mut buf, hundredths_of(bytes, MB));
        push_str(&mut buf, " MB");
    } else if bytes >= KB {
        push_two_decimals(&mut buf, hundredths_of(bytes, KB));
        push_str(&mut buf, " KB");
    } else {
        push_decimal(&mut buf, bytes);
        push_str(&mut buf, " B");
    }
    assert(buf@ =~= size_text(bytes as nat));
    text_of(&buf)
}

} // verus!

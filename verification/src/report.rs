//! The integer side of the log line formatting: elapsed time as
//! `seconds.milliseconds` and fixed-decimal numbers with exactly the
//! requested count of fractional digits.

use vstd::prelude::*;

verus! {

/// Count of decimal digits of `n` (zero has one digit).
pub open spec fn num_digits(n: nat) -> nat
    decreases n,
{
    if n < 10 {
        1
    } else {
        1 + num_digits(n / 10)
    }
}

/// Ten to the power `d`.
pub open spec fn pow10(d: nat) -> nat
    decreases d,
{
    if d == 0 {
        1
    } else {
        10 * pow10((d - 1) as nat)
    }
}

/// Zeros to write before `value` so that it fills `width` digits.
pub open spec fn pad_zeros(value: nat, width: nat) -> nat {
    if num_digits(value) >= width {
        0
    } else {
        (width - num_digits(value)) as nat
    }
}

/// A value is below `10^j` exactly when it has at most `j` digits.
proof fn lemma_below_pow10_iff_digits(n: nat, j: nat)
    requires
        j >= 1,
    ensures
        n < pow10(j) <==> num_digits(n) <= j,
    decreases j,
{
    lemma_digits_positive(n / 10);
    if j == 1 {
        assert(pow10(1) == 10) by {
            reveal_with_fuel(pow10, 2);
        }
    } else {
        lemma_below_pow10_iff_digits(n / 10, (j - 1) as nat);
        lemma_pow10_positive((j - 1) as nat);
        let p = pow10((j - 1) as nat);
        assert(pow10(j) == 10 * p);
        if n >= 10 {
            assert(num_digits(n) == 1 + num_digits(n / 10));
            assert(n < 10 * p <==> n / 10 < p);
        }
    }
}

/// Every value has at least one digit.
proof fn lemma_digits_positive(n: nat)
    ensures
        num_digits(n) >= 1,
{
}

proof fn lemma_pow10_positive(d: nat)
    ensures
        pow10(d) >= 1,
    decreases d,
{
    if d > 0 {
        lemma_pow10_positive((d - 1) as nat);
    }
}

/// Elapsed time split for printing as `secs.mmm`.
#[derive(Clone, Copy, Debug, PartialEq, Eq)]
pub struct TimeStamp {
    pub secs: u32,
    pub millis: u32,
    /// Zeros to print between the point and `millis`.
    pub millis_zeros: u8,
}

/// Splits elapsed milliseconds into whole seconds and the millisecond
/// remainder, with the zeros that pad the remainder to three digits.
pub fn split_time(elapsed_ms: u32) -> (r: TimeStamp)
    ensures
        r.secs == elapsed_ms / 1000,
        r.millis == elapsed_ms % 1000,
        r.secs * 1000 + r.millis == elapsed_ms,
        r.millis_zeros == pad_zeros(r.millis as nat, 3),
        r.millis_zeros + num_digits(r.millis as nat) == 3,
        r.millis < 10 ==> r.millis_zeros == 2,
        10 <= r.millis < 100 ==> r.millis_zeros == 1,
        100 <= r.millis ==> r.millis_zeros == 0,
{
    let s = elapsed_ms / 1000;
    let ms = elapsed_ms % 1000;
    let mut zeros: u8 = 0;
    if ms < 100 {
        zeros += 1;
    }
    if ms < 10 {
        zeros += 1;
    }
    proof {
        reveal_with_fuel(num_digits, 4);
        if ms >= 100 {
            assert(ms as nat / 10 >= 10);
            assert((ms as nat / 10) / 10 < 10);
        } else if ms >= 10 {
            assert(ms as nat / 10 < 10);
        }
    }
    TimeStamp { secs: s, millis: ms, millis_zeros: zeros }
}

/// `10^decimals`, the scale of a fixed-decimal number.
pub fn decimal_scale(decimals: u8) -> (r: u32)
    requires
        decimals <= 9,
    ensures
        r == pow10(decimals as nat),
{
    let mut scale: u32 = 1;
    let mut k: u8 = 0;
    while k < decimals
        invariant
            k <= decimals <= 9,
            scale == pow10(k as nat),
            scale <= 1_000_000_000,
        decreases decimals - k,
    {
        proof {
            reveal_with_fuel(pow10, 10);
            assert(pow10(k as nat) <= 100_000_000) by {
                assert(k <= 8);
                if k == 0 {} else if k == 1 {} else if k == 2 {} else if k == 3 {} else if k == 4 {
                } else if k == 5 {} else if k == 6 {} else if k == 7 {} else {}
            }
        }
        scale = scale * 10;
        k = k + 1;
    }
    scale
}

/// A fixed-decimal number ready to print as `int_part.` then
/// `frac_zeros` zeros then `frac_part` (the fractional part is left out
/// when there are no decimals).
#[derive(Clone, Copy, Debug, PartialEq, Eq)]
pub struct FixedDecimal {
    pub int_part: u32,
    pub frac_part: u32,
    pub frac_zeros: u8,
}

/// Builds the printed form of `int_part + frac_raw / 10^decimals`, where
/// `frac_raw` is the rounded fractional part: a rounding that reaches
/// `10^decimals` carries into the integer part.
pub fn fixed_decimal(int_part: u32, frac_raw: u32, decimals: u8) -> (r: FixedDecimal)
    requires
        decimals <= 9,
        frac_raw >= pow10(decimals as nat) ==> int_part < u32::MAX,
    ensures
        frac_raw >= pow10(decimals as nat) ==> r.int_part == int_part + 1 && r.frac_part == 0,
        frac_raw < pow10(decimals as nat) ==> r.int_part == int_part && r.frac_part == frac_raw,
        r.frac_part < pow10(decimals as nat),
        decimals == 0 ==> r.frac_zeros == 0,
        decimals > 0 ==> r.frac_zeros == pad_zeros(r.frac_part as nat, decimals as nat),
        decimals > 0 ==> r.frac_zeros + num_digits(r.frac_part as nat) == decimals,
        decimals > 0 ==> r.frac_zeros < decimals,
        decimals > 0 ==> r.frac_part < pow10((decimals - r.frac_zeros) as nat),
        decimals > 0 && r.frac_zeros + 1 < decimals ==> r.frac_part >= pow10(
            (decimals - r.frac_zeros - 1) as nat,
        ),
        frac_raw <= pow10(decimals as nat) ==> r.int_part * pow10(decimals as nat) + r.frac_part
            == int_part * pow10(decimals as nat) + frac_raw,
{
    let scale = decimal_scale(decimals);
    proof {
        lemma_pow10_positive(decimals as nat);
    }
    let (int_out, frac) = if frac_raw >= scale {
        (int_part + 1, 0u32)
    } else {
        (int_part, frac_raw)
    };
    let mut zeros: u8 = 0;
    let mut lead: u32 = scale / 10;
    let ghost mut j: int = decimals as int - 1;
    let ghost c: int = num_digits(frac as nat) as int;
    proof {
        if decimals > 0 {
            lemma_below_pow10_iff_digits(frac as nat, decimals as nat);
            assert(pow10(decimals as nat) == 10 * pow10((decimals - 1) as nat));
        }
    }
    while lead > 1
        invariant
            decimals <= 9,
            decimals > 0 ==> 0 <= j < decimals,
            decimals > 0 ==> lead == pow10(j as nat),
            decimals == 0 ==> lead == 0,
            decimals > 0 ==> 1 <= c <= decimals,
            c == num_digits(frac as nat),
            decimals > 0 ==> zeros == (decimals - 1) - (if j > c - 1 { j } else { c - 1 }),
            decimals == 0 ==> zeros == 0,
        decreases lead,
    {
        proof {
            lemma_below_pow10_iff_digits(frac as nat, j as nat);
            assert(j >= 1) by {
                if j == 0 {
                    assert(pow10(0) == 1);
                }
            }
        }
        if frac < lead {
            zeros += 1;
        }
        proof {
            assert(pow10(j as nat) == 10 * pow10((j - 1) as nat));
            lemma_pow10_positive((j - 1) as nat);
            j = j - 1;
        }
        lead = lead / 10;
    }
    proof {
        if decimals > 0 {
            assert(j == 0) by {
                if j > 0 {
                    lemma_pow10_positive((j - 1) as nat);
                    assert(pow10(j as nat) == 10 * pow10((j - 1) as nat));
                }
            }
        }
        if frac_raw <= pow10(decimals as nat) && frac_raw >= pow10(decimals as nat) {
            assert(int_out * pow10(decimals as nat) == int_part * pow10(decimals as nat) + pow10(
                decimals as nat,
            )) by (nonlinear_arith)
                requires
                    int_out == int_part + 1,
            ;
        }
    }
    proof {
        if decimals > 0 {
            let c = num_digits(frac as nat);
            lemma_digits_positive(frac as nat);
            lemma_below_pow10_iff_digits(frac as nat, c);
            if c >= 2 {
                lemma_below_pow10_iff_digits(frac as nat, (c - 1) as nat);
            }
        }
    }
    FixedDecimal { int_part: int_out, frac_part: frac, frac_zeros: zeros }
}

} // verus!

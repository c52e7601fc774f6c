//! From an iteration count to a position on the palette.
//!
//! In the logarithmic mapping the position is the quotient of two binary
//! logarithms, each computed in fixed point with
//! [`LOG_FRACTION_BITS`] fractional bits.

use crate::escape::IterationResult;
use crate::fixed::{Fixed, SCALE};
use vstd::arithmetic::power::{
    lemma_pow0, lemma_pow1, lemma_pow_adds, lemma_pow_distributes, lemma_pow_multiplies,
    lemma_pow_positive, pow,
};
use vstd::arithmetic::power2::{
    lemma2_to64, lemma2_to64_rest, lemma_pow2, lemma_pow2_adds, lemma_pow2_pos,
    lemma_pow2_strictly_increases, lemma_pow2_unfold, pow2,
};
use vstd::prelude::*;

verus! {

/// How an iteration count is spread over the palette.
#[derive(Clone, Copy, Debug, PartialEq, Eq, Structural)]
pub enum ColorMapping {
    /// Position `n / max`.
    Linear,
    /// Position `log(n) / log(max)`, and 0 where `n` is 0.
    Logarithmic,
}

/// Fractional bits of a fixed-point binary logarithm.
pub const LOG_FRACTION_BITS: u32 = 32;

/// The value one as a fixed-point binary logarithm.
pub const LOG_ONE: u64 = 0x1_0000_0000;

/// The least mantissa: a mantissa `m` stands for `m / 2^63`, a number in
/// `[1, 2)`.
pub const MANTISSA_ONE: u64 = 0x8000_0000_0000_0000;

/// The integer part of the binary logarithm of `n`, for `n >= 1`.
pub open spec fn floor_log2(n: int) -> int
    decreases n,
{
    if n < 2 {
        0
    } else {
        1 + floor_log2(n / 2)
    }
}

/// `n` divided by the greatest power of two that is not above it, as a
/// mantissa.
pub open spec fn mantissa(n: int) -> int {
    n * pow2((63 - floor_log2(n)) as nat)
}

/// The first `bits` fractional bits of the binary logarithm of the
/// mantissa `m`, found by repeated squaring: the square of a number in
/// `[1, 2)` is at least 2 exactly when its logarithm is at least one half.
/// Each square is rounded down to a mantissa.
pub open spec fn log2_fraction(m: int, bits: nat) -> int
    decreases bits,
{
    if bits == 0 {
        0
    } else if m * m >= 0x8000_0000_0000_0000_0000_0000_0000_0000 {
        pow2((bits - 1) as nat) + log2_fraction(
            (m * m) / 0x1_0000_0000_0000_0000,
            (bits - 1) as nat,
        )
    } else {
        log2_fraction((m * m) / 0x8000_0000_0000_0000, (bits - 1) as nat)
    }
}

/// The binary logarithm of `n` in fixed point, for `n >= 1`. For `n == 0`
/// it is 0.
pub open spec fn log2_fixed(n: int) -> int {
    floor_log2(n) * LOG_ONE + log2_fraction(mantissa(n), LOG_FRACTION_BITS as nat)
}

/// The logarithmic position of the count `n` under the budget `max`, as a
/// raw value, for `n < max`. Counts 0 and 1 sit at position 0.
pub open spec fn logarithmic_position(n: int, max: int) -> int {
    if n <= 1 {
        0
    } else {
        (log2_fixed(n) * SCALE) / log2_fixed(max)
    }
}

/// The linear position of the count `n` under the budget `max`, as a raw
/// value, for `n < max`.
pub open spec fn linear_position(n: int, max: int) -> int {
    (n * SCALE) / max
}

/// The palette position of an outcome under the budget `max`. A bounded
/// point sits at position 1, and so does a count that is not below the
/// budget.
pub open spec fn position_of(result: IterationResult, max: int, mapping: ColorMapping) -> int {
    match result {
        IterationResult::Bounded => SCALE as int,
        IterationResult::Escaped(n) => if n >= max {
            SCALE as int
        } else {
            match mapping {
                ColorMapping::Linear => linear_position(n as int, max),
                ColorMapping::Logarithmic => logarithmic_position(n as int, max),
            }
        },
    }
}

/// The palette position of `result` under the budget `max_iterations`.
pub fn palette_position(result: IterationResult, max_iterations: u32, mapping: ColorMapping) -> (p:
    Fixed)
    ensures
        p@ == position_of(result, max_iterations as int, mapping),
        0 <= p@ <= SCALE,
{
    match result {
        IterationResult::Bounded => Fixed { raw: SCALE },
        IterationResult::Escaped(n) => {
            if n >= max_iterations {
                Fixed { raw: SCALE }
            } else {
                proof {
                    lemma_position_in_unit_range(n as int, max_iterations as int);
                }
                match mapping {
                    ColorMapping::Linear => {
                        let scaled: u64 = (n as u64) * (SCALE as u64);
                        Fixed { raw: (scaled / (max_iterations as u64)) as i64 }
                    },
                    ColorMapping::Logarithmic => {
                        if n <= 1 {
                            Fixed { raw: 0 }
                        } else {
                            let numerator = log2_of(n);
                            let denominator = log2_of(max_iterations);
                            proof {
                                lemma_log2_fixed_bounds(n as int);
                                lemma_log2_fixed_bounds(max_iterations as int);
                            }
                            let scaled: u128 = (numerator as u128) * (SCALE as u128);
                            Fixed { raw: (scaled / (denominator as u128)) as i64 }
                        }
                    },
                }
            }
        },
    }
}

/// The binary logarithm of `n` in fixed point, and 0 for `n == 0`.
pub fn log2_of(n: u32) -> (r: u64)
    ensures
        r == log2_fixed(n as int),
{
    if n == 0 {
        proof {
            lemma_zero_has_no_fraction(LOG_FRACTION_BITS as nat);
        }
        return 0;
    }
    let ghost exponent: nat = (63 - floor_log2(n as int)) as nat;
    proof {
        lemma_mantissa_range(n as int);
        lemma2_to64();
    }
    let mut m: u64 = n as u64;
    let mut shifts: u32 = 0;
    while m < MANTISSA_ONE
        invariant
            n >= 1,
            exponent == 63 - floor_log2(n as int),
            0 <= floor_log2(n as int) <= 31,
            shifts <= exponent,
            m == n * pow2(shifts as nat),
            MANTISSA_ONE <= n * pow2(exponent) < 0x1_0000_0000_0000_0000,
        decreases exponent - shifts,
    {
        proof {
            lemma_pow2_unfold((shifts + 1) as nat);
            if shifts + 1 < exponent {
                lemma_pow2_strictly_increases((shifts + 1) as nat, exponent);
            }
            let low = pow2((shifts + 1) as nat);
            let high = pow2(exponent);
            assert(n * low <= n * high) by (nonlinear_arith)
                requires
                    low <= high,
                    n >= 0,
            ;
            assert(n * (2 * pow2(shifts as nat)) == 2 * (n * pow2(shifts as nat)))
                by (nonlinear_arith);
        }
        m = m * 2;
        shifts = shifts + 1;
    }
    assert(shifts == exponent) by {
        if shifts < exponent {
            lemma_pow2_unfold(exponent);
            if shifts < exponent - 1 {
                lemma_pow2_strictly_increases(shifts as nat, (exponent - 1) as nat);
            }
            let low = pow2(shifts as nat);
            let high = pow2((exponent - 1) as nat);
            assert(n * low <= n * high) by (nonlinear_arith)
                requires
                    low <= high,
                    n >= 0,
            ;
            assert(n * (2 * high) == 2 * (n * high)) by (nonlinear_arith);
        }
    }
    let whole: u32 = 63 - shifts;
    let ghost start = m;
    let mut fraction: u64 = 0;
    let mut remaining: u32 = LOG_FRACTION_BITS;
    let mut weight: u64 = LOG_ONE;
    while remaining > 0
        invariant
            MANTISSA_ONE <= m,
            remaining <= LOG_FRACTION_BITS,
            weight == pow2(remaining as nat),
            fraction + weight <= LOG_ONE,
            fraction + log2_fraction(m as int, remaining as nat) == log2_fraction(
                start as int,
                LOG_FRACTION_BITS as nat,
            ),
        decreases remaining,
    {
        proof {
            lemma_mantissa_step(m as int);
            lemma_pow2_unfold(remaining as nat);
        }
        let square: u128 = (m as u128) * (m as u128);
        weight = weight / 2;
        remaining = remaining - 1;
        if square >= 0x8000_0000_0000_0000_0000_0000_0000_0000 {
            fraction = fraction + weight;
            m = (square / 0x1_0000_0000_0000_0000) as u64;
        } else {
            m = (square / 0x8000_0000_0000_0000) as u64;
        }
    }
    (whole as u64) * LOG_ONE + fraction
}

/// `n` lies between the power of two of its integer logarithm and the
/// next one.
pub proof fn lemma_floor_log2_brackets(n: int)
    requires
        n >= 1,
    ensures
        floor_log2(n) >= 0,
        pow2(floor_log2(n) as nat) <= n < pow2((floor_log2(n) + 1) as nat),
    decreases n,
{
    lemma2_to64();
    if n >= 2 {
        lemma_floor_log2_brackets(n / 2);
        let k = floor_log2(n / 2);
        lemma_pow2_unfold((k + 1) as nat);
        lemma_pow2_unfold((k + 2) as nat);
    }
}

/// The integer logarithm does not decrease when its argument grows.
pub proof fn lemma_floor_log2_is_monotonic(a: int, b: int)
    requires
        1 <= a <= b,
    ensures
        floor_log2(a) <= floor_log2(b),
    decreases b,
{
    if a >= 2 {
        lemma_floor_log2_is_monotonic(a / 2, b / 2);
    } else {
        lemma_floor_log2_brackets(b);
    }
}

/// The mantissa of a 32-bit number stands for a number in `[1, 2)`.
pub proof fn lemma_mantissa_range(n: int)
    requires
        1 <= n <= u32::MAX,
    ensures
        0 <= floor_log2(n) <= 31,
        MANTISSA_ONE <= mantissa(n) < 0x1_0000_0000_0000_0000,
{
    lemma_floor_log2_brackets(n);
    lemma2_to64();
    lemma2_to64_rest();
    let k = floor_log2(n) as nat;
    assert(k < 32) by {
        if k > 32 {
            lemma_pow2_strictly_increases(32, k);
        }
    }
    let e = (63 - k) as nat;
    lemma_pow2_adds(k, e);
    lemma_pow2_adds(k + 1, e);
    lemma_pow2_pos(e);
    let low = pow2(k);
    let high = pow2(k + 1);
    let p = pow2(e);
    assert(low * p <= n * p && n * p < high * p) by (nonlinear_arith)
        requires
            low <= n < high,
            p > 0,
    ;
}

/// Squaring a mantissa and rounding the square down gives a mantissa
/// again.
pub proof fn lemma_mantissa_step(m: int)
    requires
        MANTISSA_ONE <= m < 0x1_0000_0000_0000_0000,
    ensures
        0x4000_0000_0000_0000_0000_0000_0000_0000 <= m * m
            < 0x1_0000_0000_0000_0000_0000_0000_0000_0000,
        m * m >= 0x8000_0000_0000_0000_0000_0000_0000_0000 ==> MANTISSA_ONE <= (m * m)
            / 0x1_0000_0000_0000_0000 < 0x1_0000_0000_0000_0000,
        m * m < 0x8000_0000_0000_0000_0000_0000_0000_0000 ==> MANTISSA_ONE <= (m * m)
            / 0x8000_0000_0000_0000 < 0x1_0000_0000_0000_0000,
{
    assert(0x4000_0000_0000_0000_0000_0000_0000_0000 <= m * m
        < 0x1_0000_0000_0000_0000_0000_0000_0000_0000) by (nonlinear_arith)
        requires
            0x8000_0000_0000_0000 <= m < 0x1_0000_0000_0000_0000,
    ;
}

/// The fractional bits form a number below `2^bits`.
pub proof fn lemma_log2_fraction_bounds(m: int, bits: nat)
    ensures
        0 <= log2_fraction(m, bits) < pow2(bits),
    decreases bits,
{
    lemma_pow2_pos(bits);
    if bits > 0 {
        lemma_pow2_unfold(bits);
        lemma_log2_fraction_bounds((m * m) / 0x1_0000_0000_0000_0000, (bits - 1) as nat);
        lemma_log2_fraction_bounds((m * m) / 0x8000_0000_0000_0000, (bits - 1) as nat);
    }
}

/// The fractional bits do not decrease when the mantissa grows.
pub proof fn lemma_log2_fraction_is_monotonic(a: int, b: int, bits: nat)
    requires
        MANTISSA_ONE <= a <= b < 0x1_0000_0000_0000_0000,
    ensures
        log2_fraction(a, bits) <= log2_fraction(b, bits),
    decreases bits,
{
    if bits > 0 {
        lemma_mantissa_step(a);
        lemma_mantissa_step(b);
        assert(a * a <= b * b) by (nonlinear_arith)
            requires
                0 <= a <= b,
        ;
        let half: int = 0x8000_0000_0000_0000_0000_0000_0000_0000;
        let rest = (bits - 1) as nat;
        if a * a >= half {
            lemma_log2_fraction_is_monotonic(
                (a * a) / 0x1_0000_0000_0000_0000,
                (b * b) / 0x1_0000_0000_0000_0000,
                rest,
            );
        } else if b * b < half {
            lemma_log2_fraction_is_monotonic(
                (a * a) / 0x8000_0000_0000_0000,
                (b * b) / 0x8000_0000_0000_0000,
                rest,
            );
        } else {
            lemma_log2_fraction_bounds((a * a) / 0x8000_0000_0000_0000, rest);
            lemma_log2_fraction_bounds((b * b) / 0x1_0000_0000_0000_0000, rest);
        }
    }
}

/// The fixed-point logarithm lies between the integer logarithm and the
/// next whole number.
pub proof fn lemma_log2_fixed_bounds(n: int)
    requires
        1 <= n <= u32::MAX,
    ensures
        floor_log2(n) * LOG_ONE <= log2_fixed(n) < (floor_log2(n) + 1) * LOG_ONE,
        0 <= log2_fixed(n) < 32 * LOG_ONE,
        n >= 2 ==> log2_fixed(n) >= LOG_ONE,
{
    lemma_mantissa_range(n);
    lemma_log2_fraction_bounds(mantissa(n), LOG_FRACTION_BITS as nat);
    lemma2_to64();
    if n >= 2 {
        lemma_floor_log2_brackets(n / 2);
    }
}

/// The fixed-point logarithm does not decrease when its argument grows.
pub proof fn lemma_log2_fixed_is_monotonic(a: int, b: int)
    requires
        1 <= a <= b <= u32::MAX,
    ensures
        log2_fixed(a) <= log2_fixed(b),
{
    lemma_floor_log2_is_monotonic(a, b);
    lemma_log2_fixed_bounds(a);
    lemma_log2_fixed_bounds(b);
    if floor_log2(a) == floor_log2(b) {
        lemma_mantissa_range(a);
        lemma_mantissa_range(b);
        let p = pow2((63 - floor_log2(a)) as nat);
        assert(a * p <= b * p) by (nonlinear_arith)
            requires
                a <= b,
                p >= 0,
        ;
        lemma_log2_fraction_is_monotonic(mantissa(a), mantissa(b), LOG_FRACTION_BITS as nat);
    }
}

/// The logarithm of a power of two is exact.
pub proof fn lemma_log2_fixed_of_power(k: nat)
    requires
        k <= 31,
    ensures
        log2_fixed(pow2(k) as int) == k * LOG_ONE,
{
    lemma2_to64();
    lemma2_to64_rest();
    lemma_pow2_pos(k);
    if k < 31 {
        lemma_pow2_strictly_increases(k, 31);
    }
    lemma_floor_log2_brackets(pow2(k) as int);
    let found = floor_log2(pow2(k) as int) as nat;
    if found < k {
        if found + 1 < k {
            lemma_pow2_strictly_increases(found + 1, k);
        }
    }
    if found > k {
        lemma_pow2_strictly_increases(k, found);
    }
    assert(found == k);
    lemma_pow2_adds(k, (63 - k) as nat);
    lemma_unit_mantissa_has_no_fraction(LOG_FRACTION_BITS as nat);
}

/// Squaring zero never yields a fractional bit.
proof fn lemma_zero_has_no_fraction(bits: nat)
    ensures
        log2_fraction(0, bits) == 0,
    decreases bits,
{
    if bits > 0 {
        assert(0int * 0int == 0);
        lemma_zero_has_no_fraction((bits - 1) as nat);
    }
}

/// The mantissa that stands for one has logarithm zero.
pub proof fn lemma_unit_mantissa_has_no_fraction(bits: nat)
    ensures
        log2_fraction(MANTISSA_ONE as int, bits) == 0,
    decreases bits,
{
    if bits > 0 {
        assert(0x8000_0000_0000_0000int * 0x8000_0000_0000_0000int
            == 0x4000_0000_0000_0000_0000_0000_0000_0000) by (nonlinear_arith);
        lemma_unit_mantissa_has_no_fraction((bits - 1) as nat);
    }
}

/// Powers with a common exponent keep the order of their non-negative
/// bases.
proof fn lemma_pow_keeps_order(a: int, b: int, e: nat)
    requires
        0 <= a <= b,
    ensures
        0 <= pow(a, e) <= pow(b, e),
    decreases e,
{
    if e == 0 {
        lemma_pow0(a);
        lemma_pow0(b);
    } else {
        let rest = (e - 1) as nat;
        lemma_pow_keeps_order(a, b, rest);
        lemma_pow_adds(a, 1, rest);
        lemma_pow_adds(b, 1, rest);
        lemma_pow1(a);
        lemma_pow1(b);
        let pa = pow(a, rest);
        let pb = pow(b, rest);
        assert(0 <= a * pa <= b * pb) by (nonlinear_arith)
            requires
                0 <= a <= b,
                0 <= pa <= pb,
        ;
    }
}

/// The fractional bits of a mantissa `m` never say more than the true
/// logarithm of the number `m / 2^63` that it stands for:
/// `2^(fraction / 2^bits) <= m / 2^63`, here with both sides raised to the
/// power `2^bits` and cleared of the denominator.
pub proof fn lemma_log2_fraction_is_a_lower_bound(m: int, bits: nat)
    requires
        MANTISSA_ONE <= m < 0x1_0000_0000_0000_0000,
    ensures
        log2_fraction(m, bits) >= 0,
        pow(2, (log2_fraction(m, bits) + 63 * pow2(bits)) as nat) <= pow(m, pow2(bits)),
    decreases bits,
{
    lemma_log2_fraction_bounds(m, bits);
    lemma2_to64();
    lemma2_to64_rest();
    if bits == 0 {
        lemma_pow2(63);
        lemma_pow1(m);
    } else {
        let rest = (bits - 1) as nat;
        let e = pow2(rest);
        lemma_pow2_unfold(bits);
        lemma_mantissa_step(m);
        let square = m * m;
        let carried = square >= 0x8000_0000_0000_0000_0000_0000_0000_0000;
        let shift: nat = if carried {
            64
        } else {
            63
        };
        let next = if carried {
            square / 0x1_0000_0000_0000_0000
        } else {
            square / 0x8000_0000_0000_0000
        };
        lemma_log2_fraction_is_a_lower_bound(next, rest);
        let below = log2_fraction(next, rest);
        let unit = pow(2, shift);
        lemma_pow2(shift);
        assert(unit == if carried {
            0x1_0000_0000_0000_0000int
        } else {
            0x8000_0000_0000_0000int
        });
        assert(0 <= next * unit <= square);
        // (next * 2^shift)^e <= (m * m)^e == m^(2e)
        lemma_pow_keeps_order(next * unit, square, e);
        lemma_pow_distributes(next, unit, e);
        lemma_pow_distributes(m, m, e);
        lemma_pow_adds(m, e, e);
        lemma_pow_multiplies(2, shift, e);
        assert(pow(next, e) * pow(2, shift * e) <= pow(m, e + e));
        // 2^(below + 63e) * 2^(shift * e) <= next^e * 2^(shift * e)
        let low = pow(2, (below + 63 * e) as nat);
        let factor = pow(2, shift * e);
        lemma_pow_positive(2, shift * e);
        assert(low * factor <= pow(next, e) * factor) by (nonlinear_arith)
            requires
                low <= pow(next, e),
                factor > 0,
        ;
        lemma_pow_adds(2, (below + 63 * e) as nat, shift * e);
        assert(shift * e == if carried {
            64 * e
        } else {
            63 * e
        });
        assert((below + 63 * e) as nat + shift * e == (log2_fraction(m, bits) + 63 * pow2(bits)) as nat);
    }
}

/// The fixed-point logarithm never exceeds the true one:
/// `log2_fixed(n) / 2^32 <= log2(n)`, stated as `2^log2_fixed(n) <= n^(2^32)`.
pub proof fn lemma_log2_fixed_is_a_lower_bound(n: int)
    requires
        1 <= n <= u32::MAX,
    ensures
        log2_fixed(n) >= 0,
        pow(2, log2_fixed(n) as nat) <= pow(n, pow2(LOG_FRACTION_BITS as nat)),
{
    lemma_mantissa_range(n);
    lemma_log2_fixed_bounds(n);
    lemma2_to64();
    let whole = floor_log2(n) as nat;
    let lift = (63 - whole) as nat;
    let count = pow2(LOG_FRACTION_BITS as nat);
    let m = mantissa(n);
    let fraction = log2_fraction(m, LOG_FRACTION_BITS as nat);
    lemma_log2_fraction_is_a_lower_bound(m, LOG_FRACTION_BITS as nat);
    // m^count == n^count * 2^(lift * count)
    lemma_pow2(lift);
    lemma_pow_distributes(n, pow(2, lift), count);
    lemma_pow_multiplies(2, lift, count);
    // 2^(fraction + 63 count) == 2^(fraction + whole count) * 2^(lift * count)
    assert(63 * count == whole * count + lift * count) by (nonlinear_arith)
        requires
            63 == whole + lift,
    ;
    assert(whole * count >= 0 && lift * count >= 0) by (nonlinear_arith)
        requires
            whole >= 0,
            lift >= 0,
            count >= 0,
    ;
    lemma_pow_adds(2, (fraction + whole * count) as nat, lift * count);
    let factor = pow(2, lift * count);
    lemma_pow_positive(2, lift * count);
    let low = pow(2, (fraction + whole * count) as nat);
    let high = pow(n, count);
    assert(low * factor <= high * factor);
    assert(low <= high) by (nonlinear_arith)
        requires
            low * factor <= high * factor,
            factor > 0,
    ;
    assert(log2_fixed(n) == fraction + whole * count);
}

/// Every count below the budget has a position in `[0, 1]`.
pub proof fn lemma_position_in_unit_range(n: int, max: int)
    requires
        0 <= n < max <= u32::MAX,
    ensures
        0 <= linear_position(n, max) <= SCALE,
        0 <= logarithmic_position(n, max) <= SCALE,
{
    let s: int = 1_000_000_000;
    assert(0 <= n * s <= max * s) by (nonlinear_arith)
        requires
            0 <= n < max,
            s > 0,
    ;
    assert((n * s) / max <= s && 0 <= (n * s) / max) by (nonlinear_arith)
        requires
            0 <= n * s <= max * s,
            max > 0,
    ;
    if n > 1 {
        lemma_log2_fixed_is_monotonic(n, max);
        lemma_log2_fixed_bounds(n);
        lemma_log2_fixed_bounds(max);
        let a = log2_fixed(n);
        let b = log2_fixed(max);
        assert(0 <= (a * s) / b <= s) by (nonlinear_arith)
            requires
                0 <= a <= b,
                b > 0,
                s > 0,
        ;
    }
}

/// A point that takes longer to escape sits further along the palette,
/// under either mapping.
pub proof fn lemma_position_is_monotonic(n: int, later: int, max: int, mapping: ColorMapping)
    requires
        0 <= n <= later < max <= u32::MAX,
    ensures
        position_of(IterationResult::Escaped(n as u32), max, mapping) <= position_of(
            IterationResult::Escaped(later as u32),
            max,
            mapping,
        ) <= position_of(IterationResult::Bounded, max, mapping),
{
    let s: int = 1_000_000_000;
    lemma_position_in_unit_range(n, max);
    lemma_position_in_unit_range(later, max);
    assert((n * s) / max <= (later * s) / max) by (nonlinear_arith)
        requires
            0 <= n <= later,
            max > 0,
            s > 0,
    ;
    if n > 1 {
        lemma_log2_fixed_is_monotonic(n, later);
        lemma_log2_fixed_bounds(n);
        lemma_log2_fixed_bounds(max);
        let a = log2_fixed(n);
        let b = log2_fixed(later);
        let d = log2_fixed(max);
        assert((a * s) / d <= (b * s) / d) by (nonlinear_arith)
            requires
                0 <= a <= b,
                d > 0,
                s > 0,
        ;
    }
}

} // verus!

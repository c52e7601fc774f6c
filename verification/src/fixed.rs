//! Fixed-point numbers in billionths, with saturating arithmetic.

use vstd::arithmetic::div_mod::{lemma_fundamental_div_mod, lemma_fundamental_div_mod_converse};
use vstd::prelude::*;

verus! {

/// Raw units that make up the value one.
pub const SCALE: i64 = 1_000_000_000;

/// The raw value nearest to `v` that a [`Fixed`] can hold.
pub open spec fn saturate(v: int) -> int {
    if v < i64::MIN {
        i64::MIN as int
    } else if v > i64::MAX {
        i64::MAX as int
    } else {
        v
    }
}

/// The product of two raw values as a raw value, rounded towards minus
/// infinity.
pub open spec fn scaled_product(a: int, b: int) -> int {
    (a * b) / (SCALE as int)
}

/// A real number held as a whole number of billionths.
#[derive(Clone, Copy, Debug, PartialEq, Eq, Structural)]
pub struct Fixed {
    pub raw: i64,
}

impl View for Fixed {
    type V = int;

    open spec fn view(&self) -> int {
        self.raw as int
    }
}

/// Quotient of `a` by a positive `d`, rounded towards minus infinity.
pub(crate) fn floor_div(a: i128, d: i128) -> (q: i128)
    requires
        d > 0,
        a > i128::MIN,
    ensures
        q == a / d,
{
    if a >= 0 {
        a / d
    } else {
        let n: i128 = -a;
        let q: i128 = n / d;
        let r: i128 = n % d;
        proof {
            lemma_fundamental_div_mod(n as int, d as int);
        }
        if r == 0 {
            proof {
                assert(a == (-q) * d + 0) by (nonlinear_arith)
                    requires
                        n == d * q + r,
                        r == 0,
                        n == -a,
                ;
                lemma_fundamental_div_mod_converse(a as int, d as int, -q as int, 0);
            }
            -q
        } else {
            proof {
                assert(a == (-q - 1) * d + (d - r)) by (nonlinear_arith)
                    requires
                        n == d * q + r,
                        n == -a,
                ;
                lemma_fundamental_div_mod_converse(
                    a as int,
                    d as int,
                    (-q - 1) as int,
                    (d - r) as int,
                );
            }
            -q - 1
        }
    }
}

/// Brings a wide intermediate result back into the range of a raw value.
pub(crate) fn narrow(v: i128) -> (r: i64)
    ensures
        r == saturate(v as int),
{
    if v < i64::MIN as i128 {
        i64::MIN
    } else if v > i64::MAX as i128 {
        i64::MAX
    } else {
        v as i64
    }
}

impl Fixed {
    /// The number with the given count of billionths.
    pub fn from_raw(raw: i64) -> (r: Fixed)
        ensures
            r@ == raw,
    {
        Fixed { raw }
    }

    /// The whole number `n`.
    pub fn from_int(n: i32) -> (r: Fixed)
        ensures
            r@ == n * SCALE,
    {
        Fixed { raw: (n as i64) * SCALE }
    }

    /// Sum, saturating at the ends of the representable range.
    pub fn plus(self, other: Fixed) -> (r: Fixed)
        ensures
            r@ == saturate(self@ + other@),
    {
        Fixed { raw: narrow(self.raw as i128 + other.raw as i128) }
    }

    /// Difference, saturating at the ends of the representable range.
    pub fn minus(self, other: Fixed) -> (r: Fixed)
        ensures
            r@ == saturate(self@ - other@),
    {
        Fixed { raw: narrow(self.raw as i128 - other.raw as i128) }
    }

    /// Product, rounded towards minus infinity and then saturated.
    pub fn times(self, other: Fixed) -> (r: Fixed)
        ensures
            r@ == saturate(scaled_product(self@, other@)),
    {
        let a: i128 = self.raw as i128;
        let b: i128 = other.raw as i128;
        proof {
            lemma_product_bounds(a as int, b as int);
        }
        let wide: i128 = a * b;
        Fixed { raw: narrow(floor_div(wide, SCALE as i128)) }
    }
}

/// The product of two raw values fits comfortably in 128 bits.
pub(crate) proof fn lemma_product_bounds(a: int, b: int)
    requires
        i64::MIN <= a <= i64::MAX,
        i64::MIN <= b <= i64::MAX,
    ensures
        -0x4000_0000_0000_0000_0000_0000_0000_0000 <= a * b
            <= 0x4000_0000_0000_0000_0000_0000_0000_0000,
{
    let m: int = 0x8000_0000_0000_0000;
    assert(-m <= a <= m && -m <= b <= m);
    assert(a * b <= m * m && -(m * m) <= a * b) by (nonlinear_arith)
        requires
            -m <= a <= m,
            -m <= b <= m,
    ;
    assert(m * m == 0x4000_0000_0000_0000_0000_0000_0000_0000) by (nonlinear_arith)
        requires
            m == 0x8000_0000_0000_0000,
    ;
}

} // verus!

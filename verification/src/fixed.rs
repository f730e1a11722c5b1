//! Fixed-point arithmetic shared by the plane, the viewport and the orbit
//! iteration.
//!
//! A quantity `q` is stored as the integer `q * 2^52`, rounded down. All
//! products are taken in 128 bits, so no intermediate result is ever cut.

use vstd::arithmetic::div_mod::lemma_fundamental_div_mod;
use vstd::prelude::*;

verus! {

/// The fixed-point number one, `2^52`.
pub const ONE: i64 = 0x10_0000_0000_0000;

/// Exclusive bound, `2^126`, on the operands of [`floor_div`].
pub const WIDE_LIMIT: i128 = 0x4000_0000_0000_0000_0000_0000_0000_0000;

/// Inclusive bound, `2^62`, on the magnitude of the factors of [`fixed_mul`].
pub const FACTOR_LIMIT: i128 = 0x4000_0000_0000_0000;

/// The product of two fixed-point numbers, rounded towards minus infinity.
pub open spec fn spec_fixed_mul(a: int, b: int) -> int {
    (a * b) / (ONE as int)
}

/// Division rounding towards minus infinity, for a positive divisor.
///
/// Native signed division rounds towards zero; the two differ on negative
/// numerators, which is where plane coordinates left of the origin live.
pub fn floor_div(n: i128, d: i128) -> (q: i128)
    requires
        0 < d < WIDE_LIMIT,
        -WIDE_LIMIT < n < WIDE_LIMIT,
    ensures
        q == n / d,
{
    if n >= 0 {
        n / d
    } else {
        let a: i128 = -n;
        let t: i128 = (a + (d - 1)) / d;
        proof {
            let up: int = a + d - 1;
            lemma_fundamental_div_mod(n as int, d as int);
            lemma_fundamental_div_mod(up, d as int);
            assert(n / d == -(up / (d as int))) by (nonlinear_arith)
                requires
                    d > 0,
                    up == -n + d - 1,
                    n == d * (n / d) + n % d,
                    0 <= n % d < d,
                    up == d * (up / (d as int)) + up % (d as int),
                    0 <= up % (d as int) < d,
            ;
        }
        -t
    }
}

/// Multiplies two fixed-point numbers.
pub fn fixed_mul(a: i128, b: i128) -> (p: i128)
    requires
        -FACTOR_LIMIT <= a <= FACTOR_LIMIT,
        -FACTOR_LIMIT <= b <= FACTOR_LIMIT,
    ensures
        p == spec_fixed_mul(a as int, b as int),
{
    assert(-0x1000_0000_0000_0000_0000_0000_0000_0000 <= a * b
        <= 0x1000_0000_0000_0000_0000_0000_0000_0000) by (nonlinear_arith)
        requires
            -0x4000_0000_0000_0000 <= a <= 0x4000_0000_0000_0000,
            -0x4000_0000_0000_0000 <= b <= 0x4000_0000_0000_0000,
    ;
    floor_div(a * b, ONE as i128)
}

} // verus!

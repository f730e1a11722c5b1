//! The escape-time evaluator: how many steps of `z -> z^2 + c` an orbit
//! takes to leave the circle of radius two.

use crate::fixed::{fixed_mul, spec_fixed_mul, ONE};
use vstd::prelude::*;

verus! {

/// One step `z -> z^2 + c` in fixed-point arithmetic, on real and imaginary
/// parts.
pub open spec fn step(z: (int, int), c: (int, int)) -> (int, int) {
    (
        spec_fixed_mul(z.0, z.0) - spec_fixed_mul(z.1, z.1) + c.0,
        spec_fixed_mul(2 * z.0, z.1) + c.1,
    )
}

/// The `n`-th point of the orbit that starts at `point`.
pub open spec fn orbit(point: (int, int), c: (int, int), n: nat) -> (int, int)
    decreases n,
{
    if n == 0 {
        point
    } else {
        step(orbit(point, c, (n - 1) as nat), c)
    }
}

/// Whether `z` lies outside the circle of radius two: `|z|^2 > 4`.
pub open spec fn escaped(z: (int, int)) -> bool {
    z.0 * z.0 + z.1 * z.1 > 4 * ONE * ONE
}

/// The first index in `from..max_iter` at which the orbit has escaped, or
/// `max_iter` if there is none.
pub open spec fn first_escape(point: (int, int), c: (int, int), from: nat, max_iter: nat) -> nat
    decreases max_iter - from,
{
    if from >= max_iter {
        max_iter
    } else if escaped(orbit(point, c, from)) {
        from
    } else {
        first_escape(point, c, from + 1, max_iter)
    }
}

/// The escape time of `point` under the constant `c` within a budget of
/// `max_iter` iterations; `max_iter` itself stands for "did not escape".
pub open spec fn escape_time(point: (int, int), c: (int, int), max_iter: nat) -> nat {
    first_escape(point, c, 0, max_iter)
}

/// The pair of machine integers as a pair of mathematical ones.
pub open spec fn complex(z: (i64, i64)) -> (int, int) {
    (z.0 as int, z.1 as int)
}

/// `first_escape` returns an index in `from..=max_iter`; the orbit has not
/// escaped at any index before it, and has escaped at it unless it is
/// `max_iter`.
pub proof fn lemma_first_escape(point: (int, int), c: (int, int), from: nat, max_iter: nat)
    requires
        from <= max_iter,
    ensures
        from <= first_escape(point, c, from, max_iter) <= max_iter,
        forall|k: nat|
            from <= k < first_escape(point, c, from, max_iter) ==> !escaped(
                #[trigger] orbit(point, c, k),
            ),
        first_escape(point, c, from, max_iter) < max_iter ==> escaped(
            orbit(point, c, first_escape(point, c, from, max_iter)),
        ),
    decreases max_iter - from,
{
    if from < max_iter && !escaped(orbit(point, c, from)) {
        lemma_first_escape(point, c, from + 1, max_iter);
    }
}

/// The escape time is the index of the first orbit point outside the circle,
/// exactly: every earlier point is inside, and the point at that index is
/// outside unless the budget ran out.
pub proof fn lemma_escape_time_is_first(point: (int, int), c: (int, int), max_iter: nat)
    ensures
        escape_time(point, c, max_iter) <= max_iter,
        forall|k: nat|
            k < escape_time(point, c, max_iter) ==> !escaped(#[trigger] orbit(point, c, k)),
        escape_time(point, c, max_iter) < max_iter ==> escaped(
            orbit(point, c, escape_time(point, c, max_iter)),
        ),
{
    lemma_first_escape(point, c, 0, max_iter);
}

/// An index at which the orbit has escaped, with no escape before it, is the
/// escape time.
pub proof fn lemma_escape_time_unique(point: (int, int), c: (int, int), max_iter: nat, k: nat)
    requires
        k < max_iter,
        escaped(orbit(point, c, k)),
        forall|j: nat| j < k ==> !escaped(#[trigger] orbit(point, c, j)),
    ensures
        escape_time(point, c, max_iter) == k,
{
    lemma_first_escape(point, c, 0, max_iter);
}

/// Under the constant zero the orbit of the origin stays at the origin, so it
/// never escapes, whatever the budget.
pub proof fn lemma_origin_never_escapes(max_iter: nat)
    ensures
        forall|n: nat| orbit((0, 0), (0, 0), n) == (0int, 0int),
        escape_time((0, 0), (0, 0), max_iter) == max_iter,
{
    assert forall|n: nat| orbit((0, 0), (0, 0), n) == (0int, 0int) by {
        lemma_orbit_of_origin(n);
    }
    lemma_escape_time_is_first((0, 0), (0, 0), max_iter);
    assert(!escaped((0int, 0int)));
    if escape_time((0, 0), (0, 0), max_iter) < max_iter {
        lemma_orbit_of_origin(escape_time((0, 0), (0, 0), max_iter));
    }
}

proof fn lemma_orbit_of_origin(n: nat)
    ensures
        orbit((0, 0), (0, 0), n) == (0int, 0int),
    decreases n,
{
    if n > 0 {
        lemma_orbit_of_origin((n - 1) as nat);
        assert(spec_fixed_mul(0, 0) == 0);
    }
}

/// Bound, `2^66`, that every orbit point met by [`evaluate`] stays below.
const ORBIT_LIMIT: i128 = 0x4_0000_0000_0000_0000;

/// Decides `|z|^2 > 4` without overflow.
fn has_escaped(re: i128, im: i128) -> (out: bool)
    requires
        -ORBIT_LIMIT < re < ORBIT_LIMIT,
        -ORBIT_LIMIT < im < ORBIT_LIMIT,
    ensures
        out == escaped((re as int, im as int)),
{
    let two: i128 = 2 * (ONE as i128);
    if re > two || re < -two || im > two || im < -two {
        assert(re * re + im * im > 4 * ONE * ONE) by (nonlinear_arith)
            requires
                re > 2 * ONE || re < -2 * ONE || im > 2 * ONE || im < -2 * ONE,
                ONE > 0,
        ;
        true
    } else {
        assert(0 <= re * re <= 4 * ONE * ONE && 0 <= im * im <= 4 * ONE * ONE)
            by (nonlinear_arith)
            requires
                -2 * ONE <= re <= 2 * ONE,
                -2 * ONE <= im <= 2 * ONE,
                ONE > 0,
        ;
        re * re + im * im > 4 * (ONE as i128) * (ONE as i128)
    }
}

/// Counts the iterations of `z -> z^2 + c`, started at `point`, until the
/// orbit leaves the circle of radius two.
///
/// The result is the index `n` of the first orbit point with `|z_n|^2 > 4`,
/// where `z_0` is `point` itself; it is `max_iter` when none of
/// `z_0 .. z_{max_iter - 1}` has escaped.
pub fn evaluate(point: (i64, i64), c: (i64, i64), max_iter: u32) -> (n: u32)
    ensures
        n == escape_time(complex(point), complex(c), max_iter as nat),
        n <= max_iter,
        forall|k: nat| k < n ==> !escaped(#[trigger] orbit(complex(point), complex(c), k)),
        n < max_iter ==> escaped(orbit(complex(point), complex(c), n as nat)),
{
    let ghost p = complex(point);
    let ghost cc = complex(c);
    let mut re: i128 = point.0 as i128;
    let mut im: i128 = point.1 as i128;
    let mut n: u32 = 0;
    while n < max_iter
        invariant
            n <= max_iter,
            p == complex(point),
            cc == complex(c),
            (re as int, im as int) == orbit(p, cc, n as nat),
            -ORBIT_LIMIT < re < ORBIT_LIMIT,
            -ORBIT_LIMIT < im < ORBIT_LIMIT,
            first_escape(p, cc, n as nat, max_iter as nat) == escape_time(p, cc, max_iter as nat),
        decreases max_iter - n,
    {
        if has_escaped(re, im) {
            proof {
                lemma_escape_time_is_first(p, cc, max_iter as nat);
            }
            return n;
        }
        proof {
            assert(-2 * ONE <= re <= 2 * ONE && -2 * ONE <= im <= 2 * ONE) by (nonlinear_arith)
                requires
                    re * re + im * im <= 4 * ONE * ONE,
                    ONE > 0,
            ;
        }
        let re_sq: i128 = fixed_mul(re, re);
        let im_sq: i128 = fixed_mul(im, im);
        let cross: i128 = fixed_mul(2 * re, im);
        proof {
            lemma_fixed_mul_small(re as int, re as int);
            lemma_fixed_mul_small(im as int, im as int);
            lemma_fixed_mul_small(2 * re as int, im as int);
        }
        re = re_sq - im_sq + (c.0 as i128);
        im = cross + (c.1 as i128);
        n = n + 1;
    }
    proof {
        lemma_escape_time_is_first(p, cc, max_iter as nat);
    }
    n
}

/// A product of factors of magnitude at most four is at most sixteen.
proof fn lemma_fixed_mul_small(a: int, b: int)
    requires
        -4 * ONE <= a <= 4 * ONE,
        -4 * ONE <= b <= 4 * ONE,
    ensures
        -16 * ONE <= spec_fixed_mul(a, b) <= 16 * ONE,
{
    assert(-16 * ONE * ONE <= a * b <= 16 * ONE * ONE) by (nonlinear_arith)
        requires
            -4 * ONE <= a <= 4 * ONE,
            -4 * ONE <= b <= 4 * ONE,
            ONE > 0,
    ;
    vstd::arithmetic::div_mod::lemma_div_is_ordered(-16 * ONE * ONE, a * b, ONE as int);
    vstd::arithmetic::div_mod::lemma_div_is_ordered(a * b, 16 * ONE * ONE, ONE as int);
    assert((16 * ONE * ONE) / (ONE as int) == 16 * ONE) by (nonlinear_arith)
        requires
            ONE > 0,
    ;
    assert((-16 * ONE * ONE) / (ONE as int) == -16 * ONE) by (nonlinear_arith)
        requires
            ONE > 0,
    ;
}

} // verus!

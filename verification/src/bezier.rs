//! Evaluation of quadratic and cubic Bézier curves at a rational parameter.
//!
//! A curve is sampled at `t = step / resolution`. With the control points in
//! fixed-point units the Bernstein form of the curve is a ratio of integers,
//! which is rounded once, to the nearest unit.

use crate::point::{Coordinate, Point};
use crate::rounding::{lemma_round_between, lemma_round_exact, round_half_away, round_ratio};
use vstd::prelude::*;

verus! {

/// Numerator of the quadratic curve through `a`, `b`, `c` at `t = i / n`, over
/// the denominator `n * n`:
/// `(1 - t)^2 a + 2 (1 - t) t b + t^2 c`, multiplied by `n^2`.
pub open spec fn quad_numerator(a: int, b: int, c: int, i: int, n: int) -> int {
    (n - i) * (n - i) * a + 2 * (n - i) * i * b + i * i * c
}

/// One axis of the quadratic curve with control values `a`, `b`, `c` at
/// `t = i / n`, rounded to the nearest fixed-point unit.
pub open spec fn quad_axis(a: int, b: int, c: int, i: int, n: int) -> int {
    round_half_away(quad_numerator(a, b, c, i, n), n * n)
}

/// Numerator of the cubic curve through `a`, `b`, `c`, `d` at `t = i / n`, over
/// the denominator `n * n * n`:
/// `(1 - t)^3 a + 3 (1 - t)^2 t b + 3 (1 - t) t^2 c + t^3 d`, multiplied by
/// `n^3`.
pub open spec fn cubic_numerator(a: int, b: int, c: int, d: int, i: int, n: int) -> int {
    (n - i) * (n - i) * (n - i) * a + 3 * (n - i) * (n - i) * i * b + 3 * (n - i) * i * i * c + i
        * i * i * d
}

/// One axis of the cubic curve with control values `a`, `b`, `c`, `d` at
/// `t = i / n`, rounded to the nearest fixed-point unit.
pub open spec fn cubic_axis(a: int, b: int, c: int, d: int, i: int, n: int) -> int {
    round_half_away(cubic_numerator(a, b, c, d, i, n), n * n * n)
}

/// The quadratic numerator is a weighted sum whose non-negative weights add up
/// to the denominator, so it stays between the bounds of the control values.
proof fn lemma_quad_numerator_bounds(a: int, b: int, c: int, i: int, n: int, low: int, high: int)
    requires
        0 <= i <= n,
        low <= a <= high,
        low <= b <= high,
        low <= c <= high,
    ensures
        low * (n * n) <= quad_numerator(a, b, c, i, n) <= high * (n * n),
{
    let w0 = (n - i) * (n - i);
    let w1 = 2 * (n - i) * i;
    let w2 = i * i;
    assert(w0 >= 0 && w1 >= 0 && w2 >= 0 && w0 + w1 + w2 == n * n) by (nonlinear_arith)
        requires
            0 <= i <= n,
            w0 == (n - i) * (n - i),
            w1 == 2 * (n - i) * i,
            w2 == i * i,
    ;
    lemma_weighted_term(w0, a, low, high);
    lemma_weighted_term(w1, b, low, high);
    lemma_weighted_term(w2, c, low, high);
    assert(low * (n * n) == w0 * low + w1 * low + w2 * low) by (nonlinear_arith)
        requires
            w0 + w1 + w2 == n * n,
    ;
    assert(high * (n * n) == w0 * high + w1 * high + w2 * high) by (nonlinear_arith)
        requires
            w0 + w1 + w2 == n * n,
    ;
}

/// The cubic numerator stays between the bounds of the control values.
proof fn lemma_cubic_numerator_bounds(
    a: int,
    b: int,
    c: int,
    d: int,
    i: int,
    n: int,
    low: int,
    high: int,
)
    requires
        0 <= i <= n,
        low <= a <= high,
        low <= b <= high,
        low <= c <= high,
        low <= d <= high,
    ensures
        low * (n * n * n) <= cubic_numerator(a, b, c, d, i, n) <= high * (n * n * n),
{
    let w0 = (n - i) * (n - i) * (n - i);
    let w1 = 3 * (n - i) * (n - i) * i;
    let w2 = 3 * (n - i) * i * i;
    let w3 = i * i * i;
    assert(w0 >= 0 && w1 >= 0 && w2 >= 0 && w3 >= 0) by (nonlinear_arith)
        requires
            0 <= i <= n,
            w0 == (n - i) * (n - i) * (n - i),
            w1 == 3 * (n - i) * (n - i) * i,
            w2 == 3 * (n - i) * i * i,
            w3 == i * i * i,
    ;
    assert(w0 + w1 + w2 + w3 == n * n * n) by (nonlinear_arith)
        requires
            w0 == (n - i) * (n - i) * (n - i),
            w1 == 3 * (n - i) * (n - i) * i,
            w2 == 3 * (n - i) * i * i,
            w3 == i * i * i,
    ;
    lemma_weighted_term(w0, a, low, high);
    lemma_weighted_term(w1, b, low, high);
    lemma_weighted_term(w2, c, low, high);
    lemma_weighted_term(w3, d, low, high);
    assert(low * (n * n * n) == w0 * low + w1 * low + w2 * low + w3 * low) by (nonlinear_arith)
        requires
            w0 + w1 + w2 + w3 == n * n * n,
    ;
    assert(high * (n * n * n) == w0 * high + w1 * high + w2 * high + w3 * high)
        by (nonlinear_arith)
        requires
            w0 + w1 + w2 + w3 == n * n * n,
    ;
}

/// A non-negative weight keeps a value between its bounds.
proof fn lemma_weighted_term(w: int, v: int, low: int, high: int)
    by (nonlinear_arith)
    requires
        w >= 0,
        low <= v <= high,
    ensures
        w * low <= w * v <= w * high,
{
}

/// Every sample of a quadratic curve lies within the bounds of its control
/// values.
pub proof fn lemma_quad_within_bounds(a: int, b: int, c: int, i: int, n: int, low: int, high: int)
    requires
        0 < n,
        0 <= i <= n,
        low <= a <= high,
        low <= b <= high,
        low <= c <= high,
    ensures
        low <= quad_axis(a, b, c, i, n) <= high,
{
    lemma_quad_numerator_bounds(a, b, c, i, n, low, high);
    assert(n * n > 0) by (nonlinear_arith)
        requires
            n > 0,
    ;
    lemma_round_between(quad_numerator(a, b, c, i, n), n * n, low, high);
}

/// Every sample of a cubic curve lies within the bounds of its control values.
pub proof fn lemma_cubic_within_bounds(
    a: int,
    b: int,
    c: int,
    d: int,
    i: int,
    n: int,
    low: int,
    high: int,
)
    requires
        0 < n,
        0 <= i <= n,
        low <= a <= high,
        low <= b <= high,
        low <= c <= high,
        low <= d <= high,
    ensures
        low <= cubic_axis(a, b, c, d, i, n) <= high,
{
    lemma_cubic_numerator_bounds(a, b, c, d, i, n, low, high);
    assert(n * n * n > 0) by (nonlinear_arith)
        requires
            n > 0,
    ;
    lemma_round_between(cubic_numerator(a, b, c, d, i, n), n * n * n, low, high);
}

/// At `t = 0` a quadratic curve is at its first control value, and at `t = 1`
/// at its last.
pub proof fn lemma_quad_endpoints(a: int, b: int, c: int, n: int)
    requires
        0 < n,
    ensures
        quad_axis(a, b, c, 0, n) == a,
        quad_axis(a, b, c, n, n) == c,
{
    assert(n * n > 0) by (nonlinear_arith)
        requires
            n > 0,
    ;
    assert(quad_numerator(a, b, c, 0, n) == a * (n * n)) by (nonlinear_arith);
    assert(quad_numerator(a, b, c, n, n) == c * (n * n)) by (nonlinear_arith);
    lemma_round_exact(a, n * n);
    lemma_round_exact(c, n * n);
}

/// At `t = 0` a cubic curve is at its first control value, and at `t = 1` at
/// its last.
pub proof fn lemma_cubic_endpoints(a: int, b: int, c: int, d: int, n: int)
    requires
        0 < n,
    ensures
        cubic_axis(a, b, c, d, 0, n) == a,
        cubic_axis(a, b, c, d, n, n) == d,
{
    assert(n * n * n > 0) by (nonlinear_arith)
        requires
            n > 0,
    ;
    assert(cubic_numerator(a, b, c, d, 0, n) == a * (n * n * n)) by (nonlinear_arith);
    assert(cubic_numerator(a, b, c, d, n, n) == d * (n * n * n)) by (nonlinear_arith);
    lemma_round_exact(a, n * n * n);
    lemma_round_exact(d, n * n * n);
}

/// The smallest of the values.
spec fn least(a: int, b: int, c: int, d: int) -> int {
    let ab = if a < b {
        a
    } else {
        b
    };
    let cd = if c < d {
        c
    } else {
        d
    };
    if ab < cd {
        ab
    } else {
        cd
    }
}

/// The largest of the values.
spec fn greatest(a: int, b: int, c: int, d: int) -> int {
    let ab = if a > b {
        a
    } else {
        b
    };
    let cd = if c > d {
        c
    } else {
        d
    };
    if ab > cd {
        ab
    } else {
        cd
    }
}

/// Computes [`quad_axis`].
fn quad_axis_units(a: i64, b: i64, c: i64, step: u16, resolution: u16) -> (r: i64)
    requires
        0 < resolution,
        step <= resolution,
    ensures
        r == quad_axis(a as int, b as int, c as int, step as int, resolution as int),
{
    let u: i128 = (resolution - step) as i128;
    let t: i128 = step as i128;
    let n: u64 = resolution as u64;
    assert(0 <= u * u <= 0xffff * 0xffff && 0 <= 2 * u * t <= 2 * 0xffff * 0xffff && 0 <= t * t
        <= 0xffff * 0xffff) by (nonlinear_arith)
        requires
            0 <= u <= 0xffff,
            0 <= t <= 0xffff,
    ;
    let w0: i128 = u * u;
    let w1: i128 = 2 * u * t;
    let w2: i128 = t * t;
    proof {
        lemma_term_magnitude(w0 as int, a as int);
        lemma_term_magnitude(w1 as int, b as int);
        lemma_term_magnitude(w2 as int, c as int);
    }
    let num: i128 = w0 * (a as i128) + w1 * (b as i128) + w2 * (c as i128);
    assert(0 < n * n <= 0xffff * 0xffff) by (nonlinear_arith)
        requires
            0 < n <= 0xffff,
    ;
    let den: u64 = n * n;
    let q: i128 = round_ratio(num, den);
    proof {
        lemma_quad_within_bounds(
            a as int,
            b as int,
            c as int,
            step as int,
            resolution as int,
            least(a as int, b as int, c as int, c as int),
            greatest(a as int, b as int, c as int, c as int),
        );
    }
    q as i64
}

/// A weight of at most `2^34` times a 64-bit value stays below `2^98`.
proof fn lemma_term_magnitude(w: int, v: int)
    by (nonlinear_arith)
    requires
        0 <= w <= 0x4_0000_0000,
        -0x8000_0000_0000_0000 <= v <= 0x8000_0000_0000_0000,
    ensures
        -0x4_0000_0000_0000_0000_0000_0000 <= w * v <= 0x4_0000_0000_0000_0000_0000_0000,
{
}

/// A weight of at most `2^50` times a 64-bit value stays below `2^114`.
proof fn lemma_cubic_term_magnitude(w: int, v: int)
    by (nonlinear_arith)
    requires
        0 <= w <= 0x4_0000_0000_0000,
        -0x8000_0000_0000_0000 <= v <= 0x8000_0000_0000_0000,
    ensures
        -0x2_0000_0000_0000_0000_0000_0000_0000 <= w * v
            <= 0x2_0000_0000_0000_0000_0000_0000_0000,
{
}

/// Computes [`cubic_axis`].
fn cubic_axis_units(a: i64, b: i64, c: i64, d: i64, step: u16, resolution: u16) -> (r: i64)
    requires
        0 < resolution,
        step <= resolution,
    ensures
        r == cubic_axis(a as int, b as int, c as int, d as int, step as int, resolution as int),
{
    let u: i128 = (resolution - step) as i128;
    let t: i128 = step as i128;
    let n: u64 = resolution as u64;
    assert(0 <= u * u <= 0xffff * 0xffff && 0 <= u * t <= 0xffff * 0xffff && 0 <= t * t <= 0xffff
        * 0xffff) by (nonlinear_arith)
        requires
            0 <= u <= 0xffff,
            0 <= t <= 0xffff,
    ;
    let uu: i128 = u * u;
    let ut: i128 = u * t;
    let tt: i128 = t * t;
    assert(0 <= uu * u <= 0xffff * 0xffff * 0xffff && 0 <= uu * t <= 0xffff * 0xffff * 0xffff && 0
        <= ut * t <= 0xffff * 0xffff * 0xffff && 0 <= tt * t <= 0xffff * 0xffff * 0xffff)
        by (nonlinear_arith)
        requires
            0 <= u <= 0xffff,
            0 <= t <= 0xffff,
            0 <= uu <= 0xffff * 0xffff,
            0 <= ut <= 0xffff * 0xffff,
            0 <= tt <= 0xffff * 0xffff,
    ;
    let w0: i128 = uu * u;
    let w1: i128 = 3 * (uu * t);
    let w2: i128 = 3 * (ut * t);
    let w3: i128 = tt * t;
    assert(w0 == (resolution - step) * (resolution - step) * (resolution - step) && w1 == 3 * (
    resolution - step) * (resolution - step) * step && w2 == 3 * (resolution - step) * step * step
        && w3 == step * step * step) by (nonlinear_arith)
        requires
            u == resolution - step,
            t == step,
            uu == u * u,
            ut == u * t,
            tt == t * t,
            w0 == uu * u,
            w1 == 3 * (uu * t),
            w2 == 3 * (ut * t),
            w3 == tt * t,
    ;
    proof {
        lemma_cubic_term_magnitude(w0 as int, a as int);
        lemma_cubic_term_magnitude(w1 as int, b as int);
        lemma_cubic_term_magnitude(w2 as int, c as int);
        lemma_cubic_term_magnitude(w3 as int, d as int);
    }
    let num: i128 = w0 * (a as i128) + w1 * (b as i128) + w2 * (c as i128) + w3 * (d as i128);
    assert(0 < n * n <= 0xffff * 0xffff) by (nonlinear_arith)
        requires
            0 < n <= 0xffff,
    ;
    let nn: u64 = n * n;
    assert(0 < nn * n <= 0xffff * 0xffff * 0xffff) by (nonlinear_arith)
        requires
            0 < n <= 0xffff,
            0 < nn <= 0xffff * 0xffff,
    ;
    let den: u64 = nn * n;
    let q: i128 = round_ratio(num, den);
    proof {
        lemma_cubic_within_bounds(
            a as int,
            b as int,
            c as int,
            d as int,
            step as int,
            resolution as int,
            least(a as int, b as int, c as int, d as int),
            greatest(a as int, b as int, c as int, d as int),
        );
    }
    q as i64
}

/// The point of the quadratic Bézier curve with control points `p0`, `p1`,
/// `p2` at the parameter `t = step / resolution`, each axis on its own:
/// `(1 - t)^2 p0 + 2 (1 - t) t p1 + t^2 p2`, to the nearest fixed-point unit.
pub fn calculate_quad_bezier_point(
    p0: &Point,
    p1: &Point,
    p2: &Point,
    step: u16,
    resolution: u16,
) -> (r: Point)
    requires
        0 < resolution,
        step <= resolution,
    ensures
        r.x@ == quad_axis(p0.x@, p1.x@, p2.x@, step as int, resolution as int),
        r.y@ == quad_axis(p0.y@, p1.y@, p2.y@, step as int, resolution as int),
        step == 0 ==> r == *p0,
        step == resolution ==> r == *p2,
{
    proof {
        lemma_quad_endpoints(p0.x@, p1.x@, p2.x@, resolution as int);
        lemma_quad_endpoints(p0.y@, p1.y@, p2.y@, resolution as int);
    }
    let x = quad_axis_units(p0.x.units, p1.x.units, p2.x.units, step, resolution);
    let y = quad_axis_units(p0.y.units, p1.y.units, p2.y.units, step, resolution);
    Point { x: Coordinate { units: x }, y: Coordinate { units: y } }
}

/// The point of the cubic Bézier curve with control points `p0`, `p1`, `p2`,
/// `p3` at the parameter `t = step / resolution`, each axis on its own:
/// `(1 - t)^3 p0 + 3 (1 - t)^2 t p1 + 3 (1 - t) t^2 p2 + t^3 p3`, to the
/// nearest fixed-point unit.
pub fn calculate_cubic_bezier_point(
    p0: &Point,
    p1: &Point,
    p2: &Point,
    p3: &Point,
    step: u16,
    resolution: u16,
) -> (r: Point)
    requires
        0 < resolution,
        step <= resolution,
    ensures
        r.x@ == cubic_axis(p0.x@, p1.x@, p2.x@, p3.x@, step as int, resolution as int),
        r.y@ == cubic_axis(p0.y@, p1.y@, p2.y@, p3.y@, step as int, resolution as int),
        step == 0 ==> r == *p0,
        step == resolution ==> r == *p3,
{
    proof {
        lemma_cubic_endpoints(p0.x@, p1.x@, p2.x@, p3.x@, resolution as int);
        lemma_cubic_endpoints(p0.y@, p1.y@, p2.y@, p3.y@, resolution as int);
    }
    let x = cubic_axis_units(p0.x.units, p1.x.units, p2.x.units, p3.x.units, step, resolution);
    let y = cubic_axis_units(p0.y.units, p1.y.units, p2.y.units, p3.y.units, step, resolution);
    Point { x: Coordinate { units: x }, y: Coordinate { units: y } }
}

} // verus!

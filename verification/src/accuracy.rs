//! How far rounding can take a hit off its sphere.

use crate::hittable::{spec_face_normal, HitRecord, Hittable, Sphere};
use crate::interval::Interval;
use crate::ray::Ray;
use crate::scalar::{
    in_range, is_floor_sqrt, lemma_of_view, lemma_sqrt_view, lemma_view_range, magnitude,
    quotient, trunc_div, Scalar, LIMIT, SCALE,
};
use crate::vec3::{spec_dot, Vec3};
use crate::vec3::lemma_length_squared_not_negative;
use vstd::arithmetic::div_mod::{
    lemma_div_is_ordered, lemma_div_is_ordered_by_denominator, lemma_fundamental_div_mod,
    lemma_mod_bound,
};
use vstd::prelude::*;

verus! {

/// What rounding `x / d` toward zero leaves over.
pub open spec fn remainder(x: int, d: int) -> int {
    x - trunc_div(x, d) * d
}

/// Rounding toward zero leaves over less than the divisor.
pub proof fn lemma_remainder_small(x: int, d: int)
    requires
        d > 0,
    ensures
        -d < remainder(x, d) < d,
        x >= 0 ==> remainder(x, d) >= 0,
{
    if x >= 0 {
        lemma_fundamental_div_mod(x, d);
        lemma_mod_bound(x, d);
        assert(d * (x / d) == (x / d) * d) by (nonlinear_arith);
    } else {
        lemma_fundamental_div_mod(-x, d);
        lemma_mod_bound(-x, d);
        assert(d * ((-x) / d) == ((-x) / d) * d) by (nonlinear_arith);
        assert((-((-x) / d)) * d == -(((-x) / d) * d)) by (nonlinear_arith);
    }
}

/// The quadratic `a t^2 - 2 S h t + S^2 c` that vanishes at an exact root,
/// times `a`, for a root that was rounded: with `n = (h - s) S` or
/// `(h + s) S` the dividend, `r = n - a t` what the division left over,
/// and `e = s^2 - h^2 + a c` what the square root and the discriminant
/// left over, it is `S^2 e + r^2 - 2 r (n - S h)`.
proof fn lemma_quadratic_at_root(unit: int, a: int, h: int, s: int, c: int, t: int, n: int)
    requires
        n == (h - s) * unit || n == (h + s) * unit,
    ensures
        a * (a * t * t - 2 * unit * h * t + unit * unit * c) == unit * unit * (s * s - h * h + a
            * c) + (n - a * t) * (n - a * t) - 2 * (n - a * t) * (n - unit * h),
{
    let r = n - a * t;
    let m = n - unit * h;
    assert((h - s) * unit - unit * h == -s * unit) by (nonlinear_arith);
    assert((h + s) * unit - unit * h == s * unit) by (nonlinear_arith);
    assert(m * m == unit * unit * (s * s)) by (nonlinear_arith)
        requires
            m == -s * unit || m == s * unit,
    ;
    assert(a * (a * t * t - 2 * unit * h * t + unit * unit * c) == (a * t) * (a * t) - 2 * unit
        * h * (a * t) + a * (unit * unit * c)) by (nonlinear_arith);
    assert((a * t) * (a * t) - 2 * unit * h * (a * t) == (n - r) * (n - r) - 2 * (unit * h) * (n
        - r)) by (nonlinear_arith)
        requires
            a * t == n - r,
    ;
    assert((n - r) * (n - r) - 2 * (unit * h) * (n - r) == m * m - (unit * h) * (unit * h) + r
        * r - 2 * r * m) by (nonlinear_arith)
        requires
            m == n - unit * h,
    ;
    assert((unit * h) * (unit * h) == unit * unit * (h * h)) by (nonlinear_arith);
    assert(a * (unit * unit * c) == unit * unit * (a * c)) by (nonlinear_arith);
    assert(unit * unit * (s * s) - unit * unit * (h * h) + unit * unit * (a * c) == unit * unit
        * (s * s - h * h + a * c)) by (nonlinear_arith);
}

/// A product is no larger than the product of bounds on its factors.
proof fn lemma_product_bound(x: int, y: int, bx: int, by: int)
    requires
        magnitude(x) <= bx,
        magnitude(y) <= by,
    ensures
        magnitude(x * y) <= bx * by,
{
    assert(magnitude(x * y) == magnitude(x) * magnitude(y)) by (nonlinear_arith);
    assert(magnitude(x) * magnitude(y) <= bx * by) by (nonlinear_arith)
        requires
            0 <= magnitude(x) <= bx,
            0 <= magnitude(y) <= by,
    ;
}

/// The square of a rounded component: with `u = d t - S o` the exact
/// component times `S`, and `S w = u - p` the rounded one,
/// `(S w)^2 = (d t)^2 - 2 S (d o) t + S^2 o^2 - 2 p S w - p^2`.
proof fn lemma_component_square(unit: int, d: int, o: int, t: int, w: int, p: int)
    requires
        unit * w == d * t - unit * o - p,
    ensures
        unit * unit * (w * w) == (d * d) * (t * t) - 2 * unit * (d * o) * t + unit * unit * (o
            * o) - 2 * p * unit * w - p * p,
{
    let x = d * t;
    let y = unit * o;
    let u = x - y;
    assert(u * u == x * x - 2 * (x * y) + y * y) by (nonlinear_arith)
        requires
            u == x - y,
    ;
    assert(x * x == (d * d) * (t * t)) by (nonlinear_arith)
        requires
            x == d * t,
    ;
    assert(x * y == unit * (d * o) * t) by (nonlinear_arith)
        requires
            x == d * t,
            y == unit * o,
    ;
    assert(y * y == unit * unit * (o * o)) by (nonlinear_arith)
        requires
            y == unit * o,
    ;
    assert(2 * (unit * (d * o) * t) == 2 * unit * (d * o) * t) by (nonlinear_arith);
    assert(u * u == (unit * w) * (unit * w) + 2 * p * (unit * w) + p * p) by (nonlinear_arith)
        requires
            u == unit * w + p,
    ;
    assert((unit * w) * (unit * w) == unit * unit * (w * w)) by (nonlinear_arith);
    assert(2 * p * (unit * w) == 2 * p * unit * w) by (nonlinear_arith);
}

/// The largest difference, times `a S^2`, between the squared distance of
/// a rounded hit from the center and the squared radius:
/// `S (S^2 (2 s + 2 S) + a^2 + 2 a s S)` for the root, and
/// `a (3 S t^2 + 6 S^2 |t| + 3 S^3 + 2 S^2 w + 3 S^2)` for the point,
/// where `w` is the sum of the magnitudes of the components of the way
/// from the center to the hit.
pub open spec fn hit_tolerance(unit: int, a: int, s: int, t: int, w: int) -> int {
    let uu = unit * unit;
    let tt = t * t;
    unit * (uu * (2 * s + 2 * unit) + a * a + 2 * a * s * unit) + a * (3 * unit * tt + 6 * uu
        * magnitude(t) + 3 * uu * unit + 2 * uu * w + 3 * uu)
}

/// What one rounded component adds to the difference of the squares:
/// with `p = d t - S o - S w` of magnitude at most `S`, the magnitude of
/// `S^2 w^2 - ((d t)^2 - 2 S (d o) t + S^2 o^2)` is at most
/// `2 S^2 |w| + S^2`.
proof fn lemma_component_off(unit: int, d: int, o: int, t: int, w: int)
    requires
        unit > 0,
        -unit <= d * t - unit * o - unit * w <= unit,
    ensures
        magnitude(
            unit * unit * (w * w) - ((d * d) * (t * t) - 2 * unit * (d * o) * t + unit * unit * (o
                * o)),
        ) <= 2 * (unit * unit) * magnitude(w) + unit * unit,
{
    let p = d * t - unit * o - unit * w;
    lemma_component_square(unit, d, o, t, w, p);
    lemma_product_bound(p, w, unit, magnitude(w));
    lemma_product_bound(2 * unit, p * w, 2 * unit, unit * magnitude(w));
    assert(2 * p * unit * w == (2 * unit) * (p * w)) by (nonlinear_arith);
    assert((2 * unit) * (unit * magnitude(w)) == 2 * (unit * unit) * magnitude(w))
        by (nonlinear_arith);
    lemma_product_bound(p, p, unit, unit);
}

/// The rounded point against the exact one: the magnitude of
/// `S^2 |w|^2 - (|d|^2 t^2 - 2 S (d . o) t + S^2 |o|^2)` is at most
/// `2 S^2 (|w.0| + |w.1| + |w.2|) + 3 S^2`.
proof fn lemma_point_off(
    unit: int,
    d: (int, int, int),
    o: (int, int, int),
    t: int,
    w: (int, int, int),
)
    requires
        unit > 0,
        -unit <= d.0 * t - unit * o.0 - unit * w.0 <= unit,
        -unit <= d.1 * t - unit * o.1 - unit * w.1 <= unit,
        -unit <= d.2 * t - unit * o.2 - unit * w.2 <= unit,
    ensures
        magnitude(
            unit * unit * (w.0 * w.0 + w.1 * w.1 + w.2 * w.2) - ((d.0 * d.0 + d.1 * d.1 + d.2
                * d.2) * (t * t) - 2 * unit * (d.0 * o.0 + d.1 * o.1 + d.2 * o.2) * t + unit
                * unit * (o.0 * o.0 + o.1 * o.1 + o.2 * o.2)),
        ) <= 2 * (unit * unit) * (magnitude(w.0) + magnitude(w.1) + magnitude(w.2)) + 3 * (unit
            * unit),
{
    lemma_component_off(unit, d.0, o.0, t, w.0);
    lemma_component_off(unit, d.1, o.1, t, w.1);
    lemma_component_off(unit, d.2, o.2, t, w.2);
    let tt = t * t;
    let uu = unit * unit;
    let k = 2 * uu;
    assert(uu * (w.0 * w.0 + w.1 * w.1 + w.2 * w.2) == uu * (w.0 * w.0) + uu * (w.1 * w.1) + uu
        * (w.2 * w.2)) by (nonlinear_arith);
    assert((d.0 * d.0 + d.1 * d.1 + d.2 * d.2) * tt == (d.0 * d.0) * tt + (d.1 * d.1) * tt + (d.2
        * d.2) * tt) by (nonlinear_arith);
    assert(2 * unit * (d.0 * o.0 + d.1 * o.1 + d.2 * o.2) * t == 2 * unit * (d.0 * o.0) * t + 2
        * unit * (d.1 * o.1) * t + 2 * unit * (d.2 * o.2) * t) by (nonlinear_arith);
    assert(uu * (o.0 * o.0 + o.1 * o.1 + o.2 * o.2) == uu * (o.0 * o.0) + uu * (o.1 * o.1) + uu
        * (o.2 * o.2)) by (nonlinear_arith);
    assert(k * (magnitude(w.0) + magnitude(w.1) + magnitude(w.2)) == k * magnitude(w.0) + k
        * magnitude(w.1) + k * magnitude(w.2)) by (nonlinear_arith);
}

/// The exact coefficients against the rounded ones: where `d2`, `dot`
/// and `o2 - r2` are `a S`, `h S` and `c S` rounded by at most `3 S`,
/// the magnitude of `d2 t^2 - 2 S dot t + S^2 o2 - S^2 r2 - S x` is at
/// most `3 S t^2 + 6 S^2 |t| + 3 S^3`, for `x = a t^2 - 2 S h t + S^2 c`.
proof fn lemma_coefficients_off(
    unit: int,
    a: int,
    h: int,
    c: int,
    d2: int,
    dot: int,
    o2: int,
    r2: int,
    t: int,
)
    requires
        unit > 0,
        0 <= d2 - a * unit <= 3 * unit,
        -3 * unit <= dot - h * unit <= 3 * unit,
        -3 * unit <= o2 - r2 - c * unit <= 3 * unit,
    ensures
        magnitude(
            d2 * (t * t) - 2 * unit * dot * t + unit * unit * o2 - unit * unit * r2 - unit * (a
                * t * t - 2 * unit * h * t + unit * unit * c),
        ) <= 3 * unit * (t * t) + 6 * (unit * unit) * magnitude(t) + 3 * (unit * unit) * unit,
{
    let tt = t * t;
    let uu = unit * unit;
    let alpha = d2 - a * unit;
    let eta = dot - h * unit;
    let gamma = o2 - r2 - c * unit;
    let first = a * t * t;
    let second = 2 * unit * h * t;
    let third = unit * unit * c;
    assert(tt >= 0) by (nonlinear_arith)
        requires
            tt == t * t,
    ;
    assert(d2 * tt == a * unit * tt + alpha * tt) by (nonlinear_arith)
        requires
            d2 == a * unit + alpha,
    ;
    assert(2 * unit * dot * t == 2 * unit * (h * unit) * t + 2 * unit * eta * t)
        by (nonlinear_arith)
        requires
            dot == h * unit + eta,
    ;
    assert(uu * o2 == uu * (c * unit) + uu * r2 + uu * gamma) by (nonlinear_arith)
        requires
            o2 == c * unit + r2 + gamma,
    ;
    assert(unit * (first - second + third) == unit * first - unit * second + unit * third)
        by (nonlinear_arith);
    assert(a * unit * tt == unit * first) by (nonlinear_arith)
        requires
            first == a * t * t,
            tt == t * t,
    ;
    assert(2 * unit * (h * unit) * t == unit * second) by (nonlinear_arith)
        requires
            second == 2 * unit * h * t,
    ;
    assert(uu * (c * unit) == unit * third) by (nonlinear_arith)
        requires
            third == unit * unit * c,
            uu == unit * unit,
    ;
    lemma_product_bound(alpha, tt, 3 * unit, tt);
    lemma_product_bound(eta, t, 3 * unit, magnitude(t));
    lemma_product_bound(2 * unit, eta * t, 2 * unit, 3 * unit * magnitude(t));
    assert(2 * unit * eta * t == (2 * unit) * (eta * t)) by (nonlinear_arith);
    assert((2 * unit) * (3 * unit * magnitude(t)) == 6 * uu * magnitude(t)) by (nonlinear_arith)
        requires
            uu == unit * unit,
    ;
    assert(uu > 0) by (nonlinear_arith)
        requires
            uu == unit * unit,
            unit > 0,
    ;
    lemma_product_bound(uu, gamma, uu, 3 * unit);
    assert(uu * (3 * unit) == 3 * uu * unit) by (nonlinear_arith);
}

/// The quadratic at a rounded root: `a (a t^2 - 2 S h t + S^2 c)` has
/// at most the magnitude `S^2 (2 s + 2 S) + a^2 + 2 a s S`.
proof fn lemma_root_off(unit: int, a: int, h: int, s: int, c: int, t: int, n: int)
    requires
        unit > 0,
        a > 0,
        s >= 0,
        -(2 * s + 2 * unit) <= s * s - h * h + a * c <= 2 * s + 2 * unit,
        n == (h - s) * unit || n == (h + s) * unit,
        -a <= n - a * t <= a,
    ensures
        magnitude(a * (a * t * t - 2 * unit * h * t + unit * unit * c)) <= unit * unit * (2 * s
            + 2 * unit) + a * a + 2 * a * s * unit,
{
    let e = s * s - h * h + a * c;
    let r = n - a * t;
    let m = n - unit * h;
    let uu = unit * unit;
    lemma_quadratic_at_root(unit, a, h, s, c, t, n);
    assert((h - s) * unit - unit * h == -s * unit) by (nonlinear_arith);
    assert((h + s) * unit - unit * h == s * unit) by (nonlinear_arith);
    assert(s * unit >= 0) by (nonlinear_arith)
        requires
            s >= 0,
            unit > 0,
    ;
    assert(-s * unit == -(s * unit)) by (nonlinear_arith);
    assert(magnitude(m) == s * unit);
    assert(uu > 0) by (nonlinear_arith)
        requires
            uu == unit * unit,
            unit > 0,
    ;
    lemma_product_bound(uu, e, uu, 2 * s + 2 * unit);
    lemma_product_bound(r, r, a, a);
    lemma_product_bound(r, m, a, s * unit);
    assert(2 * r * m == 2 * (r * m)) by (nonlinear_arith);
    assert(a * (s * unit) == a * s * unit) by (nonlinear_arith);
    assert(2 * a * s * unit == 2 * (a * s * unit)) by (nonlinear_arith);
}

/// A root that was rounded, and the point at it that was rounded again,
/// still lie near the sphere: the squared distance of the point from the
/// center differs from the squared radius by at most `hit_tolerance`.
///
/// All numbers are whole numbers of units of which `unit` make one. The
/// ray has direction `d`, the way from its origin to the center is `o`,
/// the radius is `rad`; `a`, `h` and `c` are the rounded coefficients of
/// the quadratic, `s` the rounded square root of its discriminant, `t` the
/// rounded root and `w` the way from the center to the rounded point. The
/// preconditions say no more than that each of them was rounded by at
/// most one unit.
pub proof fn lemma_rounded_hit_near_sphere(
    unit: int,
    d: (int, int, int),
    o: (int, int, int),
    rad: int,
    a: int,
    h: int,
    c: int,
    s: int,
    t: int,
    n: int,
    w: (int, int, int),
)
    requires
        unit > 0,
        a > 0,
        s >= 0,
        0 <= d.0 * d.0 + d.1 * d.1 + d.2 * d.2 - a * unit <= 3 * unit,
        -3 * unit <= d.0 * o.0 + d.1 * o.1 + d.2 * o.2 - h * unit <= 3 * unit,
        -3 * unit <= o.0 * o.0 + o.1 * o.1 + o.2 * o.2 - rad * rad - c * unit <= 3 * unit,
        -(2 * s + 2 * unit) <= s * s - h * h + a * c <= 2 * s + 2 * unit,
        n == (h - s) * unit || n == (h + s) * unit,
        -a <= n - a * t <= a,
        -unit <= d.0 * t - unit * o.0 - unit * w.0 <= unit,
        -unit <= d.1 * t - unit * o.1 - unit * w.1 <= unit,
        -unit <= d.2 * t - unit * o.2 - unit * w.2 <= unit,
    ensures
        magnitude(a * (unit * unit * (w.0 * w.0 + w.1 * w.1 + w.2 * w.2 - rad * rad)))
            <= hit_tolerance(
            unit,
            a,
            s,
            t,
            magnitude(w.0) + magnitude(w.1) + magnitude(w.2),
        ),
{
    let tt = t * t;
    let uu = unit * unit;
    let d2 = d.0 * d.0 + d.1 * d.1 + d.2 * d.2;
    let dot = d.0 * o.0 + d.1 * o.1 + d.2 * o.2;
    let o2 = o.0 * o.0 + o.1 * o.1 + o.2 * o.2;
    let w2 = w.0 * w.0 + w.1 * w.1 + w.2 * w.2;
    let r2 = rad * rad;
    let x = a * t * t - 2 * unit * h * t + unit * unit * c;
    let wsum = magnitude(w.0) + magnitude(w.1) + magnitude(w.2);
    let exact = d2 * tt - 2 * unit * dot * t + uu * o2;
    lemma_point_off(unit, d, o, t, w);
    lemma_coefficients_off(unit, a, h, c, d2, dot, o2, r2, t);
    lemma_root_off(unit, a, h, s, c, t, n);
    let point_off = uu * w2 - exact;
    let coefficients_off = exact - uu * r2 - unit * x;
    let root_bound = uu * (2 * s + 2 * unit) + a * a + 2 * a * s * unit;
    let rest_bound = 3 * unit * tt + 6 * uu * magnitude(t) + 3 * uu * unit + 2 * uu * wsum + 3
        * uu;
    assert(uu * (w2 - r2) == uu * w2 - uu * r2) by (nonlinear_arith);
    assert(uu * (w2 - r2) == unit * x + (point_off + coefficients_off));
    assert(a * (uu * (w2 - r2)) == unit * (a * x) + a * (point_off + coefficients_off))
        by (nonlinear_arith)
        requires
            uu * (w2 - r2) == unit * x + (point_off + coefficients_off),
    ;
    assert(magnitude(point_off + coefficients_off) <= rest_bound);
    lemma_product_bound(unit, a * x, unit, root_bound);
    lemma_product_bound(a, point_off + coefficients_off, a, rest_bound);
    assert(unit * root_bound + a * rest_bound == hit_tolerance(unit, a, s, t, wsum));
}

/// A sum that stays in range is held as it is.
proof fn lemma_add_exact(a: Scalar, b: Scalar)
    requires
        in_range(a@ + b@),
    ensures
        a.spec_add(b)@ == a@ + b@,
{
    lemma_of_view(a@ + b@);
}

/// A difference that stays in range is held as it is.
proof fn lemma_sub_exact(a: Scalar, b: Scalar)
    requires
        in_range(a@ - b@),
    ensures
        a.spec_sub(b)@ == a@ - b@,
{
    lemma_of_view(a@ - b@);
}

/// The product of two scalars as it would be without the range.
pub open spec fn spec_product(a: Scalar, b: Scalar) -> int {
    trunc_div(a@ * b@, SCALE as int)
}

/// A product that stays in range is off by less than one millionth.
proof fn lemma_mul_exact(a: Scalar, b: Scalar)
    requires
        in_range(spec_product(a, b)),
    ensures
        a.spec_mul(b)@ == spec_product(a, b),
        -SCALE < a@ * b@ - a.spec_mul(b)@ * SCALE < SCALE,
        a@ * b@ >= 0 ==> a@ * b@ - a.spec_mul(b)@ * SCALE >= 0,
{
    lemma_of_view(spec_product(a, b));
    lemma_remainder_small(a@ * b@, SCALE as int);
}

/// The quotient of two scalars as it would be without the range.
pub open spec fn spec_quotient(a: Scalar, b: Scalar) -> int {
    trunc_div(a@ * SCALE, b@)
}

/// A quotient by a positive scalar that stays in range is off by less than
/// one millionth.
proof fn lemma_div_exact(a: Scalar, b: Scalar)
    requires
        b@ > 0,
        in_range(spec_quotient(a, b)),
    ensures
        a.spec_div(b)@ == spec_quotient(a, b),
        -b@ < a@ * SCALE - b@ * a.spec_div(b)@ < b@,
{
    lemma_of_view(spec_quotient(a, b));
    lemma_remainder_small(a@ * SCALE, b@);
    assert(spec_quotient(a, b) * b@ == b@ * spec_quotient(a, b)) by (nonlinear_arith);
}

/// The inner product of two vectors as it would be without rounding,
/// in millionths of millionths.
pub open spec fn spec_exact_dot(u: Vec3, v: Vec3) -> int {
    u.x@ * v.x@ + u.y@ * v.y@ + u.z@ * v.z@
}

/// Whether no product and no sum of an inner product leaves the range.
pub open spec fn spec_dot_in_range(u: Vec3, v: Vec3) -> bool {
    &&& in_range(spec_product(u.x, v.x))
    &&& in_range(spec_product(u.y, v.y))
    &&& in_range(spec_product(u.z, v.z))
    &&& in_range(spec_product(u.x, v.x) + spec_product(u.y, v.y))
    &&& in_range(spec_product(u.x, v.x) + spec_product(u.y, v.y) + spec_product(u.z, v.z))
}

/// An inner product that stays in range is off by less than three
/// millionths, and the inner product of a vector with itself is not above
/// the exact one.
proof fn lemma_dot_exact(u: Vec3, v: Vec3)
    requires
        spec_dot_in_range(u, v),
    ensures
        -3 * SCALE < spec_exact_dot(u, v) - spec_dot(u, v)@ * SCALE < 3 * SCALE,
        u == v ==> spec_exact_dot(u, v) - spec_dot(u, v)@ * SCALE >= 0,
{
    lemma_mul_exact(u.x, v.x);
    lemma_mul_exact(u.y, v.y);
    lemma_mul_exact(u.z, v.z);
    lemma_add_exact(u.x.spec_mul(v.x), u.y.spec_mul(v.y));
    lemma_add_exact(u.x.spec_mul(v.x).spec_add(u.y.spec_mul(v.y)), u.z.spec_mul(v.z));
    if u == v {
        assert(u.x@ * u.x@ >= 0) by (nonlinear_arith);
        assert(u.y@ * u.y@ >= 0) by (nonlinear_arith);
        assert(u.z@ * u.z@ >= 0) by (nonlinear_arith);
    }
}

/// Whether nothing leaves the range while the two roots of `ray` on
/// `sphere` are computed, and the ray has a direction whose squared length
/// is not rounded to zero.
pub open spec fn spec_roots_in_range(sphere: Sphere, ray: Ray) -> bool {
    let oc = sphere.spec_offset(ray);
    let a = ray.direction.spec_length_squared();
    let h = sphere.spec_half_b(ray);
    let c = sphere.spec_c(ray);
    let s = sphere.spec_discriminant(ray).spec_sqrt();
    &&& in_range(sphere.center.x@ - ray.origin.x@)
    &&& in_range(sphere.center.y@ - ray.origin.y@)
    &&& in_range(sphere.center.z@ - ray.origin.z@)
    &&& spec_dot_in_range(ray.direction, ray.direction)
    &&& spec_dot_in_range(ray.direction, oc)
    &&& spec_dot_in_range(oc, oc)
    &&& in_range(spec_product(sphere.radius, sphere.radius))
    &&& in_range(spec_dot(oc, oc)@ - sphere.radius.spec_mul(sphere.radius)@)
    &&& in_range(spec_product(h, h))
    &&& in_range(spec_product(a, c))
    &&& in_range(h.spec_mul(h)@ - a.spec_mul(c)@)
    &&& a@ > 0
    &&& in_range(h@ - s@)
    &&& in_range(h@ + s@)
    &&& in_range(spec_quotient(h.spec_sub(s), a))
    &&& in_range(spec_quotient(h.spec_add(s), a))
}

/// Whether nothing leaves the range while the point of `ray` at `t` is
/// computed.
pub open spec fn spec_point_in_range(ray: Ray, t: Scalar) -> bool {
    &&& in_range(spec_product(ray.direction.x, t))
    &&& in_range(spec_product(ray.direction.y, t))
    &&& in_range(spec_product(ray.direction.z, t))
    &&& in_range(ray.origin.x@ + spec_product(ray.direction.x, t))
    &&& in_range(ray.origin.y@ + spec_product(ray.direction.y, t))
    &&& in_range(ray.origin.z@ + spec_product(ray.direction.z, t))
}

/// Whether `p` lies on `sphere` up to rounding: the squared distance from
/// the center differs from the squared radius, both in millionths of
/// millionths, by at most `hit_tolerance` over `a` times `SCALE` squared, for
/// `a` the squared length of the direction of `ray`, `s` the square root
/// of the discriminant and `t` the parameter of the hit.
pub open spec fn spec_near_sphere(sphere: Sphere, ray: Ray, t: Scalar, p: Vec3) -> bool {
    let w = (p.x@ - sphere.center.x@, p.y@ - sphere.center.y@, p.z@ - sphere.center.z@);
    magnitude(
        ray.direction.spec_length_squared()@ * (SCALE * SCALE * (w.0 * w.0 + w.1 * w.1 + w.2
            * w.2 - sphere.radius@ * sphere.radius@)),
    ) <= hit_tolerance(
        SCALE as int,
        ray.direction.spec_length_squared()@,
        sphere.spec_discriminant(ray).spec_sqrt()@,
        t@,
        magnitude(w.0) + magnitude(w.1) + magnitude(w.2),
    )
}

/// A hit lies on its sphere up to rounding: where nothing left the range
/// on the way, the point of the hit is as far from the center as the
/// radius, within a tolerance of a few millionths of the sizes involved.
#[verifier::rlimit(50)]
pub proof fn lemma_hit_near_sphere(sphere: Sphere, ray: Ray, range: Interval, record: HitRecord)
    requires
        sphere.spec_hit(ray, range) == Some(record),
        spec_roots_in_range(sphere, ray),
        spec_point_in_range(ray, record.t),
    ensures
        spec_near_sphere(sphere, ray, record.t, record.p),
{
    let oc = sphere.spec_offset(ray);
    let d = ray.direction;
    let a = d.spec_length_squared();
    let h = sphere.spec_half_b(ray);
    let c = sphere.spec_c(ray);
    let disc = sphere.spec_discriminant(ray);
    let s = disc.spec_sqrt();
    let t = record.t;
    let p = record.p;
    let rr = sphere.radius.spec_mul(sphere.radius);
    lemma_sub_exact(sphere.center.x, ray.origin.x);
    lemma_sub_exact(sphere.center.y, ray.origin.y);
    lemma_sub_exact(sphere.center.z, ray.origin.z);
    lemma_dot_exact(d, d);
    lemma_dot_exact(d, oc);
    lemma_dot_exact(oc, oc);
    lemma_mul_exact(sphere.radius, sphere.radius);
    assert(sphere.radius@ * sphere.radius@ >= 0) by (nonlinear_arith);
    lemma_sub_exact(spec_dot(oc, oc), rr);
    lemma_mul_exact(h, h);
    assert(h@ * h@ >= 0) by (nonlinear_arith);
    lemma_mul_exact(a, c);
    lemma_sub_exact(h.spec_mul(h), a.spec_mul(c));
    lemma_sqrt_view(disc);
    lemma_sub_exact(h, s);
    lemma_add_exact(h, s);
    lemma_div_exact(h.spec_sub(s), a);
    lemma_div_exact(h.spec_add(s), a);
    lemma_mul_exact(d.x, t);
    lemma_mul_exact(d.y, t);
    lemma_mul_exact(d.z, t);
    lemma_add_exact(ray.origin.x, d.x.spec_mul(t));
    lemma_add_exact(ray.origin.y, d.y.spec_mul(t));
    lemma_add_exact(ray.origin.z, d.z.spec_mul(t));
    let unit = SCALE as int;
    let n = if t == h.spec_sub(s).spec_div(a) {
        (h@ - s@) * unit
    } else {
        (h@ + s@) * unit
    };
    let w = (p.x@ - sphere.center.x@, p.y@ - sphere.center.y@, p.z@ - sphere.center.z@);
    assert(is_floor_sqrt(disc@ * unit, s@));
    assert(disc@ * unit == h.spec_mul(h)@ * unit - a.spec_mul(c)@ * unit) by (nonlinear_arith)
        requires
            disc@ == h.spec_mul(h)@ - a.spec_mul(c)@,
    ;
    assert((s@ + 1) * (s@ + 1) == s@ * s@ + 2 * s@ + 1) by (nonlinear_arith);
    assert(-(2 * s@ + 2 * unit) <= s@ * s@ - h@ * h@ + a@ * c@ <= 2 * s@ + 2 * unit);
    assert(spec_dot(oc, oc)@ * unit - rr@ * unit == c@ * unit) by (nonlinear_arith)
        requires
            c@ == spec_dot(oc, oc)@ - rr@,
    ;
    assert(a@ * t@ == t@ * a@) by (nonlinear_arith);
    assert(unit * (d.x.spec_mul(t)@ - oc.x@) == d.x.spec_mul(t)@ * unit - unit * oc.x@)
        by (nonlinear_arith);
    assert(unit * (d.y.spec_mul(t)@ - oc.y@) == d.y.spec_mul(t)@ * unit - unit * oc.y@)
        by (nonlinear_arith);
    assert(unit * (d.z.spec_mul(t)@ - oc.z@) == d.z.spec_mul(t)@ * unit - unit * oc.z@)
        by (nonlinear_arith);
    lemma_rounded_hit_near_sphere(
        unit,
        (d.x@, d.y@, d.z@),
        (oc.x@, oc.y@, oc.z@),
        sphere.radius@,
        a@,
        h@,
        c@,
        s@,
        t@,
        n,
        w,
    );
}

/// Whether nothing leaves the range while the outward normal of `sphere`
/// at `p` is computed, and the sphere has a radius above zero.
pub open spec fn spec_normal_in_range(sphere: Sphere, p: Vec3) -> bool {
    let w = p.spec_sub(sphere.center);
    &&& sphere.radius@ > 0
    &&& in_range(p.x@ - sphere.center.x@)
    &&& in_range(p.y@ - sphere.center.y@)
    &&& in_range(p.z@ - sphere.center.z@)
    &&& in_range(spec_quotient(w.x, sphere.radius))
    &&& in_range(spec_quotient(w.y, sphere.radius))
    &&& in_range(spec_quotient(w.z, sphere.radius))
}

/// Whether `normal` has length one up to rounding: its squared length
/// differs from one, both in millionths of millionths, by at most the
/// tolerance of the hit and `a (2 S r w + 3 r^2)` for the division by the
/// radius `r`, over `a r^2`.
pub open spec fn spec_normal_near_unit(sphere: Sphere, ray: Ray, t: Scalar, p: Vec3, normal: Vec3) -> bool {
    let w = (p.x@ - sphere.center.x@, p.y@ - sphere.center.y@, p.z@ - sphere.center.z@);
    let wsum = magnitude(w.0) + magnitude(w.1) + magnitude(w.2);
    let a = ray.direction.spec_length_squared()@;
    let r = sphere.radius@;
    magnitude(
        a * (r * r * (normal.x@ * normal.x@ + normal.y@ * normal.y@ + normal.z@ * normal.z@
            - SCALE * SCALE)),
    ) <= hit_tolerance(SCALE as int, a, sphere.spec_discriminant(ray).spec_sqrt()@, t@, wsum) + a * (2
        * SCALE * r * wsum + 3 * r * r)
}

/// The square of a rounded quotient: with `r n = S w - p`,
/// `r^2 n^2 = S^2 w^2 - 2 S w p + p^2`.
proof fn lemma_quotient_square(unit: int, r: int, n: int, w: int, p: int)
    requires
        r * n == unit * w - p,
    ensures
        r * r * (n * n) == unit * unit * (w * w) - 2 * unit * (w * p) + p * p,
{
    let x = unit * w;
    let y = r * n;
    assert(y * y == x * x - 2 * (x * p) + p * p) by (nonlinear_arith)
        requires
            y == x - p,
    ;
    assert(y * y == r * r * (n * n)) by (nonlinear_arith)
        requires
            y == r * n,
    ;
    assert(x * x == unit * unit * (w * w)) by (nonlinear_arith)
        requires
            x == unit * w,
    ;
    assert(2 * (x * p) == 2 * unit * (w * p)) by (nonlinear_arith)
        requires
            x == unit * w,
    ;
}

/// What one rounded quotient adds to the difference of the squares: with
/// `p = S w - r n` of magnitude at most `r`, the magnitude of
/// `r^2 n^2 - S^2 w^2` is at most `2 S r |w| + r^2`.
proof fn lemma_quotient_off(unit: int, r: int, n: int, w: int)
    requires
        unit > 0,
        r > 0,
        -r <= unit * w - r * n <= r,
    ensures
        magnitude(r * r * (n * n) - unit * unit * (w * w)) <= 2 * unit * r * magnitude(w) + r * r,
{
    let p = unit * w - r * n;
    lemma_quotient_square(unit, r, n, w, p);
    lemma_product_bound(w, p, magnitude(w), r);
    lemma_product_bound(2 * unit, w * p, 2 * unit, magnitude(w) * r);
    assert(2 * unit * (w * p) == (2 * unit) * (w * p)) by (nonlinear_arith);
    assert((2 * unit) * (magnitude(w) * r) == 2 * unit * r * magnitude(w)) by (nonlinear_arith);
    lemma_product_bound(p, p, r, r);
}

/// Three rounded quotients, squared and summed: the magnitude of
/// `r^2 |n|^2 - S^2 |w|^2` is at most `2 S r (|w.0| + |w.1| + |w.2|)
/// + 3 r^2`, where each `r n.i` is `S w.i` rounded by at most `r`.
proof fn lemma_quotients_off(unit: int, r: int, n: (int, int, int), w: (int, int, int))
    requires
        unit > 0,
        r > 0,
        -r <= unit * w.0 - r * n.0 <= r,
        -r <= unit * w.1 - r * n.1 <= r,
        -r <= unit * w.2 - r * n.2 <= r,
    ensures
        magnitude(
            r * r * (n.0 * n.0 + n.1 * n.1 + n.2 * n.2) - unit * unit * (w.0 * w.0 + w.1 * w.1
                + w.2 * w.2),
        ) <= 2 * unit * r * (magnitude(w.0) + magnitude(w.1) + magnitude(w.2)) + 3 * (r * r),
{
    lemma_quotient_off(unit, r, n.0, w.0);
    lemma_quotient_off(unit, r, n.1, w.1);
    lemma_quotient_off(unit, r, n.2, w.2);
    let rr = r * r;
    let uu = unit * unit;
    let k = 2 * unit * r;
    assert(rr * (n.0 * n.0 + n.1 * n.1 + n.2 * n.2) == rr * (n.0 * n.0) + rr * (n.1 * n.1) + rr
        * (n.2 * n.2)) by (nonlinear_arith);
    assert(uu * (w.0 * w.0 + w.1 * w.1 + w.2 * w.2) == uu * (w.0 * w.0) + uu * (w.1 * w.1) + uu
        * (w.2 * w.2)) by (nonlinear_arith);
    assert(k * (magnitude(w.0) + magnitude(w.1) + magnitude(w.2)) == k * magnitude(w.0) + k
        * magnitude(w.1) + k * magnitude(w.2)) by (nonlinear_arith);
}

/// From the point to the normal: where `a S^2 (|w|^2 - r^2)` has at most
/// the magnitude `near` and `r^2 |n|^2 - S^2 |w|^2` at most `off`,
/// `a r^2 (|n|^2 - S^2)` has at most the magnitude `near + a off`.
proof fn lemma_normal_from_point(
    unit: int,
    r: int,
    a: int,
    n2: int,
    w2: int,
    near: int,
    off: int,
)
    requires
        a >= 0,
        magnitude(a * (unit * unit * (w2 - r * r))) <= near,
        magnitude(r * r * n2 - unit * unit * w2) <= off,
    ensures
        magnitude(a * (r * r * (n2 - unit * unit))) <= near + a * off,
{
    let rr = r * r;
    let uu = unit * unit;
    assert(rr * (n2 - uu) == uu * (w2 - rr) + (rr * n2 - uu * w2)) by (nonlinear_arith);
    assert(a * (rr * (n2 - uu)) == a * (uu * (w2 - rr)) + a * (rr * n2 - uu * w2))
        by (nonlinear_arith)
        requires
            rr * (n2 - uu) == uu * (w2 - rr) + (rr * n2 - uu * w2),
    ;
    lemma_product_bound(a, rr * n2 - uu * w2, a, off);
}

/// The normal of a hit on a sphere has length one up to rounding, where
/// nothing left the range on the way.
#[verifier::rlimit(50)]
pub proof fn lemma_normal_near_unit(sphere: Sphere, ray: Ray, range: Interval, record: HitRecord)
    requires
        sphere.spec_hit(ray, range) == Some(record),
        spec_roots_in_range(sphere, ray),
        spec_point_in_range(ray, record.t),
        spec_normal_in_range(sphere, record.p),
    ensures
        spec_normal_near_unit(sphere, ray, record.t, record.p, record.normal),
{
    lemma_hit_near_sphere(sphere, ray, range, record);
    lemma_length_squared_not_negative(ray.direction);
    let unit = SCALE as int;
    let p = record.p;
    let way = p.spec_sub(sphere.center);
    let outward = way.spec_div(sphere.radius);
    let normal = record.normal;
    let r = sphere.radius@;
    let a = ray.direction.spec_length_squared()@;
    let w = (p.x@ - sphere.center.x@, p.y@ - sphere.center.y@, p.z@ - sphere.center.z@);
    let wsum = magnitude(w.0) + magnitude(w.1) + magnitude(w.2);
    let n = (outward.x@, outward.y@, outward.z@);
    lemma_way_rounded(sphere, p);
    lemma_of_view(quotient(way.x@ * SCALE, r));
    lemma_of_view(quotient(way.y@ * SCALE, r));
    lemma_of_view(quotient(way.z@ * SCALE, r));
    lemma_squares_of_face_normal(ray.direction, outward);
    lemma_quotients_off(unit, r, n, w);
    let n2 = n.0 * n.0 + n.1 * n.1 + n.2 * n.2;
    let w2 = w.0 * w.0 + w.1 * w.1 + w.2 * w.2;
    lemma_normal_from_point(
        unit,
        r,
        a,
        n2,
        w2,
        hit_tolerance(unit, a, sphere.spec_discriminant(ray).spec_sqrt()@, record.t@, wsum),
        2 * unit * r * wsum + 3 * (r * r),
    );
    assert(3 * (r * r) == 3 * r * r) by (nonlinear_arith);
}

/// The outward normal of a sphere at `p`, as it is rounded: each
/// component times the radius is the way from the center to `p` times
/// `SCALE`, rounded by less than the radius.
proof fn lemma_way_rounded(sphere: Sphere, p: Vec3)
    requires
        spec_normal_in_range(sphere, p),
    ensures
        ({
            let outward = p.spec_sub(sphere.center).spec_div(sphere.radius);
            let r = sphere.radius@;
            &&& -r <= SCALE * (p.x@ - sphere.center.x@) - r * outward.x@ <= r
            &&& -r <= SCALE * (p.y@ - sphere.center.y@) - r * outward.y@ <= r
            &&& -r <= SCALE * (p.z@ - sphere.center.z@) - r * outward.z@ <= r
        }),
{
    let way = p.spec_sub(sphere.center);
    lemma_sub_exact(p.x, sphere.center.x);
    lemma_sub_exact(p.y, sphere.center.y);
    lemma_sub_exact(p.z, sphere.center.z);
    lemma_div_exact(way.x, sphere.radius);
    lemma_div_exact(way.y, sphere.radius);
    lemma_div_exact(way.z, sphere.radius);
    assert(way.x@ * SCALE == SCALE * way.x@) by (nonlinear_arith);
    assert(way.y@ * SCALE == SCALE * way.y@) by (nonlinear_arith);
    assert(way.z@ * SCALE == SCALE * way.z@) by (nonlinear_arith);
}

/// Turning a normal against the ray keeps the squares of its components.
proof fn lemma_squares_of_face_normal(direction: Vec3, outward: Vec3)
    requires
        outward.wf(),
    ensures
        ({
            let normal = spec_face_normal(direction, outward);
            &&& normal.x@ * normal.x@ == outward.x@ * outward.x@
            &&& normal.y@ * normal.y@ == outward.y@ * outward.y@
            &&& normal.z@ * normal.z@ == outward.z@ * outward.z@
        }),
{
    let normal = spec_face_normal(direction, outward);
    lemma_view_range(outward.x);
    lemma_view_range(outward.y);
    lemma_view_range(outward.z);
    lemma_of_view(-outward.x@);
    lemma_of_view(-outward.y@);
    lemma_of_view(-outward.z@);
    assert(normal.x@ * normal.x@ == outward.x@ * outward.x@) by (nonlinear_arith)
        requires
            normal.x@ == outward.x@ || normal.x@ == -outward.x@,
    ;
    assert(normal.y@ * normal.y@ == outward.y@ * outward.y@) by (nonlinear_arith)
        requires
            normal.y@ == outward.y@ || normal.y@ == -outward.y@,
    ;
    assert(normal.z@ * normal.z@ == outward.z@ * outward.z@) by (nonlinear_arith)
        requires
            normal.z@ == outward.z@ || normal.z@ == -outward.z@,
    ;
}

/// Whether each component of `v` has at most the magnitude `bound`.
pub open spec fn spec_within(v: Vec3, bound: int) -> bool {
    &&& magnitude(v.x@) <= bound
    &&& magnitude(v.y@) <= bound
    &&& magnitude(v.z@) <= bound
}

/// Whether `sphere` and `ray` are of ordinary size: origin and center
/// within a thousand of the origin of space along each axis, a radius
/// between a ten-thousandth and a thousand, a direction of at most ten
/// along each axis whose squared length is at least a hundredth.
pub open spec fn spec_ordinary(sphere: Sphere, ray: Ray) -> bool {
    &&& spec_within(ray.origin, 1_000 * SCALE)
    &&& spec_within(sphere.center, 1_000 * SCALE)
    &&& 100 <= sphere.radius@ <= 1_000 * SCALE
    &&& spec_within(ray.direction, 10 * SCALE)
    &&& ray.direction.spec_length_squared()@ >= SCALE / 100
}

/// A product of bounded scalars is bounded, and held as it is.
proof fn lemma_product_within(a: Scalar, b: Scalar, ba: int, bb: int, bound: int)
    requires
        magnitude(a@) <= ba,
        magnitude(b@) <= bb,
        ba * bb <= bound * SCALE,
        0 <= bound <= LIMIT,
    ensures
        in_range(spec_product(a, b)),
        a.spec_mul(b)@ == spec_product(a, b),
        magnitude(a.spec_mul(b)@) <= bound,
{
    lemma_product_bound(a@, b@, ba, bb);
    lemma_div_is_ordered(magnitude(a@ * b@), bound * SCALE, SCALE as int);
    lemma_of_view(spec_product(a, b));
}

/// A quotient of a bounded scalar by one that is not too small is
/// bounded, and held as it is.
proof fn lemma_quotient_within(n: Scalar, a: Scalar, bn: int, least: int, bound: int)
    requires
        magnitude(n@) <= bn,
        a@ >= least > 0,
        (bn * SCALE) / least <= bound <= LIMIT,
    ensures
        in_range(spec_quotient(n, a)),
        n.spec_div(a)@ == spec_quotient(n, a),
        magnitude(n.spec_div(a)@) <= bound,
{
    let top = magnitude(n@ * SCALE);
    assert(top == magnitude(n@) * SCALE);
    lemma_div_is_ordered_by_denominator(top, least, a@);
    lemma_div_is_ordered(top, bn * SCALE, least);
    lemma_of_view(spec_quotient(n, a));
}

/// An inner product of bounded vectors is bounded, and nothing leaves
/// the range while it is computed.
proof fn lemma_dot_within(u: Vec3, v: Vec3, bu: int, bv: int, bound: int)
    requires
        spec_within(u, bu),
        spec_within(v, bv),
        bu * bv <= bound * SCALE,
        0 <= bound,
        3 * bound <= LIMIT,
    ensures
        spec_dot_in_range(u, v),
        magnitude(spec_dot(u, v)@) <= 3 * bound,
{
    lemma_product_within(u.x, v.x, bu, bv, bound);
    lemma_product_within(u.y, v.y, bu, bv, bound);
    lemma_product_within(u.z, v.z, bu, bv, bound);
    lemma_add_exact(u.x.spec_mul(v.x), u.y.spec_mul(v.y));
    lemma_add_exact(u.x.spec_mul(v.x).spec_add(u.y.spec_mul(v.y)), u.z.spec_mul(v.z));
}

/// On a sphere and a ray of ordinary size nothing leaves the range: a
/// hit lies on the sphere, and its normal has length one, up to rounding.
#[verifier::rlimit(50)]
pub proof fn lemma_ordinary_hit(sphere: Sphere, ray: Ray, range: Interval, record: HitRecord)
    requires
        spec_ordinary(sphere, ray),
        sphere.spec_hit(ray, range) == Some(record),
    ensures
        spec_roots_in_range(sphere, ray),
        spec_point_in_range(ray, record.t),
        spec_normal_in_range(sphere, record.p),
        spec_near_sphere(sphere, ray, record.t, record.p),
        spec_normal_near_unit(sphere, ray, record.t, record.p, record.normal),
{
    let d = ray.direction;
    let oc = sphere.spec_offset(ray);
    let a = d.spec_length_squared();
    let h = sphere.spec_half_b(ray);
    let c = sphere.spec_c(ray);
    let disc = sphere.spec_discriminant(ray);
    let s = disc.spec_sqrt();
    let t = record.t;
    let p = record.p;
    let rr = sphere.radius.spec_mul(sphere.radius);
    let unit = SCALE as int;
    lemma_sub_exact(sphere.center.x, ray.origin.x);
    lemma_sub_exact(sphere.center.y, ray.origin.y);
    lemma_sub_exact(sphere.center.z, ray.origin.z);
    assert(spec_within(oc, 2_000 * unit));
    lemma_dot_within(d, d, 10 * unit, 10 * unit, 100 * unit);
    lemma_dot_within(d, oc, 10 * unit, 2_000 * unit, 20_000 * unit);
    lemma_dot_within(oc, oc, 2_000 * unit, 2_000 * unit, 4_000_000 * unit);
    lemma_product_within(sphere.radius, sphere.radius, 1_000 * unit, 1_000 * unit, 1_000_000 * unit);
    lemma_sub_exact(spec_dot(oc, oc), rr);
    assert(magnitude(a@) <= 300 * unit);
    assert(magnitude(h@) <= 60_000 * unit);
    assert(magnitude(c@) <= 13_000_000 * unit);
    lemma_product_within(h, h, 60_000 * unit, 60_000 * unit, 3_600_000_000 * unit);
    lemma_product_within(a, c, 300 * unit, 13_000_000 * unit, 3_900_000_000 * unit);
    lemma_sub_exact(h.spec_mul(h), a.spec_mul(c));
    assert(magnitude(disc@) <= 7_500_000_000 * unit);
    lemma_sqrt_view(disc);
    if s@ > 100_000 * unit {
        assert(s@ * s@ > 7_500_000_000 * unit * unit) by (nonlinear_arith)
            requires
                s@ > 100_000 * unit,
                unit == 1_000_000,
        ;
        assert(disc@ * unit <= 7_500_000_000 * unit * unit) by (nonlinear_arith)
            requires
                disc@ <= 7_500_000_000 * unit,
                unit == 1_000_000,
        ;
    }
    assert(0 <= s@ <= 100_000 * unit);
    lemma_sub_exact(h, s);
    lemma_add_exact(h, s);
    lemma_quotient_within(h.spec_sub(s), a, 160_000 * unit, unit / 100, 16_000_000 * unit);
    lemma_quotient_within(h.spec_add(s), a, 160_000 * unit, unit / 100, 16_000_000 * unit);
    assert(t == h.spec_sub(s).spec_div(a) || t == h.spec_add(s).spec_div(a));
    assert(magnitude(t@) <= 16_000_000 * unit);
    lemma_product_within(d.x, t, 10 * unit, 16_000_000 * unit, 160_000_000 * unit);
    lemma_product_within(d.y, t, 10 * unit, 16_000_000 * unit, 160_000_000 * unit);
    lemma_product_within(d.z, t, 10 * unit, 16_000_000 * unit, 160_000_000 * unit);
    lemma_add_exact(ray.origin.x, d.x.spec_mul(t));
    lemma_add_exact(ray.origin.y, d.y.spec_mul(t));
    lemma_add_exact(ray.origin.z, d.z.spec_mul(t));
    assert(spec_point_in_range(ray, t));
    assert(spec_within(p, 160_001_000 * unit));
    lemma_sub_exact(p.x, sphere.center.x);
    lemma_sub_exact(p.y, sphere.center.y);
    lemma_sub_exact(p.z, sphere.center.z);
    let way = p.spec_sub(sphere.center);
    assert(spec_within(way, 160_002_000 * unit));
    lemma_quotient_within(way.x, sphere.radius, 160_002_000 * unit, 100, 1_600_020_000_000 * unit);
    lemma_quotient_within(way.y, sphere.radius, 160_002_000 * unit, 100, 1_600_020_000_000 * unit);
    lemma_quotient_within(way.z, sphere.radius, 160_002_000 * unit, 100, 1_600_020_000_000 * unit);
    lemma_hit_near_sphere(sphere, ray, range, record);
    lemma_normal_near_unit(sphere, ray, range, record);
}

/// Whether nothing leaves the range while `v` is divided by its length,
/// and the length is not rounded to zero.
pub open spec fn spec_unit_in_range(v: Vec3) -> bool {
    &&& spec_dot_in_range(v, v)
    &&& v.spec_length()@ > 0
    &&& in_range(spec_quotient(v.x, v.spec_length()))
    &&& in_range(spec_quotient(v.y, v.spec_length()))
    &&& in_range(spec_quotient(v.z, v.spec_length()))
}

/// The largest difference, times the squared length `l^2` of the vector
/// that was divided, between the squared length of a unit vector and one:
/// `S^2 (3 S + 2 l)` for the length and `2 S l v + 3 l^2` for the
/// division, where `v` is the sum of the magnitudes of the components.
pub open spec fn unit_tolerance(unit: int, l: int, v: int) -> int {
    unit * unit * (3 * unit + 2 * l) + 2 * unit * l * v + 3 * (l * l)
}

/// From the quotients to the unit vector: where `|v|^2 - l^2` lies
/// between zero and `3 S + 2 l` and `l^2 |u|^2 - S^2 |v|^2` has at most
/// the magnitude `off`, `l^2 (|u|^2 - S^2)` has at most the magnitude
/// `S^2 (3 S + 2 l) + off`.
proof fn lemma_unit_from_quotients(unit: int, l: int, u2: int, v2: int, off: int)
    requires
        0 <= v2 - l * l <= 3 * unit + 2 * l,
        magnitude(l * l * u2 - unit * unit * v2) <= off,
    ensures
        magnitude(l * l * (u2 - unit * unit)) <= unit * unit * (3 * unit + 2 * l) + off,
{
    let ll = l * l;
    let uu = unit * unit;
    let excess = v2 - ll;
    assert(ll * (u2 - uu) == (ll * u2 - uu * v2) + uu * excess) by (nonlinear_arith)
        requires
            excess == v2 - ll,
    ;
    assert(uu >= 0) by (nonlinear_arith)
        requires
            uu == unit * unit,
    ;
    lemma_product_bound(uu, excess, uu, 3 * unit + 2 * l);
}

/// The length of a vector, as it is rounded: the exact squared length
/// is at least the square of the length and at most `3 S + 2 l` more.
proof fn lemma_length_rounded(v: Vec3)
    requires
        spec_dot_in_range(v, v),
    ensures
        ({
            let l = v.spec_length()@;
            0 <= spec_exact_dot(v, v) - l * l <= 3 * SCALE + 2 * l
        }),
{
    let l = v.spec_length()@;
    lemma_dot_exact(v, v);
    lemma_length_squared_not_negative(v);
    lemma_sqrt_view(v.spec_length_squared());
    assert((l + 1) * (l + 1) == l * l + 2 * l + 1) by (nonlinear_arith);
}

/// The components of a unit vector, as they are rounded: each times the
/// length is the component of the vector times `SCALE`, rounded by less
/// than the length.
proof fn lemma_unit_rounded(v: Vec3)
    requires
        spec_unit_in_range(v),
    ensures
        ({
            let u = v.spec_unit_vector();
            let l = v.spec_length()@;
            &&& -l <= SCALE * v.x@ - l * u.x@ <= l
            &&& -l <= SCALE * v.y@ - l * u.y@ <= l
            &&& -l <= SCALE * v.z@ - l * u.z@ <= l
        }),
{
    let length = v.spec_length();
    lemma_div_exact(v.x, length);
    lemma_div_exact(v.y, length);
    lemma_div_exact(v.z, length);
    assert(v.x@ * SCALE == SCALE * v.x@) by (nonlinear_arith);
    assert(v.y@ * SCALE == SCALE * v.y@) by (nonlinear_arith);
    assert(v.z@ * SCALE == SCALE * v.z@) by (nonlinear_arith);
}

/// A vector divided by its length has length one up to rounding, where
/// nothing left the range on the way.
pub proof fn lemma_unit_vector_near_unit(v: Vec3)
    requires
        spec_unit_in_range(v),
    ensures
        ({
            let u = v.spec_unit_vector();
            let l = v.spec_length()@;
            magnitude(l * l * (spec_exact_dot(u, u) - SCALE * SCALE)) <= unit_tolerance(
                SCALE as int,
                l,
                magnitude(v.x@) + magnitude(v.y@) + magnitude(v.z@),
            )
        }),
{
    let unit = SCALE as int;
    let u = v.spec_unit_vector();
    let l = v.spec_length()@;
    let vsum = magnitude(v.x@) + magnitude(v.y@) + magnitude(v.z@);
    lemma_length_rounded(v);
    lemma_unit_rounded(v);
    lemma_quotients_off(unit, l, (u.x@, u.y@, u.z@), (v.x@, v.y@, v.z@));
    lemma_unit_from_quotients(
        unit,
        l,
        spec_exact_dot(u, u),
        spec_exact_dot(v, v),
        2 * unit * l * vsum + 3 * (l * l),
    );
}

/// A candidate that rejection sampling accepts is long enough to be
/// scaled to length one within the tolerance of a sampled direction.
#[verifier::rlimit(50)]
pub proof fn lemma_sample_near_unit(v: Vec3)
    requires
        spec_within(v, SCALE as int),
        v.spec_inside_unit_sphere(),
    ensures
        spec_unit_in_range(v),
        v.spec_unit_vector().spec_near_unit(),
{
    let unit = SCALE as int;
    let u = v.spec_unit_vector();
    let length = v.spec_length();
    let l = length@;
    let squared = v.spec_length_squared();
    lemma_dot_within(v, v, unit, unit, unit);
    lemma_sqrt_view(squared);
    if l < 500_000 {
        assert((l + 1) * (l + 1) <= 250_000 * unit) by (nonlinear_arith)
            requires
                0 <= l < 500_000,
                unit == 1_000_000,
        ;
        assert(squared@ * unit >= 250_000 * unit) by (nonlinear_arith)
            requires
                squared@ >= 250_000,
                unit == 1_000_000,
        ;
    }
    if l >= unit {
        assert(l * l >= unit * unit) by (nonlinear_arith)
            requires
                l >= unit,
                unit > 0,
        ;
        assert(squared@ * unit < unit * unit) by (nonlinear_arith)
            requires
                squared@ < unit,
                unit > 0,
        ;
    }
    assert(500_000 <= l < unit);
    lemma_quotient_within(v.x, length, unit, 500_000, 2 * unit);
    lemma_quotient_within(v.y, length, unit, 500_000, 2 * unit);
    lemma_quotient_within(v.z, length, unit, 500_000, 2 * unit);
    lemma_unit_vector_near_unit(v);
    let vsum = magnitude(v.x@) + magnitude(v.y@) + magnitude(v.z@);
    let off = spec_exact_dot(u, u) - unit * unit;
    assert(unit_tolerance(unit, l, vsum) <= 28_000_003 * (l * l)) by (nonlinear_arith)
        requires
            unit == 1_000_000,
            500_000 <= l < unit,
            0 <= vsum <= 3 * unit,
            unit_tolerance(unit, l, vsum) == unit * unit * (3 * unit + 2 * l) + 2 * unit * l
                * vsum + 3 * (l * l),
    ;
    assert(magnitude(off) <= 28_000_003) by (nonlinear_arith)
        requires
            magnitude(l * l * off) <= 28_000_003 * (l * l),
            l >= 500_000,
    ;
}

} // verus!

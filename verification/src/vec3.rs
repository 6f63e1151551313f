//! The three-component vector kernel.
//!
//! A `Vec3` is a triple of fixed-point scalars (see `fixed`) and stands for
//! a point, a direction or a color.  Every executable operation has an
//! exact contract over the spec-level model `m3`, a triple of unbounded
//! integers, and the spec mirrors `add_v`, `dot_v`, `unit_v` and friends.

use vstd::prelude::*;
use crate::fixed::{
    SCALE, absi, fmuls, fdivs, fsqrts, fmul, fdiv, fsqrt, lemma_isqrt_char,
    lemma_isqrt_unique, lemma_isqrt_mono, lemma_mul_bound, lemma_fmuls_bound,
    lemma_fmuls_sq_nonneg, lemma_tdiv_bound,
};
use vstd::arithmetic::div_mod::{
    lemma_div_is_ordered, lemma_div_is_ordered_by_denominator, lemma_div_multiples_vanish,
    lemma_fundamental_div_mod,
};
use crate::rng::{get_rand, get_rand_range};

verus! {

/// Raw magnitude bound under which every component of a unit vector stays.
pub const UNIT_LIM: i128 = 300_000_000;

/// Raw magnitude bound on the operands of `length` and `unit_vector`.
pub const LEN_LIM: i128 = 1_000_000_000_000_000_000;

/// Raw threshold of the near-zero test: one grid step, the finest
/// tolerance the fixed-point grid can state for a degenerate direction.
pub const NEAR_EPS: i128 = 1;

#[derive(Clone, Copy, Debug, PartialEq, Eq, Structural)]
pub struct Vec3 {
    pub x: i128,
    pub y: i128,
    pub z: i128,
}

/// The mathematical model of a vector: its raw components as integers.
pub open spec fn m3(v: Vec3) -> (int, int, int) {
    (v.x as int, v.y as int, v.z as int)
}

/// Every component within [-m, m].
pub open spec fn bounded3(v: (int, int, int), m: int) -> bool {
    -m <= v.0 <= m && -m <= v.1 <= m && -m <= v.2 <= m
}

pub open spec fn mins(a: int, b: int) -> int {
    if a < b {
        a
    } else {
        b
    }
}

pub open spec fn add_v(a: (int, int, int), b: (int, int, int)) -> (int, int, int) {
    (a.0 + b.0, a.1 + b.1, a.2 + b.2)
}

pub open spec fn sub_v(a: (int, int, int), b: (int, int, int)) -> (int, int, int) {
    (a.0 - b.0, a.1 - b.1, a.2 - b.2)
}

pub open spec fn neg_v(a: (int, int, int)) -> (int, int, int) {
    (-a.0, -a.1, -a.2)
}

/// Component-wise fixed-point product (used for colors).
pub open spec fn mul_v(a: (int, int, int), b: (int, int, int)) -> (int, int, int) {
    (fmuls(a.0, b.0), fmuls(a.1, b.1), fmuls(a.2, b.2))
}

/// Scaling by a fixed-point scalar.
pub open spec fn scale_v(a: (int, int, int), t: int) -> (int, int, int) {
    (fmuls(a.0, t), fmuls(a.1, t), fmuls(a.2, t))
}

/// Division by a fixed-point scalar.
pub open spec fn div_v(a: (int, int, int), t: int) -> (int, int, int) {
    (fdivs(a.0, t), fdivs(a.1, t), fdivs(a.2, t))
}

pub open spec fn dot_v(a: (int, int, int), b: (int, int, int)) -> int {
    fmuls(a.0, b.0) + fmuls(a.1, b.1) + fmuls(a.2, b.2)
}

pub open spec fn cross_v(a: (int, int, int), b: (int, int, int)) -> (int, int, int) {
    (
        fmuls(a.1, b.2) - fmuls(a.2, b.1),
        fmuls(a.2, b.0) - fmuls(a.0, b.2),
        fmuls(a.0, b.1) - fmuls(a.1, b.0),
    )
}

pub open spec fn len_v(a: (int, int, int)) -> int {
    fsqrts(dot_v(a, a))
}

pub open spec fn unit_v(a: (int, int, int)) -> (int, int, int) {
    div_v(a, len_v(a))
}

pub open spec fn near_zero_v(a: (int, int, int)) -> bool {
    absi(a.0) < NEAR_EPS && absi(a.1) < NEAR_EPS && absi(a.2) < NEAR_EPS
}

/// Mirror reflection about a normal: v - 2*dot(v,n)*n.
pub open spec fn reflect_v(v: (int, int, int), n: (int, int, int)) -> (int, int, int) {
    sub_v(v, scale_v(n, 2 * dot_v(v, n)))
}

/// Snell refraction of a unit direction about a normal, with the cosine
/// clamped at one to absorb fixed-point overshoot.
pub open spec fn refract_v(uv: (int, int, int), n: (int, int, int), etat: int) -> (
    int,
    int,
    int,
) {
    let cos = mins(dot_v(neg_v(uv), n), SCALE as int);
    let perp = scale_v(add_v(uv, scale_v(n, cos)), etat);
    let par = scale_v(n, -fsqrts(absi(SCALE - dot_v(perp, perp))));
    add_v(perp, par)
}

/// Discharges the requirements of `dot` for operands bounded by m and n,
/// and bounds the result.
pub proof fn lemma_dot_ok(a: (int, int, int), b: (int, int, int), m: int, n: int)
    requires
        bounded3(a, m),
        bounded3(b, n),
        0 <= m,
        0 <= n,
        m * n <= i128::MAX,
    ensures
        -i128::MAX <= a.0 * b.0 <= i128::MAX,
        -i128::MAX <= a.1 * b.1 <= i128::MAX,
        -i128::MAX <= a.2 * b.2 <= i128::MAX,
        -3 * ((m * n) / (SCALE as int)) <= dot_v(a, b) <= 3 * ((m * n) / (SCALE as int)),
{
    lemma_mul_bound(a.0, b.0, m, n);
    lemma_mul_bound(a.1, b.1, m, n);
    lemma_mul_bound(a.2, b.2, m, n);
    lemma_fmuls_bound(a.0, b.0, m, n);
    lemma_fmuls_bound(a.1, b.1, m, n);
    lemma_fmuls_bound(a.2, b.2, m, n);
}

/// A dot product with itself is never negative.
pub proof fn lemma_dot_self_nonneg(a: (int, int, int))
    ensures
        0 <= dot_v(a, a),
{
    lemma_fmuls_sq_nonneg(a.0);
    lemma_fmuls_sq_nonneg(a.1);
    lemma_fmuls_sq_nonneg(a.2);
}

/// Negating the left operand negates the dot product, and negation keeps
/// the squared length.
pub proof fn lemma_dot_neg_left(a: (int, int, int), b: (int, int, int))
    ensures
        dot_v(neg_v(a), b) == -dot_v(a, b),
        dot_v(neg_v(a), neg_v(a)) == dot_v(a, a),
{
    assert((-a.0) * b.0 == -(a.0 * b.0) && (-a.1) * b.1 == -(a.1 * b.1) && (-a.2) * b.2 == -(a.2
        * b.2)) by (nonlinear_arith);
    assert((-a.0) * (-a.0) == a.0 * a.0 && (-a.1) * (-a.1) == a.1 * a.1 && (-a.2) * (-a.2) == a.2
        * a.2) by (nonlinear_arith);
}

/// Discharges the requirements of `scale` for a bounded vector and
/// scalar, and bounds the result.
pub proof fn lemma_scale_ok(v: (int, int, int), t: int, m: int, n: int)
    requires
        bounded3(v, m),
        -n <= t <= n,
        0 <= m,
        0 <= n,
        m * n <= i128::MAX,
    ensures
        -i128::MAX <= v.0 * t <= i128::MAX,
        -i128::MAX <= v.1 * t <= i128::MAX,
        -i128::MAX <= v.2 * t <= i128::MAX,
        bounded3(scale_v(v, t), (m * n) / (SCALE as int)),
{
    lemma_mul_bound(v.0, t, m, n);
    lemma_mul_bound(v.1, t, m, n);
    lemma_mul_bound(v.2, t, m, n);
    lemma_fmuls_bound(v.0, t, m, n);
    lemma_fmuls_bound(v.1, t, m, n);
    lemma_fmuls_bound(v.2, t, m, n);
}

/// Discharges the requirements of `cross` for bounded operands, and
/// bounds the result.
pub proof fn lemma_cross_ok(a: (int, int, int), b: (int, int, int), m: int, n: int)
    requires
        bounded3(a, m),
        bounded3(b, n),
        0 <= m,
        0 <= n,
        m * n <= i128::MAX,
    ensures
        -i128::MAX <= a.0 * b.1 <= i128::MAX,
        -i128::MAX <= a.0 * b.2 <= i128::MAX,
        -i128::MAX <= a.1 * b.0 <= i128::MAX,
        -i128::MAX <= a.1 * b.2 <= i128::MAX,
        -i128::MAX <= a.2 * b.0 <= i128::MAX,
        -i128::MAX <= a.2 * b.1 <= i128::MAX,
        bounded3(cross_v(a, b), 2 * ((m * n) / (SCALE as int))),
{
    lemma_mul_bound(a.0, b.1, m, n);
    lemma_mul_bound(a.0, b.2, m, n);
    lemma_mul_bound(a.1, b.0, m, n);
    lemma_mul_bound(a.1, b.2, m, n);
    lemma_mul_bound(a.2, b.0, m, n);
    lemma_mul_bound(a.2, b.1, m, n);
    lemma_fmuls_bound(a.0, b.1, m, n);
    lemma_fmuls_bound(a.0, b.2, m, n);
    lemma_fmuls_bound(a.1, b.0, m, n);
    lemma_fmuls_bound(a.1, b.2, m, n);
    lemma_fmuls_bound(a.2, b.0, m, n);
    lemma_fmuls_bound(a.2, b.1, m, n);
}

/// The dot product over exact (untruncated) integer arithmetic, the
/// reference against which the fixed-point `dot_v` truncates.
pub open spec fn exact_dot(a: (int, int, int), b: (int, int, int)) -> int {
    a.0 * b.0 + a.1 * b.1 + a.2 * b.2
}

/// (a - b)^2 expanded.
pub proof fn lemma_expand_sq_diff(a: int, b: int)
    by (nonlinear_arith)
    ensures
        (a - b) * (a - b) == a * a - 2 * (a * b) + b * b,
{
}

/// (a + b)^2 expanded.
pub proof fn lemma_expand_sq_sum(a: int, b: int)
    by (nonlinear_arith)
    ensures
        (a + b) * (a + b) == a * a + 2 * (a * b) + b * b,
{
}

/// Products of products regrouped.
pub proof fn lemma_mul_regroup(a: int, b: int, c: int, d: int)
    by (nonlinear_arith)
    ensures
        (a * b) * (c * d) == (a * c) * (b * d),
{
}

/// A factor distributed over a three-term sum.
pub proof fn lemma_distrib3(x: int, a: int, b: int, c: int)
    by (nonlinear_arith)
    ensures
        x * (a + b + c) == x * a + x * b + x * c,
{
}

/// One factor hoisted past another.
pub proof fn lemma_mul_shuffle(a: int, b: int, c: int)
    by (nonlinear_arith)
    ensures
        a * (b * c) == b * (a * c),
{
}

/// Reflection preserves magnitude: in exact arithmetic, reflecting any
/// vector about a normal keeps its squared length up to the factor k*k
/// that the unnormalized formula k*v - 2*(v.n)*n introduces, where k is
/// the normal's squared length.  For a unit normal on the fixed-point
/// grid, k is SCALE squared and the factor is exactly the grid scaling.
pub proof fn lemma_reflect_preserves_length(v: (int, int, int), n: (int, int, int))
    ensures
        ({
            let k = exact_dot(n, n);
            let d = exact_dot(v, n);
            let w = (k * v.0 - 2 * d * n.0, k * v.1 - 2 * d * n.1, k * v.2 - 2 * d * n.2);
            exact_dot(w, w) == (k * k) * exact_dot(v, v)
        }),
{
    let k = exact_dot(n, n);
    let d = exact_dot(v, n);
    let d2 = 2 * d;
    lemma_expand_sq_diff(k * v.0, d2 * n.0);
    lemma_expand_sq_diff(k * v.1, d2 * n.1);
    lemma_expand_sq_diff(k * v.2, d2 * n.2);
    lemma_mul_regroup(k, v.0, k, v.0);
    lemma_mul_regroup(k, v.1, k, v.1);
    lemma_mul_regroup(k, v.2, k, v.2);
    lemma_mul_regroup(k, v.0, d2, n.0);
    lemma_mul_regroup(k, v.1, d2, n.1);
    lemma_mul_regroup(k, v.2, d2, n.2);
    lemma_mul_regroup(d2, n.0, d2, n.0);
    lemma_mul_regroup(d2, n.1, d2, n.1);
    lemma_mul_regroup(d2, n.2, d2, n.2);
    lemma_distrib3(k * k, v.0 * v.0, v.1 * v.1, v.2 * v.2);
    lemma_distrib3(k * d2, v.0 * n.0, v.1 * n.1, v.2 * n.2);
    lemma_distrib3(d2 * d2, n.0 * n.0, n.1 * n.1, n.2 * n.2);
    assert((d2 * d2) * k == 2 * ((k * d2) * d)) by (nonlinear_arith)
        requires
            d2 == 2 * d,
    ;
}

/// Each component of a normalized vector stays within three units: the
/// truncating arithmetic cannot blow a component of v/|v| far past one.
pub proof fn lemma_unit_comp_bound(xc: int, d: int)
    requires
        1 <= d,
        fmuls(xc, xc) <= d,
        -LEN_LIM <= xc <= LEN_LIM,
    ensures
        10_000 <= fsqrts(d),
        absi(fdivs(xc, fsqrts(d))) <= 3 * (SCALE as int),
{
    let s = SCALE as int;
    let ds = d * s;
    let l = fsqrts(d);
    assert(10_000int * 10_000int == 100_000_000int && 10_001int * 10_001int == 100_020_001int)
        by (nonlinear_arith);
    lemma_isqrt_unique(100_000_000 as nat, 10_000 as nat);
    lemma_isqrt_mono(100_000_000 as nat, ds as nat);
    lemma_isqrt_char(ds as nat);
    let ax = absi(xc);
    assert(0 <= xc * xc) by (nonlinear_arith);
    assert(fmuls(xc, xc) == (xc * xc) / s);
    lemma_fundamental_div_mod(xc * xc, s);
    assert(ds > xc * xc - s);
    if ax <= 20_000 {
        lemma_tdiv_bound(xc * s, l, 20_000 * s);
        assert(absi(fdivs(xc, l)) == absi(xc * s) / l);
        lemma_div_is_ordered(absi(xc * s), 20_000 * s, l);
        lemma_div_is_ordered_by_denominator(20_000 * s, 10_000, l);
        assert(absi(fdivs(xc, l)) <= 3 * s);
    } else {
        if ax > 3 * l {
            let xx = xc * xc;
            assert(xx >= (3 * l + 1) * (3 * l + 1)) by (nonlinear_arith)
                requires
                    xx == xc * xc && (xc == ax || xc == -ax) && ax >= 3 * l + 1 && l >= 0,
            ;
            assert(false) by (nonlinear_arith)
                requires
                    xx >= (3 * l + 1) * (3 * l + 1) && ds > xx - 100_000_000 && ds < (l + 1) * (l
                        + 1) && l >= 10_000,
            ;
        }
        assert(ax <= 3 * l);
        lemma_tdiv_bound(xc * s, l, ax * s);
        assert(absi(fdivs(xc, l)) == absi(xc * s) / l);
        assert(absi(xc * s) <= l * (3 * s)) by (nonlinear_arith)
            requires
                absi(xc * s) == ax * s && ax <= 3 * l && s == 100_000_000,
        ;
        lemma_div_is_ordered(absi(xc * s), l * (3 * s), l);
        lemma_div_multiples_vanish(3 * s, l);
        assert(absi(fdivs(xc, l)) <= 3 * s);
    }
}

/// The fixed fallback point of the bounded rejection samplers lies well
/// inside the unit sphere.
proof fn lemma_fallback_point()
    ensures
        fmuls(50_000_000, 50_000_000) == 25_000_000,
        fmuls(0, 0) == 0,
{
    assert(50_000_000int * 50_000_000int == 2_500_000_000_000_000int) by (nonlinear_arith);
    assert(2_500_000_000_000_000int / 100_000_000int == 25_000_000int) by (nonlinear_arith);
    assert(0int * 0int == 0int) by (nonlinear_arith);
}

impl Vec3 {
    pub fn new(x: i128, y: i128, z: i128) -> (r: Vec3)
        ensures
            r.x == x && r.y == y && r.z == z,
    {
        Vec3 { x, y, z }
    }

    pub fn zero() -> (r: Vec3)
        ensures
            m3(r) == (0int, 0int, 0int),
    {
        Vec3 { x: 0, y: 0, z: 0 }
    }

    pub fn add(self, o: Vec3) -> (r: Vec3)
        requires
            -i128::MAX <= self.x + o.x <= i128::MAX,
            -i128::MAX <= self.y + o.y <= i128::MAX,
            -i128::MAX <= self.z + o.z <= i128::MAX,
        ensures
            m3(r) == add_v(m3(self), m3(o)),
    {
        Vec3 { x: self.x + o.x, y: self.y + o.y, z: self.z + o.z }
    }

    pub fn sub(self, o: Vec3) -> (r: Vec3)
        requires
            -i128::MAX <= self.x - o.x <= i128::MAX,
            -i128::MAX <= self.y - o.y <= i128::MAX,
            -i128::MAX <= self.z - o.z <= i128::MAX,
        ensures
            m3(r) == sub_v(m3(self), m3(o)),
    {
        Vec3 { x: self.x - o.x, y: self.y - o.y, z: self.z - o.z }
    }

    pub fn neg(self) -> (r: Vec3)
        requires
            -i128::MAX <= self.x,
            -i128::MAX <= self.y,
            -i128::MAX <= self.z,
        ensures
            m3(r) == neg_v(m3(self)),
    {
        Vec3 { x: -self.x, y: -self.y, z: -self.z }
    }

    /// Component-wise product, the color attenuation operator.
    pub fn mul(self, o: Vec3) -> (r: Vec3)
        requires
            -i128::MAX <= self.x * o.x <= i128::MAX,
            -i128::MAX <= self.y * o.y <= i128::MAX,
            -i128::MAX <= self.z * o.z <= i128::MAX,
        ensures
            m3(r) == mul_v(m3(self), m3(o)),
    {
        Vec3 { x: fmul(self.x, o.x), y: fmul(self.y, o.y), z: fmul(self.z, o.z) }
    }

    pub fn scale(self, t: i128) -> (r: Vec3)
        requires
            -i128::MAX <= self.x * t <= i128::MAX,
            -i128::MAX <= self.y * t <= i128::MAX,
            -i128::MAX <= self.z * t <= i128::MAX,
        ensures
            m3(r) == scale_v(m3(self), t as int),
    {
        Vec3 { x: fmul(self.x, t), y: fmul(self.y, t), z: fmul(self.z, t) }
    }

    pub fn divide(self, t: i128) -> (r: Vec3)
        requires
            t != 0,
            t > i128::MIN,
            -((i128::MAX as int) / (SCALE as int)) <= self.x <= (i128::MAX as int) / (
            SCALE as int),
            -((i128::MAX as int) / (SCALE as int)) <= self.y <= (i128::MAX as int) / (
            SCALE as int),
            -((i128::MAX as int) / (SCALE as int)) <= self.z <= (i128::MAX as int) / (
            SCALE as int),
        ensures
            m3(r) == div_v(m3(self), t as int),
            absi(r.x as int) <= absi(self.x as int) * (SCALE as int),
            absi(r.y as int) <= absi(self.y as int) * (SCALE as int),
            absi(r.z as int) <= absi(self.z as int) * (SCALE as int),
    {
        Vec3 { x: fdiv(self.x, t), y: fdiv(self.y, t), z: fdiv(self.z, t) }
    }

    pub fn dot(self, o: Vec3) -> (r: i128)
        requires
            -i128::MAX <= self.x * o.x <= i128::MAX,
            -i128::MAX <= self.y * o.y <= i128::MAX,
            -i128::MAX <= self.z * o.z <= i128::MAX,
        ensures
            r == dot_v(m3(self), m3(o)),
    {
        let t1: i128 = fmul(self.x, o.x);
        let t2: i128 = fmul(self.y, o.y);
        let t3: i128 = fmul(self.z, o.z);
        t1 + t2 + t3
    }

    pub fn cross(self, o: Vec3) -> (r: Vec3)
        requires
            -i128::MAX <= self.x * o.y <= i128::MAX,
            -i128::MAX <= self.x * o.z <= i128::MAX,
            -i128::MAX <= self.y * o.x <= i128::MAX,
            -i128::MAX <= self.y * o.z <= i128::MAX,
            -i128::MAX <= self.z * o.x <= i128::MAX,
            -i128::MAX <= self.z * o.y <= i128::MAX,
        ensures
            m3(r) == cross_v(m3(self), m3(o)),
    {
        Vec3 {
            x: fmul(self.y, o.z) - fmul(self.z, o.y),
            y: fmul(self.z, o.x) - fmul(self.x, o.z),
            z: fmul(self.x, o.y) - fmul(self.y, o.x),
        }
    }

    pub fn length_squared(self) -> (r: i128)
        requires
            -i128::MAX <= self.x * self.x <= i128::MAX,
            -i128::MAX <= self.y * self.y <= i128::MAX,
            -i128::MAX <= self.z * self.z <= i128::MAX,
        ensures
            r == dot_v(m3(self), m3(self)),
            0 <= r,
    {
        proof {
            lemma_dot_self_nonneg(m3(self));
        }
        self.dot(self)
    }

    pub fn length(self) -> (r: i128)
        requires
            bounded3(m3(self), LEN_LIM as int),
        ensures
            r == len_v(m3(self)),
            0 <= r,
    {
        proof {
            lemma_dot_ok(m3(self), m3(self), LEN_LIM as int, LEN_LIM as int);
            lemma_dot_self_nonneg(m3(self));
        }
        let ls: i128 = self.length_squared();
        fsqrt(ls)
    }

    pub fn unit_vector(self) -> (r: Vec3)
        requires
            bounded3(m3(self), LEN_LIM as int),
            1 <= dot_v(m3(self), m3(self)),
        ensures
            m3(r) == unit_v(m3(self)),
            bounded3(m3(r), UNIT_LIM as int),
    {
        let l: i128 = self.length();
        proof {
            let d = dot_v(m3(self), m3(self));
            lemma_fmuls_sq_nonneg(self.x as int);
            lemma_fmuls_sq_nonneg(self.y as int);
            lemma_fmuls_sq_nonneg(self.z as int);
            lemma_unit_comp_bound(self.x as int, d);
            lemma_unit_comp_bound(self.y as int, d);
            lemma_unit_comp_bound(self.z as int, d);
        }
        self.divide(l)
    }

    /// True when every component is below the degeneracy threshold in
    /// magnitude.
    pub fn is_near_zero(self) -> (r: bool)
        ensures
            r == near_zero_v(m3(self)),
    {
        self.x > -NEAR_EPS && self.x < NEAR_EPS && self.y > -NEAR_EPS && self.y < NEAR_EPS
            && self.z > -NEAR_EPS && self.z < NEAR_EPS
    }

    /// Mirror reflection about the normal n.
    pub fn reflect(self, n: Vec3) -> (r: Vec3)
        requires
            bounded3(m3(self), 1_000_000_000),
            bounded3(m3(n), 1_000_000_000),
        ensures
            m3(r) == reflect_v(m3(self), m3(n)),
            bounded3(m3(r), 700_000_000_000),
    {
        proof {
            lemma_dot_ok(m3(self), m3(n), 1_000_000_000, 1_000_000_000);
        }
        let d: i128 = self.dot(n);
        let t: i128 = 2 * d;
        proof {
            lemma_mul_bound(n.x as int, t as int, 1_000_000_000, 60_000_000_000);
            lemma_mul_bound(n.y as int, t as int, 1_000_000_000, 60_000_000_000);
            lemma_mul_bound(n.z as int, t as int, 1_000_000_000, 60_000_000_000);
            lemma_fmuls_bound(n.x as int, t as int, 1_000_000_000, 60_000_000_000);
            lemma_fmuls_bound(n.y as int, t as int, 1_000_000_000, 60_000_000_000);
            lemma_fmuls_bound(n.z as int, t as int, 1_000_000_000, 60_000_000_000);
        }
        self.sub(n.scale(t))
    }

    /// Snell refraction; mirrors the spec function `refract_v`.
    pub fn refract(self, n: Vec3, etai_over_etat: i128) -> (r: Vec3)
        requires
            bounded3(m3(self), 400_000_000),
            bounded3(m3(n), 400_000_000),
            0 <= etai_over_etat <= 10_000_000_000_000_000,
        ensures
            m3(r) == refract_v(m3(self), m3(n), etai_over_etat as int),
            bounded3(m3(r), 100_000_000_000_000_000_000),
    {
        proof {
            lemma_dot_ok(neg_v(m3(self)), m3(n), 400_000_000, 400_000_000);
            lemma_dot_neg_left(m3(self), m3(n));
        }
        let d: i128 = self.neg().dot(n);
        let cos: i128 = if d > SCALE {
            SCALE
        } else {
            d
        };
        proof {
            lemma_mul_bound(n.x as int, cos as int, 400_000_000, 4_800_000_000);
            lemma_mul_bound(n.y as int, cos as int, 400_000_000, 4_800_000_000);
            lemma_mul_bound(n.z as int, cos as int, 400_000_000, 4_800_000_000);
            lemma_fmuls_bound(n.x as int, cos as int, 400_000_000, 4_800_000_000);
            lemma_fmuls_bound(n.y as int, cos as int, 400_000_000, 4_800_000_000);
            lemma_fmuls_bound(n.z as int, cos as int, 400_000_000, 4_800_000_000);
        }
        let inner: Vec3 = self.add(n.scale(cos));
        proof {
            lemma_mul_bound(inner.x as int, etai_over_etat as int, 19_600_000_000,
                10_000_000_000_000_000);
            lemma_mul_bound(inner.y as int, etai_over_etat as int, 19_600_000_000,
                10_000_000_000_000_000);
            lemma_mul_bound(inner.z as int, etai_over_etat as int, 19_600_000_000,
                10_000_000_000_000_000);
            lemma_fmuls_bound(inner.x as int, etai_over_etat as int, 19_600_000_000,
                10_000_000_000_000_000);
            lemma_fmuls_bound(inner.y as int, etai_over_etat as int, 19_600_000_000,
                10_000_000_000_000_000);
            lemma_fmuls_bound(inner.z as int, etai_over_etat as int, 19_600_000_000,
                10_000_000_000_000_000);
        }
        let perp: Vec3 = inner.scale(etai_over_etat);
        proof {
            lemma_dot_ok(m3(perp), m3(perp), 1_960_000_000_000_000_000, 1_960_000_000_000_000_000);
            lemma_dot_self_nonneg(m3(perp));
        }
        let pls: i128 = perp.length_squared();
        let rest: i128 = SCALE - pls;
        let arest: i128 = if rest < 0 {
            -rest
        } else {
            rest
        };
        let sq: i128 = fsqrt(arest);
        proof {
            lemma_mul_bound(n.x as int, -sq as int, 400_000_000, 18_446_744_073_709_551_616);
            lemma_mul_bound(n.y as int, -sq as int, 400_000_000, 18_446_744_073_709_551_616);
            lemma_mul_bound(n.z as int, -sq as int, 400_000_000, 18_446_744_073_709_551_616);
            lemma_fmuls_bound(n.x as int, -sq as int, 400_000_000, 18_446_744_073_709_551_616);
            lemma_fmuls_bound(n.y as int, -sq as int, 400_000_000, 18_446_744_073_709_551_616);
            lemma_fmuls_bound(n.z as int, -sq as int, 400_000_000, 18_446_744_073_709_551_616);
        }
        let par: Vec3 = n.scale(-sq);
        perp.add(par)
    }

    /// A vector with components drawn uniformly from [0, 1).
    pub fn random(rng: &mut rand::rngs::StdRng) -> (r: Vec3)
        ensures
            0 <= r.x < SCALE && 0 <= r.y < SCALE && 0 <= r.z < SCALE,
            bounded3(m3(r), SCALE as int),
    {
        let x: i128 = get_rand(rng);
        let y: i128 = get_rand(rng);
        let z: i128 = get_rand(rng);
        Vec3 { x, y, z }
    }

    /// A vector with components drawn uniformly from [min, max).
    pub fn random_range(rng: &mut rand::rngs::StdRng, min: i128, max: i128) -> (r: Vec3)
        requires
            min < max,
            (max as int) - (min as int) <= (i128::MAX as int) / (SCALE as int),
        ensures
            min <= r.x < max && min <= r.y < max && min <= r.z < max,
    {
        let x: i128 = get_rand_range(rng, min, max);
        let y: i128 = get_rand_range(rng, min, max);
        let z: i128 = get_rand_range(rng, min, max);
        Vec3 { x, y, z }
    }

    /// Rejection sampling: a point strictly inside the unit sphere.  The
    /// retry budget keeps the sampler total; the chance of exhausting it is
    /// negligible (each cube sample lands in the sphere with probability
    /// about one half), and the fallback is a fixed interior point.
    pub fn random_in_unit_sphere(rng: &mut rand::rngs::StdRng) -> (r: Vec3)
        ensures
            bounded3(m3(r), SCALE as int),
            dot_v(m3(r), m3(r)) < SCALE,
    {
        let mut tries: u32 = 0;
        while tries < 10_000
            decreases 10_000 - tries,
        {
            let p: Vec3 = Vec3::random_range(rng, -SCALE, SCALE);
            proof {
                lemma_dot_ok(m3(p), m3(p), SCALE as int, SCALE as int);
            }
            let ls: i128 = p.length_squared();
            if ls < SCALE {
                return p;
            }
            tries = tries + 1;
        }
        let f: Vec3 = Vec3 { x: 50_000_000, y: 0, z: 0 };
        proof {
            lemma_fallback_point();
        }
        f
    }

    /// A normalized rejection-sampled direction.  The rare draw whose
    /// squared length truncates to zero is rejected as well, so the
    /// normalization never divides by zero.
    pub fn random_unit_vector(rng: &mut rand::rngs::StdRng) -> (r: Vec3)
        ensures
            bounded3(m3(r), UNIT_LIM as int),
            exists|w: Vec3|
                bounded3(m3(w), SCALE as int) && 1 <= dot_v(m3(w), m3(w)) < SCALE && m3(r)
                    == #[trigger] unit_v(m3(w)),
    {
        let mut tries: u32 = 0;
        while tries < 10_000
            decreases 10_000 - tries,
        {
            let p: Vec3 = Vec3::random_in_unit_sphere(rng);
            proof {
                lemma_dot_ok(m3(p), m3(p), SCALE as int, SCALE as int);
            }
            let ls: i128 = p.length_squared();
            if ls >= 1 {
                return p.unit_vector();
            }
            tries = tries + 1;
        }
        let f: Vec3 = Vec3 { x: 50_000_000, y: 0, z: 0 };
        proof {
            lemma_fallback_point();
        }
        f.unit_vector()
    }

    /// Rejection sampling in two dimensions: a point strictly inside the
    /// unit disk of the xy-plane, used for lens sampling.
    pub fn random_in_unit_disk(rng: &mut rand::rngs::StdRng) -> (r: Vec3)
        ensures
            bounded3(m3(r), SCALE as int),
            dot_v(m3(r), m3(r)) < SCALE,
            r.z == 0,
    {
        let mut tries: u32 = 0;
        while tries < 10_000
            decreases 10_000 - tries,
        {
            let p: Vec3 = Vec3 {
                x: get_rand_range(rng, -SCALE, SCALE),
                y: get_rand_range(rng, -SCALE, SCALE),
                z: 0,
            };
            proof {
                lemma_dot_ok(m3(p), m3(p), SCALE as int, SCALE as int);
            }
            let ls: i128 = p.length_squared();
            if ls < SCALE {
                return p;
            }
            tries = tries + 1;
        }
        let f: Vec3 = Vec3 { x: 50_000_000, y: 0, z: 0 };
        proof {
            lemma_fallback_point();
        }
        f
    }

    /// A unit-sphere sample flipped into the hemisphere of the normal.
    pub fn random_in_hemisphere(rng: &mut rand::rngs::StdRng, normal: Vec3) -> (r: Vec3)
        requires
            bounded3(m3(normal), 400_000_000),
        ensures
            bounded3(m3(r), SCALE as int),
            dot_v(m3(r), m3(r)) < SCALE,
            dot_v(m3(r), m3(normal)) >= 0,
    {
        let s: Vec3 = Vec3::random_in_unit_sphere(rng);
        proof {
            lemma_dot_ok(m3(s), m3(normal), SCALE as int, 400_000_000);
        }
        let d: i128 = s.dot(normal);
        if d > 0 {
            s
        } else {
            proof {
                lemma_dot_neg_left(m3(s), m3(normal));
            }
            s.neg()
        }
    }
}

} // verus!

//! Fixed-point scalar arithmetic.
//!
//! Every scalar quantity of the renderer (coordinates, colors, ray
//! parameters, indices of refraction) is a fixed-point number: the raw
//! representation of a value `v` is the integer `v * SCALE`, stored in an
//! `i128`.  All operations truncate toward zero, and each executable
//! operation carries an exact contract over the spec-level mirror functions
//! `tdiv`, `fmuls`, `fdivs` and `fsqrts`.

use vstd::prelude::*;
use vstd::arithmetic::div_mod::{
    lemma_div_is_ordered, lemma_div_nonincreasing, lemma_div_pos_is_pos,
    lemma_fundamental_div_mod, lemma_div_multiples_vanish,
};

verus! {

/// Raw integer steps per unit of value: raw = value * SCALE.
pub const SCALE: i128 = 100_000_000;

/// Raw magnitude bound on scene coordinates, radii, ray directions and ray
/// parameters (ten thousand units): the working range within which every
/// intermediate of the intersection arithmetic fits an `i128`.
pub const VLIM: i128 = 1_000_000_000_000;

/// Raw magnitude bound on ray origins (one hundred thousand units); wider
/// than `VLIM` because bounced rays start at hit points.
pub const OLIM: i128 = 10_000_000_000_000;

/// Magnitude of a signed quantity.
pub open spec fn absi(a: int) -> int {
    if a < 0 {
        -a
    } else {
        a
    }
}

/// Division truncating toward zero, the behaviour of hardware division.
/// (The spec-level `/` on `int` is Euclidean, which differs for negative
/// operands, so the truncating form is spelled out over magnitudes.)
pub open spec fn tdiv(a: int, b: int) -> int {
    if (a < 0) == (b < 0) {
        absi(a) / absi(b)
    } else {
        -(absi(a) / absi(b))
    }
}

/// Fixed-point product: the raw form of `value(a) * value(b)`.
pub open spec fn fmuls(a: int, b: int) -> int {
    tdiv(a * b, SCALE as int)
}

/// Fixed-point quotient: the raw form of `value(a) / value(b)`.
pub open spec fn fdivs(a: int, b: int) -> int {
    tdiv(a * SCALE, b)
}

/// Floor of the real square root of a natural number.
pub open spec fn isqrt_n(n: nat) -> nat
    decreases n,
{
    if n == 0 {
        0
    } else {
        let p = isqrt_n((n - 1) as nat);
        if (p + 1) * (p + 1) <= n {
            (p + 1) as nat
        } else {
            p
        }
    }
}

/// Fixed-point square root of a non-negative raw value:
/// `value(fsqrts(x)) = floor_to_grid(sqrt(value(x)))`.
pub open spec fn fsqrts(x: int) -> int {
    isqrt_n((x * SCALE) as nat) as int
}

/// Clamping to a closed interval.
pub open spec fn clamps(v: int, lo: int, hi: int) -> int {
    if v < lo {
        lo
    } else if v > hi {
        hi
    } else {
        v
    }
}

pub proof fn lemma_isqrt_char(n: nat)
    ensures
        isqrt_n(n) * isqrt_n(n) <= n < (isqrt_n(n) + 1) * (isqrt_n(n) + 1),
    decreases n,
{
    if n == 0 {
        let q = isqrt_n(n);
        assert(q == 0);
        assert(n < (q + 1) * (q + 1)) by (nonlinear_arith)
            requires
                n == 0 && q == 0,
        ;
        assert(q * q <= n) by (nonlinear_arith)
            requires
                n == 0 && q == 0,
        ;
    } else {
        lemma_isqrt_char((n - 1) as nat);
        let p = isqrt_n((n - 1) as nat);
        let q = isqrt_n(n);
        if (p + 1) * (p + 1) <= n {
            assert(q == p + 1);
            assert(q * q <= n) by (nonlinear_arith)
                requires
                    q == p + 1 && (p + 1) * (p + 1) <= n,
            ;
            assert(n < (q + 1) * (q + 1)) by (nonlinear_arith)
                requires
                    q == p + 1 && n <= (p + 1) * (p + 1),
            ;
        } else {
            assert(q == p);
            assert(q * q <= n) by (nonlinear_arith)
                requires
                    q == p && p * p <= n - 1,
            ;
            assert(n < (q + 1) * (q + 1)) by (nonlinear_arith)
                requires
                    q == p && n < (p + 1) * (p + 1),
            ;
        }
    }
}

pub proof fn lemma_isqrt_unique(n: nat, r: nat)
    requires
        r * r <= n < (r + 1) * (r + 1),
    ensures
        r == isqrt_n(n),
{
    lemma_isqrt_char(n);
    let q = isqrt_n(n);
    if r < q {
        assert((r + 1) * (r + 1) <= q * q) by (nonlinear_arith)
            requires
                r + 1 <= q,
        ;
        assert(false);
    }
    if q < r {
        assert((q + 1) * (q + 1) <= r * r) by (nonlinear_arith)
            requires
                q + 1 <= r,
        ;
        assert(false);
    }
}

pub proof fn lemma_isqrt_mono(m: nat, n: nat)
    requires
        m <= n,
    ensures
        isqrt_n(m) <= isqrt_n(n),
{
    lemma_isqrt_char(m);
    lemma_isqrt_char(n);
    let a = isqrt_n(m);
    let b = isqrt_n(n);
    if b < a {
        assert((b + 1) * (b + 1) <= a * a) by (nonlinear_arith)
            requires
                b + 1 <= a,
        ;
        assert(false);
    }
}

/// The truncating quotient keeps the magnitude bound of the dividend.
pub proof fn lemma_tdiv_bound(a: int, b: int, m: int)
    requires
        1 <= b,
        -m <= a <= m,
        0 <= m,
    ensures
        -m <= tdiv(a, b) <= m,
        absi(tdiv(a, b)) == absi(a) / b,
{
    lemma_div_pos_is_pos(absi(a), b);
    lemma_div_nonincreasing(absi(a), b);
}

/// Truncating division by a positive divisor is monotone in the dividend.
pub proof fn lemma_tdiv_mono(x: int, y: int, b: int)
    requires
        x <= y,
        1 <= b,
    ensures
        tdiv(x, b) <= tdiv(y, b),
{
    if 0 <= x {
        lemma_div_is_ordered(x, y, b);
    } else if y < 0 {
        lemma_div_is_ordered(-y, -x, b);
    } else {
        lemma_div_pos_is_pos(-x, b);
        lemma_div_pos_is_pos(y, b);
    }
}

/// Bound on a product of bounded factors.
pub proof fn lemma_mul_bound(a: int, b: int, m: int, n: int)
    by (nonlinear_arith)
    requires
        -m <= a <= m,
        -n <= b <= n,
    ensures
        -(m * n) <= a * b <= m * n,
{
}

/// Bound on a fixed-point product of bounded factors.
pub proof fn lemma_fmuls_bound(a: int, b: int, m: int, n: int)
    requires
        -m <= a <= m,
        -n <= b <= n,
        0 <= m,
        0 <= n,
    ensures
        -((m * n) / SCALE as int) <= fmuls(a, b) <= (m * n) / SCALE as int,
{
    lemma_mul_bound(a, b, m, n);
    lemma_tdiv_bound(a * b, SCALE as int, m * n);
    lemma_div_is_ordered(absi(a * b), m * n, SCALE as int);
}

/// A fixed-point factor in [0, 1] contracts: the product keeps the other
/// factor's magnitude bound.
pub proof fn lemma_fmuls_contract(a: int, b: int, n: int)
    requires
        0 <= a <= SCALE,
        -n <= b <= n,
        0 <= n,
    ensures
        -n <= fmuls(a, b) <= n,
{
    lemma_mul_bound(a, b, SCALE as int, n);
    lemma_tdiv_bound(a * b, SCALE as int, SCALE as int * n);
    lemma_div_is_ordered(absi(a * b), SCALE as int * n, SCALE as int);
    lemma_div_multiples_vanish(n, SCALE as int);
}

/// A fixed-point square is never negative.
pub proof fn lemma_fmuls_sq_nonneg(a: int)
    ensures
        0 <= fmuls(a, a),
        0 <= a * a,
{
    assert(0 <= a * a) by (nonlinear_arith);
    lemma_div_pos_is_pos(a * a, SCALE as int);
}

/// A fixed-point product of non-negative factors is non-negative.
pub proof fn lemma_fmuls_nonneg(a: int, b: int)
    requires
        0 <= a,
        0 <= b,
    ensures
        0 <= fmuls(a, b),
{
    assert(0 <= a * b) by (nonlinear_arith)
        requires
            0 <= a && 0 <= b,
    ;
    lemma_div_pos_is_pos(a * b, SCALE as int);
}

/// A fixed-point product with an exact one (the raw SCALE) is the other
/// factor unchanged.
pub proof fn lemma_fmuls_scale(a: int)
    ensures
        fmuls(a, SCALE as int) == a,
        fmuls(SCALE as int, a) == a,
{
    lemma_div_multiples_vanish(absi(a), SCALE as int);
    assert(a * SCALE as int == SCALE as int * absi(a) || a * SCALE as int == -(SCALE as int * absi(
    a)));
    assert(SCALE as int * a == a * SCALE as int);
}

/// The fixed-point product is monotone over non-negative factors.
pub proof fn lemma_fmuls_mono_nonneg(a: int, b: int, c: int, d: int)
    requires
        0 <= a <= b,
        0 <= c <= d,
    ensures
        fmuls(a, c) <= fmuls(b, d),
{
    assert(a * c <= b * d) by (nonlinear_arith)
        requires
            0 <= a <= b && 0 <= c <= d,
    ;
    assert(0 <= a * c) by (nonlinear_arith)
        requires
            0 <= a && 0 <= c,
    ;
    lemma_tdiv_mono(a * c, b * d, SCALE as int);
}

fn abs_u(a: i128) -> (r: u128)
    requires
        a > i128::MIN,
    ensures
        r == absi(a as int),
{
    if a < 0 {
        (-a) as u128
    } else {
        a as u128
    }
}

/// Truncating division on machine integers.
pub fn tdiv_exec(a: i128, b: i128) -> (r: i128)
    requires
        b != 0,
        a > i128::MIN,
        b > i128::MIN,
    ensures
        r == tdiv(a as int, b as int),
{
    let na: u128 = abs_u(a);
    let nb: u128 = abs_u(b);
    let q: u128 = na / nb;
    proof {
        lemma_div_pos_is_pos(na as int, nb as int);
        lemma_div_nonincreasing(na as int, nb as int);
    }
    if (a < 0) == (b < 0) {
        q as i128
    } else {
        -(q as i128)
    }
}

/// Fixed-point multiplication; exact with respect to `fmuls`.
pub fn fmul(a: i128, b: i128) -> (r: i128)
    requires
        -i128::MAX <= (a as int) * (b as int) <= i128::MAX,
    ensures
        r == fmuls(a as int, b as int),
        -((i128::MAX as int) / (SCALE as int)) <= r <= (i128::MAX as int) / (SCALE as int),
{
    let p: i128 = a * b;
    let r = tdiv_exec(p, SCALE);
    proof {
        lemma_tdiv_bound(p as int, SCALE as int, i128::MAX as int);
        lemma_div_is_ordered(absi(p as int), i128::MAX as int, SCALE as int);
    }
    r
}

/// Fixed-point division; exact with respect to `fdivs`.
pub fn fdiv(a: i128, b: i128) -> (r: i128)
    requires
        b != 0,
        b > i128::MIN,
        -((i128::MAX as int) / (SCALE as int)) <= a <= (i128::MAX as int) / (SCALE as int),
    ensures
        r == fdivs(a as int, b as int),
        absi(r as int) <= absi(a as int) * SCALE as int,
{
    proof {
        lemma_mul_bound(a as int, SCALE as int, i128::MAX as int / SCALE as int, SCALE as int);
        assert((i128::MAX as int / SCALE as int) * SCALE as int <= i128::MAX as int) by {
            lemma_fundamental_div_mod(i128::MAX as int, SCALE as int);
        };
    }
    let p: i128 = a * SCALE;
    let r = tdiv_exec(p, b);
    proof {
        lemma_tdiv_bound(p as int, absi(b as int), absi(p as int));
        if ((p as int) < 0) == ((b as int) < 0) {
            assert(r == absi(p as int) / absi(b as int));
        }
        lemma_div_nonincreasing(absi(p as int), absi(b as int));
        assert(absi(p as int) == absi(a as int) * SCALE as int) by (nonlinear_arith)
            requires
                p == a as int * SCALE as int,
        ;
    }
    r
}

fn isqrt_u(x: u128) -> (r: u128)
    ensures
        r == isqrt_n(x as nat),
        r < 18_446_744_073_709_551_616,
{
    let mut lo: u128 = 0;
    let mut hi: u128 = 18_446_744_073_709_551_616;
    while lo + 1 < hi
        invariant
            lo < hi <= 18_446_744_073_709_551_616,
            (lo as int) * (lo as int) <= x as int,
            (x as int) < (hi as int) * (hi as int),
        decreases hi - lo,
    {
        let mid: u128 = lo + (hi - lo) / 2;
        proof {
            assert(lo < mid < hi);
            assert((mid as int) * (mid as int) <= u128::MAX as int) by (nonlinear_arith)
                requires
                    0 <= mid as int <= 18_446_744_073_709_551_615,
            ;
        }
        if mid * mid <= x {
            lo = mid;
        } else {
            hi = mid;
        }
    }
    proof {
        lemma_isqrt_unique(x as nat, lo as nat);
    }
    lo
}

/// Fixed-point square root; exact with respect to `fsqrts`.
pub fn fsqrt(x: i128) -> (r: i128)
    requires
        0 <= x,
        (x as int) * (SCALE as int) <= i128::MAX,
    ensures
        r == fsqrts(x as int),
        0 <= r < 18_446_744_073_709_551_616,
{
    let p: i128 = x * SCALE;
    let r = isqrt_u(p as u128);
    r as i128
}

/// Clamp a raw value to a closed interval; exact with respect to `clamps`.
pub fn clamp(v: i128, lo: i128, hi: i128) -> (r: i128)
    ensures
        r == clamps(v as int, lo as int, hi as int),
{
    if v < lo {
        lo
    } else if v > hi {
        hi
    } else {
        v
    }
}

} // verus!

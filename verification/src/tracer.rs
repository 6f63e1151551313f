//! The recursive integrator: geometry, material and recursion depth tied
//! together into a pixel radiance.
//!
//! Totality policy: fixed-point intermediates must stay within the
//! working range, so the integrator checks its ray and each hit record at
//! run time and treats an out-of-range value as an absorbed ray (black),
//! the same policy the scattering model applies to degenerate directions.
//! The contract of `ray_color` states that policy: which inputs give
//! black, which give the background gradient, and, on a hit, how the
//! result is the material's attenuation applied to a bounced radiance.

use vstd::prelude::*;
use crate::fixed::{SCALE, OLIM, fmuls, clamps, lemma_mul_bound, lemma_fmuls_bound,
    lemma_fmuls_contract, lemma_fmuls_nonneg, lemma_fmuls_scale};
use vstd::arithmetic::div_mod::{lemma_fundamental_div_mod, lemma_mod_division_less_than_divisor,
    lemma_div_is_ordered, lemma_div_multiples_vanish};
use crate::vec3::{Vec3, m3, bounded3, mul_v, unit_v, near_zero_v, lemma_scale_ok};
use crate::ray::{Ray, at_v};
use crate::hittable::{HittableList, HitRecord, ray_ok, ray_ok_s, list_hit_s, rec_normal_s,
    sphere_outward_s};
use crate::material::{Material, NORM_LIM};

verus! {

/// Raw lower edge of the hit window: 0.0001, skipping self-intersections
/// at the surface ("shadow acne").
pub const T_MIN_HIT: i128 = 10_000;

/// Raw upper edge of the hit window, the far clip standing in for an
/// unbounded reach.
pub const T_MAX_HIT: i128 = 1_000_000_000_000;

/// Raw upper bound on every channel of a returned radiance: one.  Every
/// color the integrator returns lies in [0, 1] per channel.
pub const COLOR_LIM: i128 = 100_000_000;

/// The background gradient: white blended toward sky blue by the
/// normalized direction's height.  The blend parameter is clamped into
/// [0, 1]: a true unit direction keeps it there on its own, and the clamp
/// stops the overshoot of a barely-normalizable direction from pushing a
/// channel past one.
pub open spec fn background_s(r: Ray) -> (int, int, int) {
    let u = unit_v(m3(r.direction));
    let t = clamps(fmuls(50_000_000, u.1 + SCALE), 0, SCALE as int);
    (
        fmuls(SCALE - t, SCALE as int) + fmuls(t, 50_000_000),
        fmuls(SCALE - t, SCALE as int) + fmuls(t, 70_000_000),
        fmuls(SCALE - t, SCALE as int) + fmuls(t, SCALE as int),
    )
}

/// The hit record the integrator hands on to a material: normal and point
/// within range and a normal that is not degenerate, stated over the
/// record's defining formulas (sphere s, ray r, root t).
pub open spec fn guard_ok_s(s: crate::hittable::Sphere, r: Ray, t: int) -> bool {
    let nrm = rec_normal_s(r, sphere_outward_s(s, r, t));
    &&& bounded3(nrm, NORM_LIM as int)
    &&& bounded3(at_v(r, t), OLIM as int)
    &&& !near_zero_v(nrm)
}

/// An attenuated radiance: some non-negative bounced color, channel-wise
/// multiplied by the given attenuation.
pub open spec fn attenuated_s(c: (int, int, int), albedo: (int, int, int)) -> bool {
    exists|b: (int, int, int)|
        {
            &&& 0 <= b.0 && 0 <= b.1 && 0 <= b.2
            &&& bounded3(b, COLOR_LIM as int)
            &&& c == #[trigger] mul_v(albedo, b)
        }
}

/// Each blended background channel lies in [0, 1], for any blend
/// parameter in [0, 1].
proof fn lemma_blend_range(t: int)
    requires
        0 <= t <= SCALE,
    ensures
        0 <= fmuls(SCALE as int - t, SCALE as int) + fmuls(t, 50_000_000) <= COLOR_LIM,
        0 <= fmuls(SCALE as int - t, SCALE as int) + fmuls(t, 70_000_000) <= COLOR_LIM,
        0 <= fmuls(SCALE as int - t, SCALE as int) + fmuls(t, SCALE as int) <= COLOR_LIM,
{
    let s = SCALE as int;
    lemma_fmuls_scale(s - t);
    lemma_fmuls_scale(t);
    assert(0 <= t * 50_000_000 && 0 <= t * 70_000_000) by (nonlinear_arith)
        requires
            0 <= t,
    ;
    assert(fmuls(t, 50_000_000) == (t * 50_000_000) / s);
    assert(fmuls(t, 70_000_000) == (t * 70_000_000) / s);
    let q5 = (t * 50_000_000) / s;
    let r5 = (t * 50_000_000) % s;
    lemma_fundamental_div_mod(t * 50_000_000, s);
    lemma_mod_division_less_than_divisor(t * 50_000_000, s);
    // s * q5 + r5 == t * 50_000_000, so s * (t - 2 * q5) == 2 * r5 < 2 * s
    assert(t - 2 * q5 <= 1);
    assert(0 <= (s - t) + q5);
    let q7 = (t * 70_000_000) / s;
    let r7 = (t * 70_000_000) % s;
    lemma_fundamental_div_mod(t * 70_000_000, s);
    lemma_mod_division_less_than_divisor(t * 70_000_000, s);
    // s * (7 * t - 10 * q7) == 10 * r7 < 10 * s
    assert(7 * t - 10 * q7 <= 9);
    assert(0 <= (s - t) + q7);
    // the quotients never exceed t, so every blend stays at or below one
    lemma_div_is_ordered(t * 50_000_000, t * 100_000_000, s);
    lemma_div_is_ordered(t * 70_000_000, t * 100_000_000, s);
    lemma_div_multiples_vanish(t, s);
    assert((s - t) + q5 <= s && (s - t) + q7 <= s);
}

/// Computes the background gradient for a miss.
fn background(r: &Ray) -> (c: Vec3)
    requires
        ray_ok_s(*r),
    ensures
        m3(c) == background_s(*r),
        bounded3(m3(c), COLOR_LIM as int),
        0 <= c.x && 0 <= c.y && 0 <= c.z,
{
    let ud: Vec3 = r.direction.unit_vector();
    proof {
        lemma_mul_bound(50_000_000, ud.y as int + SCALE as int, 50_000_000, 400_000_000);
        lemma_fmuls_bound(50_000_000, ud.y as int + SCALE as int, 50_000_000, 400_000_000);
    }
    let t: i128 = crate::fixed::clamp(crate::fixed::fmul(50_000_000, ud.y + SCALE), 0, SCALE);
    proof {
        lemma_scale_ok(m3(Vec3 { x: SCALE, y: SCALE, z: SCALE }), SCALE as int - t as int,
            SCALE as int, SCALE as int);
        lemma_scale_ok(m3(Vec3 { x: 50_000_000, y: 70_000_000, z: SCALE }), t as int, SCALE as int,
            SCALE as int);
        lemma_blend_range(t as int);
    }
    let white: Vec3 = Vec3 { x: SCALE, y: SCALE, z: SCALE };
    let blue: Vec3 = Vec3 { x: 50_000_000, y: 70_000_000, z: SCALE };
    let c: Vec3 = white.scale(SCALE - t).add(blue.scale(t));
    proof {
        assert((SCALE as int) * (SCALE as int - t) == (SCALE as int - t) * (SCALE as int))
            by (nonlinear_arith);
        assert(50_000_000 * (t as int) == (t as int) * 50_000_000) by (nonlinear_arith);
        assert(70_000_000 * (t as int) == (t as int) * 70_000_000) by (nonlinear_arith);
        assert((SCALE as int) * (t as int) == (t as int) * (SCALE as int)) by (nonlinear_arith);
        assert(fmuls(SCALE as int, SCALE as int - t) == fmuls(SCALE as int - t, SCALE as int));
        assert(fmuls(50_000_000, t as int) == fmuls(t as int, 50_000_000));
        assert(fmuls(70_000_000, t as int) == fmuls(t as int, 70_000_000));
        assert(fmuls(SCALE as int, t as int) == fmuls(t as int, SCALE as int));
    }
    c
}

/// An attenuated radiance is never mistaken for a miss: the background
/// gradient's blue channel is exactly one for every ray, while a hit
/// attenuated by an albedo whose blue channel is below one keeps its
/// blue channel at most that albedo's.  Together with the hit clause of
/// `ray_color`, a guarded diffuse hit under any non-white albedo returns
/// a color different from the background.
pub proof fn lemma_attenuated_not_background(c: (int, int, int), albedo: (int, int, int), r: Ray)
    requires
        attenuated_s(c, albedo),
        0 <= albedo.2 < SCALE,
    ensures
        c.2 <= albedo.2 < SCALE,
        background_s(r).2 == SCALE,
        c != background_s(r),
{
    let b = choose|b: (int, int, int)|
        (0 <= b.0 && 0 <= b.1 && 0 <= b.2) && bounded3(b, COLOR_LIM as int) && c
            == #[trigger] mul_v(albedo, b);
    lemma_fmuls_bound(albedo.2, b.2, albedo.2, SCALE as int);
    lemma_div_multiples_vanish(albedo.2, SCALE as int);
    let t = clamps(fmuls(50_000_000, unit_v(m3(r.direction)).1 + SCALE), 0, SCALE as int);
    lemma_fmuls_scale(SCALE as int - t);
    lemma_fmuls_scale(t);
}

/// Runtime check of `guard_ok_s` over the record's actual fields.
fn rec_ok(rec: &HitRecord) -> (b: bool)
    ensures
        b == (bounded3(m3(rec.normal), NORM_LIM as int) && bounded3(m3(rec.p), OLIM as int)
            && !near_zero_v(m3(rec.normal))),
{
    let n: Vec3 = rec.normal;
    let p: Vec3 = rec.p;
    if n.x < -NORM_LIM || n.x > NORM_LIM || n.y < -NORM_LIM || n.y > NORM_LIM || n.z < -NORM_LIM
        || n.z > NORM_LIM {
        return false;
    }
    if p.x < -OLIM || p.x > OLIM || p.y < -OLIM || p.y > OLIM || p.z < -OLIM || p.z > OLIM {
        return false;
    }
    !n.is_near_zero()
}

/// The rendering entry point: the radiance carried back along a ray.
///
/// The contract covers every path: exhausted depth and out-of-range rays
/// are exactly black; a miss (the scene query reports no hit in the
/// window) is exactly the background gradient; a hit whose record fails
/// the numeric guard is black; a guarded hit is the material's
/// attenuation applied to a bounced radiance — the albedo for a diffuse
/// or (unless absorbed) metallic surface.  Every channel lies in [0, 1].
pub fn ray_color(r: &Ray, world: &HittableList, depth: u32, rng: &mut rand::rngs::StdRng) -> (c:
    Vec3)
    requires
        world.wf(),
    ensures
        bounded3(m3(c), COLOR_LIM as int),
        0 <= c.x && 0 <= c.y && 0 <= c.z,
        depth == 0 ==> m3(c) == (0int, 0int, 0int),
        depth > 0 && !ray_ok_s(*r) ==> m3(c) == (0int, 0int, 0int),
        depth > 0 && ray_ok_s(*r) ==> match list_hit_s(
            world.objects@,
            *r,
            T_MIN_HIT as int,
            T_MAX_HIT as int,
            world.objects@.len() as int,
        ) {
            None => m3(c) == background_s(*r),
            Some(pair) => ({
                let s = world.objects@[pair.0];
                &&& (!guard_ok_s(s, *r, pair.1) ==> m3(c) == (0int, 0int, 0int))
                &&& (guard_ok_s(s, *r, pair.1) ==> match s.material {
                    Material::Lambertian(m) => attenuated_s(m3(c), m3(m.albedo)),
                    Material::Metal(m) => m3(c) == (0int, 0int, 0int) || attenuated_s(
                        m3(c),
                        m3(m.albedo),
                    ),
                    Material::Dielectric(_) => true,
                })
            }),
        },
        depth > 0 && ray_ok_s(*r) && world.objects@.len() == 0 ==> m3(c) == background_s(*r),
    decreases depth,
{
    if depth == 0 {
        return Vec3::zero();
    }
    if !ray_ok(r) {
        return Vec3::zero();
    }
    match world.hit(r, T_MIN_HIT, T_MAX_HIT) {
        None => background(r),
        Some(rec) => {
            if !rec_ok(&rec) {
                return Vec3::zero();
            }
            match rec.material.scatter(r, &rec, rng) {
                None => Vec3::zero(),
                Some((scattered, attenuation)) => {
                    let bounced: Vec3 = ray_color(&scattered, world, depth - 1, rng);
                    proof {
                        lemma_mul_bound(attenuation.x as int, bounced.x as int, SCALE as int,
                            COLOR_LIM as int);
                        lemma_mul_bound(attenuation.y as int, bounced.y as int, SCALE as int,
                            COLOR_LIM as int);
                        lemma_mul_bound(attenuation.z as int, bounced.z as int, SCALE as int,
                            COLOR_LIM as int);
                        lemma_fmuls_contract(attenuation.x as int, bounced.x as int,
                            COLOR_LIM as int);
                        lemma_fmuls_contract(attenuation.y as int, bounced.y as int,
                            COLOR_LIM as int);
                        lemma_fmuls_contract(attenuation.z as int, bounced.z as int,
                            COLOR_LIM as int);
                        lemma_fmuls_nonneg(attenuation.x as int, bounced.x as int);
                        lemma_fmuls_nonneg(attenuation.y as int, bounced.y as int);
                        lemma_fmuls_nonneg(attenuation.z as int, bounced.z as int);
                    }
                    let out: Vec3 = attenuation.mul(bounced);
                    proof {
                        assert(m3(out) == mul_v(m3(attenuation), m3(bounced)));
                        match rec.material {
                            Material::Lambertian(m) => {
                                assert(m3(out) == mul_v(m3(m.albedo), m3(bounced)));
                                assert(attenuated_s(m3(out), m3(m.albedo)));
                            },
                            Material::Metal(m) => {
                                assert(m3(out) == mul_v(m3(m.albedo), m3(bounced)));
                                assert(attenuated_s(m3(out), m3(m.albedo)));
                            },
                            Material::Dielectric(_) => {},
                        }
                    }
                    out
                },
            }
        },
    }
}

} // verus!

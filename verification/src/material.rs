//! The material model: a closed set of scattering behaviours.
//!
//! Every material answers one scatter capability; the variant set is
//! fixed, so the materials are a tagged union, which keeps the scatter
//! contract a single exhaustive statement.

use vstd::prelude::*;
use crate::fixed::{SCALE, VLIM, fmuls, fdivs, fsqrts, clamps, absi, fmul, fdiv, fsqrt, clamp,
    lemma_mul_bound, lemma_fmuls_bound, lemma_fmuls_sq_nonneg, lemma_fmuls_mono_nonneg,
    lemma_tdiv_bound};
use vstd::arithmetic::div_mod::{lemma_div_is_ordered, lemma_div_pos_is_pos,
    lemma_div_multiples_vanish, lemma_div_is_ordered_by_denominator};
use crate::vec3::{Vec3, m3, bounded3, add_v, neg_v, scale_v, dot_v, unit_v, near_zero_v,
    reflect_v, refract_v, lemma_dot_ok, UNIT_LIM};
use crate::ray::Ray;
use crate::hittable::{HitRecord, ray_ok_s};
use crate::rng::get_rand;

verus! {

/// A color whose channels all lie in [0, 1].
pub open spec fn valid_color(c: (int, int, int)) -> bool {
    0 <= c.0 <= SCALE && 0 <= c.1 <= SCALE && 0 <= c.2 <= SCALE
}

/// Diffuse surface: scatters about the normal, attenuates by its albedo.
#[derive(Clone, Copy, Debug, PartialEq, Eq, Structural)]
pub struct Lambertian {
    pub albedo: Vec3,
}

/// Mirror-like surface with a fuzz radius in [0, 1] blurring the
/// reflection.
#[derive(Clone, Copy, Debug, PartialEq, Eq, Structural)]
pub struct Metal {
    pub albedo: Vec3,
    pub fuzz: i128,
}

/// Clear surface holding an index of refraction; always scatters, with a
/// neutral white attenuation.
#[derive(Clone, Copy, Debug, PartialEq, Eq, Structural)]
pub struct Dielectric {
    pub ir: i128,
}

#[derive(Clone, Copy, Debug, PartialEq, Eq, Structural)]
pub enum Material {
    Lambertian(Lambertian),
    Metal(Metal),
    Dielectric(Dielectric),
}

impl Lambertian {
    pub open spec fn wf(self) -> bool {
        valid_color(m3(self.albedo))
    }
}

impl Metal {
    pub open spec fn wf(self) -> bool {
        valid_color(m3(self.albedo)) && 0 <= self.fuzz <= SCALE
    }
}

impl Dielectric {
    pub open spec fn wf(self) -> bool {
        1 <= self.ir <= VLIM
    }
}

impl Material {
    pub open spec fn wf(self) -> bool {
        match self {
            Material::Lambertian(m) => m.wf(),
            Material::Metal(m) => m.wf(),
            Material::Dielectric(m) => m.wf(),
        }
    }
}

/// Raw magnitude bound on the corrected normal a material consumes; a
/// true surface normal has magnitude about one, and the renderer discards
/// records whose normal drifted past this guard.
pub const NORM_LIM: i128 = 400_000_000;

/// Upper bound on a refraction ratio: 1/ir for ir down to one grid step.
pub const RATIO_LIM: i128 = 10_000_000_000_000_000;

/// Schlick's r0: ((1 - ir) / (1 + ir))^2.
pub open spec fn r0_s(ref_idx: int) -> int {
    let q = fdivs(SCALE - ref_idx, SCALE + ref_idx);
    fmuls(q, q)
}

/// Fifth power, associated as the executable code computes it:
/// ((e*e) * (e*e)) * e.
pub open spec fn pow5_s(e: int) -> int {
    fmuls(fmuls(fmuls(e, e), fmuls(e, e)), e)
}

/// Schlick's reflectance approximation: r0 + (1 - r0) * (1 - cos)^5.
pub open spec fn reflectance_s(cosine: int, ref_idx: int) -> int {
    let r0 = r0_s(ref_idx);
    r0 + fmuls(SCALE - r0, pow5_s(SCALE - cosine))
}

/// r0 is a fraction: the squared quotient of |1 - ir| by 1 + ir never
/// leaves [0, 1].
pub proof fn lemma_r0_range(ref_idx: int)
    requires
        1 <= ref_idx,
    ensures
        0 <= r0_s(ref_idx) <= SCALE,
{
    let s = SCALE as int;
    let q = fdivs(s - ref_idx, s + ref_idx);
    lemma_tdiv_bound((s - ref_idx) * s, s + ref_idx, absi((s - ref_idx) * s));
    lemma_div_is_ordered(absi((s - ref_idx) * s), (s + ref_idx) * s, s + ref_idx);
    lemma_div_multiples_vanish(s, s + ref_idx);
    assert(absi(q) <= s);
    lemma_fmuls_sq_nonneg(q);
    lemma_mul_bound(q, q, s, s);
    lemma_fmuls_bound(q, q, s, s);
    lemma_div_multiples_vanish(s, s);
}

/// Raising a value of [0, 1] to the fifth power keeps it in [0, 1], and
/// the power is monotone there.
pub proof fn lemma_pow5_props(e1: int, e2: int)
    requires
        0 <= e1 <= e2 <= 2 * SCALE,
    ensures
        0 <= pow5_s(e1) <= pow5_s(e2) <= 32 * (SCALE as int),
{
    lemma_fmuls_sq_nonneg(e1);
    lemma_fmuls_sq_nonneg(e2);
    lemma_fmuls_mono_nonneg(e1, e2, e1, e2);
    lemma_mul_bound(e2, e2, 200_000_000, 200_000_000);
    lemma_fmuls_bound(e2, e2, 200_000_000, 200_000_000);
    let a1 = fmuls(e1, e1);
    let a2 = fmuls(e2, e2);
    lemma_fmuls_mono_nonneg(a1, a2, a1, a2);
    lemma_mul_bound(a2, a2, 400_000_000, 400_000_000);
    lemma_fmuls_bound(a2, a2, 400_000_000, 400_000_000);
    let b1 = fmuls(a1, a1);
    let b2 = fmuls(a2, a2);
    lemma_fmuls_mono_nonneg(b1, b2, e1, e2);
    lemma_fmuls_mono_nonneg(0, b1, 0, e1);
    assert(fmuls(0, 0) == 0);
    lemma_mul_bound(b2, e2, 1_600_000_000, 200_000_000);
    lemma_fmuls_bound(b2, e2, 1_600_000_000, 200_000_000);
}

/// At normal incidence the Schlick reflectance is exactly r0: the
/// (1 - cos)^5 term vanishes.
pub proof fn lemma_reflectance_normal_incidence(ref_idx: int)
    ensures
        reflectance_s(SCALE as int, ref_idx) == r0_s(ref_idx),
{
    let s = SCALE as int;
    assert(0int * 0int == 0int) by (nonlinear_arith);
    assert(fmuls(0, 0) == 0);
    assert(pow5_s(0) == 0);
    assert((s - r0_s(ref_idx)) * 0 == 0) by (nonlinear_arith);
    assert(fmuls(s - r0_s(ref_idx), 0) == 0);
}

/// The Schlick reflectance never decreases as the cosine of incidence
/// falls toward grazing angles.
pub proof fn lemma_reflectance_monotone(c1: int, c2: int, ref_idx: int)
    requires
        0 <= c2 <= c1 <= SCALE,
        1 <= ref_idx,
    ensures
        reflectance_s(c1, ref_idx) <= reflectance_s(c2, ref_idx),
{
    let s = SCALE as int;
    let r0 = r0_s(ref_idx);
    lemma_r0_range(ref_idx);
    lemma_pow5_props(s - c1, s - c2);
    lemma_fmuls_mono_nonneg(s - r0, s - r0, pow5_s(s - c1), pow5_s(s - c2));
}

impl Lambertian {
    /// Diffuse scattering: the outgoing direction is the corrected normal
    /// plus a random unit vector, with the bare normal substituted when
    /// that sum degenerates; always scatters, attenuating by the albedo.
    pub fn scatter(&self, _r_in: &Ray, rec: &HitRecord, rng: &mut rand::rngs::StdRng) -> (res:
        Option<(Ray, Vec3)>)
        requires
            self.wf(),
            bounded3(m3(rec.normal), NORM_LIM as int),
            !near_zero_v(m3(rec.normal)),
        ensures
            match res {
                Some((sc, att)) => {
                    &&& att == self.albedo
                    &&& sc.origin == rec.p
                    &&& !near_zero_v(m3(sc.direction))
                    &&& bounded3(m3(sc.direction), 700_000_000)
                    &&& exists|w: Vec3|
                        {
                            &&& bounded3(m3(w), SCALE as int)
                            &&& 1 <= dot_v(m3(w), m3(w)) < SCALE
                            &&& (m3(sc.direction) == add_v(m3(rec.normal), #[trigger] unit_v(m3(w)))
                                || (near_zero_v(add_v(m3(rec.normal), unit_v(m3(w))))
                                && sc.direction == rec.normal))
                        }
                },
                None => false,
            },
    {
        let u: Vec3 = Vec3::random_unit_vector(rng);
        proof {
            let w = choose|w: Vec3|
                bounded3(m3(w), SCALE as int) && 1 <= dot_v(m3(w), m3(w)) < SCALE && m3(u)
                    == #[trigger] unit_v(m3(w));
            assert(m3(u) == unit_v(m3(w)));
        }
        let mut scatter_direction: Vec3 = rec.normal.add(u);
        if scatter_direction.is_near_zero() {
            scatter_direction = rec.normal;
        }
        Some((Ray { origin: rec.p, direction: scatter_direction }, self.albedo))
    }
}

impl Metal {
    /// Specular scattering: reflect the normalized incoming direction and
    /// blur it by fuzz times a unit-sphere sample; absorbed when the
    /// result points into the surface.
    pub fn scatter(&self, r_in: &Ray, rec: &HitRecord, rng: &mut rand::rngs::StdRng) -> (res:
        Option<(Ray, Vec3)>)
        requires
            self.wf(),
            bounded3(m3(rec.normal), NORM_LIM as int),
            ray_ok_s(*r_in),
        ensures
            match res {
                Some((sc, att)) => {
                    &&& att == self.albedo
                    &&& sc.origin == rec.p
                    &&& dot_v(m3(sc.direction), m3(rec.normal)) > 0
                    &&& exists|f: Vec3|
                        bounded3(#[trigger] m3(f), SCALE as int) && dot_v(m3(f), m3(f)) < SCALE
                            && m3(sc.direction) == add_v(
                            reflect_v(unit_v(m3(r_in.direction)), m3(rec.normal)),
                            scale_v(m3(f), self.fuzz as int),
                        )
                },
                None => exists|f: Vec3|
                    bounded3(#[trigger] m3(f), SCALE as int) && dot_v(m3(f), m3(f)) < SCALE
                        && dot_v(
                        add_v(
                            reflect_v(unit_v(m3(r_in.direction)), m3(rec.normal)),
                            scale_v(m3(f), self.fuzz as int),
                        ),
                        m3(rec.normal),
                    ) <= 0,
            },
    {
        let ud: Vec3 = r_in.direction.unit_vector();
        let reflected: Vec3 = ud.reflect(rec.normal);
        let f: Vec3 = Vec3::random_in_unit_sphere(rng);
        proof {
            lemma_mul_bound(f.x as int, self.fuzz as int, SCALE as int, SCALE as int);
            lemma_mul_bound(f.y as int, self.fuzz as int, SCALE as int, SCALE as int);
            lemma_mul_bound(f.z as int, self.fuzz as int, SCALE as int, SCALE as int);
            lemma_fmuls_bound(f.x as int, self.fuzz as int, SCALE as int, SCALE as int);
            lemma_fmuls_bound(f.y as int, self.fuzz as int, SCALE as int, SCALE as int);
            lemma_fmuls_bound(f.z as int, self.fuzz as int, SCALE as int, SCALE as int);
        }
        let fuzz_off: Vec3 = f.scale(self.fuzz);
        let direction: Vec3 = reflected.add(fuzz_off);
        proof {
            lemma_dot_ok(m3(direction), m3(rec.normal), 700_100_000_000, NORM_LIM as int);
        }
        let d: i128 = direction.dot(rec.normal);
        let scattered: Ray = Ray { origin: rec.p, direction };
        if d > 0 {
            Some((scattered, self.albedo))
        } else {
            None
        }
    }
}

impl Dielectric {
    /// Schlick's approximation of the Fresnel reflectance.
    pub fn reflectance(cosine: i128, ref_idx: i128) -> (r: i128)
        requires
            -SCALE <= cosine <= SCALE,
            1 <= ref_idx <= RATIO_LIM,
        ensures
            r == reflectance_s(cosine as int, ref_idx as int),
            0 <= r <= 3_300_000_000,
    {
        let ghost s: int = SCALE as int;
        proof {
            lemma_r0_range(ref_idx as int);
            lemma_tdiv_bound((s - ref_idx) * s, (ref_idx + SCALE) as int, absi((s - ref_idx) * s));
        }
        let q: i128 = fdiv(SCALE - ref_idx, SCALE + ref_idx);
        proof {
            lemma_div_is_ordered(absi((s - ref_idx) * s), (s + ref_idx) * s, s + ref_idx);
            lemma_div_multiples_vanish(s, s + ref_idx);
            assert(absi(q as int) <= s);
            lemma_mul_bound(q as int, q as int, s, s);
            lemma_fmuls_sq_nonneg(q as int);
            lemma_fmuls_bound(q as int, q as int, s, s);
            lemma_div_multiples_vanish(s, s);
        }
        let r0: i128 = fmul(q, q);
        let e: i128 = SCALE - cosine;
        proof {
            lemma_pow5_props(0, e as int);
            lemma_mul_bound(e as int, e as int, 2 * s, 2 * s);
            lemma_fmuls_sq_nonneg(e as int);
            lemma_fmuls_bound(e as int, e as int, 2 * s, 2 * s);
        }
        let e2: i128 = fmul(e, e);
        proof {
            lemma_mul_bound(e2 as int, e2 as int, 4 * s, 4 * s);
            lemma_fmuls_sq_nonneg(e2 as int);
            lemma_fmuls_bound(e2 as int, e2 as int, 4 * s, 4 * s);
        }
        let e4: i128 = fmul(e2, e2);
        proof {
            lemma_mul_bound(e4 as int, e as int, 16 * s, 2 * s);
            lemma_fmuls_bound(e4 as int, e as int, 16 * s, 2 * s);
        }
        let e5: i128 = fmul(e4, e);
        proof {
            lemma_mul_bound((s - r0 as int), e5 as int, s, 32 * s);
            lemma_fmuls_bound((s - r0 as int), e5 as int, s, 32 * s);
            lemma_fmuls_mono_nonneg(0, s - r0 as int, 0, e5 as int);
            assert(fmuls(0, 0) == 0);
        }
        let term: i128 = fmul(SCALE - r0, e5);
        r0 + term
    }

    /// Transmissive scattering: refract when Snell's law admits it and a
    /// reflectance draw does not intervene, else reflect; always scatters
    /// with a neutral white attenuation.  The cosine is clamped into
    /// [-1, 1] so the Pythagorean and Schlick steps stay in range under
    /// fixed-point drift.
    pub fn scatter(&self, r_in: &Ray, rec: &HitRecord, rng: &mut rand::rngs::StdRng) -> (res:
        Option<(Ray, Vec3)>)
        requires
            self.wf(),
            bounded3(m3(rec.normal), NORM_LIM as int),
            ray_ok_s(*r_in),
        ensures
            match res {
                Some((sc, att)) => {
                    &&& m3(att) == (SCALE as int, SCALE as int, SCALE as int)
                    &&& sc.origin == rec.p
                    &&& {
                        let ratio = if rec.front_face {
                            fdivs(SCALE as int, self.ir as int)
                        } else {
                            self.ir as int
                        };
                        let ud = unit_v(m3(r_in.direction));
                        let cos = clamps(dot_v(neg_v(ud), m3(rec.normal)), -(SCALE as int),
                            SCALE as int);
                        let cannot = fmuls(ratio, fsqrts(SCALE - fmuls(cos, cos))) > SCALE;
                        &&& (cannot ==> m3(sc.direction) == reflect_v(ud, m3(rec.normal)))
                        &&& (m3(sc.direction) == reflect_v(ud, m3(rec.normal)) || m3(sc.direction)
                            == refract_v(ud, m3(rec.normal), ratio))
                    }
                },
                None => false,
            },
    {
        let ghost s: int = SCALE as int;
        proof {
            if rec.front_face {
                lemma_tdiv_bound(s * s, self.ir as int, s * s);
                lemma_div_pos_is_pos(s * s, self.ir as int);
                lemma_div_is_ordered_by_denominator(s * s, self.ir as int, VLIM as int);
            }
        }
        let ratio: i128 = if rec.front_face {
            fdiv(SCALE, self.ir)
        } else {
            self.ir
        };
        let ud: Vec3 = r_in.direction.unit_vector();
        proof {
            lemma_dot_ok(neg_v(m3(ud)), m3(rec.normal), UNIT_LIM as int, NORM_LIM as int);
        }
        let d: i128 = ud.neg().dot(rec.normal);
        let cos: i128 = clamp(d, -SCALE, SCALE);
        proof {
            lemma_mul_bound(cos as int, cos as int, s, s);
            lemma_fmuls_sq_nonneg(cos as int);
            lemma_fmuls_bound(cos as int, cos as int, s, s);
        }
        let cc: i128 = fmul(cos, cos);
        let rest: i128 = SCALE - cc;
        let sin_theta: i128 = fsqrt(rest);
        proof {
            assert(100_000_000int * 100_000_000int == 10_000_000_000_000_000int
                && 100_000_001int * 100_000_001int == 10_000_000_200_000_001int)
                by (nonlinear_arith);
            crate::fixed::lemma_isqrt_unique(10_000_000_000_000_000 as nat, 100_000_000 as nat);
            crate::fixed::lemma_isqrt_mono(((rest as int) * s) as nat, 10_000_000_000_000_000
                as nat);
            lemma_mul_bound(ratio as int, sin_theta as int, RATIO_LIM as int, s);
            lemma_fmuls_bound(ratio as int, sin_theta as int, RATIO_LIM as int, s);
        }
        let rs: i128 = fmul(ratio, sin_theta);
        let cannot_refract: bool = rs > SCALE;
        let refl: i128 = Dielectric::reflectance(cos, ratio);
        let draw: i128 = get_rand(rng);
        let direction: Vec3 = if cannot_refract || refl > draw {
            ud.reflect(rec.normal)
        } else {
            ud.refract(rec.normal, ratio)
        };
        Some((Ray { origin: rec.p, direction }, Vec3 { x: SCALE, y: SCALE, z: SCALE }))
    }
}

impl Material {
    /// Dispatches to the variant's scatter; what is common to all
    /// variants is stated here, with the variant-specific guarantees.
    pub fn scatter(&self, r_in: &Ray, rec: &HitRecord, rng: &mut rand::rngs::StdRng) -> (res:
        Option<(Ray, Vec3)>)
        requires
            self.wf(),
            bounded3(m3(rec.normal), NORM_LIM as int),
            !near_zero_v(m3(rec.normal)),
            ray_ok_s(*r_in),
        ensures
            res matches Some(pair) ==> pair.0.origin == rec.p && valid_color(m3(pair.1)),
            self matches Material::Lambertian(m) ==> res matches Some(pair) && pair.1 == m.albedo
                && !near_zero_v(m3(pair.0.direction)),
            self matches Material::Metal(m) ==> (match res {
                Some((sc, att)) => att == m.albedo && dot_v(m3(sc.direction), m3(rec.normal)) > 0,
                None => true,
            }),
            self matches Material::Dielectric(_) ==> res matches Some(pair) && m3(pair.1) == (
            SCALE as int, SCALE as int, SCALE as int),
    {
        match self {
            Material::Lambertian(m) => m.scatter(r_in, rec, rng),
            Material::Metal(m) => m.scatter(r_in, rec, rng),
            Material::Dielectric(m) => m.scatter(r_in, rec, rng),
        }
    }
}

} // verus!

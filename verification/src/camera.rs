//! The camera: a construction-time orthonormal basis and viewport, and a
//! per-sample ray generator with a finite-aperture lens offset.
//!
//! The vertical field of view enters as the tangent of its half angle (a
//! fixed-point value), since the tangent itself is trigonometry the caller
//! computes; 90 degrees corresponds to a tangent of one.

use vstd::prelude::*;
use crate::fixed::{SCALE, VLIM, fmuls, tdiv, fmul, tdiv_exec, lemma_mul_bound,
    lemma_fmuls_bound, lemma_tdiv_bound};
use crate::vec3::{Vec3, m3, bounded3, add_v, sub_v, div_v, dot_v, cross_v, unit_v, scale_v,
    lemma_scale_ok, lemma_cross_ok, UNIT_LIM};
use crate::ray::Ray;

verus! {

pub struct Camera {
    pub origin: Vec3,
    pub lower_left_corner: Vec3,
    pub horizontal: Vec3,
    pub vertical: Vec3,
    pub u: Vec3,
    pub v: Vec3,
    pub w: Vec3,
    pub lens_radius: i128,
}

impl Camera {
    /// Field bounds under which `get_ray` stays in range.
    pub open spec fn wf(self) -> bool {
        &&& bounded3(m3(self.origin), VLIM as int)
        &&& bounded3(m3(self.u), UNIT_LIM as int)
        &&& bounded3(m3(self.v), 2_000_000_000)
        &&& bounded3(m3(self.horizontal), 1_000_000_000_000_000_000_000)
        &&& bounded3(m3(self.vertical), 1_000_000_000_000_000_000_000)
        &&& bounded3(m3(self.lower_left_corner), 200_000_000_000_000_000_000_000_000_000)
        &&& 0 <= self.lens_radius <= VLIM
    }

    /// Derives the orthonormal basis, the focus-plane viewport and the
    /// lens radius; every field is pinned to its defining formula.
    pub fn new(
        lookfrom: Vec3,
        lookat: Vec3,
        vup: Vec3,
        tan_half_vfov: i128,
        aspect_ratio: i128,
        aperture: i128,
        focus_dist: i128,
    ) -> (c: Camera)
        requires
            bounded3(m3(lookfrom), VLIM as int),
            bounded3(m3(lookat), VLIM as int),
            bounded3(m3(vup), VLIM as int),
            1 <= tan_half_vfov <= VLIM,
            1 <= aspect_ratio <= VLIM,
            0 <= aperture <= VLIM,
            1 <= focus_dist <= VLIM,
            1 <= dot_v(
                sub_v(m3(lookfrom), m3(lookat)),
                sub_v(m3(lookfrom), m3(lookat)),
            ),
            1 <= dot_v(
                cross_v(m3(vup), unit_v(sub_v(m3(lookfrom), m3(lookat)))),
                cross_v(m3(vup), unit_v(sub_v(m3(lookfrom), m3(lookat)))),
            ),
        ensures
            c.wf(),
            c.origin == lookfrom,
            m3(c.w) == unit_v(sub_v(m3(lookfrom), m3(lookat))),
            m3(c.u) == unit_v(cross_v(m3(vup), m3(c.w))),
            m3(c.v) == cross_v(m3(c.w), m3(c.u)),
            m3(c.horizontal) == scale_v(
                m3(c.u),
                fmuls(focus_dist as int, fmuls(aspect_ratio as int, 2 * tan_half_vfov)),
            ),
            m3(c.vertical) == scale_v(m3(c.v), fmuls(focus_dist as int, 2 * tan_half_vfov)),
            m3(c.lower_left_corner) == sub_v(
                sub_v(
                    sub_v(m3(lookfrom), div_v(m3(c.horizontal), 2 * SCALE)),
                    div_v(m3(c.vertical), 2 * SCALE),
                ),
                scale_v(m3(c.w), focus_dist as int),
            ),
            c.lens_radius == tdiv(aperture as int, 2),
    {
        let viewport_height: i128 = 2 * tan_half_vfov;
        proof {
            lemma_mul_bound(aspect_ratio as int, viewport_height as int, VLIM as int, 2 * (
            VLIM as int));
            lemma_fmuls_bound(aspect_ratio as int, viewport_height as int, VLIM as int, 2 * (
            VLIM as int));
        }
        let viewport_width: i128 = fmul(aspect_ratio, viewport_height);
        let w: Vec3 = lookfrom.sub(lookat).unit_vector();
        proof {
            lemma_cross_ok(m3(vup), m3(w), VLIM as int, UNIT_LIM as int);
        }
        let cr: Vec3 = vup.cross(w);
        let u: Vec3 = cr.unit_vector();
        proof {
            lemma_cross_ok(m3(w), m3(u), UNIT_LIM as int, UNIT_LIM as int);
        }
        let v: Vec3 = w.cross(u);
        proof {
            lemma_mul_bound(focus_dist as int, viewport_width as int, VLIM as int,
                20_000_000_000_000_000);
            lemma_fmuls_bound(focus_dist as int, viewport_width as int, VLIM as int,
                20_000_000_000_000_000);
            lemma_mul_bound(focus_dist as int, viewport_height as int, VLIM as int, 2 * (
            VLIM as int));
            lemma_fmuls_bound(focus_dist as int, viewport_height as int, VLIM as int, 2 * (
            VLIM as int));
        }
        let fw: i128 = fmul(focus_dist, viewport_width);
        let fh: i128 = fmul(focus_dist, viewport_height);
        proof {
            lemma_scale_ok(m3(u), fw as int, UNIT_LIM as int, 200_000_000_000_000_000_000);
            lemma_scale_ok(m3(v), fh as int, 2_000_000_000, 20_000_000_000_000_000);
            lemma_scale_ok(m3(w), focus_dist as int, UNIT_LIM as int, VLIM as int);
        }
        let horizontal: Vec3 = u.scale(fw);
        let vertical: Vec3 = v.scale(fh);
        let half_h: Vec3 = horizontal.divide(2 * SCALE);
        let half_v: Vec3 = vertical.divide(2 * SCALE);
        let wf2: Vec3 = w.scale(focus_dist);
        let lower_left_corner: Vec3 = lookfrom.sub(half_h).sub(half_v).sub(wf2);
        proof {
            lemma_tdiv_bound(aperture as int, 2, VLIM as int);
        }
        let lens_radius: i128 = tdiv_exec(aperture, 2);
        Camera {
            origin: lookfrom,
            lower_left_corner,
            horizontal,
            vertical,
            u,
            v,
            w,
            lens_radius,
        }
    }

    /// Maps normalized image-plane coordinates (s, t) to a world ray whose
    /// origin is perturbed by a disk-sampled lens offset; the contract
    /// pins the ray as a function of that sample, and what holds of the
    /// sample itself is that it lies in the unit disk.
    pub fn get_ray(&self, s: i128, t: i128, rng: &mut rand::rngs::StdRng) -> (r: Ray)
        requires
            self.wf(),
            0 <= s <= SCALE,
            0 <= t <= SCALE,
        ensures
            exists|dsk: Vec3|
                {
                    let rd = scale_v(#[trigger] m3(dsk), self.lens_radius as int);
                    let off = add_v(
                        scale_v(m3(self.u), rd.0),
                        scale_v(m3(self.v), rd.1),
                    );
                    &&& bounded3(m3(dsk), SCALE as int)
                    &&& dot_v(m3(dsk), m3(dsk)) < SCALE
                    &&& dsk.z == 0
                    &&& bounded3(rd, self.lens_radius as int)
                    &&& m3(r.origin) == add_v(m3(self.origin), off)
                    &&& m3(r.direction) == sub_v(
                        sub_v(
                            add_v(
                                add_v(
                                    m3(self.lower_left_corner),
                                    scale_v(m3(self.horizontal), s as int),
                                ),
                                scale_v(m3(self.vertical), t as int),
                            ),
                            m3(self.origin),
                        ),
                        off,
                    )
                },
    {
        let dsk: Vec3 = Vec3::random_in_unit_disk(rng);
        proof {
            lemma_scale_ok(m3(dsk), self.lens_radius as int, SCALE as int, VLIM as int);
            // the offset stays within the lens radius, component-wise
            lemma_fmuls_bound(dsk.x as int, self.lens_radius as int, SCALE as int,
                self.lens_radius as int);
            lemma_fmuls_bound(dsk.y as int, self.lens_radius as int, SCALE as int,
                self.lens_radius as int);
            lemma_fmuls_bound(dsk.z as int, self.lens_radius as int, SCALE as int,
                self.lens_radius as int);
            vstd::arithmetic::div_mod::lemma_div_multiples_vanish(self.lens_radius as int,
                SCALE as int);
        }
        let rd: Vec3 = dsk.scale(self.lens_radius);
        proof {
            lemma_scale_ok(m3(self.u), rd.x as int, UNIT_LIM as int, 1_000_000_000_000);
            lemma_scale_ok(m3(self.v), rd.y as int, 2_000_000_000, 1_000_000_000_000);
        }
        let offset: Vec3 = self.u.scale(rd.x).add(self.v.scale(rd.y));
        proof {
            lemma_scale_ok(m3(self.horizontal), s as int, 1_000_000_000_000_000_000_000,
                SCALE as int);
            lemma_scale_ok(m3(self.vertical), t as int, 1_000_000_000_000_000_000_000,
                SCALE as int);
        }
        let direction: Vec3 = self.lower_left_corner.add(self.horizontal.scale(s)).add(
            self.vertical.scale(t),
        ).sub(self.origin).sub(offset);
        Ray { origin: self.origin.add(offset), direction }
    }
}

} // verus!

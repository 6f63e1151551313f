//! Rays: an origin and a direction, with parametrized point evaluation.

use vstd::prelude::*;
use crate::fixed::{SCALE, fmuls, lemma_mul_bound, lemma_fmuls_bound};
use crate::vec3::{Vec3, m3, bounded3, add_v, scale_v};

verus! {

#[derive(Clone, Copy, Debug, PartialEq, Eq, Structural)]
pub struct Ray {
    pub origin: Vec3,
    pub direction: Vec3,
}

/// The point reached after parameter t: origin + t * direction.
pub open spec fn at_v(r: Ray, t: int) -> (int, int, int) {
    add_v(m3(r.origin), scale_v(m3(r.direction), t))
}

/// Discharges the requirements of `at` for a bounded ray and parameter,
/// and bounds the reached point.
pub proof fn lemma_at_ok(r: Ray, t: int, om: int, dm: int, tb: int)
    requires
        bounded3(m3(r.origin), om),
        bounded3(m3(r.direction), dm),
        -tb <= t <= tb,
        0 <= om,
        0 <= dm,
        0 <= tb,
        dm * tb <= i128::MAX,
        om + (dm * tb) / (SCALE as int) <= i128::MAX,
    ensures
        -i128::MAX <= r.direction.x * t <= i128::MAX,
        -i128::MAX <= r.direction.y * t <= i128::MAX,
        -i128::MAX <= r.direction.z * t <= i128::MAX,
        -i128::MAX <= r.origin.x + fmuls(r.direction.x as int, t) <= i128::MAX,
        -i128::MAX <= r.origin.y + fmuls(r.direction.y as int, t) <= i128::MAX,
        -i128::MAX <= r.origin.z + fmuls(r.direction.z as int, t) <= i128::MAX,
        bounded3(at_v(r, t), om + (dm * tb) / (SCALE as int)),
{
    lemma_mul_bound(r.direction.x as int, t, dm, tb);
    lemma_mul_bound(r.direction.y as int, t, dm, tb);
    lemma_mul_bound(r.direction.z as int, t, dm, tb);
    lemma_fmuls_bound(r.direction.x as int, t, dm, tb);
    lemma_fmuls_bound(r.direction.y as int, t, dm, tb);
    lemma_fmuls_bound(r.direction.z as int, t, dm, tb);
}

impl Ray {
    pub fn new(origin: Vec3, direction: Vec3) -> (r: Ray)
        ensures
            r.origin == origin && r.direction == direction,
    {
        Ray { origin, direction }
    }

    /// Evaluates the ray at parameter t.
    pub fn at(&self, t: i128) -> (p: Vec3)
        requires
            -i128::MAX <= self.direction.x * t <= i128::MAX,
            -i128::MAX <= self.direction.y * t <= i128::MAX,
            -i128::MAX <= self.direction.z * t <= i128::MAX,
            -i128::MAX <= self.origin.x + fmuls(self.direction.x as int, t as int) <= i128::MAX,
            -i128::MAX <= self.origin.y + fmuls(self.direction.y as int, t as int) <= i128::MAX,
            -i128::MAX <= self.origin.z + fmuls(self.direction.z as int, t as int) <= i128::MAX,
        ensures
            m3(p) == at_v(*self, t as int),
    {
        self.origin.add(self.direction.scale(t))
    }
}

} // verus!

//! Ray/sphere intersection and the scene aggregate.
//!
//! `Sphere::hit` solves the half-b quadratic exactly over the fixed-point
//! grid, and its contract pins the whole result: when a hit is returned,
//! which root it carries and every field of the record; when none is, that
//! no admissible root exists.  `HittableList::hit` returns the closest hit
//! by querying every member with a shrinking window; its contract mirrors
//! that fold over the open window, so even the tie-breaking between
//! members reporting one root is part of the statement: the first-found
//! hit wins an exact tie.

use vstd::prelude::*;
use crate::fixed::{
    VLIM, OLIM, absi, fmuls, fdivs, fsqrts, fmul, fdiv, fsqrt, lemma_mul_bound,
    lemma_fmuls_bound,
};
use crate::vec3::{
    Vec3, m3, bounded3, sub_v, neg_v, div_v, dot_v, exact_dot, lemma_dot_ok,
    lemma_expand_sq_sum, lemma_mul_regroup, lemma_mul_shuffle, lemma_distrib3,
};
use crate::ray::{Ray, at_v, lemma_at_ok};
use crate::material::Material;

verus! {

/// Raw magnitude bound on the outward normal handed to `HitRecord::new`
/// (it is a hit-point offset divided by a radius, so it can be scaled far
/// past one before the renderer's guards discard it).
pub const OUT_LIM: i128 = 2_000_000_000_000_000_000_000_000;

/// A ray whose origin and direction lie in the working range and whose
/// direction has a positive squared length, so it can be normalized.
pub open spec fn ray_ok_s(r: Ray) -> bool {
    bounded3(m3(r.origin), OLIM as int) && bounded3(m3(r.direction), VLIM as int) && 1 <= dot_v(
        m3(r.direction),
        m3(r.direction),
    )
}

/// Runtime check of `ray_ok_s`; the dot product is only taken once the
/// component bounds are known to hold.
pub fn ray_ok(r: &Ray) -> (b: bool)
    ensures
        b == ray_ok_s(*r),
{
    let o: Vec3 = r.origin;
    let d: Vec3 = r.direction;
    if o.x < -OLIM || o.x > OLIM || o.y < -OLIM || o.y > OLIM || o.z < -OLIM || o.z > OLIM {
        return false;
    }
    if d.x < -VLIM || d.x > VLIM || d.y < -VLIM || d.y > VLIM || d.z < -VLIM || d.z > VLIM {
        return false;
    }
    proof {
        lemma_dot_ok(m3(d), m3(d), VLIM as int, VLIM as int);
    }
    let ls: i128 = d.length_squared();
    ls >= 1
}

/// One intersection, living for the duration of one scatter decision.
#[derive(Clone, Copy, Debug, PartialEq, Eq, Structural)]
pub struct HitRecord {
    pub p: Vec3,
    pub normal: Vec3,
    pub t: i128,
    pub front_face: bool,
    pub material: Material,
}

/// The ray meets the surface from outside: it runs against the geometric
/// outward normal.
pub open spec fn front_face_s(r: Ray, outward: (int, int, int)) -> bool {
    dot_v(m3(r.direction), outward) < 0
}

/// The stored normal: the outward normal flipped, when needed, to face
/// against the incoming ray.
pub open spec fn rec_normal_s(r: Ray, outward: (int, int, int)) -> (int, int, int) {
    if front_face_s(r, outward) {
        outward
    } else {
        neg_v(outward)
    }
}

impl HitRecord {
    /// Builds a record with the front-face-corrected normal.
    pub fn new(p: Vec3, t: i128, material: Material, r: &Ray, outward_normal: Vec3) -> (rec:
        HitRecord)
        requires
            bounded3(m3(r.direction), VLIM as int),
            bounded3(m3(outward_normal), OUT_LIM as int),
        ensures
            rec.p == p,
            rec.t == t,
            rec.material == material,
            rec.front_face == front_face_s(*r, m3(outward_normal)),
            m3(rec.normal) == rec_normal_s(*r, m3(outward_normal)),
            dot_v(m3(r.direction), m3(rec.normal)) <= 0,
    {
        proof {
            lemma_dot_ok(m3(r.direction), m3(outward_normal), VLIM as int, OUT_LIM as int);
        }
        let d: i128 = r.direction.dot(outward_normal);
        let front_face: bool = d < 0;
        let normal: Vec3 = if front_face {
            outward_normal
        } else {
            proof {
                crate::vec3::lemma_dot_neg_left(m3(outward_normal), m3(r.direction));
                lemma_dot_comm(m3(r.direction), m3(outward_normal));
                lemma_dot_comm(m3(r.direction), neg_v(m3(outward_normal)));
            }
            outward_normal.neg()
        };
        HitRecord { p, normal, t, front_face, material }
    }
}

/// The dot product is symmetric.
pub proof fn lemma_dot_comm(a: (int, int, int), b: (int, int, int))
    ensures
        dot_v(a, b) == dot_v(b, a),
{
    assert(a.0 * b.0 == b.0 * a.0 && a.1 * b.1 == b.1 * a.1 && a.2 * b.2 == b.2 * a.2)
        by (nonlinear_arith);
}

/// A sphere: center, radius and material.  A negative radius is a
/// deliberate device: it flips the outward normal inward, rendering a
/// hollow shell such as the inside of a glass sphere.
#[derive(Clone, Copy, Debug, PartialEq, Eq, Structural)]
pub struct Sphere {
    pub center: Vec3,
    pub radius: i128,
    pub material: Material,
}

/// A sphere within the working range: bounded center, a radius of at
/// least one grid step in magnitude (possibly negative), and a
/// well-formed material.
pub open spec fn sphere_ok(s: Sphere) -> bool {
    bounded3(m3(s.center), VLIM as int) && 1 <= absi(s.radius as int) <= VLIM && s.material.wf()
}

pub open spec fn sphere_oc_s(s: Sphere, r: Ray) -> (int, int, int) {
    sub_v(m3(r.origin), m3(s.center))
}

pub open spec fn sphere_a_s(r: Ray) -> int {
    dot_v(m3(r.direction), m3(r.direction))
}

pub open spec fn sphere_half_b_s(s: Sphere, r: Ray) -> int {
    dot_v(sphere_oc_s(s, r), m3(r.direction))
}

pub open spec fn sphere_c_s(s: Sphere, r: Ray) -> int {
    dot_v(sphere_oc_s(s, r), sphere_oc_s(s, r)) - fmuls(s.radius as int, s.radius as int)
}

pub open spec fn sphere_disc_s(s: Sphere, r: Ray) -> int {
    fmuls(sphere_half_b_s(s, r), sphere_half_b_s(s, r)) - fmuls(sphere_a_s(r), sphere_c_s(s, r))
}

/// The smaller quadratic root (meaningful when the discriminant is
/// non-negative).
pub open spec fn sphere_root1_s(s: Sphere, r: Ray) -> int {
    fdivs(-sphere_half_b_s(s, r) - fsqrts(sphere_disc_s(s, r)), sphere_a_s(r))
}

/// The larger quadratic root.
pub open spec fn sphere_root2_s(s: Sphere, r: Ray) -> int {
    fdivs(-sphere_half_b_s(s, r) + fsqrts(sphere_disc_s(s, r)), sphere_a_s(r))
}

/// Admissible ray parameters form the open interval (t_min, t_max): a
/// root exactly on an edge is rejected.
pub open spec fn in_window(t: int, t_min: int, t_max: int) -> bool {
    t_min < t < t_max
}

/// Whether the sphere reports a hit: a real intersection exists and one of
/// the roots, the smaller preferred, lies in the admissible window.
pub open spec fn sphere_hit_some_s(s: Sphere, r: Ray, t_min: int, t_max: int) -> bool {
    sphere_disc_s(s, r) >= 0 && (in_window(sphere_root1_s(s, r), t_min, t_max) || in_window(
        sphere_root2_s(s, r),
        t_min,
        t_max,
    ))
}

/// The reported ray parameter: the smaller root when admissible, else the
/// larger.
pub open spec fn sphere_root_s(s: Sphere, r: Ray, t_min: int, t_max: int) -> int {
    if in_window(sphere_root1_s(s, r), t_min, t_max) {
        sphere_root1_s(s, r)
    } else {
        sphere_root2_s(s, r)
    }
}

/// The geometric outward normal at parameter t: (point - center) / radius.
pub open spec fn sphere_outward_s(s: Sphere, r: Ray, t: int) -> (int, int, int) {
    div_v(sub_v(at_v(r, t), m3(s.center)), s.radius as int)
}

/// Every field of a returned record, as a function of the sphere, the ray
/// and the reported root.
pub open spec fn rec_matches(rec: HitRecord, s: Sphere, r: Ray, t: int) -> bool {
    &&& rec.t == t
    &&& m3(rec.p) == at_v(r, t)
    &&& rec.material == s.material
    &&& rec.front_face == front_face_s(r, sphere_outward_s(s, r, t))
    &&& m3(rec.normal) == rec_normal_s(r, sphere_outward_s(s, r, t))
}

impl Sphere {
    pub fn new(center: Vec3, radius: i128, material: Material) -> (s: Sphere)
        ensures
            s.center == center && s.radius == radius && s.material == material,
    {
        Sphere { center, radius, material }
    }

    /// Intersects the ray with this sphere inside the window
    /// [t_min, t_max]; the contract decides exactly when a hit is
    /// reported and pins every field of the record.
    pub fn hit(&self, r: &Ray, t_min: i128, t_max: i128) -> (res: Option<HitRecord>)
        requires
            sphere_ok(*self),
            ray_ok_s(*r),
            -VLIM <= t_min <= VLIM,
            -VLIM <= t_max <= VLIM,
        ensures
            res is Some <==> sphere_hit_some_s(*self, *r, t_min as int, t_max as int),
            match res {
                Some(rec) => {
                    &&& rec_matches(rec, *self, *r, sphere_root_s(*self, *r, t_min as int,
                        t_max as int))
                    &&& t_min < rec.t < t_max
                    &&& dot_v(m3(r.direction), m3(rec.normal)) <= 0
                },
                None => true,
            },
    {
        proof {
            lemma_dot_ok(m3(r.direction), m3(r.direction), VLIM as int, VLIM as int);
        }
        let a: i128 = r.direction.length_squared();
        let oc: Vec3 = r.origin.sub(self.center);
        proof {
            lemma_dot_ok(m3(oc), m3(r.direction), 11_000_000_000_000, VLIM as int);
            lemma_dot_ok(m3(oc), m3(oc), 11_000_000_000_000, 11_000_000_000_000);
            lemma_mul_bound(self.radius as int, self.radius as int, VLIM as int, VLIM as int);
            lemma_fmuls_bound(self.radius as int, self.radius as int, VLIM as int, VLIM as int);
        }
        let half_b: i128 = oc.dot(r.direction);
        let c: i128 = oc.length_squared() - fmul(self.radius, self.radius);
        proof {
            lemma_mul_bound(half_b as int, half_b as int, 330_000_000_000_000_000,
                330_000_000_000_000_000);
            lemma_fmuls_bound(half_b as int, half_b as int, 330_000_000_000_000_000,
                330_000_000_000_000_000);
            lemma_mul_bound(a as int, c as int, 30_000_000_000_000_000, 3_700_000_000_000_000_000);
            lemma_fmuls_bound(a as int, c as int, 30_000_000_000_000_000, 3_700_000_000_000_000_000);
        }
        let discriminant: i128 = fmul(half_b, half_b) - fmul(a, c);
        if discriminant < 0 {
            return None;
        }
        let sqrtd: i128 = fsqrt(discriminant);
        let mut root: i128 = fdiv(-half_b - sqrtd, a);
        proof {
            assert(root == sphere_root1_s(*self, *r));
        }
        if root <= t_min || t_max <= root {
            root = fdiv(-half_b + sqrtd, a);
            proof {
                assert(root == sphere_root2_s(*self, *r));
            }
            if root <= t_min || t_max <= root {
                return None;
            }
        }
        proof {
            assert(root == sphere_root_s(*self, *r, t_min as int, t_max as int));
            lemma_at_ok(*r, root as int, OLIM as int, VLIM as int, VLIM as int);
        }
        let p: Vec3 = r.at(root);
        let diff: Vec3 = p.sub(self.center);
        let outward_normal: Vec3 = diff.divide(self.radius);
        proof {
            assert(m3(outward_normal) == sphere_outward_s(*self, *r, root as int));
            assert(bounded3(m3(outward_normal), OUT_LIM as int));
        }
        Some(HitRecord::new(p, root, self.material, r, outward_normal))
    }
}


/// A root of the sphere quadratic lies on the sphere: in exact
/// arithmetic, whenever t solves a*t^2 + 2*hb*t + c = 0 with
/// a = |dir|^2, hb = oc.dir and c = |oc|^2 - r^2, the point oc + t*dir
/// has squared distance exactly r^2 from the center.  The executable
/// intersection approximates this root on the fixed-point grid.
pub proof fn lemma_root_on_sphere(oc: (int, int, int), dir: (int, int, int), t: int, r: int)
    requires
        exact_dot(dir, dir) * (t * t) + 2 * (t * exact_dot(oc, dir)) + (exact_dot(oc, oc) - r * r)
            == 0,
    ensures
        ({
            let p = (oc.0 + t * dir.0, oc.1 + t * dir.1, oc.2 + t * dir.2);
            exact_dot(p, p) == r * r
        }),
{
    let a = exact_dot(dir, dir);
    let hb = exact_dot(oc, dir);
    lemma_expand_sq_sum(oc.0, t * dir.0);
    lemma_expand_sq_sum(oc.1, t * dir.1);
    lemma_expand_sq_sum(oc.2, t * dir.2);
    lemma_mul_shuffle(oc.0, t, dir.0);
    lemma_mul_shuffle(oc.1, t, dir.1);
    lemma_mul_shuffle(oc.2, t, dir.2);
    lemma_mul_regroup(t, dir.0, t, dir.0);
    lemma_mul_regroup(t, dir.1, t, dir.1);
    lemma_mul_regroup(t, dir.2, t, dir.2);
    lemma_distrib3(t, oc.0 * dir.0, oc.1 * dir.1, oc.2 * dir.2);
    lemma_distrib3(t * t, dir.0 * dir.0, dir.1 * dir.1, dir.2 * dir.2);
    assert(a * (t * t) == (t * t) * a) by (nonlinear_arith);
}

/// The recursive meaning of the scene query: fold over the first n
/// objects, querying each with a window shrunk to the closest root found
/// so far, and keep the index and root of the winner.  The window is
/// open, so a later member whose root exactly ties the incumbent's is
/// rejected: the first-found hit wins an exact tie.
pub open spec fn list_hit_s(objs: Seq<Sphere>, r: Ray, t_min: int, t_max: int, n: int) -> Option<
    (int, int),
>
    decreases n,
{
    if n <= 0 {
        None
    } else {
        let prev = list_hit_s(objs, r, t_min, t_max, n - 1);
        let cur_max = match prev {
            Some(pr) => pr.1,
            None => t_max,
        };
        if sphere_hit_some_s(objs[n - 1], r, t_min, cur_max) {
            Some((n - 1, sphere_root_s(objs[n - 1], r, t_min, cur_max)))
        } else {
            prev
        }
    }
}

/// The scene: an insertion-ordered collection of spheres.
pub struct HittableList {
    pub objects: Vec<Sphere>,
}

impl HittableList {
    /// Every member lies in the working range and has a well-formed
    /// material.
    pub open spec fn wf(&self) -> bool {
        forall|i: int|
            0 <= i < self.objects@.len() ==> sphere_ok(#[trigger] self.objects@[i])
    }

    pub fn new() -> (l: HittableList)
        ensures
            l.objects@.len() == 0,
            l.wf(),
    {
        HittableList { objects: Vec::new() }
    }

    pub fn clear(&mut self)
        ensures
            final(self).objects@.len() == 0,
            final(self).wf(),
    {
        self.objects.clear();
    }

    pub fn add(&mut self, o: Sphere)
        requires
            sphere_ok(o),
            old(self).wf(),
        ensures
            final(self).objects@ == old(self).objects@.push(o),
            final(self).wf(),
    {
        self.objects.push(o);
    }

    /// The globally closest intersection within [t_min, t_max], or none.
    pub fn hit(&self, r: &Ray, t_min: i128, t_max: i128) -> (res: Option<HitRecord>)
        requires
            self.wf(),
            ray_ok_s(*r),
            -VLIM <= t_min <= VLIM,
            -VLIM <= t_max <= VLIM,
        ensures
            match res {
                None => list_hit_s(self.objects@, *r, t_min as int, t_max as int,
                    self.objects@.len() as int) is None,
                Some(rec) => list_hit_s(self.objects@, *r, t_min as int, t_max as int,
                    self.objects@.len() as int) matches Some(pair) && {
                    &&& 0 <= pair.0 < self.objects@.len()
                    &&& rec.t == pair.1
                    &&& t_min < rec.t < t_max
                    &&& rec_matches(rec, self.objects@[pair.0], *r, pair.1)
                    &&& dot_v(m3(r.direction), m3(rec.normal)) <= 0
                },
            },
    {
        let ghost tn = t_min as int;
        let ghost tx = t_max as int;
        let mut res: Option<HitRecord> = None;
        let mut closest_so_far: i128 = t_max;
        let n: usize = self.objects.len();
        let mut i: usize = 0;
        while i < n
            invariant
                self.wf(),
                ray_ok_s(*r),
                -VLIM <= t_min <= VLIM,
                -VLIM <= t_max <= VLIM,
                tn == t_min as int,
                tx == t_max as int,
                0 <= i <= n,
                n == self.objects@.len(),
                -VLIM <= closest_so_far <= VLIM,
                match res {
                    None => closest_so_far == t_max && list_hit_s(self.objects@, *r, tn, tx,
                        i as int) is None,
                    Some(rec) => list_hit_s(self.objects@, *r, tn, tx, i as int) matches Some(pair)
                        && {
                        &&& 0 <= pair.0 < i as int
                        &&& rec.t == pair.1
                        &&& closest_so_far == rec.t
                        &&& t_min < rec.t < t_max
                        &&& rec_matches(rec, self.objects@[pair.0], *r, pair.1)
                        &&& dot_v(m3(r.direction), m3(rec.normal)) <= 0
                    },
                },
            decreases n - i,
        {
            let s: Sphere = self.objects[i];
            match s.hit(r, t_min, closest_so_far) {
                Some(rec) => {
                    res = Some(rec);
                    closest_so_far = rec.t;
                },
                None => {},
            }
            i = i + 1;
        }
        res
    }
}

} // verus!

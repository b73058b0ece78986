//! What a ray can hit, and the record of a hit.

use vstd::prelude::*;
use crate::aabb::AABB;
use crate::aabb::Slab;
use crate::material::Material;
use crate::ray::Ray;
use crate::scalar::Scalar;
use crate::sphere::MovingSphere;
use crate::sphere::Roots;
use crate::sphere::Sphere;
use crate::sphere::Surface;
use crate::vec3::Vec3;

verus! {

/// Where a ray met a surface: the distance along the ray, the point, the
/// normal there (not always pointing outward) and the material struck.
#[derive(Clone, Copy, Debug)]
pub struct HitRecord {
    pub t: Scalar,
    pub p: Vec3,
    pub normal: Vec3,
    pub material: Material,
}

/// A primitive of the scene.
#[derive(Clone, Copy, Debug)]
pub enum Hittable {
    Sphere(Sphere),
    MovingSphere(MovingSphere),
}

/// The arithmetic of intersection, supplied by the caller.
pub struct Geometry<S, L, Q, P, C> {
    /// From a box's lower and upper coordinate and a ray's origin and
    /// direction on one axis, the distances to the two planes.
    pub slab: S,
    /// The point on a moving sphere's line of motion at a time.
    pub lerp: L,
    /// From a sphere's centre and radius and a ray, the roots of their
    /// quadratic.
    pub roots: Q,
    /// From a sphere's centre and radius, a ray and a distance, the point
    /// at that distance and the normal there.
    pub surface: P,
    /// From a centre and a half side, the cube around the centre.
    pub cube: C,
}

impl<S, L, Q, P, C> Geometry<S, L, Q, P, C> where
    S: Fn(Scalar, Scalar, Scalar, Scalar) -> Slab,
    L: Fn(MovingSphere, Scalar) -> Vec3,
    Q: Fn(Vec3, Scalar, Ray) -> Roots,
    P: Fn(Vec3, Scalar, Ray, Scalar) -> Surface,
    C: Fn(Vec3, Scalar) -> AABB,
 {
    /// Whether every function accepts every argument.
    pub open spec fn total(self) -> bool {
        &&& forall|a: Scalar, b: Scalar, c: Scalar, d: Scalar|
            call_requires(self.slab, (a, b, c, d))
        &&& forall|m: MovingSphere, t: Scalar| call_requires(self.lerp, (m, t))
        &&& forall|c: Vec3, radius: Scalar, r: Ray| call_requires(self.roots, (c, radius, r))
        &&& forall|c: Vec3, radius: Scalar, r: Ray, t: Scalar|
            call_requires(self.surface, (c, radius, r, t))
        &&& forall|c: Vec3, radius: Scalar| call_requires(self.cube, (c, radius))
    }
}

impl HitRecord {
    /// The record of a hit.
    pub fn new(t: Scalar, p: Vec3, normal: Vec3, material: Material) -> (h: HitRecord)
        ensures
            h == (HitRecord { t, p, normal, material }),
    {
        HitRecord { t, p, normal, material }
    }

    /// Of two answers the hit that is strictly nearer; of two hits of
    /// which the first is not strictly nearer, the second.
    pub open spec fn spec_nearer(left: Option<HitRecord>, right: Option<HitRecord>) -> Option<
        HitRecord,
    > {
        match (left, right) {
            (Some(l), Some(r)) => if l.t.lt(r.t) {
                Some(l)
            } else {
                Some(r)
            },
            (Some(l), None) => Some(l),
            (None, Some(r)) => Some(r),
            (None, None) => None,
        }
    }

    /// The nearer of two answers.
    #[verifier::when_used_as_spec(spec_nearer)]
    pub fn nearer(left: Option<HitRecord>, right: Option<HitRecord>) -> (out: Option<HitRecord>)
        ensures
            out == HitRecord::spec_nearer(left, right),
    {
        match (left, right) {
            (Some(l), Some(r)) => if l.t.lt(r.t) {
                Some(l)
            } else {
                Some(r)
            },
            (Some(l), None) => Some(l),
            (None, Some(r)) => Some(r),
            (None, None) => None,
        }
    }
}

impl Hittable {
    /// The material of the primitive.
    pub open spec fn spec_material(&self) -> Material {
        match *self {
            Hittable::Sphere(s) => s.material,
            Hittable::MovingSphere(m) => m.material,
        }
    }

    /// What the test of a ray against this primitive may answer.
    pub open spec fn hit_spec<S, L, Q, P, C>(
        self,
        r: Ray,
        tmin: Scalar,
        tmax: Scalar,
        g: Geometry<S, L, Q, P, C>,
        out: Option<HitRecord>,
    ) -> bool where
        S: Fn(Scalar, Scalar, Scalar, Scalar) -> Slab,
        L: Fn(MovingSphere, Scalar) -> Vec3,
        Q: Fn(Vec3, Scalar, Ray) -> Roots,
        P: Fn(Vec3, Scalar, Ray, Scalar) -> Surface,
        C: Fn(Vec3, Scalar) -> AABB,
     {
        match self {
            Hittable::Sphere(s) => s.hit_spec(r, tmin, tmax, g.roots, g.surface, out),
            Hittable::MovingSphere(m) => m.hit_spec(r, tmin, tmax, g.lerp, g.roots, g.surface, out),
        }
    }

    /// What may come out as the box around this primitive over a time
    /// span.
    pub open spec fn bounding_box_spec<S, L, Q, P, C>(
        self,
        t0: Scalar,
        t1: Scalar,
        g: Geometry<S, L, Q, P, C>,
        out: Option<AABB>,
    ) -> bool where
        S: Fn(Scalar, Scalar, Scalar, Scalar) -> Slab,
        L: Fn(MovingSphere, Scalar) -> Vec3,
        Q: Fn(Vec3, Scalar, Ray) -> Roots,
        P: Fn(Vec3, Scalar, Ray, Scalar) -> Surface,
        C: Fn(Vec3, Scalar) -> AABB,
     {
        match self {
            Hittable::Sphere(s) => s.bounding_box_spec(g.cube, out),
            Hittable::MovingSphere(m) => m.bounding_box_spec(t0, t1, g.lerp, g.cube, out),
        }
    }

    /// The material of the primitive.
    #[verifier::when_used_as_spec(spec_material)]
    pub fn material(&self) -> (m: Material)
        ensures
            m == self.spec_material(),
    {
        match self {
            Hittable::Sphere(s) => s.material,
            Hittable::MovingSphere(m) => m.material,
        }
    }

    /// The nearest point strictly inside the window at which the ray meets
    /// the primitive.
    pub fn hit<S, L, Q, P, C>(
        &self,
        r: &Ray,
        tmin: Scalar,
        tmax: Scalar,
        g: &Geometry<S, L, Q, P, C>,
    ) -> (out: Option<HitRecord>) where
        S: Fn(Scalar, Scalar, Scalar, Scalar) -> Slab,
        L: Fn(MovingSphere, Scalar) -> Vec3,
        Q: Fn(Vec3, Scalar, Ray) -> Roots,
        P: Fn(Vec3, Scalar, Ray, Scalar) -> Surface,
        C: Fn(Vec3, Scalar) -> AABB,

        requires
            g.total(),
        ensures
            self.hit_spec(*r, tmin, tmax, *g, out),
    {
        match self {
            Hittable::Sphere(s) => s.hit(r, tmin, tmax, &g.roots, &g.surface),
            Hittable::MovingSphere(m) => m.hit(r, tmin, tmax, &g.lerp, &g.roots, &g.surface),
        }
    }

    /// The box around everything the primitive touches between `t0` and
    /// `t1`.
    pub fn bounding_box<S, L, Q, P, C>(
        &self,
        t0: Scalar,
        t1: Scalar,
        g: &Geometry<S, L, Q, P, C>,
    ) -> (out: Option<AABB>) where
        S: Fn(Scalar, Scalar, Scalar, Scalar) -> Slab,
        L: Fn(MovingSphere, Scalar) -> Vec3,
        Q: Fn(Vec3, Scalar, Ray) -> Roots,
        P: Fn(Vec3, Scalar, Ray, Scalar) -> Surface,
        C: Fn(Vec3, Scalar) -> AABB,

        requires
            g.total(),
        ensures
            self.bounding_box_spec(t0, t1, *g, out),
            out is Some,
    {
        match self {
            Hittable::Sphere(s) => s.bounding_box(t0, t1, &g.cube),
            Hittable::MovingSphere(m) => m.bounding_box(t0, t1, &g.lerp, &g.cube),
        }
    }
}

/// What the scan of a list may answer from index `i` on, with the window
/// narrowed to end at the best hit so far: each primitive is tested in
/// turn, and a hit replaces the best and lowers the end of the window to
/// its own distance.
pub open spec fn scan_from<S, L, Q, P, C>(
    objs: Seq<Hittable>,
    i: int,
    r: Ray,
    tmin: Scalar,
    tmax: Scalar,
    best: Option<HitRecord>,
    g: Geometry<S, L, Q, P, C>,
    out: Option<HitRecord>,
) -> bool where
    S: Fn(Scalar, Scalar, Scalar, Scalar) -> Slab,
    L: Fn(MovingSphere, Scalar) -> Vec3,
    Q: Fn(Vec3, Scalar, Ray) -> Roots,
    P: Fn(Vec3, Scalar, Ray, Scalar) -> Surface,
    C: Fn(Vec3, Scalar) -> AABB,

    decreases objs.len() - i,
{
    if i < 0 || i >= objs.len() {
        out == best
    } else {
        exists|h: Option<HitRecord>| #[trigger]
            objs[i].hit_spec(r, tmin, tmax, g, h) && match h {
                Some(hit) => scan_from(objs, i + 1, r, tmin, hit.t, Some(hit), g, out),
                None => scan_from(objs, i + 1, r, tmin, tmax, best, g, out),
            }
    }
}

/// The nearest hit of the ray strictly inside the window among the
/// primitives of a list, found by testing every one of them in turn.
pub fn hit_list<S, L, Q, P, C>(
    objs: &Vec<Hittable>,
    r: &Ray,
    tmin: Scalar,
    tmax: Scalar,
    g: &Geometry<S, L, Q, P, C>,
) -> (out: Option<HitRecord>) where
    S: Fn(Scalar, Scalar, Scalar, Scalar) -> Slab,
    L: Fn(MovingSphere, Scalar) -> Vec3,
    Q: Fn(Vec3, Scalar, Ray) -> Roots,
    P: Fn(Vec3, Scalar, Ray, Scalar) -> Surface,
    C: Fn(Vec3, Scalar) -> AABB,

    requires
        g.total(),
    ensures
        scan_from(objs@, 0, *r, tmin, tmax, None, *g, out),
{
    let mut result: Option<HitRecord> = None;
    let mut end = tmax;
    let mut i: usize = 0;
    while i < objs.len()
        invariant
            i <= objs@.len(),
            g.total(),
            forall|o: Option<HitRecord>|
                scan_from(objs@, i as int, *r, tmin, end, result, *g, o) ==> scan_from(
                    objs@,
                    0,
                    *r,
                    tmin,
                    tmax,
                    None,
                    *g,
                    o,
                ),
        decreases objs@.len() - i,
    {
        let ghost before_end = end;
        let ghost before_result = result;
        let h = objs[i].hit(r, tmin, end, g);
        match h {
            Some(hit) => {
                end = hit.t;
                result = Some(hit);
            },
            None => {},
        }
        assert forall|o: Option<HitRecord>|
            scan_from(objs@, i + 1, *r, tmin, end, result, *g, o) implies scan_from(
            objs@,
            i as int,
            *r,
            tmin,
            before_end,
            before_result,
            *g,
            o,
        ) by {
            assert(objs@[i as int].hit_spec(*r, tmin, before_end, *g, h));
        }
        i = i + 1;
    }
    result
}

} // verus!

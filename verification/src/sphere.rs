//! Spheres, at rest and in motion.
//!
//! A ray meets a sphere at the roots of a quadratic. Finding the roots, and
//! the point and normal at a root, is arithmetic that the caller supplies;
//! which root counts as the hit is decided here.

use vstd::prelude::*;
use crate::aabb::AABB;
use crate::hittable::HitRecord;
use crate::material::Material;
use crate::ray::Ray;
use crate::scalar::Scalar;
use crate::vec3::Vec3;

verus! {

/// A sphere at rest.
#[derive(Clone, Copy, Debug)]
pub struct Sphere {
    pub center: Vec3,
    pub radius: Scalar,
    pub material: Material,
}

/// A sphere whose centre moves on a line from `center0` at `time0` to
/// `center1` at `time1`, and rests there afterwards.
#[derive(Clone, Copy, Debug)]
pub struct MovingSphere {
    pub center0: Vec3,
    pub center1: Vec3,
    pub time0: Scalar,
    pub time1: Scalar,
    pub radius: Scalar,
    pub material: Material,
}

/// What the arithmetic yields for a ray and a sphere: the discriminant of
/// the quadratic in its half-angle form, and its two roots, which mean
/// something only where the discriminant is positive.
#[derive(Clone, Copy, Debug)]
pub struct Roots {
    pub discriminant: Scalar,
    pub near: Scalar,
    pub far: Scalar,
}

/// What the arithmetic yields for a point of a sphere's surface: the point
/// and the normal there.
#[derive(Clone, Copy, Debug)]
pub struct Surface {
    pub p: Vec3,
    pub normal: Vec3,
}

impl Roots {
    /// The distance of the hit: nothing unless the discriminant is
    /// positive (a ray that only touches misses), else the near root where
    /// it lies strictly inside the window, else the far root where that
    /// does, else nothing.
    pub open spec fn spec_select(self, tmin: Scalar, tmax: Scalar) -> Option<Scalar> {
        if self.discriminant.gt(Scalar::zero()) {
            if tmin.lt(self.near) && self.near.lt(tmax) {
                Some(self.near)
            } else if tmin.lt(self.far) && self.far.lt(tmax) {
                Some(self.far)
            } else {
                None
            }
        } else {
            None
        }
    }

    /// The distance of the hit, if the roots hold one inside the window.
    #[verifier::when_used_as_spec(spec_select)]
    pub fn select(self, tmin: Scalar, tmax: Scalar) -> (out: Option<Scalar>)
        ensures
            out == self.spec_select(tmin, tmax),
    {
        if self.discriminant.gt(Scalar::zero()) {
            if tmin.lt(self.near) && self.near.lt(tmax) {
                Some(self.near)
            } else if tmin.lt(self.far) && self.far.lt(tmax) {
                Some(self.far)
            } else {
                None
            }
        } else {
            None
        }
    }

    /// A hit lies strictly inside the window, so it is a number.
    pub proof fn lemma_select_in_window(self, tmin: Scalar, tmax: Scalar)
        ensures
            self.select(tmin, tmax) matches Some(t) ==> tmin.lt(t) && t.lt(tmax) && !t.is_nan(),
    {
    }

    /// Lowering the upper end of the window loses the hit where it lies at
    /// or beyond the new end and changes nothing else, as long as the far
    /// root is not before the near one.
    pub proof fn lemma_select_narrowed(self, tmin: Scalar, tmax: Scalar, lower: Scalar)
        requires
            !self.far.lt(self.near),
            lower.le(tmax),
        ensures
            self.select(tmin, lower) == match self.select(tmin, tmax) {
                Some(t) => if t.lt(lower) {
                    Some(t)
                } else {
                    None
                },
                None => None,
            },
    {
    }
}

/// What the test of a ray against a sphere with the given centre may
/// answer.
pub open spec fn ball_hit_spec<Q: Fn(Vec3, Scalar, Ray) -> Roots, P: Fn(Vec3, Scalar, Ray, Scalar) -> Surface>(
    center: Vec3,
    radius: Scalar,
    material: Material,
    r: Ray,
    tmin: Scalar,
    tmax: Scalar,
    roots: Q,
    surface: P,
    out: Option<HitRecord>,
) -> bool {
    exists|q: Roots|
        {
            &&& #[trigger] call_ensures(roots, (center, radius, r), q)
            &&& match q.select(tmin, tmax) {
                None => out is None,
                Some(t) => exists|s: Surface| #[trigger]
                    call_ensures(surface, (center, radius, r, t), s) && out == Some(
                        HitRecord { t, p: s.p, normal: s.normal, material },
                    ),
            }
        }
}

/// Tests a ray against a sphere with the given centre. `roots` is asked
/// once; `surface` is asked once, for the distance of the hit, where there
/// is one.
pub fn ball_hit<Q: Fn(Vec3, Scalar, Ray) -> Roots, P: Fn(Vec3, Scalar, Ray, Scalar) -> Surface>(
    center: Vec3,
    radius: Scalar,
    material: Material,
    r: &Ray,
    tmin: Scalar,
    tmax: Scalar,
    roots: &Q,
    surface: &P,
) -> (out: Option<HitRecord>)
    requires
        call_requires(*roots, (center, radius, *r)),
        forall|t: Scalar| call_requires(*surface, (center, radius, *r, t)),
    ensures
        ball_hit_spec(center, radius, material, *r, tmin, tmax, *roots, *surface, out),
{
    let q = roots(center, radius, *r);
    match q.select(tmin, tmax) {
        None => None,
        Some(t) => {
            let s = surface(center, radius, *r, t);
            Some(HitRecord::new(t, s.p, s.normal, material))
        },
    }
}

impl Sphere {
    /// The sphere around `center`.
    pub fn new(center: Vec3, radius: Scalar, material: Material) -> (s: Sphere)
        ensures
            s == (Sphere { center, radius, material }),
    {
        Sphere { center, radius, material }
    }

    /// What the test of a ray against this sphere may answer.
    pub open spec fn hit_spec<Q: Fn(Vec3, Scalar, Ray) -> Roots, P: Fn(Vec3, Scalar, Ray, Scalar) -> Surface>(
        self,
        r: Ray,
        tmin: Scalar,
        tmax: Scalar,
        roots: Q,
        surface: P,
        out: Option<HitRecord>,
    ) -> bool {
        ball_hit_spec(self.center, self.radius, self.material, r, tmin, tmax, roots, surface, out)
    }

    /// What may come out as the box around this sphere.
    pub open spec fn bounding_box_spec<C: Fn(Vec3, Scalar) -> AABB>(
        self,
        cube: C,
        out: Option<AABB>,
    ) -> bool {
        exists|b: AABB| #[trigger] call_ensures(cube, (self.center, self.radius), b) && out == Some(b)
    }

    /// The nearest point strictly inside the window at which the ray meets
    /// the sphere.
    pub fn hit<Q: Fn(Vec3, Scalar, Ray) -> Roots, P: Fn(Vec3, Scalar, Ray, Scalar) -> Surface>(
        &self,
        r: &Ray,
        tmin: Scalar,
        tmax: Scalar,
        roots: &Q,
        surface: &P,
    ) -> (out: Option<HitRecord>)
        requires
            call_requires(*roots, (self.center, self.radius, *r)),
            forall|t: Scalar| call_requires(*surface, (self.center, self.radius, *r, t)),
        ensures
            self.hit_spec(*r, tmin, tmax, *roots, *surface, out),
    {
        ball_hit(self.center, self.radius, self.material, r, tmin, tmax, roots, surface)
    }

    /// The box around the sphere, whatever the time span: `cube` is asked
    /// for the cube around the centre whose half side is the radius.
    pub fn bounding_box<C: Fn(Vec3, Scalar) -> AABB>(&self, t0: Scalar, t1: Scalar, cube: &C) -> (out:
        Option<AABB>)
        requires
            call_requires(*cube, (self.center, self.radius)),
        ensures
            self.bounding_box_spec(*cube, out),
            out is Some,
    {
        Some(cube(self.center, self.radius))
    }
}

impl MovingSphere {
    /// The sphere that moves from `center0` at `time0` to `center1` at
    /// `time1`.
    pub fn new(
        center0: Vec3,
        center1: Vec3,
        time0: Scalar,
        time1: Scalar,
        radius: Scalar,
        material: Material,
    ) -> (s: MovingSphere)
        ensures
            s == (MovingSphere { center0, center1, time0, time1, radius, material }),
    {
        MovingSphere { center0, center1, time0, time1, radius, material }
    }

    /// What may come out as the centre at a time: what `lerp` gives for
    /// that time, held at `time1` from `time1` on.
    pub open spec fn center_spec<L: Fn(MovingSphere, Scalar) -> Vec3>(
        self,
        time: Scalar,
        lerp: L,
        out: Vec3,
    ) -> bool {
        call_ensures(lerp, (self, time.min(self.time1)), out)
    }

    /// What the test of a ray against this sphere may answer: that of a
    /// sphere at rest where the centre is at the ray's time.
    pub open spec fn hit_spec<
        L: Fn(MovingSphere, Scalar) -> Vec3,
        Q: Fn(Vec3, Scalar, Ray) -> Roots,
        P: Fn(Vec3, Scalar, Ray, Scalar) -> Surface,
    >(
        self,
        r: Ray,
        tmin: Scalar,
        tmax: Scalar,
        lerp: L,
        roots: Q,
        surface: P,
        out: Option<HitRecord>,
    ) -> bool {
        exists|c: Vec3| #[trigger]
            self.center_spec(r.time, lerp, c) && ball_hit_spec(
                c,
                self.radius,
                self.material,
                r,
                tmin,
                tmax,
                roots,
                surface,
                out,
            )
    }

    /// What may come out as the box around this sphere over a time span:
    /// the box around the cubes at the two ends of the span.
    pub open spec fn bounding_box_spec<L: Fn(MovingSphere, Scalar) -> Vec3, C: Fn(Vec3, Scalar) -> AABB>(
        self,
        t0: Scalar,
        t1: Scalar,
        lerp: L,
        cube: C,
        out: Option<AABB>,
    ) -> bool {
        exists|c0: Vec3, c1: Vec3, b0: AABB, b1: AABB|
            {
                &&& #[trigger] self.center_spec(t0, lerp, c0)
                &&& #[trigger] self.center_spec(t1, lerp, c1)
                &&& #[trigger] call_ensures(cube, (c0, self.radius), b0)
                &&& #[trigger] call_ensures(cube, (c1, self.radius), b1)
                &&& out == Some(AABB::surrounding_box(b0, b1))
            }
    }

    /// The centre at a time. `lerp` is asked for the point on the line of
    /// motion, with a time that is never later than `time1`.
    pub fn center<L: Fn(MovingSphere, Scalar) -> Vec3>(&self, time: Scalar, lerp: &L) -> (out: Vec3)
        requires
            forall|t: Scalar| call_requires(*lerp, (*self, t)),
        ensures
            self.center_spec(time, *lerp, out),
    {
        lerp(*self, time.min(self.time1))
    }

    /// The nearest point strictly inside the window at which the ray meets
    /// the sphere, where the sphere is at the ray's time.
    pub fn hit<
        L: Fn(MovingSphere, Scalar) -> Vec3,
        Q: Fn(Vec3, Scalar, Ray) -> Roots,
        P: Fn(Vec3, Scalar, Ray, Scalar) -> Surface,
    >(&self, r: &Ray, tmin: Scalar, tmax: Scalar, lerp: &L, roots: &Q, surface: &P) -> (out: Option<
        HitRecord,
    >)
        requires
            forall|t: Scalar| call_requires(*lerp, (*self, t)),
            forall|c: Vec3| call_requires(*roots, (c, self.radius, *r)),
            forall|c: Vec3, t: Scalar| call_requires(*surface, (c, self.radius, *r, t)),
        ensures
            self.hit_spec(*r, tmin, tmax, *lerp, *roots, *surface, out),
    {
        let c = self.center(r.time, lerp);
        ball_hit(c, self.radius, self.material, r, tmin, tmax, roots, surface)
    }

    /// The box around everything the sphere touches between `t0` and `t1`.
    pub fn bounding_box<L: Fn(MovingSphere, Scalar) -> Vec3, C: Fn(Vec3, Scalar) -> AABB>(
        &self,
        t0: Scalar,
        t1: Scalar,
        lerp: &L,
        cube: &C,
    ) -> (out: Option<AABB>)
        requires
            forall|t: Scalar| call_requires(*lerp, (*self, t)),
            forall|c: Vec3| call_requires(*cube, (c, self.radius)),
        ensures
            self.bounding_box_spec(t0, t1, *lerp, *cube, out),
            out is Some,
    {
        let c0 = self.center(t0, lerp);
        let c1 = self.center(t1, lerp);
        let box0 = cube(c0, self.radius);
        let box1 = cube(c1, self.radius);
        Some(AABB::surrounding_box(box0, box1))
    }
}

} // verus!

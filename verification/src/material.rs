//! The three scattering models.
//!
//! A material decides whether a ray that struck it goes on, in which
//! direction and with which attenuation. The directions themselves are
//! arithmetic on random draws and come from the caller's functions; which
//! of them is taken, and whether the ray is absorbed, is decided here.

use vstd::prelude::*;
use crate::hittable::HitRecord;
use crate::ray::Ray;
use crate::scalar::Scalar;
use crate::vec3::Vec3;

verus! {

/// A diffuse surface.
#[derive(Clone, Copy, Debug)]
pub struct Lambertian {
    pub albedo: Vec3,
}

/// A mirror whose reflection is blurred by `fuzz`, which lies in `[0, 1]`.
#[derive(Clone, Copy, Debug)]
pub struct Metal {
    pub albedo: Vec3,
    pub fuzz: Scalar,
}

/// A clear medium such as glass.
#[derive(Clone, Copy, Debug)]
pub struct Dielectric {
    pub refractive_index: Scalar,
}

/// The material of a surface.
#[derive(Clone, Copy, Debug)]
pub enum Material {
    Lambertian(Lambertian),
    Metal(Metal),
    Dielectric(Dielectric),
}

/// What the arithmetic yields for a ray at the boundary of a clear medium.
#[derive(Clone, Copy, Debug)]
pub struct Refraction {
    /// The mirrored direction.
    pub reflected: Vec3,
    /// The term under the root in Snell's law; the ray can only pass where
    /// it is positive.
    pub discriminant: Scalar,
    /// The bent direction, meaningful where the discriminant is positive.
    pub refracted: Vec3,
    /// The share of light that is mirrored, by Schlick's approximation.
    pub reflect_prob: Scalar,
    /// A uniform draw from `[0, 1)`.
    pub sample: Scalar,
}

/// The arithmetic of scattering, supplied by the caller.
pub struct Optics<D, M, P, R, X> {
    /// From a hit, the direction of a diffusely scattered ray.
    pub diffuse: D,
    /// From the incoming ray, the hit and the fuzz, the direction of a
    /// blurred mirror reflection.
    pub specular: M,
    /// The dot product of two triples.
    pub dot: P,
    /// From the incoming ray, the hit, the refractive index and whether the
    /// ray leaves the medium, the candidates at a clear boundary.
    pub refraction: R,
    /// The product of an attenuation and a colour, channel by channel.
    pub tint: X,
}

impl<D, M, P, R, X> Optics<D, M, P, R, X> where
    D: Fn(HitRecord) -> Vec3,
    M: Fn(Ray, HitRecord, Scalar) -> Vec3,
    P: Fn(Vec3, Vec3) -> Scalar,
    R: Fn(Ray, HitRecord, Scalar, bool) -> Refraction,
    X: Fn(Vec3, Vec3) -> Vec3,
 {
    /// Whether every function accepts every argument.
    pub open spec fn total(self) -> bool {
        &&& forall|h: HitRecord| call_requires(self.diffuse, (h,))
        &&& forall|r: Ray, h: HitRecord, f: Scalar| call_requires(self.specular, (r, h, f))
        &&& forall|a: Vec3, b: Vec3| call_requires(self.dot, (a, b))
        &&& forall|r: Ray, h: HitRecord, n: Scalar, e: bool|
            call_requires(self.refraction, (r, h, n, e))
        &&& forall|a: Vec3, b: Vec3| call_requires(self.tint, (a, b))
    }
}

impl Refraction {
    /// The bent direction, unless the light is reflected totally.
    pub open spec fn spec_refract(self) -> Option<Vec3> {
        if self.discriminant.gt(Scalar::zero()) {
            Some(self.refracted)
        } else {
            None
        }
    }

    /// The direction the ray takes: the mirrored one under total
    /// reflection, and otherwise the mirrored one exactly when the draw
    /// falls below the mirrored share.
    pub open spec fn spec_pick(self) -> Vec3 {
        match self.spec_refract() {
            Some(refracted) => if self.sample.lt(self.reflect_prob) {
                self.reflected
            } else {
                refracted
            },
            None => self.reflected,
        }
    }

    /// The bent direction, unless the light is reflected totally.
    #[verifier::when_used_as_spec(spec_refract)]
    pub fn refract(self) -> (out: Option<Vec3>)
        ensures
            out == self.spec_refract(),
    {
        if self.discriminant.gt(Scalar::zero()) {
            Some(self.refracted)
        } else {
            None
        }
    }

    /// The direction the ray takes.
    #[verifier::when_used_as_spec(spec_pick)]
    pub fn pick(self) -> (out: Vec3)
        ensures
            out == self.spec_pick(),
    {
        match self.refract() {
            Some(refracted) => if self.sample.lt(self.reflect_prob) {
                self.reflected
            } else {
                refracted
            },
            None => self.reflected,
        }
    }
}

impl Lambertian {
    /// A diffuse surface of this colour.
    pub fn new(albedo: Vec3) -> (m: Lambertian)
        ensures
            m == (Lambertian { albedo }),
    {
        Lambertian { albedo }
    }

    /// What scattering off this surface may give: always a ray, from the
    /// point that was struck, at the time of the incoming ray, attenuated
    /// by the albedo.
    pub open spec fn scatter_spec<D: Fn(HitRecord) -> Vec3>(
        self,
        r: Ray,
        hit: HitRecord,
        diffuse: D,
        out: Option<(Vec3, Ray)>,
    ) -> bool {
        exists|d: Vec3| #[trigger]
            call_ensures(diffuse, (hit,), d) && out == Some(
                (self.albedo, Ray { origin: hit.p, direction: d, time: r.time }),
            )
    }

    /// Scatters a ray off the surface: `diffuse` is asked once for the
    /// direction, and the ray always goes on.
    pub fn scatter<D: Fn(HitRecord) -> Vec3>(&self, r: &Ray, hit: &HitRecord, diffuse: &D) -> (out:
        Option<(Vec3, Ray)>)
        requires
            call_requires(*diffuse, (*hit,)),
        ensures
            self.scatter_spec(*r, *hit, *diffuse, out),
            out is Some,
    {
        let d = diffuse(*hit);
        Some((self.albedo, Ray::new(hit.p, d, r.time)))
    }
}

impl Metal {
    /// The blur a mirror gets for a requested `fuzz`: the request itself
    /// within `[0, 1]`, the nearer end outside, and 1 for what is not a
    /// number.
    pub open spec fn clamp_fuzz(fuzz: Scalar) -> Scalar {
        fuzz.min(Scalar::one()).max(Scalar::zero())
    }

    /// A mirror of this colour; the blur is brought into `[0, 1]`.
    pub fn new(albedo: Vec3, fuzz: Scalar) -> (m: Metal)
        ensures
            m == (Metal { albedo, fuzz: Metal::clamp_fuzz(fuzz) }),
            Scalar::zero().le(m.fuzz),
            m.fuzz.le(Scalar::one()),
            Scalar::zero().le(fuzz) && fuzz.le(Scalar::one()) ==> m.fuzz == fuzz,
    {
        Metal { albedo, fuzz: fuzz.min(Scalar::one()).max(Scalar::zero()) }
    }

    /// What scattering off this mirror may give: the reflected ray where it
    /// leaves the surface, and nothing where it would run into it.
    pub open spec fn scatter_spec<M: Fn(Ray, HitRecord, Scalar) -> Vec3, P: Fn(Vec3, Vec3) -> Scalar>(
        self,
        r: Ray,
        hit: HitRecord,
        specular: M,
        dot: P,
        out: Option<(Vec3, Ray)>,
    ) -> bool {
        exists|d: Vec3, facing: Scalar|
            {
                &&& #[trigger] call_ensures(specular, (r, hit, self.fuzz), d)
                &&& #[trigger] call_ensures(dot, (d, hit.normal), facing)
                &&& out == if facing.gt(Scalar::zero()) {
                    Some((self.albedo, Ray { origin: hit.p, direction: d, time: r.time }))
                } else {
                    None
                }
            }
    }

    /// Scatters a ray off the mirror: `specular` is asked once for the
    /// direction, with the mirror's blur, and `dot` once for how the direction
    /// stands to the normal; the ray is absorbed unless it leaves the surface.
    pub fn scatter<M: Fn(Ray, HitRecord, Scalar) -> Vec3, P: Fn(Vec3, Vec3) -> Scalar>(
        &self,
        r: &Ray,
        hit: &HitRecord,
        specular: &M,
        dot: &P,
    ) -> (out: Option<(Vec3, Ray)>)
        requires
            call_requires(*specular, (*r, *hit, self.fuzz)),
            forall|a: Vec3, b: Vec3| call_requires(*dot, (a, b)),
        ensures
            self.scatter_spec(*r, *hit, *specular, *dot, out),
    {
        let d = specular(*r, *hit, self.fuzz);
        let facing = dot(d, hit.normal);
        if facing.gt(Scalar::zero()) {
            Some((self.albedo, Ray::new(hit.p, d, r.time)))
        } else {
            None
        }
    }
}

impl Dielectric {
    /// A clear medium with this refractive index.
    pub fn new(refractive_index: Scalar) -> (m: Dielectric)
        ensures
            m == (Dielectric { refractive_index }),
    {
        Dielectric { refractive_index }
    }

    /// What scattering at this boundary may give: always a ray, never
    /// attenuated. The ray leaves the medium exactly when it runs along the
    /// normal; which direction it takes is `Refraction::pick`.
    pub open spec fn scatter_spec<
        P: Fn(Vec3, Vec3) -> Scalar,
        R: Fn(Ray, HitRecord, Scalar, bool) -> Refraction,
    >(self, r: Ray, hit: HitRecord, dot: P, refraction: R, out: Option<(Vec3, Ray)>) -> bool {
        exists|facing: Scalar, c: Refraction|
            {
                &&& #[trigger] call_ensures(dot, (r.direction, hit.normal), facing)
                &&& #[trigger] call_ensures(
                    refraction,
                    (r, hit, self.refractive_index, facing.gt(Scalar::zero())),
                    c,
                )
                &&& out == Some(
                    (
                        Vec3 { x: Scalar::one(), y: Scalar::one(), z: Scalar::one() },
                        Ray { origin: hit.p, direction: c.pick(), time: r.time },
                    ),
                )
            }
    }

    /// Scatters a ray at the boundary: `dot` is asked once for how the ray
    /// stands to the normal, `refraction` once for the candidates, and the
    /// ray always goes on.
    pub fn scatter<
        P: Fn(Vec3, Vec3) -> Scalar,
        R: Fn(Ray, HitRecord, Scalar, bool) -> Refraction,
    >(&self, r: &Ray, hit: &HitRecord, dot: &P, refraction: &R) -> (out: Option<(Vec3, Ray)>)
        requires
            forall|a: Vec3, b: Vec3| call_requires(*dot, (a, b)),
            forall|e: bool| call_requires(*refraction, (*r, *hit, self.refractive_index, e)),
        ensures
            self.scatter_spec(*r, *hit, *dot, *refraction, out),
            out is Some,
    {
        let facing = dot(r.direction, hit.normal);
        let exiting = facing.gt(Scalar::zero());
        let c = refraction(*r, *hit, self.refractive_index, exiting);
        let out = Some((Vec3::ones(), Ray::new(hit.p, c.pick(), r.time)));
        assert(call_ensures(*dot, (r.direction, hit.normal), facing) && call_ensures(
            *refraction,
            (*r, *hit, self.refractive_index, facing.gt(Scalar::zero())),
            c,
        ));
        out
    }
}

impl Material {
    /// What scattering off this material may give, by its kind.
    pub open spec fn scatter_spec<D, M, P, R, X>(
        self,
        r: Ray,
        hit: HitRecord,
        optics: Optics<D, M, P, R, X>,
        out: Option<(Vec3, Ray)>,
    ) -> bool where
        D: Fn(HitRecord) -> Vec3,
        M: Fn(Ray, HitRecord, Scalar) -> Vec3,
        P: Fn(Vec3, Vec3) -> Scalar,
        R: Fn(Ray, HitRecord, Scalar, bool) -> Refraction,
        X: Fn(Vec3, Vec3) -> Vec3,
     {
        match self {
            Material::Lambertian(m) => m.scatter_spec(r, hit, optics.diffuse, out),
            Material::Metal(m) => m.scatter_spec(r, hit, optics.specular, optics.dot, out),
            Material::Dielectric(m) => m.scatter_spec(r, hit, optics.dot, optics.refraction, out),
        }
    }

    /// Whether the material can absorb a ray: only a mirror can.
    pub open spec fn may_absorb(self) -> bool {
        self is Metal
    }

    /// Scatters a ray that struck this material: the attenuation and the
    /// ray that goes on, or nothing where the ray is absorbed.
    pub fn scatter<D, M, P, R, X>(
        &self,
        r: &Ray,
        hit: &HitRecord,
        optics: &Optics<D, M, P, R, X>,
    ) -> (out: Option<(Vec3, Ray)>) where
        D: Fn(HitRecord) -> Vec3,
        M: Fn(Ray, HitRecord, Scalar) -> Vec3,
        P: Fn(Vec3, Vec3) -> Scalar,
        R: Fn(Ray, HitRecord, Scalar, bool) -> Refraction,
        X: Fn(Vec3, Vec3) -> Vec3,

        requires
            optics.total(),
        ensures
            self.scatter_spec(*r, *hit, *optics, out),
            !self.may_absorb() ==> out is Some,
    {
        match self {
            Material::Lambertian(m) => m.scatter(r, hit, &optics.diffuse),
            Material::Metal(m) => m.scatter(r, hit, &optics.specular, &optics.dot),
            Material::Dielectric(m) => m.scatter(r, hit, &optics.dot, &optics.refraction),
        }
    }
}

} // verus!

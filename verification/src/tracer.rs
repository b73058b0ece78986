//! The light-transport estimator and the progressive render loop.

use vstd::prelude::*;
use crate::aabb::AABB;
use crate::aabb::Slab;
use crate::bvh::BVH;
use crate::bvh::Bounded;
use crate::bvh::measured_all;
use crate::camera::Camera;
use crate::hittable::Geometry;
use crate::hittable::HitRecord;
use crate::hittable::Hittable;
use crate::material::Optics;
use crate::material::Refraction;
use crate::ray::Ray;
use crate::rng::ThreadRng;
use crate::scalar::Scalar;
use crate::sorting::spec_keys_are_ordered;
use crate::sphere::MovingSphere;
use crate::sphere::Roots;
use crate::sphere::Surface;
use crate::vec3::Vec3;

verus! {

/// The number of bounces after which a path that still hits something is
/// cut off and counts as black.
pub const MAX_DEPTH: usize = 50;

/// The pattern of one thousandth, the nearest distance at which a ray can
/// hit: nearer hits are the surface that the ray starts from.
pub const NEAREST_HIT_BITS: u32 = 0x3a83_126f;

/// Black.
pub open spec fn black() -> Vec3 {
    Vec3 { x: Scalar::zero(), y: Scalar::zero(), z: Scalar::zero() }
}

/// What the estimator may return for a ray that has bounced `depth` times.
/// A ray that hits nothing sees the environment. A ray that hits something
/// after `MAX_DEPTH` bounces or more, or whose hit absorbs it, is black.
/// Any other ray is what its scattered ray returns, one bounce deeper,
/// tinted by the attenuation.
pub open spec fn color_spec<F, S, L, Q, P, C, D, M, DP, R, X>(
    r: Ray,
    world: BVH,
    skybox: F,
    depth: int,
    g: Geometry<S, L, Q, P, C>,
    optics: Optics<D, M, DP, R, X>,
    out: Vec3,
) -> bool where
    F: Fn(&Ray) -> Vec3,
    S: Fn(Scalar, Scalar, Scalar, Scalar) -> Slab,
    L: Fn(MovingSphere, Scalar) -> Vec3,
    Q: Fn(Vec3, Scalar, Ray) -> Roots,
    P: Fn(Vec3, Scalar, Ray, Scalar) -> Surface,
    C: Fn(Vec3, Scalar) -> AABB,
    D: Fn(HitRecord) -> Vec3,
    M: Fn(Ray, HitRecord, Scalar) -> Vec3,
    DP: Fn(Vec3, Vec3) -> Scalar,
    R: Fn(Ray, HitRecord, Scalar, bool) -> Refraction,
    X: Fn(Vec3, Vec3) -> Vec3,

    decreases (if depth < MAX_DEPTH { MAX_DEPTH - depth } else { 0 }),
{
    exists|h: Option<HitRecord>| #[trigger]
        world.hit_spec(r, Scalar { bits: NEAREST_HIT_BITS }, Scalar::max_value(), g, h) && match h {
            None => call_ensures(skybox, (&r,), out),
            Some(hit) => if depth >= MAX_DEPTH {
                out == black()
            } else {
                exists|s: Option<(Vec3, Ray)>| #[trigger]
                    hit.material.scatter_spec(r, hit, optics, s) && match s {
                        None => out == black(),
                        Some((attenuation, scattered)) => exists|inner: Vec3|
                            color_spec(scattered, world, skybox, depth + 1, g, optics, inner)
                                && #[trigger] call_ensures(optics.tint, (attenuation, inner), out),
                    }
            },
        }
}

/// The light that arrives along a ray which has bounced `depth` times.
pub fn color<F, S, L, Q, P, C, D, M, DP, R, X>(
    r: &Ray,
    world: &BVH,
    skybox: &F,
    depth: usize,
    g: &Geometry<S, L, Q, P, C>,
    optics: &Optics<D, M, DP, R, X>,
) -> (out: Vec3) where
    F: Fn(&Ray) -> Vec3,
    S: Fn(Scalar, Scalar, Scalar, Scalar) -> Slab,
    L: Fn(MovingSphere, Scalar) -> Vec3,
    Q: Fn(Vec3, Scalar, Ray) -> Roots,
    P: Fn(Vec3, Scalar, Ray, Scalar) -> Surface,
    C: Fn(Vec3, Scalar) -> AABB,
    D: Fn(HitRecord) -> Vec3,
    M: Fn(Ray, HitRecord, Scalar) -> Vec3,
    DP: Fn(Vec3, Vec3) -> Scalar,
    R: Fn(Ray, HitRecord, Scalar, bool) -> Refraction,
    X: Fn(Vec3, Vec3) -> Vec3,

    requires
        g.total(),
        optics.total(),
        forall|x: Ray| call_requires(*skybox, (&x,)),
    ensures
        color_spec(*r, *world, *skybox, depth as int, *g, *optics, out),
    decreases (if depth < MAX_DEPTH { MAX_DEPTH - depth } else { 0 }),
{
    let h = world.hit(r, Scalar::from_bits(NEAREST_HIT_BITS), Scalar::max_value(), g);
    assert(world.hit_spec(*r, Scalar { bits: NEAREST_HIT_BITS }, Scalar::max_value(), *g, h));
    match h {
        None => skybox(r),
        Some(hit) => {
            if depth >= MAX_DEPTH {
                return Vec3::zeros();
            }
            let s = hit.material.scatter(r, &hit, optics);
            assert(hit.material.scatter_spec(*r, hit, *optics, s));
            match s {
                None => Vec3::zeros(),
                Some((attenuation, scattered)) => {
                    let inner = color(&scattered, world, skybox, depth + 1, g, optics);
                    (optics.tint)(attenuation, inner)
                },
            }
        },
    }
}

/// A ray that hits nothing returns what the environment gives for it,
/// whatever its depth.
pub proof fn lemma_miss_sees_environment<F, S, L, Q, P, C, D, M, DP, R, X>(
    r: Ray,
    world: BVH,
    skybox: F,
    depth: int,
    g: Geometry<S, L, Q, P, C>,
    optics: Optics<D, M, DP, R, X>,
    out: Vec3,
) where
    F: Fn(&Ray) -> Vec3,
    S: Fn(Scalar, Scalar, Scalar, Scalar) -> Slab,
    L: Fn(MovingSphere, Scalar) -> Vec3,
    Q: Fn(Vec3, Scalar, Ray) -> Roots,
    P: Fn(Vec3, Scalar, Ray, Scalar) -> Surface,
    C: Fn(Vec3, Scalar) -> AABB,
    D: Fn(HitRecord) -> Vec3,
    M: Fn(Ray, HitRecord, Scalar) -> Vec3,
    DP: Fn(Vec3, Vec3) -> Scalar,
    R: Fn(Ray, HitRecord, Scalar, bool) -> Refraction,
    X: Fn(Vec3, Vec3) -> Vec3,

    requires
        forall|h: Option<HitRecord>|
            world.hit_spec(r, Scalar { bits: NEAREST_HIT_BITS }, Scalar::max_value(), g, h)
                ==> h is None,
        color_spec(r, world, skybox, depth, g, optics, out),
    ensures
        call_ensures(skybox, (&r,), out),
{
}

/// A ray that has bounced `MAX_DEPTH` times or more returns what the
/// environment gives for it, or black.
pub proof fn lemma_deep_ray_is_cut_off<F, S, L, Q, P, C, D, M, DP, R, X>(
    r: Ray,
    world: BVH,
    skybox: F,
    depth: int,
    g: Geometry<S, L, Q, P, C>,
    optics: Optics<D, M, DP, R, X>,
    out: Vec3,
) where
    F: Fn(&Ray) -> Vec3,
    S: Fn(Scalar, Scalar, Scalar, Scalar) -> Slab,
    L: Fn(MovingSphere, Scalar) -> Vec3,
    Q: Fn(Vec3, Scalar, Ray) -> Roots,
    P: Fn(Vec3, Scalar, Ray, Scalar) -> Surface,
    C: Fn(Vec3, Scalar) -> AABB,
    D: Fn(HitRecord) -> Vec3,
    M: Fn(Ray, HitRecord, Scalar) -> Vec3,
    DP: Fn(Vec3, Vec3) -> Scalar,
    R: Fn(Ray, HitRecord, Scalar, bool) -> Refraction,
    X: Fn(Vec3, Vec3) -> Vec3,

    requires
        depth >= MAX_DEPTH,
        color_spec(r, world, skybox, depth, g, optics, out),
    ensures
        out == black() || call_ensures(skybox, (&r,), out),
{
}

/// One row of the image in the buffer: the row's height in the image and
/// the range of the buffer that holds it.
#[derive(Clone, Copy, Debug, PartialEq, Eq)]
pub struct Scanline {
    pub y: usize,
    pub start: usize,
    pub end: usize,
}

/// The arithmetic of a pixel, supplied by the caller.
pub struct Film<PR, B> {
    /// From the camera, a pixel's column and row and the image's width and
    /// height, a ray through a random point of the pixel.
    pub primary: PR,
    /// From the average so far, a new sample and the number of samples in
    /// the average, the new average; both averages are gamma-encoded.
    pub blend: B,
}

impl<PR, B> Film<PR, B> where
    PR: Fn(Camera, usize, usize, usize, usize) -> Ray,
    B: Fn(Vec3, Vec3, usize) -> Vec3,
 {
    /// Whether both functions accept every argument.
    pub open spec fn total(self) -> bool {
        &&& forall|c: Camera, x: usize, y: usize, w: usize, h: usize|
            call_requires(self.primary, (c, x, y, w, h))
        &&& forall|a: Vec3, b: Vec3, n: usize| call_requires(self.blend, (a, b, n))
    }
}

/// The rows into which a buffer is cut: the buffer's first row is the
/// image's top row, which has the greatest height, and each row takes
/// `width` places. An image without width has one empty row, and one
/// without height has none.
pub open spec fn scanlines(width: int, height: int) -> Seq<Scanline> {
    if height <= 0 {
        Seq::empty()
    } else if width <= 0 {
        seq![Scanline { y: (height - 1) as usize, start: 0, end: 0 }]
    } else {
        Seq::new(
            height as nat,
            |k: int|
                Scanline {
                    y: (height - 1 - k) as usize,
                    start: (k * width) as usize,
                    end: ((k + 1) * width) as usize,
                },
        )
    }
}

/// Cuts a buffer of `len` places into the rows of an image.
pub fn split_scanlines(len: usize, width: usize, height: usize) -> (rows: Vec<Scanline>)
    requires
        width * height <= len,
    ensures
        rows@ == scanlines(width as int, height as int),
{
    let mut rows: Vec<Scanline> = Vec::new();
    if height == 0 {
        return rows;
    }
    if width == 0 {
        rows.push(Scanline { y: height - 1, start: 0, end: 0 });
        assert(rows@ =~= scanlines(width as int, height as int));
        return rows;
    }
    let mut k: usize = 0;
    let mut start: usize = 0;
    while k < height
        invariant
            k <= height,
            0 < width,
            width * height <= len,
            start == k * width,
            rows@.len() == k,
            forall|j: int|
                0 <= j < k ==> #[trigger] rows@[j] == (Scanline {
                    y: (height - 1 - j) as usize,
                    start: (j * width) as usize,
                    end: ((j + 1) * width) as usize,
                }),
        decreases height - k,
    {
        assert((k + 1) * width <= width * height) by (nonlinear_arith)
            requires
                k < height,
                0 < width,
        ;
        assert((k + 1) * width == k * width + width) by (nonlinear_arith);
        let end = start + width;
        rows.push(Scanline { y: height - 1 - k, start, end });
        start = end;
        k = k + 1;
    }
    assert(rows@ =~= scanlines(width as int, height as int));
    rows
}

/// The rows of an image that has width lie one behind the other, each
/// `width` places long, and cover the first `width * height` places of the
/// buffer: place `i` belongs to row `i / width` and to no other.
pub proof fn lemma_scanlines_partition(width: int, height: int, i: int)
    requires
        0 < width,
        0 <= height,
        width * height <= usize::MAX,
        0 <= i < width * height,
    ensures
        scanlines(width, height).len() == height,
        0 <= i / width < height,
        scanlines(width, height)[i / width].start <= i < scanlines(width, height)[i / width].end,
        scanlines(width, height)[i / width].start == (i / width) * width,
        scanlines(width, height)[i / width].y == height - 1 - i / width,
        forall|k: int|
            0 <= k < height && (#[trigger] scanlines(width, height)[k]).start <= i < scanlines(
                width,
                height,
            )[k].end ==> k == i / width,
        forall|k: int|
            0 <= k < height ==> (#[trigger] scanlines(width, height)[k]).end - scanlines(
                width,
                height,
            )[k].start == width,
{
    let q = i / width;
    vstd::arithmetic::div_mod::lemma_fundamental_div_mod(i, width);
    assert(q * width <= i < (q + 1) * width) by (nonlinear_arith)
        requires
            i == width * q + i % width,
            0 <= i % width < width,
    ;
    assert(0 <= q < height) by (nonlinear_arith)
        requires
            q * width <= i < (q + 1) * width,
            0 <= i < width * height,
            0 < width,
    ;
    assert forall|k: int| 0 <= k < height implies (#[trigger] scanlines(width, height)[k]).start
        == k * width && scanlines(width, height)[k].end == (k + 1) * width && scanlines(
        width,
        height,
    )[k].end - scanlines(width, height)[k].start == width by {
        assert(0 <= k * width && (k + 1) * width <= width * height && (k + 1) * width - k * width
            == width) by (nonlinear_arith)
            requires
                0 <= k < height,
                0 < width,
        ;
    }
    assert forall|k: int|
        0 <= k < height && (#[trigger] scanlines(width, height)[k]).start <= i < scanlines(
            width,
            height,
        )[k].end implies k == q by {
        assert(k == q) by (nonlinear_arith)
            requires
                k * width <= i < (k + 1) * width,
                q * width <= i < (q + 1) * width,
                0 < width,
        ;
    }
    assert(scanlines(width, height)[q].start == q * width);
    assert(height <= width * height) by (nonlinear_arith)
        requires
            0 < width,
            0 <= height,
    ;
}

/// A camera, a scene and its environment: what renders an image, sample
/// by sample.
pub struct Tracer<F> {
    pub camera: Camera,
    pub world: BVH,
    pub skybox: F,
}

impl<F: Fn(&Ray) -> Vec3> Tracer<F> {
    /// What a pixel may hold after one more sample: the packed colour of
    /// what `blend` makes of the pixel's colour so far, of the light along
    /// one fresh ray through the pixel, and of the number of samples so
    /// far.
    pub open spec fn pixel_spec<S, L, Q, P, C, D, M, DP, R, X, PR, B>(
        self,
        old_pixel: u32,
        x: usize,
        y: usize,
        width: usize,
        height: usize,
        n_samples: usize,
        g: Geometry<S, L, Q, P, C>,
        optics: Optics<D, M, DP, R, X>,
        film: Film<PR, B>,
        new_pixel: u32,
    ) -> bool where
        S: Fn(Scalar, Scalar, Scalar, Scalar) -> Slab,
        L: Fn(MovingSphere, Scalar) -> Vec3,
        Q: Fn(Vec3, Scalar, Ray) -> Roots,
        P: Fn(Vec3, Scalar, Ray, Scalar) -> Surface,
        C: Fn(Vec3, Scalar) -> AABB,
        D: Fn(HitRecord) -> Vec3,
        M: Fn(Ray, HitRecord, Scalar) -> Vec3,
        DP: Fn(Vec3, Vec3) -> Scalar,
        R: Fn(Ray, HitRecord, Scalar, bool) -> Refraction,
        X: Fn(Vec3, Vec3) -> Vec3,
        PR: Fn(Camera, usize, usize, usize, usize) -> Ray,
        B: Fn(Vec3, Vec3, usize) -> Vec3,
     {
        exists|ray: Ray, sample: Vec3, average: Vec3|
            {
                &&& #[trigger] call_ensures(film.primary, (self.camera, x, y, width, height), ray)
                &&& color_spec(ray, self.world, self.skybox, 0, g, optics, sample)
                &&& #[trigger] call_ensures(
                    film.blend,
                    (Vec3::from_argb(old_pixel), sample, n_samples),
                    average,
                )
                &&& new_pixel == average.to_argb()
            }
    }

    /// Whether `after` is what one more sample of every pixel may make of
    /// a row that lies at height `y` and at the start of a block that held
    /// `before`: each pixel of the row is what one more sample may make of
    /// it, and what lies behind the row is as it was.
    pub open spec fn row_sampled<S, L, Q, P, C, D, M, DP, R, X, PR, B>(
        self,
        before: Seq<u32>,
        after: Seq<u32>,
        y: usize,
        width: usize,
        height: usize,
        n_samples: usize,
        g: Geometry<S, L, Q, P, C>,
        optics: Optics<D, M, DP, R, X>,
        film: Film<PR, B>,
    ) -> bool where
        S: Fn(Scalar, Scalar, Scalar, Scalar) -> Slab,
        L: Fn(MovingSphere, Scalar) -> Vec3,
        Q: Fn(Vec3, Scalar, Ray) -> Roots,
        P: Fn(Vec3, Scalar, Ray, Scalar) -> Surface,
        C: Fn(Vec3, Scalar) -> AABB,
        D: Fn(HitRecord) -> Vec3,
        M: Fn(Ray, HitRecord, Scalar) -> Vec3,
        DP: Fn(Vec3, Vec3) -> Scalar,
        R: Fn(Ray, HitRecord, Scalar, bool) -> Refraction,
        X: Fn(Vec3, Vec3) -> Vec3,
        PR: Fn(Camera, usize, usize, usize, usize) -> Ray,
        B: Fn(Vec3, Vec3, usize) -> Vec3,
     {
        &&& after.len() == before.len()
        &&& forall|x: int|
            0 <= x < width ==> self.pixel_spec(
                before[x],
                x as usize,
                y,
                width,
                height,
                n_samples,
                g,
                optics,
                film,
                #[trigger] after[x],
            )
        &&& forall|x: int| width <= x < before.len() ==> #[trigger] after[x] == before[x]
    }

    /// Whether `after` is what one more sample of every pixel may make of
    /// a buffer that held `before`. The buffer's first `width * height`
    /// places are the image, row by row, the top row first: place `i` is
    /// the pixel in column `i % width` at height `height - 1 - i / width`.
    /// What lies behind the image is as it was.
    pub open spec fn sampled<S, L, Q, P, C, D, M, DP, R, X, PR, B>(
        self,
        before: Seq<u32>,
        after: Seq<u32>,
        width: usize,
        height: usize,
        n_samples: usize,
        g: Geometry<S, L, Q, P, C>,
        optics: Optics<D, M, DP, R, X>,
        film: Film<PR, B>,
    ) -> bool where
        S: Fn(Scalar, Scalar, Scalar, Scalar) -> Slab,
        L: Fn(MovingSphere, Scalar) -> Vec3,
        Q: Fn(Vec3, Scalar, Ray) -> Roots,
        P: Fn(Vec3, Scalar, Ray, Scalar) -> Surface,
        C: Fn(Vec3, Scalar) -> AABB,
        D: Fn(HitRecord) -> Vec3,
        M: Fn(Ray, HitRecord, Scalar) -> Vec3,
        DP: Fn(Vec3, Vec3) -> Scalar,
        R: Fn(Ray, HitRecord, Scalar, bool) -> Refraction,
        X: Fn(Vec3, Vec3) -> Vec3,
        PR: Fn(Camera, usize, usize, usize, usize) -> Ray,
        B: Fn(Vec3, Vec3, usize) -> Vec3,
     {
        &&& after.len() == before.len()
        &&& forall|i: int|
            0 <= i < width * height ==> self.pixel_spec(
                before[i],
                (i % (width as int)) as usize,
                (height - 1 - i / (width as int)) as usize,
                width,
                height,
                n_samples,
                g,
                optics,
                film,
                #[trigger] after[i],
            )
        &&& forall|i: int| width * height <= i < before.len() ==> #[trigger] after[i] == before[i]
    }

    /// Rows that were sampled one by one, in whatever order and by
    /// whomever, make a sampled image: no row touches another.
    pub proof fn lemma_rows_make_the_image<S, L, Q, P, C, D, M, DP, R, X, PR, B>(
        self,
        before: Seq<u32>,
        after: Seq<u32>,
        width: usize,
        height: usize,
        n_samples: usize,
        g: Geometry<S, L, Q, P, C>,
        optics: Optics<D, M, DP, R, X>,
        film: Film<PR, B>,
    ) where
        S: Fn(Scalar, Scalar, Scalar, Scalar) -> Slab,
        L: Fn(MovingSphere, Scalar) -> Vec3,
        Q: Fn(Vec3, Scalar, Ray) -> Roots,
        P: Fn(Vec3, Scalar, Ray, Scalar) -> Surface,
        C: Fn(Vec3, Scalar) -> AABB,
        D: Fn(HitRecord) -> Vec3,
        M: Fn(Ray, HitRecord, Scalar) -> Vec3,
        DP: Fn(Vec3, Vec3) -> Scalar,
        R: Fn(Ray, HitRecord, Scalar, bool) -> Refraction,
        X: Fn(Vec3, Vec3) -> Vec3,
        PR: Fn(Camera, usize, usize, usize, usize) -> Ray,
        B: Fn(Vec3, Vec3, usize) -> Vec3,

        requires
            0 < width,
            width * height <= before.len() <= usize::MAX,
            after.len() == before.len(),
            forall|k: int|
                0 <= k < height ==> self.row_sampled(
                    before.subrange(
                        (#[trigger] scanlines(width as int, height as int)[k]).start as int,
                        scanlines(width as int, height as int)[k].end as int,
                    ),
                    after.subrange(
                        scanlines(width as int, height as int)[k].start as int,
                        scanlines(width as int, height as int)[k].end as int,
                    ),
                    scanlines(width as int, height as int)[k].y,
                    width,
                    height,
                    n_samples,
                    g,
                    optics,
                    film,
                ),
            forall|i: int| width * height <= i < before.len() ==> after[i] == before[i],
        ensures
            self.sampled(before, after, width, height, n_samples, g, optics, film),
    {
        assert forall|i: int| 0 <= i < width * height implies self.pixel_spec(
            before[i],
            (i % (width as int)) as usize,
            (height - 1 - i / (width as int)) as usize,
            width,
            height,
            n_samples,
            g,
            optics,
            film,
            #[trigger] after[i],
        ) by {
            lemma_scanlines_partition(width as int, height as int, i);
            let k = i / (width as int);
            let x = i % (width as int);
            let row = scanlines(width as int, height as int)[k];
            vstd::arithmetic::div_mod::lemma_fundamental_div_mod(i, width as int);
            assert(i == row.start + x) by (nonlinear_arith)
                requires
                    i == width * k + x,
                    row.start == k * width,
            ;
            assert(row.end - row.start == width);
            assert(row.end <= width * height) by (nonlinear_arith)
                requires
                    row.end == row.start + width,
                    row.start == k * width,
                    0 <= k < height,
                    0 < width,
            ;
            let b = before.subrange(row.start as int, row.end as int);
            let a = after.subrange(row.start as int, row.end as int);
            assert(self.row_sampled(b, a, row.y, width, height, n_samples, g, optics, film));
            assert(b[x] == before[i]);
            assert(a[x] == after[i]);
        }
    }

    /// Builds the hierarchy over the scene, for the span of time during
    /// which the camera's shutter is open.
    pub fn new<S, L, Q, P, C>(
        camera: Camera,
        world: Vec<Hittable>,
        skybox: F,
        g: &Geometry<S, L, Q, P, C>,
        rng: &mut ThreadRng,
    ) -> (tracer: Self) where
        S: Fn(Scalar, Scalar, Scalar, Scalar) -> Slab,
        L: Fn(MovingSphere, Scalar) -> Vec3,
        Q: Fn(Vec3, Scalar, Ray) -> Roots,
        P: Fn(Vec3, Scalar, Ray, Scalar) -> Surface,
        C: Fn(Vec3, Scalar) -> AABB,

        requires
            world@.len() >= 1,
            g.total(),
            world@.len() >= 2 ==> forall|i: int, kb: AABB|
                0 <= i < world@.len() && #[trigger] world@[i].bounding_box_spec(
                    Scalar::zero(),
                    Scalar::zero(),
                    *g,
                    Some(kb),
                ) ==> kb.min.is_ordered(),
        ensures
            tracer.camera == camera,
            tracer.skybox == skybox,
            exists|entries: Seq<Bounded>| #[trigger]
                tracer.world.built_from(entries) && measured_all(
                    world@,
                    camera.time0,
                    camera.time1,
                    *g,
                    entries,
                ),
    {
        let world = BVH::new(world, camera.time0, camera.time1, g, rng);
        Tracer { camera, world, skybox }
    }

    /// Builds the hierarchy over the scene, for the span of time during
    /// which the camera's shutter is open, unless the scene is empty, or
    /// holds two primitives or more and the key of one is not a number on
    /// some axis.
    pub fn try_new<S, L, Q, P, C>(
        camera: Camera,
        world: Vec<Hittable>,
        skybox: F,
        g: &Geometry<S, L, Q, P, C>,
        rng: &mut ThreadRng,
    ) -> (out: Option<Self>) where
        S: Fn(Scalar, Scalar, Scalar, Scalar) -> Slab,
        L: Fn(MovingSphere, Scalar) -> Vec3,
        Q: Fn(Vec3, Scalar, Ray) -> Roots,
        P: Fn(Vec3, Scalar, Ray, Scalar) -> Surface,
        C: Fn(Vec3, Scalar) -> AABB,

        requires
            g.total(),
        ensures
            world@.len() == 0 ==> out is None,
            world@.len() > 0 ==> exists|entries: Seq<Bounded>| #[trigger]
                measured_all(world@, camera.time0, camera.time1, *g, entries) && match out {
                    Some(tracer) => {
                        &&& tracer.camera == camera
                        &&& tracer.skybox == skybox
                        &&& tracer.world.built_from(entries)
                        &&& entries.len() >= 2 ==> spec_keys_are_ordered(entries)
                    },
                    None => entries.len() >= 2 && !spec_keys_are_ordered(entries),
                },
    {
        match BVH::try_new(world, camera.time0, camera.time1, g, rng) {
            Some(world) => Some(Tracer { camera, world, skybox }),
            None => None,
        }
    }

    /// One more sample of one pixel: the pixel's new packed colour.
    pub fn render_pixel<S, L, Q, P, C, D, M, DP, R, X, PR, B>(
        &self,
        old_pixel: u32,
        x: usize,
        y: usize,
        width: usize,
        height: usize,
        n_samples: usize,
        g: &Geometry<S, L, Q, P, C>,
        optics: &Optics<D, M, DP, R, X>,
        film: &Film<PR, B>,
    ) -> (new_pixel: u32) where
        S: Fn(Scalar, Scalar, Scalar, Scalar) -> Slab,
        L: Fn(MovingSphere, Scalar) -> Vec3,
        Q: Fn(Vec3, Scalar, Ray) -> Roots,
        P: Fn(Vec3, Scalar, Ray, Scalar) -> Surface,
        C: Fn(Vec3, Scalar) -> AABB,
        D: Fn(HitRecord) -> Vec3,
        M: Fn(Ray, HitRecord, Scalar) -> Vec3,
        DP: Fn(Vec3, Vec3) -> Scalar,
        R: Fn(Ray, HitRecord, Scalar, bool) -> Refraction,
        X: Fn(Vec3, Vec3) -> Vec3,
        PR: Fn(Camera, usize, usize, usize, usize) -> Ray,
        B: Fn(Vec3, Vec3, usize) -> Vec3,

        requires
            g.total(),
            optics.total(),
            film.total(),
            forall|r: Ray| call_requires(self.skybox, (&r,)),
        ensures
            self.pixel_spec(
                old_pixel,
                x,
                y,
                width,
                height,
                n_samples,
                *g,
                *optics,
                *film,
                new_pixel,
            ),
    {
        let average_so_far = Vec3::from_argb(old_pixel);
        let ray = (film.primary)(self.camera, x, y, width, height);
        let sample = color(&ray, &self.world, &self.skybox, 0, g, optics);
        let average = (film.blend)(average_so_far, sample, n_samples);
        average.to_argb()
    }

    /// One more sample of every pixel of one row of the image, which lies
    /// at height `y` and at the start of `block`; the rest of `block` is
    /// left alone.
    pub fn render_scanline<S, L, Q, P, C, D, M, DP, R, X, PR, B>(
        &self,
        block: &mut [u32],
        y: usize,
        width: usize,
        height: usize,
        n_samples: usize,
        g: &Geometry<S, L, Q, P, C>,
        optics: &Optics<D, M, DP, R, X>,
        film: &Film<PR, B>,
    ) where
        S: Fn(Scalar, Scalar, Scalar, Scalar) -> Slab,
        L: Fn(MovingSphere, Scalar) -> Vec3,
        Q: Fn(Vec3, Scalar, Ray) -> Roots,
        P: Fn(Vec3, Scalar, Ray, Scalar) -> Surface,
        C: Fn(Vec3, Scalar) -> AABB,
        D: Fn(HitRecord) -> Vec3,
        M: Fn(Ray, HitRecord, Scalar) -> Vec3,
        DP: Fn(Vec3, Vec3) -> Scalar,
        R: Fn(Ray, HitRecord, Scalar, bool) -> Refraction,
        X: Fn(Vec3, Vec3) -> Vec3,
        PR: Fn(Camera, usize, usize, usize, usize) -> Ray,
        B: Fn(Vec3, Vec3, usize) -> Vec3,

        requires
            width <= old(block)@.len(),
            g.total(),
            optics.total(),
            film.total(),
            forall|r: Ray| call_requires(self.skybox, (&r,)),
        ensures
            self.row_sampled(
                old(block)@,
                final(block)@,
                y,
                width,
                height,
                n_samples,
                *g,
                *optics,
                *film,
            ),
    {
        let ghost before = block@;
        let mut x: usize = 0;
        while x < width
            invariant
                x <= width <= before.len(),
                block@.len() == before.len(),
                g.total(),
                optics.total(),
                film.total(),
                forall|r: Ray| call_requires(self.skybox, (&r,)),
                forall|i: int|
                    0 <= i < x ==> self.pixel_spec(
                        before[i],
                        i as usize,
                        y,
                        width,
                        height,
                        n_samples,
                        *g,
                        *optics,
                        *film,
                        #[trigger] block@[i],
                    ),
                forall|i: int| x <= i < before.len() ==> #[trigger] block@[i] == before[i],
            decreases width - x,
        {
            let new_pixel = self.render_pixel(
                block[x],
                x,
                y,
                width,
                height,
                n_samples,
                g,
                optics,
                film,
            );
            block[x] = new_pixel;
            x = x + 1;
        }
    }

    /// One more sample of every pixel, folded into the running averages
    /// that the buffer holds: the number of samples that the buffer holds
    /// afterwards. The buffer's first `width * height` places are the image,
    /// row by row, the top row first; the rest of it is left alone.
    pub fn render_sample<S, L, Q, P, C, D, M, DP, R, X, PR, B>(
        &self,
        buffer: &mut [u32],
        width: usize,
        height: usize,
        n_samples: usize,
        g: &Geometry<S, L, Q, P, C>,
        optics: &Optics<D, M, DP, R, X>,
        film: &Film<PR, B>,
    ) -> (count: usize) where
        S: Fn(Scalar, Scalar, Scalar, Scalar) -> Slab,
        L: Fn(MovingSphere, Scalar) -> Vec3,
        Q: Fn(Vec3, Scalar, Ray) -> Roots,
        P: Fn(Vec3, Scalar, Ray, Scalar) -> Surface,
        C: Fn(Vec3, Scalar) -> AABB,
        D: Fn(HitRecord) -> Vec3,
        M: Fn(Ray, HitRecord, Scalar) -> Vec3,
        DP: Fn(Vec3, Vec3) -> Scalar,
        R: Fn(Ray, HitRecord, Scalar, bool) -> Refraction,
        X: Fn(Vec3, Vec3) -> Vec3,
        PR: Fn(Camera, usize, usize, usize, usize) -> Ray,
        B: Fn(Vec3, Vec3, usize) -> Vec3,

        requires
            width * height <= old(buffer)@.len(),
            n_samples < usize::MAX,
            g.total(),
            optics.total(),
            film.total(),
            forall|r: Ray| call_requires(self.skybox, (&r,)),
        ensures
            count == n_samples + 1,
            final(buffer)@.len() == old(buffer)@.len(),
            self.sampled(
                old(buffer)@,
                final(buffer)@,
                width,
                height,
                n_samples,
                *g,
                *optics,
                *film,
            ),
    {
        let ghost before = buffer@;
        let len = buffer.len();
        let rows = split_scanlines(len, width, height);
        if width == 0 {
            assert(width * height == 0) by (nonlinear_arith)
                requires
                    width == 0,
            ;
            return n_samples + 1;
        }
        let mut k: usize = 0;
        while k < rows.len()
            invariant
                0 < width,
                width * height <= before.len(),
                width * height <= len,
                rows@ == scanlines(width as int, height as int),
                k <= rows@.len(),
                rows@.len() == height,
                buffer@.len() == before.len(),
                g.total(),
                optics.total(),
                film.total(),
                forall|r: Ray| call_requires(self.skybox, (&r,)),
                forall|i: int|
                    0 <= i < k * width ==> self.pixel_spec(
                        before[i],
                        (i % (width as int)) as usize,
                        (height - 1 - i / (width as int)) as usize,
                        width,
                        height,
                        n_samples,
                        *g,
                        *optics,
                        *film,
                        #[trigger] buffer@[i],
                    ),
                forall|i: int| k * width <= i < before.len() ==> #[trigger] buffer@[i] == before[i],
            decreases rows@.len() - k,
        {
            let row = rows[k];
            proof {
                assert(rows@[k as int] == scanlines(width as int, height as int)[k as int]);
                assert(0 <= k * width && (k + 1) * width <= width * height && (k + 1) * width
                    == k * width + width) by (nonlinear_arith)
                    requires
                        0 <= k < height,
                        0 < width,
                ;
                let line = scanlines(width as int, height as int)[k as int];
                assert(line == (Scanline {
                    y: (height as int - 1 - k as int) as usize,
                    start: (k as int * width as int) as usize,
                    end: ((k as int + 1) * width as int) as usize,
                }));
                assert(row.start == k * width && row.y == height - 1 - k);
            }
            let mut x: usize = 0;
            while x < width
                invariant
                    0 < width,
                    x <= width,
                    k < height,
                    width * height <= before.len(),
                    (k + 1) * width <= width * height,
                    (k + 1) * width == k * width + width,
                    row.start == k * width,
                    row.y == height - 1 - k,
                    buffer@.len() == before.len(),
                    g.total(),
                    optics.total(),
                    film.total(),
                    forall|r: Ray| call_requires(self.skybox, (&r,)),
                    forall|i: int|
                        0 <= i < k * width + x ==> self.pixel_spec(
                            before[i],
                            (i % (width as int)) as usize,
                            (height - 1 - i / (width as int)) as usize,
                            width,
                            height,
                            n_samples,
                            *g,
                            *optics,
                            *film,
                            #[trigger] buffer@[i],
                        ),
                    forall|i: int|
                        k * width + x <= i < before.len() ==> #[trigger] buffer@[i] == before[i],
                decreases width - x,
            {
                let idx = row.start + x;
                let new_pixel = self.render_pixel(
                    buffer[idx],
                    x,
                    row.y,
                    width,
                    height,
                    n_samples,
                    g,
                    optics,
                    film,
                );
                proof {
                    let i = idx as int;
                    assert(i / (width as int) == k && i % (width as int) == x) by (nonlinear_arith)
                        requires
                            i == k * width + x,
                            0 <= x < width,
                            0 <= k,
                    ;
                }
                buffer[idx] = new_pixel;
                x = x + 1;
            }
            k = k + 1;
        }
        assert(k * width == width * height) by (nonlinear_arith)
            requires
                k == height,
        ;
        n_samples + 1
    }
}

} // verus!

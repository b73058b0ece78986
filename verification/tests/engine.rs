use std::cell::Cell;
use std::cell::RefCell;

use rand::Rng;
use rand::SeedableRng;
use rand_pcg::Pcg64Mcg;

use riaw::aabb::Slab;
use riaw::aabb::AABB;
use riaw::bvh::Bounded;
use riaw::bvh::BVH;
use riaw::camera::Camera;
use riaw::hittable::hit_list;
use riaw::hittable::Geometry;
use riaw::hittable::HitRecord;
use riaw::hittable::Hittable;
use riaw::material::Dielectric;
use riaw::material::Lambertian;
use riaw::material::Material;
use riaw::material::Metal;
use riaw::material::Optics;
use riaw::material::Refraction;
use riaw::ray::Ray;
use riaw::rng::ThreadRng;
use riaw::scalar::Scalar;
use riaw::sorting::keys_are_ordered;
use riaw::sorting::sort_on;
use riaw::sphere::ball_hit;
use riaw::sphere::MovingSphere;
use riaw::sphere::Roots;
use riaw::sphere::Sphere;
use riaw::sphere::Surface;
use riaw::tracer::color;
use riaw::tracer::split_scanlines;
use riaw::tracer::Film;
use riaw::tracer::Scanline;
use riaw::tracer::Tracer;
use riaw::tracer::MAX_DEPTH;
use riaw::tracer::NEAREST_HIT_BITS;
use riaw::vec3::Vec3;

// ---- the arithmetic that the tests hand to the engine ----

fn s(v: f32) -> Scalar {
    Scalar::from_bits(v.to_bits())
}

fn f(v: Scalar) -> f32 {
    f32::from_bits(v.to_bits())
}

fn v3(x: f32, y: f32, z: f32) -> Vec3 {
    Vec3::new(s(x), s(y), s(z))
}

fn arr(v: Vec3) -> [f32; 3] {
    [f(v.x), f(v.y), f(v.z)]
}

fn from_arr(a: [f32; 3]) -> Vec3 {
    v3(a[0], a[1], a[2])
}

fn add(a: [f32; 3], b: [f32; 3]) -> [f32; 3] {
    [a[0] + b[0], a[1] + b[1], a[2] + b[2]]
}

fn sub(a: [f32; 3], b: [f32; 3]) -> [f32; 3] {
    [a[0] - b[0], a[1] - b[1], a[2] - b[2]]
}

fn scale(a: [f32; 3], k: f32) -> [f32; 3] {
    [a[0] * k, a[1] * k, a[2] * k]
}

fn dot3(a: [f32; 3], b: [f32; 3]) -> f32 {
    a[0] * b[0] + a[1] * b[1] + a[2] * b[2]
}

fn unit(a: [f32; 3]) -> [f32; 3] {
    scale(a, 1.0 / dot3(a, a).sqrt())
}

fn ray(origin: [f32; 3], direction: [f32; 3], time: f32) -> Ray {
    Ray::new(from_arr(origin), from_arr(direction), s(time))
}

fn slab_k(lo: Scalar, hi: Scalar, origin: Scalar, direction: Scalar) -> Slab {
    let inv_d = 1.0 / f(direction);
    Slab { inv_d: s(inv_d), t0: s((f(lo) - f(origin)) * inv_d), t1: s((f(hi) - f(origin)) * inv_d) }
}

fn lerp_k(m: MovingSphere, time: Scalar) -> Vec3 {
    let slope = sub(arr(m.center1), arr(m.center0));
    let x = (f(time) - f(m.time0)) / (f(m.time1) - f(m.time0));
    from_arr(add(arr(m.center0), scale(slope, x)))
}

fn roots_k(center: Vec3, radius: Scalar, r: Ray) -> Roots {
    let oc = sub(arr(r.origin), arr(center));
    let d = arr(r.direction);
    let a = dot3(d, d);
    let b = dot3(oc, d);
    let c = dot3(oc, oc) - f(radius) * f(radius);
    let disc = b * b - a * c;
    Roots { discriminant: s(disc), near: s((-b - disc.sqrt()) / a), far: s((-b + disc.sqrt()) / a) }
}

fn surface_k(center: Vec3, radius: Scalar, r: Ray, t: Scalar) -> Surface {
    let p = add(arr(r.origin), scale(arr(r.direction), f(t)));
    let normal = scale(sub(p, arr(center)), 1.0 / f(radius));
    Surface { p: from_arr(p), normal: from_arr(normal) }
}

fn cube_k(center: Vec3, radius: Scalar) -> AABB {
    let c = arr(center);
    let r = f(radius);
    AABB::new(from_arr(sub(c, [r, r, r])), from_arr(add(c, [r, r, r])))
}

fn geometry() -> Geometry<
    fn(Scalar, Scalar, Scalar, Scalar) -> Slab,
    fn(MovingSphere, Scalar) -> Vec3,
    fn(Vec3, Scalar, Ray) -> Roots,
    fn(Vec3, Scalar, Ray, Scalar) -> Surface,
    fn(Vec3, Scalar) -> AABB,
> {
    Geometry { slab: slab_k, lerp: lerp_k, roots: roots_k, surface: surface_k, cube: cube_k }
}

fn dot_k(a: Vec3, b: Vec3) -> Scalar {
    s(dot3(arr(a), arr(b)))
}

fn tint_k(a: Vec3, b: Vec3) -> Vec3 {
    let (a, b) = (arr(a), arr(b));
    v3(a[0] * b[0], a[1] * b[1], a[2] * b[2])
}

fn reflect(v: [f32; 3], n: [f32; 3]) -> [f32; 3] {
    sub(v, scale(n, 2.0 * dot3(v, n)))
}

fn schlick(cosine: f32, index: f32) -> f32 {
    let r0 = (1.0 - index) / (1.0 + index);
    let r0 = r0 * r0;
    r0 + (1.0 - r0) * (1.0 - cosine).powi(5)
}

fn in_unit_sphere(rng: &RefCell<Pcg64Mcg>) -> [f32; 3] {
    let mut rng = rng.borrow_mut();
    loop {
        let p = [
            2.0 * rng.gen::<f32>() - 1.0,
            2.0 * rng.gen::<f32>() - 1.0,
            2.0 * rng.gen::<f32>() - 1.0,
        ];
        if dot3(p, p) < 1.0 {
            return p;
        }
    }
}

fn refraction_with(r: Ray, hit: HitRecord, index: Scalar, exiting: bool, sample: f32) -> Refraction {
    let d = arr(r.direction);
    let n = arr(hit.normal);
    let index = f(index);
    let len = dot3(d, d).sqrt();
    let (outward, ratio, cosine) = if exiting {
        (scale(n, -1.0), index, index * dot3(d, n) / len)
    } else {
        (n, 1.0 / index, -dot3(d, n) / len)
    };
    let uv = unit(d);
    let dt = dot3(uv, outward);
    let disc = 1.0 - ratio * ratio * (1.0 - dt * dt);
    let refracted = sub(scale(sub(uv, scale(outward, dt)), ratio), scale(outward, disc.sqrt()));
    Refraction {
        reflected: from_arr(reflect(d, n)),
        discriminant: s(disc),
        refracted: from_arr(refracted),
        reflect_prob: s(schlick(cosine, index)),
        sample: s(sample),
    }
}

fn optics<'a>(
    rng: &'a RefCell<Pcg64Mcg>,
) -> Optics<
    impl Fn(HitRecord) -> Vec3 + 'a,
    impl Fn(Ray, HitRecord, Scalar) -> Vec3 + 'a,
    fn(Vec3, Vec3) -> Scalar,
    impl Fn(Ray, HitRecord, Scalar, bool) -> Refraction + 'a,
    fn(Vec3, Vec3) -> Vec3,
> {
    Optics {
        diffuse: move |hit: HitRecord| from_arr(add(arr(hit.normal), in_unit_sphere(rng))),
        specular: move |r: Ray, hit: HitRecord, fuzz: Scalar| {
            let reflected = reflect(unit(arr(r.direction)), arr(hit.normal));
            from_arr(add(reflected, scale(in_unit_sphere(rng), f(fuzz))))
        },
        dot: dot_k,
        refraction: move |r: Ray, hit: HitRecord, index: Scalar, exiting: bool| {
            let sample = rng.borrow_mut().gen::<f32>();
            refraction_with(r, hit, index, exiting, sample)
        },
        tint: tint_k,
    }
}

fn grey() -> Material {
    Material::Lambertian(Lambertian::new(v3(0.5, 0.5, 0.5)))
}

fn sphere(center: [f32; 3], radius: f32) -> Hittable {
    Hittable::Sphere(Sphere::new(from_arr(center), s(radius), grey()))
}

fn seeded(seed: u64) -> ThreadRng {
    ThreadRng { rng: Pcg64Mcg::seed_from_u64(seed) }
}

fn unit_box() -> AABB {
    AABB::new(v3(-1.0, -1.0, -1.0), v3(1.0, 1.0, 1.0))
}

fn same_hit(a: &Option<HitRecord>, b: &Option<HitRecord>) -> bool {
    match (a, b) {
        (None, None) => true,
        (Some(a), Some(b)) => {
            a.t.to_bits() == b.t.to_bits()
                && arr(a.p).map(f32::to_bits) == arr(b.p).map(f32::to_bits)
                && arr(a.normal).map(f32::to_bits) == arr(b.normal).map(f32::to_bits)
        }
        _ => false,
    }
}

fn count_leaves(tree: &BVH) -> usize {
    match tree {
        BVH::Leaf { .. } => 1,
        BVH::Node { left, right, .. } => count_leaves(left) + count_leaves(right),
    }
}

fn boxes_are_unions(tree: &BVH) -> bool {
    match tree {
        BVH::Leaf { .. } => true,
        BVH::Node { left, right, bbox } => {
            let around = AABB::surrounding_box(left.bbox(), right.bbox());
            arr(around.min) == arr(bbox.min)
                && arr(around.max) == arr(bbox.max)
                && boxes_are_unions(left)
                && boxes_are_unions(right)
        }
    }
}

// ---- boxes ----

#[test]
fn surrounding_box_takes_the_outer_corners() {
    let a = AABB::new(v3(0.0, -2.0, 1.0), v3(1.0, 2.0, 3.0));
    let b = AABB::new(v3(-1.0, 0.0, 2.0), v3(0.5, 5.0, 2.5));
    let c = AABB::surrounding_box(a, b);
    assert_eq!(arr(c.min), [-1.0, -2.0, 1.0]);
    assert_eq!(arr(c.max), [1.0, 5.0, 3.0]);
    let d = AABB::surrounding_box(b, a);
    assert_eq!(arr(d.min), [-1.0, -2.0, 1.0]);
    assert_eq!(arr(d.max), [1.0, 5.0, 3.0]);
}

#[test]
fn surrounding_box_of_a_box_with_itself_is_the_box() {
    let a = AABB::new(v3(0.0, -2.0, 1.0), v3(1.0, 2.0, 3.0));
    let c = AABB::surrounding_box(a, a);
    assert_eq!(arr(c.min), arr(a.min));
    assert_eq!(arr(c.max), arr(a.max));
}

#[test]
fn a_ray_through_the_centre_along_each_axis_hits() {
    let b = AABB::new(v3(1.0, 2.0, 3.0), v3(3.0, 6.0, 4.0));
    let centre = [2.0, 4.0, 3.5];
    for axis in 0..3 {
        for sign in [1.0f32, -1.0] {
            for zero in [0.0f32, -0.0] {
                let mut d = [zero, zero, zero];
                d[axis] = sign;
                let mut o = centre;
                o[axis] -= sign * 10.0;
                let r = ray(o, d, 0.0);
                assert!(b.hit(&r, s(0.0), s(f32::MAX), &slab_k));
                assert!(b.hit(&r, s(1e-3), s(100.0), &slab_k));
                // the stretch inside the box starts before 10 and ends after it
                assert!(b.hit(&r, s(9.9), s(10.1), &slab_k));
            }
        }
    }
}

#[test]
fn a_window_that_ends_before_the_box_misses() {
    let r = ray([-10.0, 0.0, 0.0], [1.0, 0.0, 0.0], 0.0);
    assert!(!unit_box().hit(&r, s(0.0), s(8.0), &slab_k));
    assert!(!unit_box().hit(&r, s(12.0), s(20.0), &slab_k));
    assert!(unit_box().hit(&r, s(0.0), s(9.5), &slab_k));
}

#[test]
fn a_ray_parallel_to_a_face_and_outside_misses() {
    for axis in 0..3 {
        for side in [2.0f32, -2.0] {
            for zero in [0.0f32, -0.0] {
                let travel = (axis + 1) % 3;
                let mut d = [zero, zero, zero];
                d[travel] = 1.0;
                let mut o = [0.0, 0.0, 0.0];
                o[travel] = -10.0;
                o[axis] = side;
                let r = ray(o, d, 0.0);
                assert!(!unit_box().hit(&r, s(0.0), s(f32::MAX), &slab_k));
                assert!(!unit_box().hit(&r, s(f32::NEG_INFINITY), s(f32::INFINITY), &slab_k));
            }
        }
    }
}

#[test]
fn a_ray_that_points_away_misses() {
    let r = ray([-10.0, 0.0, 0.0], [-1.0, 0.0, 0.0], 0.0);
    assert!(!unit_box().hit(&r, s(0.0), s(f32::MAX), &slab_k));
    let back = ray([10.0, 0.5, 0.5], [-1.0, 0.0, 0.0], 0.0);
    assert!(unit_box().hit(&back, s(0.0), s(f32::MAX), &slab_k));
}

#[test]
fn the_slab_test_stops_asking_once_the_window_is_empty() {
    let asked = Cell::new(0);
    let counting = |lo: Scalar, hi: Scalar, o: Scalar, d: Scalar| {
        asked.set(asked.get() + 1);
        slab_k(lo, hi, o, d)
    };
    // outside on the x axis: one question
    let r = ray([5.0, 0.0, -10.0], [0.0, 0.0, 1.0], 0.0);
    assert!(!unit_box().hit(&r, s(0.0), s(100.0), &counting));
    assert_eq!(asked.get(), 1);
    asked.set(0);
    let through = ray([0.0, 0.0, -10.0], [0.0, 0.0, 1.0], 0.0);
    assert!(unit_box().hit(&through, s(0.0), s(100.0), &counting));
    assert_eq!(asked.get(), 3);
}

#[test]
fn tighten_swaps_the_planes_for_a_ray_against_the_axis() {
    let forward = Slab { inv_d: s(1.0), t0: s(2.0), t1: s(5.0) };
    let w = forward.tighten(s(0.0), s(10.0));
    assert_eq!((f(w.0), f(w.1)), (2.0, 5.0));
    let backward = Slab { inv_d: s(-1.0), t0: s(5.0), t1: s(2.0) };
    let w = backward.tighten(s(0.0), s(10.0));
    assert_eq!((f(w.0), f(w.1)), (2.0, 5.0));
    let wide = Slab { inv_d: s(1.0), t0: s(-3.0), t1: s(50.0) };
    let w = wide.tighten(s(0.0), s(10.0));
    assert_eq!((f(w.0), f(w.1)), (0.0, 10.0));
    let broken = Slab { inv_d: s(1.0), t0: s(f32::NAN), t1: s(f32::NAN) };
    let w = broken.tighten(s(0.0), s(10.0));
    assert_eq!((f(w.0), f(w.1)), (0.0, 10.0));
}

// ---- spheres ----

#[test]
fn select_prefers_the_near_root() {
    let q = Roots { discriminant: s(4.0), near: s(2.0), far: s(6.0) };
    assert_eq!(q.select(s(0.0), s(10.0)).map(f), Some(2.0));
    assert_eq!(q.select(s(3.0), s(10.0)).map(f), Some(6.0));
    assert!(q.select(s(0.0), s(1.0)).is_none());
    assert!(q.select(s(7.0), s(10.0)).is_none());
    assert!(q.select(s(2.0), s(6.0)).is_none());
    assert_eq!(q.select(s(2.0), s(6.5)).map(f), Some(6.0));
}

#[test]
fn select_treats_a_touching_ray_as_a_miss() {
    let touching = Roots { discriminant: s(0.0), near: s(2.0), far: s(2.0) };
    assert!(touching.select(s(0.0), s(10.0)).is_none());
    let none = Roots { discriminant: s(-1.0), near: s(f32::NAN), far: s(f32::NAN) };
    assert!(none.select(s(0.0), s(10.0)).is_none());
    let broken = Roots { discriminant: s(f32::NAN), near: s(2.0), far: s(3.0) };
    assert!(broken.select(s(0.0), s(10.0)).is_none());
}

#[test]
fn a_ray_at_a_sphere_hits_its_near_side() {
    let sp = Sphere::new(v3(0.0, 0.0, 0.0), s(1.0), grey());
    let r = ray([0.0, 0.0, -5.0], [0.0, 0.0, 1.0], 0.0);
    let hit = sp.hit(&r, s(1e-3), s(f32::MAX), &roots_k, &surface_k).unwrap();
    assert_eq!(f(hit.t), 4.0);
    assert_eq!(arr(hit.p), [0.0, 0.0, -1.0]);
    assert_eq!(arr(hit.normal), [0.0, 0.0, -1.0]);
    let far = sp.hit(&r, s(4.5), s(f32::MAX), &roots_k, &surface_k).unwrap();
    assert_eq!(f(far.t), 6.0);
    assert_eq!(arr(far.normal), [0.0, 0.0, 1.0]);
    assert!(sp.hit(&r, s(1e-3), s(3.0), &roots_k, &surface_k).is_none());
    let past = ray([0.0, 2.0, -5.0], [0.0, 0.0, 1.0], 0.0);
    assert!(sp.hit(&past, s(1e-3), s(f32::MAX), &roots_k, &surface_k).is_none());
}

#[test]
fn the_half_angle_form_keeps_the_radius() {
    // a direction that is not of unit length, and a sphere of radius 2
    let sp = Sphere::new(v3(0.0, 0.0, 0.0), s(2.0), grey());
    let r = ray([0.0, 0.0, -10.0], [0.0, 0.0, 2.0], 0.0);
    let hit = sp.hit(&r, s(1e-3), s(f32::MAX), &roots_k, &surface_k).unwrap();
    assert_eq!(f(hit.t), 4.0);
    assert_eq!(arr(hit.p), [0.0, 0.0, -2.0]);
}

#[test]
fn points_of_a_hit_lie_on_the_sphere_and_the_normal_points_from_the_centre() {
    let center = [1.0f32, -2.0, 3.0];
    let radius = 1.5f32;
    let sp = Sphere::new(from_arr(center), s(radius), grey());
    let mut rng = Pcg64Mcg::seed_from_u64(7);
    let mut hits = 0;
    for _ in 0..500 {
        let o = [rng.gen_range(-8.0f32, 8.0), rng.gen_range(-8.0f32, 8.0), -10.0];
        let target = [
            center[0] + rng.gen_range(-1.4f32, 1.4),
            center[1] + rng.gen_range(-1.4f32, 1.4),
            center[2],
        ];
        let r = ray(o, sub(target, o), 0.0);
        if let Some(hit) = sp.hit(&r, s(1e-3), s(f32::MAX), &roots_k, &surface_k) {
            hits += 1;
            let from_centre = sub(arr(hit.p), center);
            let dist = dot3(from_centre, from_centre).sqrt();
            assert!((dist - radius).abs() < 1e-3);
            let n = arr(hit.normal);
            let cross = [
                n[1] * from_centre[2] - n[2] * from_centre[1],
                n[2] * from_centre[0] - n[0] * from_centre[2],
                n[0] * from_centre[1] - n[1] * from_centre[0],
            ];
            assert!(dot3(cross, cross).sqrt() < 1e-3);
            assert!(dot3(n, from_centre) > 0.0);
        }
    }
    assert!(hits > 100);
}

#[test]
fn ball_hit_carries_the_material() {
    let metal = Material::Metal(Metal::new(v3(0.7, 0.6, 0.5), s(0.0)));
    let r = ray([0.0, 0.0, -5.0], [0.0, 0.0, 1.0], 0.0);
    let hit = ball_hit(v3(0.0, 0.0, 0.0), s(1.0), metal, &r, s(1e-3), s(f32::MAX), &roots_k, &surface_k)
        .unwrap();
    assert!(matches!(hit.material, Material::Metal(_)));
}

#[test]
fn sphere_bounding_box_is_the_cube_around_it() {
    let sp = Sphere::new(v3(1.0, 2.0, 3.0), s(0.5), grey());
    let b = sp.bounding_box(s(0.0), s(1.0), &cube_k).unwrap();
    assert_eq!(arr(b.min), [0.5, 1.5, 2.5]);
    assert_eq!(arr(b.max), [1.5, 2.5, 3.5]);
}

fn mover() -> MovingSphere {
    MovingSphere::new(v3(0.0, 0.0, 0.0), v3(0.0, 2.0, 0.0), s(0.0), s(1.0), s(0.5), grey())
}

#[test]
fn a_moving_sphere_rests_after_its_second_keyframe() {
    let m = mover();
    assert_eq!(arr(m.center(s(0.0), &lerp_k)), [0.0, 0.0, 0.0]);
    assert_eq!(arr(m.center(s(0.5), &lerp_k)), [0.0, 1.0, 0.0]);
    assert_eq!(arr(m.center(s(1.0), &lerp_k)), [0.0, 2.0, 0.0]);
    assert_eq!(arr(m.center(s(7.0), &lerp_k)), [0.0, 2.0, 0.0]);
    assert_eq!(arr(m.center(s(f32::INFINITY), &lerp_k)), [0.0, 2.0, 0.0]);
    // before the first keyframe the line is followed backwards
    assert_eq!(arr(m.center(s(-1.0), &lerp_k)), [0.0, -2.0, 0.0]);
}

#[test]
fn a_moving_sphere_is_hit_where_it_is_at_the_rays_time() {
    let m = mover();
    let early = ray([0.0, 0.0, -5.0], [0.0, 0.0, 1.0], 0.0);
    let hit = m.hit(&early, s(1e-3), s(f32::MAX), &lerp_k, &roots_k, &surface_k).unwrap();
    assert_eq!(f(hit.t), 4.5);
    let late = ray([0.0, 0.0, -5.0], [0.0, 0.0, 1.0], 1.0);
    assert!(m.hit(&late, s(1e-3), s(f32::MAX), &lerp_k, &roots_k, &surface_k).is_none());
    let late_high = ray([0.0, 2.0, -5.0], [0.0, 0.0, 1.0], 1.0);
    let hit = m.hit(&late_high, s(1e-3), s(f32::MAX), &lerp_k, &roots_k, &surface_k).unwrap();
    assert_eq!(f(hit.t), 4.5);
    assert_eq!(arr(hit.normal), [0.0, 0.0, -1.0]);
}

#[test]
fn a_moving_sphere_is_bounded_by_the_box_around_both_ends() {
    let m = mover();
    let b = m.bounding_box(s(0.0), s(1.0), &lerp_k, &cube_k).unwrap();
    assert_eq!(arr(b.min), [-0.5, -0.5, -0.5]);
    assert_eq!(arr(b.max), [0.5, 2.5, 0.5]);
    let still = m.bounding_box(s(0.0), s(0.0), &lerp_k, &cube_k).unwrap();
    assert_eq!(arr(still.min), [-0.5, -0.5, -0.5]);
    assert_eq!(arr(still.max), [0.5, 0.5, 0.5]);
}

#[test]
fn a_primitive_answers_as_its_kind_does() {
    let g = geometry();
    let r = ray([0.0, 0.0, -5.0], [0.0, 0.0, 1.0], 0.0);
    let a = sphere([0.0, 0.0, 0.0], 1.0);
    assert_eq!(f(a.hit(&r, s(1e-3), s(f32::MAX), &g).unwrap().t), 4.0);
    let b = Hittable::MovingSphere(mover());
    assert_eq!(f(b.hit(&r, s(1e-3), s(f32::MAX), &g).unwrap().t), 4.5);
    assert!(matches!(a.material(), Material::Lambertian(_)));
    let bb = b.bounding_box(s(0.0), s(1.0), &g).unwrap();
    assert_eq!(arr(bb.max), [0.5, 2.5, 0.5]);
}

#[test]
fn nearer_takes_the_strictly_nearer_hit_and_the_right_one_on_a_tie() {
    let h = |t: f32, mark: f32| HitRecord::new(s(t), v3(mark, 0.0, 0.0), v3(0.0, 0.0, 1.0), grey());
    let pick = |a: Option<HitRecord>, b: Option<HitRecord>| {
        HitRecord::nearer(a, b).map(|x| (f(x.t), f(x.p.x)))
    };
    assert_eq!(pick(Some(h(1.0, 1.0)), Some(h(2.0, 2.0))), Some((1.0, 1.0)));
    assert_eq!(pick(Some(h(2.0, 1.0)), Some(h(1.0, 2.0))), Some((1.0, 2.0)));
    assert_eq!(pick(Some(h(1.0, 1.0)), Some(h(1.0, 2.0))), Some((1.0, 2.0)));
    assert_eq!(pick(Some(h(1.0, 1.0)), None), Some((1.0, 1.0)));
    assert_eq!(pick(None, Some(h(1.0, 2.0))), Some((1.0, 2.0)));
    assert_eq!(pick(None, None), None);
}

// ---- materials ----

fn hit_at_origin(normal: [f32; 3], material: Material) -> HitRecord {
    HitRecord::new(s(1.0), v3(0.0, 0.0, 0.0), from_arr(normal), material)
}

#[test]
fn metal_clamps_its_fuzz() {
    let albedo = v3(1.0, 1.0, 1.0);
    assert_eq!(f(Metal::new(albedo, s(0.3)).fuzz), 0.3);
    assert_eq!(f(Metal::new(albedo, s(0.0)).fuzz), 0.0);
    assert_eq!(f(Metal::new(albedo, s(1.0)).fuzz), 1.0);
    assert_eq!(f(Metal::new(albedo, s(7.0)).fuzz), 1.0);
    assert_eq!(f(Metal::new(albedo, s(-2.0)).fuzz), 0.0);
    assert_eq!(f(Metal::new(albedo, s(f32::NAN)).fuzz), 1.0);
    assert_eq!(f(Metal::new(albedo, s(f32::INFINITY)).fuzz), 1.0);
}

#[test]
fn a_diffuse_surface_always_scatters_with_its_albedo() {
    let rng = RefCell::new(Pcg64Mcg::seed_from_u64(3));
    let o = optics(&rng);
    let m = Lambertian::new(v3(0.4, 0.2, 0.1));
    let material = Material::Lambertian(m);
    let hit = HitRecord::new(s(1.0), v3(1.0, 2.0, 3.0), v3(0.0, 1.0, 0.0), material);
    let r = ray([0.0, 10.0, 0.0], [0.0, -1.0, 0.0], 0.25);
    for _ in 0..100 {
        let (attenuation, scattered) = material.scatter(&r, &hit, &o).unwrap();
        assert_eq!(arr(attenuation), [0.4, 0.2, 0.1]);
        assert_eq!(arr(scattered.origin), [1.0, 2.0, 3.0]);
        assert_eq!(f(scattered.time), 0.25);
        // the direction is the normal plus a point inside the unit sphere
        let d = sub(arr(scattered.direction), [0.0, 1.0, 0.0]);
        assert!(dot3(d, d) < 1.0);
    }
}

#[test]
fn a_mirror_reflects_about_the_normal() {
    let rng = RefCell::new(Pcg64Mcg::seed_from_u64(3));
    let o = optics(&rng);
    let m = Metal::new(v3(0.7, 0.6, 0.5), s(0.0));
    let hit = hit_at_origin([0.0, 1.0, 0.0], Material::Metal(m));
    let r = ray([-1.0, 1.0, 0.0], [1.0, -1.0, 0.0], 0.5);
    let (attenuation, scattered) = m.scatter(&r, &hit, &o.specular, &o.dot).unwrap();
    assert_eq!(arr(attenuation), [0.7, 0.6, 0.5]);
    let d = arr(scattered.direction);
    assert!((d[0] - 0.70710677).abs() < 1e-6);
    assert!((d[1] - 0.70710677).abs() < 1e-6);
    assert_eq!(d[2], 0.0);
    assert_eq!(f(scattered.time), 0.5);
}

#[test]
fn a_mirror_absorbs_what_would_run_into_it() {
    let m = Metal::new(v3(0.7, 0.6, 0.5), s(0.0));
    let hit = hit_at_origin([0.0, 1.0, 0.0], Material::Metal(m));
    let r = ray([-1.0, 1.0, 0.0], [1.0, -1.0, 0.0], 0.0);
    let into = |_: Ray, _: HitRecord, _: Scalar| v3(1.0, -0.5, 0.0);
    assert!(m.scatter(&r, &hit, &into, &dot_k).is_none());
    let along = |_: Ray, _: HitRecord, _: Scalar| v3(1.0, 0.0, 0.0);
    assert!(m.scatter(&r, &hit, &along, &dot_k).is_none());
    let out = |_: Ray, _: HitRecord, _: Scalar| v3(1.0, 0.001, 0.0);
    assert!(m.scatter(&r, &hit, &out, &dot_k).is_some());
}

#[test]
fn a_mirror_is_handed_its_clamped_fuzz() {
    let m = Metal::new(v3(0.7, 0.6, 0.5), s(3.0));
    let hit = hit_at_origin([0.0, 1.0, 0.0], Material::Metal(m));
    let r = ray([-1.0, 1.0, 0.0], [1.0, -1.0, 0.0], 0.0);
    let seen = Cell::new(0.0f32);
    let spy = |_: Ray, _: HitRecord, fuzz: Scalar| {
        seen.set(f(fuzz));
        v3(0.0, 1.0, 0.0)
    };
    assert!(m.scatter(&r, &hit, &spy, &dot_k).is_some());
    assert_eq!(seen.get(), 1.0);
}

fn candidates(disc: f32, prob: f32, sample: f32) -> Refraction {
    Refraction {
        reflected: v3(1.0, 0.0, 0.0),
        discriminant: s(disc),
        refracted: v3(0.0, 1.0, 0.0),
        reflect_prob: s(prob),
        sample: s(sample),
    }
}

#[test]
fn refract_fails_under_total_reflection() {
    assert_eq!(candidates(0.5, 0.1, 0.9).refract().map(arr), Some([0.0, 1.0, 0.0]));
    assert!(candidates(0.0, 0.1, 0.9).refract().is_none());
    assert!(candidates(-0.5, 0.1, 0.9).refract().is_none());
    assert!(candidates(f32::NAN, 0.1, 0.9).refract().is_none());
}

#[test]
fn pick_mirrors_when_the_draw_falls_below_the_mirrored_share() {
    assert_eq!(arr(candidates(0.5, 0.3, 0.2).pick()), [1.0, 0.0, 0.0]);
    assert_eq!(arr(candidates(0.5, 0.3, 0.3).pick()), [0.0, 1.0, 0.0]);
    assert_eq!(arr(candidates(0.5, 0.3, 0.9).pick()), [0.0, 1.0, 0.0]);
    // under total reflection the draw does not matter
    assert_eq!(arr(candidates(-0.5, 0.0, 0.9).pick()), [1.0, 0.0, 0.0]);
    assert_eq!(arr(candidates(0.0, 0.0, 0.0).pick()), [1.0, 0.0, 0.0]);
}

#[test]
fn glass_never_absorbs_and_never_attenuates() {
    let rng = RefCell::new(Pcg64Mcg::seed_from_u64(11));
    let o = optics(&rng);
    let glass = Material::Dielectric(Dielectric::new(s(1.5)));
    let hit = hit_at_origin([0.0, 1.0, 0.0], glass);
    for k in 0..50 {
        let d = [0.1 * k as f32 - 2.5, -1.0, 0.3];
        let r = ray([0.0, 1.0, 0.0], d, 0.75);
        let (attenuation, scattered) = glass.scatter(&r, &hit, &o).unwrap();
        assert_eq!(arr(attenuation), [1.0, 1.0, 1.0]);
        assert_eq!(arr(scattered.origin), [0.0, 0.0, 0.0]);
        assert_eq!(f(scattered.time), 0.75);
    }
}

#[test]
fn glass_tells_entering_from_leaving_by_the_normal() {
    let glass = Dielectric::new(s(1.5));
    let hit = hit_at_origin([0.0, 1.0, 0.0], Material::Dielectric(glass));
    let seen = Cell::new(None);
    let spy = |r: Ray, h: HitRecord, index: Scalar, exiting: bool| {
        seen.set(Some((exiting, f(index))));
        refraction_with(r, h, index, exiting, 0.99)
    };
    let entering = ray([0.0, 1.0, 0.0], [0.0, -1.0, 0.0], 0.0);
    let (_, scattered) = glass.scatter(&entering, &hit, &dot_k, &spy).unwrap();
    assert_eq!(seen.get(), Some((false, 1.5)));
    // straight in, and the draw is above the mirrored share: straight on
    assert_eq!(arr(scattered.direction), [0.0, -1.0, 0.0]);
    let leaving = ray([0.0, -1.0, 0.0], [0.0, 1.0, 0.0], 0.0);
    let (_, scattered) = glass.scatter(&leaving, &hit, &dot_k, &spy).unwrap();
    assert_eq!(seen.get(), Some((true, 1.5)));
    assert_eq!(arr(scattered.direction), [0.0, 1.0, 0.0]);
    // along the surface counts as entering
    let grazing = ray([-1.0, 0.0, 0.0], [1.0, 0.0, 0.0], 0.0);
    let _ = glass.scatter(&grazing, &hit, &dot_k, &spy);
    assert_eq!(seen.get().map(|x| x.0), Some(false));
}

#[test]
fn glass_reflects_totally_at_a_flat_angle_from_inside() {
    let glass = Dielectric::new(s(1.5));
    let hit = hit_at_origin([0.0, 1.0, 0.0], Material::Dielectric(glass));
    let never = |r: Ray, h: HitRecord, index: Scalar, exiting: bool| {
        refraction_with(r, h, index, exiting, 0.999)
    };
    let flat = ray([-1.0, -0.1, 0.0], [1.0, 0.1, 0.0], 0.0);
    let (_, scattered) = glass.scatter(&flat, &hit, &dot_k, &never).unwrap();
    let d = arr(scattered.direction);
    assert!((d[0] - 1.0).abs() < 1e-6);
    assert!((d[1] + 0.1).abs() < 1e-6);
}

// ---- the hierarchy ----

fn measured(objs: &[Hittable], t0: f32, t1: f32) -> Vec<Bounded> {
    let g = geometry();
    objs.iter().map(|o| Bounded::measure(*o, s(t0), s(t1), &g)).collect()
}

fn scattered_spheres(n: usize, seed: u64) -> Vec<Hittable> {
    let mut rng = Pcg64Mcg::seed_from_u64(seed);
    (0..n)
        .map(|k| {
            let c = [
                rng.gen_range(-20.0f32, 20.0),
                rng.gen_range(-20.0f32, 20.0),
                rng.gen_range(-20.0f32, 20.0),
            ];
            let r = rng.gen_range(0.3f32, 2.0);
            if k % 5 == 4 {
                Hittable::MovingSphere(MovingSphere::new(
                    from_arr(c),
                    from_arr(add(c, [0.0, rng.gen_range(0.0f32, 1.0), 0.0])),
                    s(0.0),
                    s(1.0),
                    s(r),
                    grey(),
                ))
            } else {
                sphere(c, r)
            }
        })
        .collect()
}

fn agrees_with_scan(n: usize, seed: u64) {
    let g = geometry();
    let objs = scattered_spheres(n, seed);
    let mut rng = seeded(seed);
    let tree = BVH::new(objs.clone(), s(0.0), s(1.0), &g, &mut rng);
    assert_eq!(count_leaves(&tree), n);
    assert!(boxes_are_unions(&tree));
    let mut rays = Pcg64Mcg::seed_from_u64(seed + 1000);
    let mut hits = 0;
    for _ in 0..400 {
        let o = [
            rays.gen_range(-30.0f32, 30.0),
            rays.gen_range(-30.0f32, 30.0),
            rays.gen_range(-30.0f32, 30.0),
        ];
        let target = match &objs[rays.gen_range(0, n)] {
            Hittable::Sphere(sp) => arr(sp.center),
            Hittable::MovingSphere(m) => arr(m.center0),
        };
        let d = add(sub(target, o), [rays.gen_range(-1.0f32, 1.0), rays.gen_range(-1.0f32, 1.0), 0.0]);
        let r = ray(o, d, rays.gen::<f32>());
        let found = tree.hit(&r, s(1e-3), s(f32::MAX), &g);
        let scanned = hit_list(&objs, &r, s(1e-3), s(f32::MAX), &g);
        assert!(same_hit(&found, &scanned));
        if found.is_some() {
            hits += 1;
        }
    }
    assert!(hits > 50);
}

#[test]
fn the_hierarchy_over_one_primitive_agrees_with_a_scan() {
    agrees_with_scan(1, 1);
}

#[test]
fn the_hierarchy_over_two_primitives_agrees_with_a_scan() {
    agrees_with_scan(2, 2);
}

#[test]
fn the_hierarchy_over_three_primitives_agrees_with_a_scan() {
    agrees_with_scan(3, 3);
}

#[test]
fn the_hierarchy_over_many_primitives_agrees_with_a_scan() {
    agrees_with_scan(150, 4);
    agrees_with_scan(101, 5);
}

#[test]
fn one_primitive_makes_a_leaf() {
    let objs = vec![sphere([1.0, 2.0, 3.0], 0.5)];
    let tree = BVH::build(measured(&objs, 0.0, 1.0), &mut seeded(1));
    match tree {
        BVH::Leaf { bbox, .. } => {
            assert_eq!(arr(bbox.min), [0.5, 1.5, 2.5]);
            assert_eq!(arr(bbox.max), [1.5, 2.5, 3.5]);
        }
        BVH::Node { .. } => panic!("a leaf was expected"),
    }
}

fn leaf_centre(tree: &BVH) -> [f32; 3] {
    match tree {
        BVH::Leaf { obj: Hittable::Sphere(sp), .. } => arr(sp.center),
        _ => panic!("a leaf with a sphere was expected"),
    }
}

#[test]
fn two_primitives_make_a_node_of_two_leaves_in_order() {
    // on every axis the second sphere comes first
    let objs = vec![sphere([5.0, 5.0, 5.0], 1.0), sphere([0.0, 0.0, 0.0], 1.0)];
    for seed in 0..20 {
        let tree = BVH::build(measured(&objs, 0.0, 1.0), &mut seeded(seed));
        match &tree {
            BVH::Node { left, right, bbox } => {
                assert_eq!(leaf_centre(left), [0.0, 0.0, 0.0]);
                assert_eq!(leaf_centre(right), [5.0, 5.0, 5.0]);
                assert_eq!(arr(bbox.min), [-1.0, -1.0, -1.0]);
                assert_eq!(arr(bbox.max), [6.0, 6.0, 6.0]);
            }
            BVH::Leaf { .. } => panic!("a node was expected"),
        }
        assert_eq!(arr(tree.bounding_box(s(0.0), s(1.0)).unwrap().max), [6.0, 6.0, 6.0]);
    }
}

#[test]
fn three_primitives_put_the_smaller_half_on_the_left() {
    let objs = vec![
        sphere([2.0, 2.0, 2.0], 0.5),
        sphere([0.0, 0.0, 0.0], 0.5),
        sphere([1.0, 1.0, 1.0], 0.5),
    ];
    for seed in 0..20 {
        let tree = BVH::build(measured(&objs, 0.0, 1.0), &mut seeded(seed));
        match &tree {
            BVH::Node { left, right, .. } => {
                assert_eq!(leaf_centre(left), [0.0, 0.0, 0.0]);
                match &**right {
                    BVH::Node { left, right, .. } => {
                        assert_eq!(leaf_centre(left), [1.0, 1.0, 1.0]);
                        assert_eq!(leaf_centre(right), [2.0, 2.0, 2.0]);
                    }
                    BVH::Leaf { .. } => panic!("a node was expected"),
                }
            }
            BVH::Leaf { .. } => panic!("a node was expected"),
        }
    }
}

#[test]
fn the_axis_that_is_drawn_decides_the_order() {
    // x and y order these two differently, so both orders must turn up
    let objs = vec![sphere([0.0, 5.0, 0.0], 1.0), sphere([5.0, 0.0, 0.0], 1.0)];
    let mut first_left = 0;
    let mut second_left = 0;
    for seed in 0..64 {
        let tree = BVH::build(measured(&objs, 0.0, 1.0), &mut seeded(seed));
        match &tree {
            BVH::Node { left, .. } => {
                if leaf_centre(left) == [0.0, 5.0, 0.0] {
                    first_left += 1;
                } else {
                    second_left += 1;
                }
            }
            BVH::Leaf { .. } => panic!("a node was expected"),
        }
    }
    assert!(first_left > 0);
    assert!(second_left > 0);
}

#[test]
fn sorting_is_stable_and_ascending() {
    let objs = vec![
        sphere([3.0, 0.0, 9.0], 1.0),
        sphere([1.0, 0.0, 8.0], 1.0),
        sphere([3.0, 0.0, 7.0], 1.0),
        sphere([1.0, 0.0, 6.0], 1.0),
        sphere([2.0, 0.0, 5.0], 1.0),
    ];
    let entries = measured(&objs, 0.0, 1.0);
    let centre_z = |e: &Bounded| match e.obj {
        Hittable::Sphere(sp) => f(sp.center.z),
        _ => panic!("a sphere was expected"),
    };
    let by_x: Vec<f32> = sort_on(&entries, 0).iter().map(centre_z).collect();
    assert_eq!(by_x, vec![8.0, 6.0, 5.0, 9.0, 7.0]);
    // all level on the y axis: the order that was given stays
    let by_y: Vec<f32> = sort_on(&entries, 1).iter().map(centre_z).collect();
    assert_eq!(by_y, vec![9.0, 8.0, 7.0, 6.0, 5.0]);
    let by_z: Vec<f32> = sort_on(&entries, 2).iter().map(centre_z).collect();
    assert_eq!(by_z, vec![5.0, 6.0, 7.0, 8.0, 9.0]);
}

#[test]
fn sorting_agrees_with_a_stable_sort() {
    let mut rng = Pcg64Mcg::seed_from_u64(77);
    for n in [0usize, 1, 2, 3, 4, 5, 8, 31, 64, 257] {
        // few distinct keys, so that many primitives are level
        let objs: Vec<Hittable> = (0..n)
            .map(|k| {
                let c = [
                    rng.gen_range(0, 6) as f32,
                    rng.gen_range(-2, 3) as f32 * 0.0,
                    rng.gen_range(-50.0f32, 50.0),
                ];
                sphere(c, 1.0 + k as f32)
            })
            .collect();
        let entries = measured(&objs, 0.0, 1.0);
        for axis in 0..3 {
            let mut expected: Vec<usize> = (0..n).collect();
            expected
                .sort_by(|a, b| f(entries[*a].key.axis(axis)).partial_cmp(&f(entries[*b].key.axis(axis))).unwrap());
            let radius = |e: &Bounded| match e.obj {
                Hittable::Sphere(sp) => f(sp.radius),
                _ => panic!("a sphere was expected"),
            };
            let got: Vec<f32> = sort_on(&entries, axis).iter().map(radius).collect();
            let want: Vec<f32> = expected.iter().map(|i| radius(&entries[*i])).collect();
            assert_eq!(got, want);
        }
    }
}

#[test]
fn measuring_takes_the_key_at_time_zero_and_the_box_over_the_span() {
    let g = geometry();
    let e = Bounded::measure(Hittable::MovingSphere(mover()), s(0.0), s(1.0), &g);
    assert_eq!(arr(e.key), [-0.5, -0.5, -0.5]);
    assert_eq!(arr(e.bbox.min), [-0.5, -0.5, -0.5]);
    assert_eq!(arr(e.bbox.max), [0.5, 2.5, 0.5]);
    let late = Bounded::measure(Hittable::MovingSphere(mover()), s(1.0), s(1.0), &g);
    assert_eq!(arr(late.key), [-0.5, -0.5, -0.5]);
    assert_eq!(arr(late.bbox.min), [-0.5, 1.5, -0.5]);
}

#[test]
fn keys_that_are_not_numbers_are_found() {
    let good = measured(&[sphere([0.0, 0.0, 0.0], 1.0), sphere([1.0, 0.0, 0.0], 1.0)], 0.0, 1.0);
    assert!(keys_are_ordered(&good));
    let bad = measured(&[sphere([0.0, 0.0, 0.0], 1.0), sphere([1.0, f32::NAN, 0.0], 1.0)], 0.0, 1.0);
    assert!(!keys_are_ordered(&bad));
    assert!(keys_are_ordered(&Vec::new()));
}

#[test]
fn try_new_refuses_an_empty_scene_and_keys_that_are_not_numbers() {
    let g = geometry();
    assert!(BVH::try_new(Vec::new(), s(0.0), s(1.0), &g, &mut seeded(1)).is_none());
    let broken = sphere([1.0, f32::NAN, 0.0], 1.0);
    let sound = sphere([0.0, 0.0, 0.0], 1.0);
    assert!(BVH::try_new(vec![sound, broken], s(0.0), s(1.0), &g, &mut seeded(1)).is_none());
    assert!(BVH::try_new(vec![broken, sound, sound], s(0.0), s(1.0), &g, &mut seeded(1)).is_none());
    // one primitive is never compared with another
    assert!(BVH::try_new(vec![broken], s(0.0), s(1.0), &g, &mut seeded(1)).is_some());
    let tree = BVH::try_new(vec![sound, sound, sound], s(0.0), s(1.0), &g, &mut seeded(1)).unwrap();
    assert_eq!(count_leaves(&tree), 3);
    assert!(Tracer::try_new(camera_at([0.0, 0.0, -4.0]), Vec::new(), sky, &g, &mut seeded(1)).is_none());
    assert!(Tracer::try_new(camera_at([0.0, 0.0, -4.0]), vec![sound, broken], sky, &g, &mut seeded(1))
        .is_none());
    let tracer =
        Tracer::try_new(camera_at([0.0, 0.0, -4.0]), vec![sound, sound], sky, &g, &mut seeded(1)).unwrap();
    assert_eq!(count_leaves(&tracer.world), 2);
}

#[test]
fn the_scan_narrows_its_window_to_the_best_hit() {
    let g = geometry();
    let objs = vec![
        sphere([0.0, 0.0, 10.0], 1.0),
        sphere([0.0, 0.0, 0.0], 1.0),
        sphere([0.0, 0.0, 5.0], 1.0),
    ];
    let r = ray([0.0, 0.0, -5.0], [0.0, 0.0, 1.0], 0.0);
    let hit = hit_list(&objs, &r, s(1e-3), s(f32::MAX), &g).unwrap();
    assert_eq!(f(hit.t), 4.0);
    assert!(hit_list(&objs, &r, s(1e-3), s(3.0), &g).is_none());
    assert!(hit_list(&Vec::new(), &r, s(1e-3), s(f32::MAX), &g).is_none());
}

#[test]
fn the_hierarchy_skips_what_lies_under_a_missed_box() {
    let asked = Cell::new(0);
    let g = Geometry {
        slab: slab_k,
        lerp: lerp_k,
        roots: |c: Vec3, radius: Scalar, r: Ray| {
            asked.set(asked.get() + 1);
            roots_k(c, radius, r)
        },
        surface: surface_k,
        cube: cube_k,
    };
    let objs = scattered_spheres(64, 9);
    let tree = BVH::new(objs, s(0.0), s(1.0), &g, &mut seeded(9));
    let away = ray([100.0, 100.0, 100.0], [1.0, 1.0, 1.0], 0.0);
    assert!(tree.hit(&away, s(1e-3), s(f32::MAX), &g).is_none());
    assert_eq!(asked.get(), 0);
    let through = ray([-40.0, 0.0, 0.0], [1.0, 0.0, 0.0], 0.0);
    let _ = tree.hit(&through, s(1e-3), s(f32::MAX), &g);
    assert!(asked.get() < 64);
}

#[test]
fn a_sphere_with_a_negative_radius_is_found_by_the_scan_only() {
    // its box is turned inside out, so no ray passes the slab test
    let g = geometry();
    let objs = vec![sphere([0.0, 0.0, 0.0], -1.0)];
    let r = ray([0.0, 0.0, -5.0], [0.0, 0.0, 1.0], 0.0);
    let scanned = hit_list(&objs, &r, s(1e-3), s(f32::MAX), &g);
    assert_eq!(f(scanned.unwrap().t), 4.0);
    let tree = BVH::new(objs, s(0.0), s(1.0), &g, &mut seeded(1));
    assert_eq!(arr(tree.bbox().min), [1.0, 1.0, 1.0]);
    assert_eq!(arr(tree.bbox().max), [-1.0, -1.0, -1.0]);
    assert!(tree.hit(&r, s(1e-3), s(f32::MAX), &g).is_none());
}

// ---- the estimator ----

fn sky(r: &Ray) -> Vec3 {
    let d = unit(arr(r.direction));
    let t = 0.5 * (d[1] + 1.0);
    from_arr(add(scale([1.0, 1.0, 1.0], 1.0 - t), scale([0.5, 0.7, 1.0], t)))
}

fn one_sphere_world(material: Material) -> BVH {
    let g = geometry();
    let objs = vec![Hittable::Sphere(Sphere::new(v3(0.0, 0.0, 0.0), s(1.0), material))];
    BVH::new(objs, s(0.0), s(1.0), &g, &mut seeded(1))
}

#[test]
fn a_ray_that_hits_nothing_sees_the_environment_at_any_depth() {
    let rng = RefCell::new(Pcg64Mcg::seed_from_u64(5));
    let o = optics(&rng);
    let g = geometry();
    let world = one_sphere_world(grey());
    let r = ray([0.0, 5.0, -5.0], [0.3, 0.4, 1.0], 0.0);
    let expected = arr(sky(&r));
    for depth in [0usize, 1, 49, 50, 51, 1000, usize::MAX] {
        assert_eq!(arr(color(&r, &world, &sky, depth, &g, &o)), expected);
    }
}

#[test]
fn a_hit_at_the_depth_limit_is_black() {
    let rng = RefCell::new(Pcg64Mcg::seed_from_u64(5));
    let o = optics(&rng);
    let g = geometry();
    let world = one_sphere_world(grey());
    let r = ray([0.0, 0.0, -5.0], [0.0, 0.0, 1.0], 0.0);
    assert_eq!(MAX_DEPTH, 50);
    assert_eq!(arr(color(&r, &world, &sky, 50, &g, &o)), [0.0, 0.0, 0.0]);
    assert_eq!(arr(color(&r, &world, &sky, 51, &g, &o)), [0.0, 0.0, 0.0]);
    assert_eq!(arr(color(&r, &world, &sky, usize::MAX, &g, &o)), [0.0, 0.0, 0.0]);
    let below = arr(color(&r, &world, &sky, 49, &g, &o));
    assert!(below[0] > 0.0);
}

#[test]
fn an_absorbed_ray_is_black() {
    let g = geometry();
    let into = Optics {
        diffuse: |h: HitRecord| h.normal,
        specular: |_: Ray, h: HitRecord, _: Scalar| from_arr(scale(arr(h.normal), -1.0)),
        dot: dot_k,
        refraction: |r: Ray, h: HitRecord, i: Scalar, e: bool| refraction_with(r, h, i, e, 0.5),
        tint: tint_k,
    };
    let world = one_sphere_world(Material::Metal(Metal::new(v3(0.9, 0.9, 0.9), s(0.0))));
    let r = ray([0.0, 0.0, -5.0], [0.0, 0.0, 1.0], 0.0);
    assert_eq!(arr(color(&r, &world, &sky, 0, &g, &into)), [0.0, 0.0, 0.0]);
}

#[test]
fn one_bounce_tints_the_environment_by_the_albedo() {
    let g = geometry();
    let straight = Optics {
        diffuse: |h: HitRecord| h.normal,
        specular: |_: Ray, h: HitRecord, _: Scalar| h.normal,
        dot: dot_k,
        refraction: |r: Ray, h: HitRecord, i: Scalar, e: bool| refraction_with(r, h, i, e, 0.5),
        tint: tint_k,
    };
    let white = |_: &Ray| v3(1.0, 1.0, 1.0);
    let world = one_sphere_world(Material::Lambertian(Lambertian::new(v3(0.4, 0.2, 0.1))));
    let r = ray([0.0, 0.0, -5.0], [0.0, 0.0, 1.0], 0.0);
    assert_eq!(arr(color(&r, &world, &white, 0, &g, &straight)), [0.4, 0.2, 0.1]);
    let blue = |_: &Ray| v3(0.0, 0.0, 0.5);
    assert_eq!(arr(color(&r, &world, &blue, 0, &g, &straight)), [0.0, 0.0, 0.05]);
}

#[test]
fn the_nearest_hit_is_one_thousandth_away_at_least() {
    assert_eq!(NEAREST_HIT_BITS, 1e-3f32.to_bits());
    let g = geometry();
    let seen = Cell::new(0);
    let straight = Optics {
        diffuse: |h: HitRecord| {
            seen.set(seen.get() + 1);
            h.normal
        },
        specular: |_: Ray, h: HitRecord, _: Scalar| h.normal,
        dot: dot_k,
        refraction: |r: Ray, h: HitRecord, i: Scalar, e: bool| refraction_with(r, h, i, e, 0.5),
        tint: tint_k,
    };
    let white = |_: &Ray| v3(1.0, 1.0, 1.0);
    let world = one_sphere_world(grey());
    // a ray that starts on the surface and leaves it does not hit it again
    let leaving = ray([0.0, 0.0, -1.0], [0.0, 0.0, -1.0], 0.0);
    assert_eq!(arr(color(&leaving, &world, &white, 0, &g, &straight)), [1.0, 1.0, 1.0]);
    assert_eq!(seen.get(), 0);
}

// ---- the render loop ----

#[test]
fn rows_run_from_the_top_of_the_image_down() {
    let rows = split_scanlines(12, 4, 3);
    assert_eq!(
        rows,
        vec![
            Scanline { y: 2, start: 0, end: 4 },
            Scanline { y: 1, start: 4, end: 8 },
            Scanline { y: 0, start: 8, end: 12 },
        ]
    );
    assert_eq!(split_scanlines(100, 4, 3), rows);
}

#[test]
fn rows_of_images_without_extent() {
    assert_eq!(split_scanlines(10, 5, 0), Vec::new());
    assert_eq!(split_scanlines(0, 0, 0), Vec::new());
    assert_eq!(split_scanlines(10, 0, 7), vec![Scanline { y: 6, start: 0, end: 0 }]);
    assert_eq!(split_scanlines(3, 3, 1), vec![Scanline { y: 0, start: 0, end: 3 }]);
    assert_eq!(
        split_scanlines(3, 1, 3),
        vec![
            Scanline { y: 2, start: 0, end: 1 },
            Scanline { y: 1, start: 1, end: 2 },
            Scanline { y: 0, start: 2, end: 3 },
        ]
    );
}

#[test]
fn rows_cover_the_image_without_overlap() {
    for (w, h) in [(1usize, 1usize), (7, 5), (16, 9), (3, 40)] {
        let rows = split_scanlines(w * h + 5, w, h);
        assert_eq!(rows.len(), h);
        let mut next = 0;
        for (k, row) in rows.iter().enumerate() {
            assert_eq!(row.start, next);
            assert_eq!(row.end - row.start, w);
            assert_eq!(row.y, h - 1 - k);
            next = row.end;
        }
        assert_eq!(next, w * h);
    }
}

fn camera_at(origin: [f32; 3]) -> Camera {
    Camera {
        origin: from_arr(origin),
        lower_left: v3(-1.0, -1.0, 0.0),
        horizontal: v3(2.0, 0.0, 0.0),
        vertical: v3(0.0, 2.0, 0.0),
        u: v3(1.0, 0.0, 0.0),
        v: v3(0.0, 1.0, 0.0),
        w: v3(0.0, 0.0, -1.0),
        lens_radius: s(0.0),
        time0: s(0.0),
        time1: s(1.0),
    }
}

fn primary_through_centre(c: Camera, x: usize, y: usize, w: usize, h: usize) -> Ray {
    let u = (x as f32 + 0.5) / w as f32;
    let v = (y as f32 + 0.5) / h as f32;
    let target = add(add(arr(c.lower_left), scale(arr(c.horizontal), u)), scale(arr(c.vertical), v));
    Ray::new(c.origin, from_arr(sub(target, arr(c.origin))), c.time0)
}

fn blend_k(average: Vec3, sample: Vec3, n: usize) -> Vec3 {
    let a = arr(average);
    let c = arr(sample);
    let mut out = [0.0f32; 3];
    for i in 0..3 {
        let mut sum = a[i].powi(2) * n as f32;
        sum += c[i];
        sum /= (n + 1) as f32;
        out[i] = sum.sqrt();
    }
    from_arr(out)
}

fn film() -> Film<fn(Camera, usize, usize, usize, usize) -> Ray, fn(Vec3, Vec3, usize) -> Vec3> {
    Film { primary: primary_through_centre, blend: blend_k }
}

fn scene_tracer<F: Fn(&Ray) -> Vec3>(skybox: F, albedo: [f32; 3]) -> Tracer<F> {
    let g = geometry();
    let world = vec![Hittable::Sphere(Sphere::new(
        v3(0.0, 0.0, 0.0),
        s(1.0),
        Material::Lambertian(Lambertian::new(from_arr(albedo))),
    ))];
    Tracer::new(camera_at([0.0, 0.0, -4.0]), world, skybox, &g, &mut seeded(1))
}

#[test]
fn a_tracer_builds_its_hierarchy_for_the_shutter_span() {
    let g = geometry();
    let mut camera = camera_at([0.0, 0.0, -4.0]);
    camera.time0 = s(1.0);
    camera.time1 = s(1.0);
    let tracer = Tracer::new(camera, vec![Hittable::MovingSphere(mover())], sky, &g, &mut seeded(1));
    assert_eq!(arr(tracer.world.bbox().min), [-0.5, 1.5, -0.5]);
    assert_eq!(arr(tracer.camera.origin), [0.0, 0.0, -4.0]);
}

#[test]
fn the_first_sample_is_stored_gamma_encoded() {
    let rng = RefCell::new(Pcg64Mcg::seed_from_u64(21));
    let o = optics(&rng);
    let g = geometry();
    let sky_colour = |r: &Ray| {
        let d = arr(r.direction);
        v3(if d[0] < 0.0 { 0.25 } else { 0.5 }, if d[1] < 0.0 { 0.04 } else { 0.81 }, 0.09)
    };
    // a camera that looks away from the sphere: every ray sees the sky
    let g2 = geometry();
    let world = vec![sphere([0.0, 0.0, -100.0], 1.0)];
    let tracer = Tracer::new(camera_at([0.0, 0.0, -4.0]), world, sky_colour, &g2, &mut seeded(1));
    let (w, h) = (4usize, 2usize);
    let mut buffer = vec![0u32; w * h];
    let count = tracer.render_sample(&mut buffer, w, h, 0, &g, &o, &film());
    assert_eq!(count, 1);
    for i in 0..w * h {
        let (x, y) = (i % w, h - 1 - i / w);
        let r = primary_through_centre(tracer.camera, x, y, w, h);
        let sample = arr(sky_colour(&r));
        let encoded = v3(sample[0].sqrt(), sample[1].sqrt(), sample[2].sqrt());
        assert_eq!(buffer[i], encoded.to_argb());
    }
    // the top row of the buffer is the top of the image
    assert_eq!(buffer[0], v3(0.5, 0.9, 0.3).to_argb());
    assert_eq!(buffer[w * h - 1], v3(0.70710677, 0.2, 0.3).to_argb());
}

#[test]
fn each_call_adds_one_sample_and_keeps_the_buffer() {
    let rng = RefCell::new(Pcg64Mcg::seed_from_u64(22));
    let o = optics(&rng);
    let g = geometry();
    let tracer = scene_tracer(sky, [0.5, 0.5, 0.5]);
    let (w, h) = (6usize, 4usize);
    let mut buffer = vec![0xdead_beefu32; w * h + 3];
    for i in 0..w * h {
        buffer[i] = 0;
    }
    let mut n = 0;
    for k in 0..5 {
        let next = tracer.render_sample(&mut buffer, w, h, n, &g, &o, &film());
        assert_eq!(next, n + 1);
        assert_eq!(next, k + 1);
        assert_eq!(buffer.len(), w * h + 3);
        // what lies behind the image is left alone
        assert_eq!(&buffer[w * h..], &[0xdead_beef, 0xdead_beef, 0xdead_beef]);
        for i in 0..w * h {
            assert!(buffer[i] < 0x0100_0000);
        }
        n = next;
    }
}

#[test]
fn an_image_without_width_leaves_the_buffer_alone() {
    let rng = RefCell::new(Pcg64Mcg::seed_from_u64(22));
    let o = optics(&rng);
    let g = geometry();
    let tracer = scene_tracer(sky, [0.5, 0.5, 0.5]);
    let mut buffer = vec![7u32; 4];
    assert_eq!(tracer.render_sample(&mut buffer, 0, 9, 3, &g, &o, &film()), 4);
    assert_eq!(buffer, vec![7u32; 4]);
    assert_eq!(tracer.render_sample(&mut buffer, 9, 0, 3, &g, &o, &film()), 4);
    assert_eq!(buffer, vec![7u32; 4]);
}

#[test]
fn rows_rendered_one_by_one_make_the_image() {
    let g = geometry();
    let fixed = Optics {
        diffuse: |h: HitRecord| h.normal,
        specular: |_: Ray, h: HitRecord, _: Scalar| h.normal,
        dot: dot_k,
        refraction: |r: Ray, h: HitRecord, i: Scalar, e: bool| refraction_with(r, h, i, e, 0.5),
        tint: tint_k,
    };
    let tracer = scene_tracer(sky, [0.5, 0.4, 0.3]);
    let (w, h) = (5usize, 4usize);
    let mut whole = vec![0u32; w * h];
    assert_eq!(tracer.render_sample(&mut whole, w, h, 0, &g, &fixed, &film()), 1);
    let mut by_rows = vec![0u32; w * h];
    for row in split_scanlines(by_rows.len(), w, h) {
        let block = &mut by_rows[row.start..row.end];
        tracer.render_scanline(block, row.y, w, h, 0, &g, &fixed, &film());
    }
    assert_eq!(whole, by_rows);
    // a block longer than a row keeps what lies behind the row
    let mut long = vec![9u32; w + 2];
    tracer.render_scanline(&mut long, 0, w, h, 0, &g, &fixed, &film());
    assert_eq!(&long[..w], &whole[(h - 1) * w..]);
    assert_eq!(&long[w..], &[9, 9]);
}

#[test]
fn a_pixel_is_the_blend_of_its_past_and_one_sample() {
    let g = geometry();
    let only = Optics {
        diffuse: |h: HitRecord| h.normal,
        specular: |_: Ray, h: HitRecord, _: Scalar| h.normal,
        dot: dot_k,
        refraction: |r: Ray, h: HitRecord, i: Scalar, e: bool| refraction_with(r, h, i, e, 0.5),
        tint: tint_k,
    };
    let white = |_: &Ray| v3(1.0, 1.0, 1.0);
    let tracer = scene_tracer(white, [0.36, 0.36, 0.36]);
    let seen = Cell::new((0usize, 0usize, 0usize, 0usize));
    let f2 = Film {
        primary: |c: Camera, x: usize, y: usize, w: usize, h: usize| {
            seen.set((x, y, w, h));
            Ray::new(c.origin, v3(0.0, 0.0, 1.0), c.time0)
        },
        blend: blend_k,
    };
    let old = v3(0.5, 0.5, 0.5).to_argb();
    let pixel = tracer.render_pixel(old, 3, 1, 8, 4, 1, &g, &only, &f2);
    assert_eq!(seen.get(), (3, 1, 8, 4));
    let before = Vec3::from_argb(old);
    let expected = blend_k(before, v3(0.36, 0.36, 0.36), 1);
    assert_eq!(pixel, expected.to_argb());
}

fn centre_pixel_after<F: Fn(&Ray) -> Vec3>(tracer: &Tracer<F>, samples: usize, seed: u64) -> [u8; 3] {
    let rng = RefCell::new(Pcg64Mcg::seed_from_u64(seed));
    let o = optics(&rng);
    let g = geometry();
    let (w, h) = (3usize, 3usize);
    let mut buffer = vec![0u32; w * h];
    let mut n = 0;
    for _ in 0..samples {
        n = tracer.render_sample(&mut buffer, w, h, n, &g, &o, &film());
    }
    let p = buffer[4];
    [(p >> 16) as u8, (p >> 8) as u8, p as u8]
}

#[test]
fn a_diffuse_sphere_under_a_white_sky_shows_its_albedo() {
    // a lone sphere cannot shade itself: every scattered ray leaves it
    let white = |_: &Ray| v3(1.0, 1.0, 1.0);
    let albedo = [0.8f32, 0.6, 0.4];
    let tracer = scene_tracer(white, albedo);
    let pixel = centre_pixel_after(&tracer, 300, 31);
    let of_albedo = v3(albedo[0].sqrt(), albedo[1].sqrt(), albedo[2].sqrt()).to_rgb();
    for i in 0..3 {
        assert!(pixel[i] > 0);
        assert!(pixel[i] <= of_albedo[i]);
        assert!(pixel[i] + 1 >= of_albedo[i]);
    }
    assert!(pixel[0] > pixel[1] && pixel[1] > pixel[2]);
}

#[test]
fn a_diffuse_sphere_on_a_diffuse_floor_is_darker_than_its_albedo_and_not_black() {
    let white = |_: &Ray| v3(1.0, 1.0, 1.0);
    let albedo = [0.8f32, 0.6, 0.4];
    let g = geometry();
    let lambertian = Material::Lambertian(Lambertian::new(from_arr(albedo)));
    let world = vec![
        Hittable::Sphere(Sphere::new(v3(0.0, 0.0, 0.0), s(1.0), lambertian)),
        // a wall in front of the sphere, behind the camera
        Hittable::Sphere(Sphere::new(v3(0.0, 0.0, -1006.0), s(1000.0), lambertian)),
    ];
    let tracer = Tracer::new(camera_at([0.0, 0.0, -4.0]), world, white, &g, &mut seeded(1));
    let pixel = centre_pixel_after(&tracer, 300, 33);
    let of_albedo = v3(albedo[0].sqrt(), albedo[1].sqrt(), albedo[2].sqrt()).to_rgb();
    for i in 0..3 {
        assert!(pixel[i] > 0);
        assert!(pixel[i] < of_albedo[i]);
    }
}

#[test]
fn a_diffuse_sphere_under_a_black_sky_stays_black() {
    let black = |_: &Ray| v3(0.0, 0.0, 0.0);
    let tracer = scene_tracer(black, [0.8, 0.6, 0.4]);
    assert_eq!(centre_pixel_after(&tracer, 100, 32), [0, 0, 0]);
}

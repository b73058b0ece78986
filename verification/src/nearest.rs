//! Why the hierarchy can be trusted: it finds what a scan of all primitives
//! finds.
//!
//! The engine does not compute the numbers it orders, so the statements
//! here are made of what the caller's functions return. They hold for
//! functions that return one value per argument, that never put a sphere's
//! far root before its near one, and for which a ray that hits a primitive
//! also passes the slab test of every box around the primitive's box.

use vstd::prelude::*;
use crate::aabb::AABB;
use crate::aabb::Slab;
use crate::bvh::BVH;
use crate::bvh::Bounded;
use crate::bvh::among;
use crate::hittable::Geometry;
use crate::hittable::HitRecord;
use crate::hittable::Hittable;
use crate::hittable::scan_from;
use crate::ray::Ray;
use crate::scalar::Scalar;
use crate::sphere::MovingSphere;
use crate::sphere::Roots;
use crate::sphere::Surface;
use crate::sphere::ball_hit_spec;
use crate::vec3::Vec3;

verus! {

/// Whether each function of the geometry returns one value per argument.
pub open spec fn deterministic<S, L, Q, P, C>(g: Geometry<S, L, Q, P, C>) -> bool where
    S: Fn(Scalar, Scalar, Scalar, Scalar) -> Slab,
    L: Fn(MovingSphere, Scalar) -> Vec3,
    Q: Fn(Vec3, Scalar, Ray) -> Roots,
    P: Fn(Vec3, Scalar, Ray, Scalar) -> Surface,
    C: Fn(Vec3, Scalar) -> AABB,
 {
    &&& forall|a: Scalar, b: Scalar, c: Scalar, d: Scalar, x: Slab, y: Slab|
        #[trigger] call_ensures(g.slab, (a, b, c, d), x) && #[trigger] call_ensures(
            g.slab,
            (a, b, c, d),
            y,
        ) ==> x == y
    &&& forall|m: MovingSphere, t: Scalar, x: Vec3, y: Vec3|
        #[trigger] call_ensures(g.lerp, (m, t), x) && #[trigger] call_ensures(g.lerp, (m, t), y)
            ==> x == y
    &&& forall|c: Vec3, radius: Scalar, r: Ray, x: Roots, y: Roots|
        #[trigger] call_ensures(g.roots, (c, radius, r), x) && #[trigger] call_ensures(
            g.roots,
            (c, radius, r),
            y,
        ) ==> x == y
    &&& forall|c: Vec3, radius: Scalar, r: Ray, t: Scalar, x: Surface, y: Surface|
        #[trigger] call_ensures(g.surface, (c, radius, r, t), x) && #[trigger] call_ensures(
            g.surface,
            (c, radius, r, t),
            y,
        ) ==> x == y
}

/// Whether, for this ray, no sphere's far root comes out before its near
/// one.
pub open spec fn roots_in_order<S, L, Q, P, C>(g: Geometry<S, L, Q, P, C>, r: Ray) -> bool where
    S: Fn(Scalar, Scalar, Scalar, Scalar) -> Slab,
    L: Fn(MovingSphere, Scalar) -> Vec3,
    Q: Fn(Vec3, Scalar, Ray) -> Roots,
    P: Fn(Vec3, Scalar, Ray, Scalar) -> Surface,
    C: Fn(Vec3, Scalar) -> AABB,
 {
    forall|c: Vec3, radius: Scalar, q: Roots| #[trigger]
        call_ensures(g.roots, (c, radius, r), q) ==> !q.far.lt(q.near)
}

/// Whether the slab test is on the safe side for a primitive with the box
/// `bbox`: where the ray hits the primitive in the window, it passes the
/// test of every box around `bbox`.
pub open spec fn box_is_safe<S, L, Q, P, C>(
    obj: Hittable,
    bbox: AABB,
    r: Ray,
    tmin: Scalar,
    tmax: Scalar,
    g: Geometry<S, L, Q, P, C>,
) -> bool where
    S: Fn(Scalar, Scalar, Scalar, Scalar) -> Slab,
    L: Fn(MovingSphere, Scalar) -> Vec3,
    Q: Fn(Vec3, Scalar, Ray) -> Roots,
    P: Fn(Vec3, Scalar, Ray, Scalar) -> Surface,
    C: Fn(Vec3, Scalar) -> AABB,
 {
    forall|around: AABB, h: HitRecord, inside: bool|
        around.contains(bbox) && #[trigger] obj.hit_spec(r, tmin, tmax, g, Some(h)) && #[trigger] around.hit_spec(
            r,
            tmin,
            tmax,
            g.slab,
            inside,
        ) ==> inside
}

/// The slab test is on the safe side for a primitive as soon as it is so
/// for the primitive's own box and the arithmetic of the slabs treats a
/// wider slab as a wider slab.
pub proof fn lemma_box_is_safe_by_widening<S, L, Q, P, C>(
    obj: Hittable,
    bbox: AABB,
    r: Ray,
    tmin: Scalar,
    tmax: Scalar,
    g: Geometry<S, L, Q, P, C>,
) where
    S: Fn(Scalar, Scalar, Scalar, Scalar) -> Slab,
    L: Fn(MovingSphere, Scalar) -> Vec3,
    Q: Fn(Vec3, Scalar, Ray) -> Roots,
    P: Fn(Vec3, Scalar, Ray, Scalar) -> Surface,
    C: Fn(Vec3, Scalar) -> AABB,

    requires
        !tmin.is_nan(),
        !tmax.is_nan(),
        AABB::slabs_widen(g.slab),
        forall|h: HitRecord| #[trigger]
            obj.hit_spec(r, tmin, tmax, g, Some(h)) ==> bbox.hit_spec(r, tmin, tmax, g.slab, true),
    ensures
        box_is_safe(obj, bbox, r, tmin, tmax, g),
{
    assert forall|around: AABB, h: HitRecord, inside: bool|
        around.contains(bbox) && #[trigger] obj.hit_spec(r, tmin, tmax, g, Some(h))
            && #[trigger] around.hit_spec(r, tmin, tmax, g.slab, inside) implies inside by {
        bbox.lemma_wider_box_is_hit(around, r, tmin, tmax, g.slab, inside);
    }
}

/// Whether `out` is the answer that a search among `objs` owes: nothing
/// where the ray hits none of them in the window, and otherwise a hit of
/// one of them than which no hit of any of them is strictly nearer.
pub open spec fn is_nearest<S, L, Q, P, C>(
    objs: Seq<Hittable>,
    r: Ray,
    tmin: Scalar,
    tmax: Scalar,
    g: Geometry<S, L, Q, P, C>,
    out: Option<HitRecord>,
) -> bool where
    S: Fn(Scalar, Scalar, Scalar, Scalar) -> Slab,
    L: Fn(MovingSphere, Scalar) -> Vec3,
    Q: Fn(Vec3, Scalar, Ray) -> Roots,
    P: Fn(Vec3, Scalar, Ray, Scalar) -> Surface,
    C: Fn(Vec3, Scalar) -> AABB,
 {
    match out {
        None => forall|i: int, h: Option<HitRecord>|
            0 <= i < objs.len() && #[trigger] objs[i].hit_spec(r, tmin, tmax, g, h) ==> h is None,
        Some(a) => {
            &&& exists|i: int|
                0 <= i < objs.len() && #[trigger] objs[i].hit_spec(r, tmin, tmax, g, Some(a))
            &&& forall|i: int, h: HitRecord|
                0 <= i < objs.len() && #[trigger] objs[i].hit_spec(r, tmin, tmax, g, Some(h))
                    ==> !h.t.lt(a.t)
        },
    }
}

/// A hit of a sphere lies strictly inside the window.
pub proof fn lemma_ball_hit_in_window<Q: Fn(Vec3, Scalar, Ray) -> Roots, P: Fn(Vec3, Scalar, Ray, Scalar) -> Surface>(
    center: Vec3,
    radius: Scalar,
    material: crate::material::Material,
    r: Ray,
    tmin: Scalar,
    tmax: Scalar,
    roots: Q,
    surface: P,
    h: HitRecord,
)
    requires
        ball_hit_spec(center, radius, material, r, tmin, tmax, roots, surface, Some(h)),
    ensures
        tmin.lt(h.t),
        h.t.lt(tmax),
{
    let q = choose|q: Roots|
        {
            &&& #[trigger] call_ensures(roots, (center, radius, r), q)
            &&& match q.select(tmin, tmax) {
                None => Some(h) is None,
                Some(t) => exists|s: Surface| #[trigger]
                    call_ensures(surface, (center, radius, r, t), s) && Some(h) == Some(
                        HitRecord { t, p: s.p, normal: s.normal, material },
                    ),
            }
        };
    q.lemma_select_in_window(tmin, tmax);
}

/// A hit of a primitive lies strictly inside the window.
pub proof fn lemma_hit_in_window<S, L, Q, P, C>(
    obj: Hittable,
    r: Ray,
    tmin: Scalar,
    tmax: Scalar,
    g: Geometry<S, L, Q, P, C>,
    h: HitRecord,
) where
    S: Fn(Scalar, Scalar, Scalar, Scalar) -> Slab,
    L: Fn(MovingSphere, Scalar) -> Vec3,
    Q: Fn(Vec3, Scalar, Ray) -> Roots,
    P: Fn(Vec3, Scalar, Ray, Scalar) -> Surface,
    C: Fn(Vec3, Scalar) -> AABB,

    requires
        obj.hit_spec(r, tmin, tmax, g, Some(h)),
    ensures
        tmin.lt(h.t),
        h.t.lt(tmax),
{
    match obj {
        Hittable::Sphere(s) => {
            lemma_ball_hit_in_window(
                s.center,
                s.radius,
                s.material,
                r,
                tmin,
                tmax,
                g.roots,
                g.surface,
                h,
            );
        },
        Hittable::MovingSphere(m) => {
            let c = choose|c: Vec3| #[trigger]
                m.center_spec(r.time, g.lerp, c) && ball_hit_spec(
                    c,
                    m.radius,
                    m.material,
                    r,
                    tmin,
                    tmax,
                    g.roots,
                    g.surface,
                    Some(h),
                );
            lemma_ball_hit_in_window(c, m.radius, m.material, r, tmin, tmax, g.roots, g.surface, h);
        },
    }
}

/// With functions that return one value per argument, the test of a
/// sphere has one answer.
pub proof fn lemma_ball_hit_unique<Q: Fn(Vec3, Scalar, Ray) -> Roots, P: Fn(Vec3, Scalar, Ray, Scalar) -> Surface>(
    center: Vec3,
    radius: Scalar,
    material: crate::material::Material,
    r: Ray,
    tmin: Scalar,
    tmax: Scalar,
    roots: Q,
    surface: P,
    a: Option<HitRecord>,
    b: Option<HitRecord>,
)
    requires
        forall|c: Vec3, radius: Scalar, r: Ray, x: Roots, y: Roots|
            #[trigger] call_ensures(roots, (c, radius, r), x) && #[trigger] call_ensures(
                roots,
                (c, radius, r),
                y,
            ) ==> x == y,
        forall|c: Vec3, radius: Scalar, r: Ray, t: Scalar, x: Surface, y: Surface|
            #[trigger] call_ensures(surface, (c, radius, r, t), x) && #[trigger] call_ensures(
                surface,
                (c, radius, r, t),
                y,
            ) ==> x == y,
        ball_hit_spec(center, radius, material, r, tmin, tmax, roots, surface, a),
        ball_hit_spec(center, radius, material, r, tmin, tmax, roots, surface, b),
    ensures
        a == b,
{
}

/// With functions that return one value per argument, the test of a
/// primitive has one answer.
pub proof fn lemma_hit_unique<S, L, Q, P, C>(
    obj: Hittable,
    r: Ray,
    tmin: Scalar,
    tmax: Scalar,
    g: Geometry<S, L, Q, P, C>,
    a: Option<HitRecord>,
    b: Option<HitRecord>,
) where
    S: Fn(Scalar, Scalar, Scalar, Scalar) -> Slab,
    L: Fn(MovingSphere, Scalar) -> Vec3,
    Q: Fn(Vec3, Scalar, Ray) -> Roots,
    P: Fn(Vec3, Scalar, Ray, Scalar) -> Surface,
    C: Fn(Vec3, Scalar) -> AABB,

    requires
        deterministic(g),
        obj.hit_spec(r, tmin, tmax, g, a),
        obj.hit_spec(r, tmin, tmax, g, b),
    ensures
        a == b,
{
    match obj {
        Hittable::Sphere(s) => {
            lemma_ball_hit_unique(
                s.center,
                s.radius,
                s.material,
                r,
                tmin,
                tmax,
                g.roots,
                g.surface,
                a,
                b,
            );
        },
        Hittable::MovingSphere(m) => {
            let ca = choose|c: Vec3| #[trigger]
                m.center_spec(r.time, g.lerp, c) && ball_hit_spec(
                    c,
                    m.radius,
                    m.material,
                    r,
                    tmin,
                    tmax,
                    g.roots,
                    g.surface,
                    a,
                );
            let cb = choose|c: Vec3| #[trigger]
                m.center_spec(r.time, g.lerp, c) && ball_hit_spec(
                    c,
                    m.radius,
                    m.material,
                    r,
                    tmin,
                    tmax,
                    g.roots,
                    g.surface,
                    b,
                );
            assert(ca == cb);
            lemma_ball_hit_unique(
                ca,
                m.radius,
                m.material,
                r,
                tmin,
                tmax,
                g.roots,
                g.surface,
                a,
                b,
            );
        },
    }
}

/// A hit of a sphere in a window with a lowered end is its hit in the
/// whole window, and lies before the lowered end.
pub proof fn lemma_ball_narrow_hit_is_full<Q: Fn(Vec3, Scalar, Ray) -> Roots, P: Fn(Vec3, Scalar, Ray, Scalar) -> Surface>(
    center: Vec3,
    radius: Scalar,
    material: crate::material::Material,
    r: Ray,
    tmin: Scalar,
    tmax: Scalar,
    lower: Scalar,
    roots: Q,
    surface: P,
    h: HitRecord,
)
    requires
        forall|c: Vec3, radius: Scalar, q: Roots| #[trigger]
            call_ensures(roots, (c, radius, r), q) ==> !q.far.lt(q.near),
        lower.le(tmax),
        ball_hit_spec(center, radius, material, r, tmin, lower, roots, surface, Some(h)),
    ensures
        ball_hit_spec(center, radius, material, r, tmin, tmax, roots, surface, Some(h)),
        h.t.lt(lower),
{
    let q = choose|q: Roots|
        {
            &&& #[trigger] call_ensures(roots, (center, radius, r), q)
            &&& match q.select(tmin, lower) {
                None => Some(h) is None,
                Some(t) => exists|s: Surface| #[trigger]
                    call_ensures(surface, (center, radius, r, t), s) && Some(h) == Some(
                        HitRecord { t, p: s.p, normal: s.normal, material },
                    ),
            }
        };
    q.lemma_select_narrowed(tmin, tmax, lower);
    q.lemma_select_in_window(tmin, lower);
    let t = q.select(tmin, lower)->0;
    let s = choose|s: Surface| #[trigger]
        call_ensures(surface, (center, radius, r, t), s) && Some(h) == Some(
            HitRecord { t, p: s.p, normal: s.normal, material },
        );
    assert(q.select(tmin, tmax) == Some(t));
    assert(call_ensures(surface, (center, radius, r, t), s));
}

/// What a sphere answers in a window with a lowered end, given its hit in
/// the whole window: the same hit where it lies before the lowered end, and
/// nothing where it does not.
pub proof fn lemma_ball_full_hit_narrows<Q: Fn(Vec3, Scalar, Ray) -> Roots, P: Fn(Vec3, Scalar, Ray, Scalar) -> Surface>(
    center: Vec3,
    radius: Scalar,
    material: crate::material::Material,
    r: Ray,
    tmin: Scalar,
    tmax: Scalar,
    lower: Scalar,
    roots: Q,
    surface: P,
    h: HitRecord,
    narrow: Option<HitRecord>,
)
    requires
        forall|c: Vec3, radius: Scalar, r: Ray, x: Roots, y: Roots|
            #[trigger] call_ensures(roots, (c, radius, r), x) && #[trigger] call_ensures(
                roots,
                (c, radius, r),
                y,
            ) ==> x == y,
        forall|c: Vec3, radius: Scalar, r: Ray, t: Scalar, x: Surface, y: Surface|
            #[trigger] call_ensures(surface, (c, radius, r, t), x) && #[trigger] call_ensures(
                surface,
                (c, radius, r, t),
                y,
            ) ==> x == y,
        forall|c: Vec3, radius: Scalar, q: Roots| #[trigger]
            call_ensures(roots, (c, radius, r), q) ==> !q.far.lt(q.near),
        lower.le(tmax),
        ball_hit_spec(center, radius, material, r, tmin, tmax, roots, surface, Some(h)),
        ball_hit_spec(center, radius, material, r, tmin, lower, roots, surface, narrow),
    ensures
        narrow == if h.t.lt(lower) {
            Some(h)
        } else {
            None
        },
{
    let q = choose|q: Roots|
        {
            &&& #[trigger] call_ensures(roots, (center, radius, r), q)
            &&& match q.select(tmin, tmax) {
                None => Some(h) is None,
                Some(t) => exists|s: Surface| #[trigger]
                    call_ensures(surface, (center, radius, r, t), s) && Some(h) == Some(
                        HitRecord { t, p: s.p, normal: s.normal, material },
                    ),
            }
        };
    q.lemma_select_narrowed(tmin, tmax, lower);
}

/// A hit of a primitive in a window with a lowered end is its hit in the
/// whole window, and lies before the lowered end.
pub proof fn lemma_narrow_hit_is_full<S, L, Q, P, C>(
    obj: Hittable,
    r: Ray,
    tmin: Scalar,
    tmax: Scalar,
    lower: Scalar,
    g: Geometry<S, L, Q, P, C>,
    h: HitRecord,
) where
    S: Fn(Scalar, Scalar, Scalar, Scalar) -> Slab,
    L: Fn(MovingSphere, Scalar) -> Vec3,
    Q: Fn(Vec3, Scalar, Ray) -> Roots,
    P: Fn(Vec3, Scalar, Ray, Scalar) -> Surface,
    C: Fn(Vec3, Scalar) -> AABB,

    requires
        roots_in_order(g, r),
        lower.le(tmax),
        obj.hit_spec(r, tmin, lower, g, Some(h)),
    ensures
        obj.hit_spec(r, tmin, tmax, g, Some(h)),
        h.t.lt(lower),
{
    match obj {
        Hittable::Sphere(s) => {
            lemma_ball_narrow_hit_is_full(
                s.center,
                s.radius,
                s.material,
                r,
                tmin,
                tmax,
                lower,
                g.roots,
                g.surface,
                h,
            );
        },
        Hittable::MovingSphere(m) => {
            let c = choose|c: Vec3| #[trigger]
                m.center_spec(r.time, g.lerp, c) && ball_hit_spec(
                    c,
                    m.radius,
                    m.material,
                    r,
                    tmin,
                    lower,
                    g.roots,
                    g.surface,
                    Some(h),
                );
            lemma_ball_narrow_hit_is_full(
                c,
                m.radius,
                m.material,
                r,
                tmin,
                tmax,
                lower,
                g.roots,
                g.surface,
                h,
            );
            assert(m.center_spec(r.time, g.lerp, c));
        },
    }
}

/// What a primitive answers in a window with a lowered end, given its hit
/// in the whole window: the same hit where it lies before the lowered end,
/// and nothing where it does not.
pub proof fn lemma_full_hit_narrows<S, L, Q, P, C>(
    obj: Hittable,
    r: Ray,
    tmin: Scalar,
    tmax: Scalar,
    lower: Scalar,
    g: Geometry<S, L, Q, P, C>,
    h: HitRecord,
    narrow: Option<HitRecord>,
) where
    S: Fn(Scalar, Scalar, Scalar, Scalar) -> Slab,
    L: Fn(MovingSphere, Scalar) -> Vec3,
    Q: Fn(Vec3, Scalar, Ray) -> Roots,
    P: Fn(Vec3, Scalar, Ray, Scalar) -> Surface,
    C: Fn(Vec3, Scalar) -> AABB,

    requires
        deterministic(g),
        roots_in_order(g, r),
        lower.le(tmax),
        obj.hit_spec(r, tmin, tmax, g, Some(h)),
        obj.hit_spec(r, tmin, lower, g, narrow),
    ensures
        narrow == if h.t.lt(lower) {
            Some(h)
        } else {
            None
        },
{
    match obj {
        Hittable::Sphere(s) => {
            lemma_ball_full_hit_narrows(
                s.center,
                s.radius,
                s.material,
                r,
                tmin,
                tmax,
                lower,
                g.roots,
                g.surface,
                h,
                narrow,
            );
        },
        Hittable::MovingSphere(m) => {
            let ca = choose|c: Vec3| #[trigger]
                m.center_spec(r.time, g.lerp, c) && ball_hit_spec(
                    c,
                    m.radius,
                    m.material,
                    r,
                    tmin,
                    tmax,
                    g.roots,
                    g.surface,
                    Some(h),
                );
            let cb = choose|c: Vec3| #[trigger]
                m.center_spec(r.time, g.lerp, c) && ball_hit_spec(
                    c,
                    m.radius,
                    m.material,
                    r,
                    tmin,
                    lower,
                    g.roots,
                    g.surface,
                    narrow,
                );
            assert(ca == cb);
            lemma_ball_full_hit_narrows(
                ca,
                m.radius,
                m.material,
                r,
                tmin,
                tmax,
                lower,
                g.roots,
                g.surface,
                h,
                narrow,
            );
        },
    }
}

/// Whether `best` and the end of the window are what a scan holds after
/// the first `i` primitives: no hit yet and the end untouched, or the
/// nearest hit among them and the end at its distance.
pub open spec fn scanned<S, L, Q, P, C>(
    objs: Seq<Hittable>,
    i: int,
    r: Ray,
    tmin: Scalar,
    tmax: Scalar,
    end: Scalar,
    best: Option<HitRecord>,
    g: Geometry<S, L, Q, P, C>,
) -> bool where
    S: Fn(Scalar, Scalar, Scalar, Scalar) -> Slab,
    L: Fn(MovingSphere, Scalar) -> Vec3,
    Q: Fn(Vec3, Scalar, Ray) -> Roots,
    P: Fn(Vec3, Scalar, Ray, Scalar) -> Surface,
    C: Fn(Vec3, Scalar) -> AABB,
 {
    &&& match best {
        None => end == tmax,
        Some(b) => end == b.t,
    }
    &&& is_nearest(objs.subrange(0, i), r, tmin, tmax, g, best)
}

/// A scan that has come to index `i` ends with the answer that a search
/// among all the primitives owes.
pub proof fn lemma_scan_from_finds_nearest<S, L, Q, P, C>(
    objs: Seq<Hittable>,
    i: int,
    r: Ray,
    tmin: Scalar,
    tmax: Scalar,
    end: Scalar,
    best: Option<HitRecord>,
    g: Geometry<S, L, Q, P, C>,
    out: Option<HitRecord>,
) where
    S: Fn(Scalar, Scalar, Scalar, Scalar) -> Slab,
    L: Fn(MovingSphere, Scalar) -> Vec3,
    Q: Fn(Vec3, Scalar, Ray) -> Roots,
    P: Fn(Vec3, Scalar, Ray, Scalar) -> Surface,
    C: Fn(Vec3, Scalar) -> AABB,

    requires
        deterministic(g),
        roots_in_order(g, r),
        0 <= i <= objs.len(),
        scanned(objs, i, r, tmin, tmax, end, best, g),
        scan_from(objs, i, r, tmin, end, best, g, out),
    ensures
        is_nearest(objs, r, tmin, tmax, g, out),
    decreases objs.len() - i,
{
    if i >= objs.len() {
        assert(objs.subrange(0, i) =~= objs);
    } else {
        let narrow = choose|h: Option<HitRecord>| #[trigger]
            objs[i].hit_spec(r, tmin, end, g, h) && match h {
                Some(hit) => scan_from(objs, i + 1, r, tmin, hit.t, Some(hit), g, out),
                None => scan_from(objs, i + 1, r, tmin, end, best, g, out),
            };
        let before = objs.subrange(0, i);
        let after = objs.subrange(0, i + 1);
        assert(after[i] == objs[i]);
        assert forall|j: int| 0 <= j < i implies after[j] == before[j] by {}
        match narrow {
            Some(hit) => {
                match best {
                    Some(b) => {
                        let w = choose|w: int|
                            0 <= w < before.len() && #[trigger] before[w].hit_spec(
                                r,
                                tmin,
                                tmax,
                                g,
                                Some(b),
                            );
                        lemma_hit_in_window(before[w], r, tmin, tmax, g, b);
                        lemma_narrow_hit_is_full(objs[i], r, tmin, tmax, end, g, hit);
                    },
                    None => {},
                }
                lemma_hit_in_window(objs[i], r, tmin, tmax, g, hit);
                assert(after[i].hit_spec(r, tmin, tmax, g, Some(hit)));
                assert forall|j: int, h: HitRecord|
                    0 <= j < after.len() && #[trigger] after[j].hit_spec(
                        r,
                        tmin,
                        tmax,
                        g,
                        Some(h),
                    ) implies !h.t.lt(hit.t) by {
                    if j < i {
                        assert(before[j].hit_spec(r, tmin, tmax, g, Some(h)));
                        match best {
                            Some(b) => {
                                assert(!h.t.lt(b.t));
                            },
                            None => {
                                assert(false);
                            },
                        }
                    } else {
                        lemma_hit_unique(objs[i], r, tmin, tmax, g, Some(h), Some(hit));
                    }
                }
                assert(is_nearest(after, r, tmin, tmax, g, Some(hit)));
                lemma_scan_from_finds_nearest(objs, i + 1, r, tmin, tmax, hit.t, Some(hit), g, out);
            },
            None => {
                match best {
                    None => {
                        assert forall|j: int, h: Option<HitRecord>|
                            0 <= j < after.len() && #[trigger] after[j].hit_spec(
                                r,
                                tmin,
                                tmax,
                                g,
                                h,
                            ) implies h is None by {
                            if j < i {
                                assert(before[j].hit_spec(r, tmin, tmax, g, h));
                            } else {
                                lemma_hit_unique(objs[i], r, tmin, tmax, g, h, narrow);
                            }
                        }
                    },
                    Some(b) => {
                        let w = choose|w: int|
                            0 <= w < before.len() && #[trigger] before[w].hit_spec(
                                r,
                                tmin,
                                tmax,
                                g,
                                Some(b),
                            );
                        assert(after[w].hit_spec(r, tmin, tmax, g, Some(b)));
                        lemma_hit_in_window(before[w], r, tmin, tmax, g, b);
                        assert forall|j: int, h: HitRecord|
                            0 <= j < after.len() && #[trigger] after[j].hit_spec(
                                r,
                                tmin,
                                tmax,
                                g,
                                Some(h),
                            ) implies !h.t.lt(b.t) by {
                            if j < i {
                                assert(before[j].hit_spec(r, tmin, tmax, g, Some(h)));
                            } else {
                                lemma_full_hit_narrows(objs[i], r, tmin, tmax, end, g, h, narrow);
                            }
                        }
                    },
                }
                assert(is_nearest(after, r, tmin, tmax, g, best));
                lemma_scan_from_finds_nearest(objs, i + 1, r, tmin, tmax, end, best, g, out);
            },
        }
    }
}

/// With functions that return one value per argument and roots in order,
/// the scan of a list answers with the nearest hit among its primitives.
pub proof fn lemma_scan_finds_nearest<S, L, Q, P, C>(
    objs: Seq<Hittable>,
    r: Ray,
    tmin: Scalar,
    tmax: Scalar,
    g: Geometry<S, L, Q, P, C>,
    out: Option<HitRecord>,
) where
    S: Fn(Scalar, Scalar, Scalar, Scalar) -> Slab,
    L: Fn(MovingSphere, Scalar) -> Vec3,
    Q: Fn(Vec3, Scalar, Ray) -> Roots,
    P: Fn(Vec3, Scalar, Ray, Scalar) -> Surface,
    C: Fn(Vec3, Scalar) -> AABB,

    requires
        deterministic(g),
        roots_in_order(g, r),
        scan_from(objs, 0, r, tmin, tmax, None, g, out),
    ensures
        is_nearest(objs, r, tmin, tmax, g, out),
{
    lemma_scan_from_finds_nearest(objs, 0, r, tmin, tmax, tmax, None, g, out);
}

/// Whether the slab test is on the safe side for every primitive in the
/// tree.
pub open spec fn boxes_are_safe<S, L, Q, P, C>(
    tree: BVH,
    r: Ray,
    tmin: Scalar,
    tmax: Scalar,
    g: Geometry<S, L, Q, P, C>,
) -> bool where
    S: Fn(Scalar, Scalar, Scalar, Scalar) -> Slab,
    L: Fn(MovingSphere, Scalar) -> Vec3,
    Q: Fn(Vec3, Scalar, Ray) -> Roots,
    P: Fn(Vec3, Scalar, Ray, Scalar) -> Surface,
    C: Fn(Vec3, Scalar) -> AABB,
 {
    forall|obj: Hittable, bbox: AABB| #[trigger]
        tree.holds(obj, bbox) ==> box_is_safe(obj, bbox, r, tmin, tmax, g)
}

/// Whether `out` is the answer that a search among the primitives of the
/// tree owes: nothing where the ray hits none of them in the window, and
/// otherwise a hit of one of them than which no hit of any of them is
/// strictly nearer.
pub open spec fn is_nearest_in<S, L, Q, P, C>(
    tree: BVH,
    r: Ray,
    tmin: Scalar,
    tmax: Scalar,
    g: Geometry<S, L, Q, P, C>,
    out: Option<HitRecord>,
) -> bool where
    S: Fn(Scalar, Scalar, Scalar, Scalar) -> Slab,
    L: Fn(MovingSphere, Scalar) -> Vec3,
    Q: Fn(Vec3, Scalar, Ray) -> Roots,
    P: Fn(Vec3, Scalar, Ray, Scalar) -> Surface,
    C: Fn(Vec3, Scalar) -> AABB,
 {
    match out {
        None => forall|obj: Hittable, bbox: AABB, h: Option<HitRecord>|
            #[trigger] tree.holds(obj, bbox) && #[trigger] obj.hit_spec(r, tmin, tmax, g, h)
                ==> h is None,
        Some(a) => {
            &&& exists|obj: Hittable, bbox: AABB| #[trigger]
                tree.holds(obj, bbox) && obj.hit_spec(r, tmin, tmax, g, Some(a))
            &&& forall|obj: Hittable, bbox: AABB, h: HitRecord|
                #[trigger] tree.holds(obj, bbox) && #[trigger] obj.hit_spec(
                    r,
                    tmin,
                    tmax,
                    g,
                    Some(h),
                ) ==> !h.t.lt(a.t)
        },
    }
}

/// Under a box that the ray misses, the ray hits nothing.
proof fn lemma_missed_box_hides_nothing<S, L, Q, P, C>(
    tree: BVH,
    r: Ray,
    tmin: Scalar,
    tmax: Scalar,
    g: Geometry<S, L, Q, P, C>,
) where
    S: Fn(Scalar, Scalar, Scalar, Scalar) -> Slab,
    L: Fn(MovingSphere, Scalar) -> Vec3,
    Q: Fn(Vec3, Scalar, Ray) -> Roots,
    P: Fn(Vec3, Scalar, Ray, Scalar) -> Surface,
    C: Fn(Vec3, Scalar) -> AABB,

    requires
        tree.boxes_enclose(),
        boxes_are_safe(tree, r, tmin, tmax, g),
        tree.spec_bbox().hit_spec(r, tmin, tmax, g.slab, false),
    ensures
        is_nearest_in(tree, r, tmin, tmax, g, None),
{
    assert forall|obj: Hittable, bbox: AABB, h: Option<HitRecord>|
        #[trigger] tree.holds(obj, bbox) && #[trigger] obj.hit_spec(
            r,
            tmin,
            tmax,
            g,
            h,
        ) implies h is None by {
        if h is Some {
            tree.lemma_root_encloses(obj, bbox);
            assert(box_is_safe(obj, bbox, r, tmin, tmax, g));
            assert(obj.hit_spec(r, tmin, tmax, g, Some(h->0)));
            assert(false);
        }
    }
}

/// With functions that return one value per argument and a slab test on
/// the safe side, the hierarchy answers with the nearest hit among its
/// primitives.
pub proof fn lemma_tree_finds_nearest<S, L, Q, P, C>(
    tree: BVH,
    r: Ray,
    tmin: Scalar,
    tmax: Scalar,
    g: Geometry<S, L, Q, P, C>,
    out: Option<HitRecord>,
) where
    S: Fn(Scalar, Scalar, Scalar, Scalar) -> Slab,
    L: Fn(MovingSphere, Scalar) -> Vec3,
    Q: Fn(Vec3, Scalar, Ray) -> Roots,
    P: Fn(Vec3, Scalar, Ray, Scalar) -> Surface,
    C: Fn(Vec3, Scalar) -> AABB,

    requires
        deterministic(g),
        tree.boxes_enclose(),
        boxes_are_safe(tree, r, tmin, tmax, g),
        tree.hit_spec(r, tmin, tmax, g, out),
    ensures
        is_nearest_in(tree, r, tmin, tmax, g, out),
    decreases tree,
{
    match tree {
        BVH::Leaf { obj, bbox } => {
            let inside = choose|inside: bool| #[trigger]
                bbox.hit_spec(r, tmin, tmax, g.slab, inside) && if inside {
                    obj.hit_spec(r, tmin, tmax, g, out)
                } else {
                    out is None
                };
            if inside {
                assert(tree.holds(obj, bbox));
                match out {
                    None => {
                        assert forall|o: Hittable, b: AABB, h: Option<HitRecord>|
                            #[trigger] tree.holds(o, b) && #[trigger] o.hit_spec(
                                r,
                                tmin,
                                tmax,
                                g,
                                h,
                            ) implies h is None by {
                            lemma_hit_unique(obj, r, tmin, tmax, g, h, out);
                        }
                    },
                    Some(a) => {
                        lemma_hit_in_window(obj, r, tmin, tmax, g, a);
                        assert forall|o: Hittable, b: AABB, h: HitRecord|
                            #[trigger] tree.holds(o, b) && #[trigger] o.hit_spec(
                                r,
                                tmin,
                                tmax,
                                g,
                                Some(h),
                            ) implies !h.t.lt(a.t) by {
                            lemma_hit_unique(obj, r, tmin, tmax, g, Some(h), out);
                        }
                    },
                }
            } else {
                lemma_missed_box_hides_nothing(tree, r, tmin, tmax, g);
            }
        },
        BVH::Node { left, right, bbox } => {
            let inside = choose|inside: bool| #[trigger]
                bbox.hit_spec(r, tmin, tmax, g.slab, inside) && if inside {
                    exists|l: Option<HitRecord>, rr: Option<HitRecord>|
                        {
                            &&& left.hit_spec(r, tmin, tmax, g, l)
                            &&& right.hit_spec(r, tmin, tmax, g, rr)
                            &&& out == #[trigger] HitRecord::nearer(l, rr)
                        }
                } else {
                    out is None
                };
            if inside {
                let (l, rr) = choose|l: Option<HitRecord>, rr: Option<HitRecord>|
                    {
                        &&& left.hit_spec(r, tmin, tmax, g, l)
                        &&& right.hit_spec(r, tmin, tmax, g, rr)
                        &&& out == #[trigger] HitRecord::nearer(l, rr)
                    };
                assert forall|o: Hittable, b: AABB| #[trigger] left.holds(o, b) implies box_is_safe(
                    o,
                    b,
                    r,
                    tmin,
                    tmax,
                    g,
                ) by {
                    assert(tree.holds(o, b));
                }
                assert forall|o: Hittable, b: AABB| #[trigger] right.holds(o, b) implies box_is_safe(
                    o,
                    b,
                    r,
                    tmin,
                    tmax,
                    g,
                ) by {
                    assert(tree.holds(o, b));
                }
                lemma_tree_finds_nearest(*left, r, tmin, tmax, g, l);
                lemma_tree_finds_nearest(*right, r, tmin, tmax, g, rr);
                lemma_nearer_of_two(tree, *left, *right, r, tmin, tmax, g, l, rr);
            } else {
                lemma_missed_box_hides_nothing(tree, r, tmin, tmax, g);
            }
        },
    }
}

/// Of the nearest hits in two subtrees, the one that `nearer` takes is the
/// nearest hit in the tree of both.
proof fn lemma_nearer_of_two<S, L, Q, P, C>(
    tree: BVH,
    left: BVH,
    right: BVH,
    r: Ray,
    tmin: Scalar,
    tmax: Scalar,
    g: Geometry<S, L, Q, P, C>,
    l: Option<HitRecord>,
    rr: Option<HitRecord>,
) where
    S: Fn(Scalar, Scalar, Scalar, Scalar) -> Slab,
    L: Fn(MovingSphere, Scalar) -> Vec3,
    Q: Fn(Vec3, Scalar, Ray) -> Roots,
    P: Fn(Vec3, Scalar, Ray, Scalar) -> Surface,
    C: Fn(Vec3, Scalar) -> AABB,

    requires
        forall|o: Hittable, b: AABB|
            #[trigger] tree.holds(o, b) <==> left.holds(o, b) || right.holds(o, b),
        is_nearest_in(left, r, tmin, tmax, g, l),
        is_nearest_in(right, r, tmin, tmax, g, rr),
    ensures
        is_nearest_in(tree, r, tmin, tmax, g, HitRecord::nearer(l, rr)),
{
    let out = HitRecord::nearer(l, rr);
    if l is Some {
        let (o, b) = choose|o: Hittable, b: AABB| #[trigger]
            left.holds(o, b) && o.hit_spec(r, tmin, tmax, g, l);
        lemma_hit_in_window(o, r, tmin, tmax, g, l->0);
        assert(tree.holds(o, b));
    }
    if rr is Some {
        let (o, b) = choose|o: Hittable, b: AABB| #[trigger]
            right.holds(o, b) && o.hit_spec(r, tmin, tmax, g, rr);
        lemma_hit_in_window(o, r, tmin, tmax, g, rr->0);
        assert(tree.holds(o, b));
    }
    match out {
        None => {
            assert forall|o: Hittable, b: AABB, h: Option<HitRecord>|
                #[trigger] tree.holds(o, b) && #[trigger] o.hit_spec(
                    r,
                    tmin,
                    tmax,
                    g,
                    h,
                ) implies h is None by {
                if left.holds(o, b) {
                } else {
                    assert(right.holds(o, b));
                }
            }
        },
        Some(a) => {
            assert forall|o: Hittable, b: AABB, h: HitRecord|
                #[trigger] tree.holds(o, b) && #[trigger] o.hit_spec(
                    r,
                    tmin,
                    tmax,
                    g,
                    Some(h),
                ) implies !h.t.lt(a.t) by {
                lemma_hit_in_window(o, r, tmin, tmax, g, h);
                if left.holds(o, b) {
                    assert(l is Some);
                    assert(!h.t.lt(l->0.t));
                } else {
                    assert(right.holds(o, b));
                    assert(rr is Some);
                    assert(!h.t.lt(rr->0.t));
                }
            }
        },
    }
}

/// Whether no two primitives are hit at the same distance.
pub open spec fn distances_differ<S, L, Q, P, C>(
    objs: Seq<Hittable>,
    r: Ray,
    tmin: Scalar,
    tmax: Scalar,
    g: Geometry<S, L, Q, P, C>,
) -> bool where
    S: Fn(Scalar, Scalar, Scalar, Scalar) -> Slab,
    L: Fn(MovingSphere, Scalar) -> Vec3,
    Q: Fn(Vec3, Scalar, Ray) -> Roots,
    P: Fn(Vec3, Scalar, Ray, Scalar) -> Surface,
    C: Fn(Vec3, Scalar) -> AABB,
 {
    forall|i: int, j: int, a: HitRecord, b: HitRecord|
        0 <= i < objs.len() && 0 <= j < objs.len() && i != j && #[trigger] objs[i].hit_spec(
            r,
            tmin,
            tmax,
            g,
            Some(a),
        ) && #[trigger] objs[j].hit_spec(r, tmin, tmax, g, Some(b)) ==> !a.t.same(b.t)
}

/// Two answers that a search among the same primitives owes agree on
/// whether there is a hit and on its distance, and are the same hit where
/// no two primitives are hit at the same distance.
pub proof fn lemma_nearest_agree<S, L, Q, P, C>(
    objs: Seq<Hittable>,
    r: Ray,
    tmin: Scalar,
    tmax: Scalar,
    g: Geometry<S, L, Q, P, C>,
    a: Option<HitRecord>,
    b: Option<HitRecord>,
) where
    S: Fn(Scalar, Scalar, Scalar, Scalar) -> Slab,
    L: Fn(MovingSphere, Scalar) -> Vec3,
    Q: Fn(Vec3, Scalar, Ray) -> Roots,
    P: Fn(Vec3, Scalar, Ray, Scalar) -> Surface,
    C: Fn(Vec3, Scalar) -> AABB,

    requires
        deterministic(g),
        is_nearest(objs, r, tmin, tmax, g, a),
        is_nearest(objs, r, tmin, tmax, g, b),
    ensures
        a is None <==> b is None,
        a is Some ==> a->0.t.same(b->0.t),
        distances_differ(objs, r, tmin, tmax, g) ==> a == b,
{
    if a is Some {
        let i = choose|i: int|
            0 <= i < objs.len() && #[trigger] objs[i].hit_spec(r, tmin, tmax, g, a);
        lemma_hit_in_window(objs[i], r, tmin, tmax, g, a->0);
        assert(b is Some);
        let j = choose|j: int|
            0 <= j < objs.len() && #[trigger] objs[j].hit_spec(r, tmin, tmax, g, b);
        lemma_hit_in_window(objs[j], r, tmin, tmax, g, b->0);
        assert(objs[i].hit_spec(r, tmin, tmax, g, Some(a->0)));
        assert(objs[j].hit_spec(r, tmin, tmax, g, Some(b->0)));
        assert(!(a->0).t.lt((b->0).t));
        assert(!(b->0).t.lt((a->0).t));
        if distances_differ(objs, r, tmin, tmax, g) {
            if i != j {
                assert(false);
            }
            lemma_hit_unique(objs[i], r, tmin, tmax, g, a, b);
        }
    } else if b is Some {
        let j = choose|j: int|
            0 <= j < objs.len() && #[trigger] objs[j].hit_spec(r, tmin, tmax, g, b);
        assert(false);
    }
}

/// The hierarchy finds what a scan of all primitives finds. Whatever axes
/// were drawn when the tree was built, the search in the tree and the scan
/// of the list that the tree was built from agree on whether the ray hits
/// anything in the window and on the distance of the hit; each answers with
/// a hit than which none is strictly nearer; and they answer with the same
/// hit where no two primitives are hit at the same distance.
pub proof fn lemma_hierarchy_agrees_with_scan<S, L, Q, P, C>(
    tree: BVH,
    entries: Seq<Bounded>,
    objs: Seq<Hittable>,
    r: Ray,
    tmin: Scalar,
    tmax: Scalar,
    g: Geometry<S, L, Q, P, C>,
    found: Option<HitRecord>,
    scanned_out: Option<HitRecord>,
) where
    S: Fn(Scalar, Scalar, Scalar, Scalar) -> Slab,
    L: Fn(MovingSphere, Scalar) -> Vec3,
    Q: Fn(Vec3, Scalar, Ray) -> Roots,
    P: Fn(Vec3, Scalar, Ray, Scalar) -> Surface,
    C: Fn(Vec3, Scalar) -> AABB,

    requires
        deterministic(g),
        roots_in_order(g, r),
        tree.built_from(entries),
        objs.len() == entries.len(),
        forall|i: int| 0 <= i < objs.len() ==> #[trigger] objs[i] == entries[i].obj,
        forall|i: int|
            0 <= i < entries.len() ==> (#[trigger] entries[i]).bbox.wf() && box_is_safe(
                entries[i].obj,
                entries[i].bbox,
                r,
                tmin,
                tmax,
                g,
            ),
        tree.hit_spec(r, tmin, tmax, g, found),
        scan_from(objs, 0, r, tmin, tmax, None, g, scanned_out),
    ensures
        is_nearest(objs, r, tmin, tmax, g, found),
        is_nearest(objs, r, tmin, tmax, g, scanned_out),
        found is None <==> scanned_out is None,
        found is Some ==> found->0.t.same(scanned_out->0.t),
        distances_differ(objs, r, tmin, tmax, g) ==> found == scanned_out,
{
    tree.lemma_built_encloses(entries);
    assert forall|obj: Hittable, bbox: AABB| #[trigger] tree.holds(obj, bbox) implies box_is_safe(
        obj,
        bbox,
        r,
        tmin,
        tmax,
        g,
    ) by {
        tree.lemma_built_holds(entries, obj, bbox);
        let i = choose|i: int|
            0 <= i < entries.len() && (#[trigger] entries[i]).obj == obj && entries[i].bbox == bbox;
        assert(entries[i].bbox.wf());
    }
    lemma_tree_finds_nearest(tree, r, tmin, tmax, g, found);
    assert forall|i: int| 0 <= i < objs.len() implies #[trigger] tree.holds(
        objs[i],
        entries[i].bbox,
    ) by {
        tree.lemma_built_holds(entries, objs[i], entries[i].bbox);
        assert(entries[i].obj == objs[i]);
    }
    match found {
        None => {
            assert forall|i: int, h: Option<HitRecord>|
                0 <= i < objs.len() && #[trigger] objs[i].hit_spec(
                    r,
                    tmin,
                    tmax,
                    g,
                    h,
                ) implies h is None by {
                assert(tree.holds(objs[i], entries[i].bbox));
            }
        },
        Some(a) => {
            let (obj, bbox) = choose|obj: Hittable, bbox: AABB| #[trigger]
                tree.holds(obj, bbox) && obj.hit_spec(r, tmin, tmax, g, Some(a));
            tree.lemma_built_holds(entries, obj, bbox);
            let w = choose|i: int|
                0 <= i < entries.len() && (#[trigger] entries[i]).obj == obj && entries[i].bbox
                    == bbox;
            assert(objs[w] == entries[w].obj);
            assert(objs[w].hit_spec(r, tmin, tmax, g, Some(a)));
            assert forall|i: int, h: HitRecord|
                0 <= i < objs.len() && #[trigger] objs[i].hit_spec(
                    r,
                    tmin,
                    tmax,
                    g,
                    Some(h),
                ) implies !h.t.lt(a.t) by {
                assert(tree.holds(objs[i], entries[i].bbox));
            }
        },
    }
    lemma_scan_finds_nearest(objs, r, tmin, tmax, g, scanned_out);
    lemma_nearest_agree(objs, r, tmin, tmax, g, found, scanned_out);
}

} // verus!

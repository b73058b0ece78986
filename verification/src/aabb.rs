//! Axis-aligned bounding boxes and the slab test.
//!
//! The test needs, for each axis, the two distances at which the ray crosses
//! the planes of the box. Computing them is arithmetic and is left to the
//! caller, who hands in a function for it; ordering them, narrowing the
//! window and giving up early is done here.

use vstd::prelude::*;
use crate::ray::Ray;
use crate::scalar::Scalar;
use crate::vec3::Vec3;

verus! {

/// A box given by its two extreme corners.
#[derive(Clone, Copy, Debug)]
pub struct AABB {
    pub min: Vec3,
    pub max: Vec3,
}

/// What the arithmetic yields for one axis: the reciprocal of the ray's
/// direction on that axis and the distances to the box's lower and upper
/// planes.
#[derive(Clone, Copy, Debug)]
pub struct Slab {
    pub inv_d: Scalar,
    pub t0: Scalar,
    pub t1: Scalar,
}

impl Slab {
    /// The distance at which the ray enters the slab: the planes change
    /// roles when the ray runs against the axis.
    pub open spec fn entry(self) -> Scalar {
        if self.inv_d.lt(Scalar::zero()) {
            self.t1
        } else {
            self.t0
        }
    }

    /// The distance at which the ray leaves the slab.
    pub open spec fn exit(self) -> Scalar {
        if self.inv_d.lt(Scalar::zero()) {
            self.t0
        } else {
            self.t1
        }
    }

    /// The window after this slab: its lower end moves up to the entry
    /// where the entry is later, its upper end down to the exit where the
    /// exit is earlier.
    pub open spec fn spec_tighten(self, tmin: Scalar, tmax: Scalar) -> (Scalar, Scalar) {
        (
            if self.entry().gt(tmin) {
                self.entry()
            } else {
                tmin
            },
            if self.exit().lt(tmax) {
                self.exit()
            } else {
                tmax
            },
        )
    }

    /// Narrows a window to the part that lies within this slab.
    #[verifier::when_used_as_spec(spec_tighten)]
    pub fn tighten(self, tmin: Scalar, tmax: Scalar) -> (w: (Scalar, Scalar))
        ensures
            w == self.spec_tighten(tmin, tmax),
    {
        let mut t0 = self.t0;
        let mut t1 = self.t1;
        if self.inv_d.lt(Scalar::zero()) {
            t0 = self.t1;
            t1 = self.t0;
        }
        let lo = if t0.gt(tmin) {
            t0
        } else {
            tmin
        };
        let hi = if t1.lt(tmax) {
            t1
        } else {
            tmax
        };
        (lo, hi)
    }
}

impl AABB {
    /// Whether every point of `inner` lies in `self`, as far as the corners
    /// can be ordered.
    pub open spec fn contains(self, inner: AABB) -> bool {
        &&& self.min.x.le(inner.min.x)
        &&& self.min.y.le(inner.min.y)
        &&& self.min.z.le(inner.min.z)
        &&& inner.max.x.le(self.max.x)
        &&& inner.max.y.le(self.max.y)
        &&& inner.max.z.le(self.max.z)
    }

    /// Whether the lower corner is below the upper one on every axis. No
    /// coordinate of such a box is not a number.
    pub open spec fn wf(self) -> bool {
        &&& self.min.x.le(self.max.x)
        &&& self.min.y.le(self.max.y)
        &&& self.min.z.le(self.max.z)
    }

    /// The smallest box around two boxes: on each axis the smaller of the
    /// lower corners and the larger of the upper ones.
    pub open spec fn spec_surrounding_box(box0: AABB, box1: AABB) -> AABB {
        AABB {
            min: Vec3 {
                x: box0.min.x.fast_min(box1.min.x),
                y: box0.min.y.fast_min(box1.min.y),
                z: box0.min.z.fast_min(box1.min.z),
            },
            max: Vec3 {
                x: box0.max.x.fast_max(box1.max.x),
                y: box0.max.y.fast_max(box1.max.y),
                z: box0.max.z.fast_max(box1.max.z),
            },
        }
    }

    /// What the slab test may answer from axis `axis` on, with the window
    /// narrowed so far: it answers `false` at the first axis that leaves the
    /// window empty and `true` when all three axes are through.
    pub open spec fn hit_from<S: Fn(Scalar, Scalar, Scalar, Scalar) -> Slab>(
        self,
        r: Ray,
        axis: int,
        tmin: Scalar,
        tmax: Scalar,
        slab: S,
        out: bool,
    ) -> bool
        decreases 3 - axis,
    {
        if axis >= 3 {
            out
        } else {
            exists|s: Slab|
                {
                    &&& #[trigger] call_ensures(
                        slab,
                        (
                            self.min.spec_axis(axis),
                            self.max.spec_axis(axis),
                            r.origin.spec_axis(axis),
                            r.direction.spec_axis(axis),
                        ),
                        s,
                    )
                    &&& if s.tighten(tmin, tmax).1.le(s.tighten(tmin, tmax).0) {
                        !out
                    } else {
                        self.hit_from(
                            r,
                            axis + 1,
                            s.tighten(tmin, tmax).0,
                            s.tighten(tmin, tmax).1,
                            slab,
                            out,
                        )
                    }
                }
        }
    }

    /// What the slab test may answer for a ray and a window.
    pub open spec fn hit_spec<S: Fn(Scalar, Scalar, Scalar, Scalar) -> Slab>(
        self,
        r: Ray,
        tmin: Scalar,
        tmax: Scalar,
        slab: S,
        out: bool,
    ) -> bool {
        self.hit_from(r, 0, tmin, tmax, slab, out)
    }

    /// The box with these two corners.
    pub fn new(min: Vec3, max: Vec3) -> (b: AABB)
        ensures
            b == (AABB { min, max }),
    {
        AABB { min, max }
    }

    /// The smallest box around two boxes.
    #[verifier::when_used_as_spec(spec_surrounding_box)]
    pub fn surrounding_box(box0: AABB, box1: AABB) -> (b: AABB)
        ensures
            b == AABB::spec_surrounding_box(box0, box1),
    {
        let min = Vec3::new(
            box0.min.x.fast_min(box1.min.x),
            box0.min.y.fast_min(box1.min.y),
            box0.min.z.fast_min(box1.min.z),
        );
        let max = Vec3::new(
            box0.max.x.fast_max(box1.max.x),
            box0.max.y.fast_max(box1.max.y),
            box0.max.z.fast_max(box1.max.z),
        );
        AABB { min, max }
    }

    /// The slab test: whether the ray can be inside the box at a distance
    /// strictly inside the window. `slab` is asked once per axis, in the
    /// order x, y, z, with the box's lower and upper coordinate and the
    /// ray's origin and direction on that axis, and not at all once the
    /// window is empty.
    pub fn hit<S: Fn(Scalar, Scalar, Scalar, Scalar) -> Slab>(
        &self,
        r: &Ray,
        tmin: Scalar,
        tmax: Scalar,
        slab: &S,
    ) -> (out: bool)
        requires
            forall|a: Scalar, b: Scalar, c: Scalar, d: Scalar| call_requires(*slab, (a, b, c, d)),
        ensures
            self.hit_spec(*r, tmin, tmax, *slab, out),
    {
        let mut lo = tmin;
        let mut hi = tmax;
        let mut a: usize = 0;
        while a < 3
            invariant
                a <= 3,
                forall|a: Scalar, b: Scalar, c: Scalar, d: Scalar|
                    call_requires(*slab, (a, b, c, d)),
                forall|o: bool|
                    self.hit_from(*r, a as int, lo, hi, *slab, o) ==> self.hit_from(
                        *r,
                        0,
                        tmin,
                        tmax,
                        *slab,
                        o,
                    ),
            decreases 3 - a,
        {
            let s = slab(self.min.axis(a), self.max.axis(a), r.origin.axis(a), r.direction.axis(a));
            let w = s.tighten(lo, hi);
            if w.1.le(w.0) {
                assert(self.hit_from(*r, a as int, lo, hi, *slab, false));
                return false;
            }
            assert forall|o: bool|
                self.hit_from(*r, a + 1, w.0, w.1, *slab, o) implies self.hit_from(
                *r,
                a as int,
                lo,
                hi,
                *slab,
                o,
            ) by {}
            lo = w.0;
            hi = w.1;
            a = a + 1;
        }
        true
    }

    /// The box around two well-formed boxes is well-formed and contains
    /// both.
    pub proof fn lemma_surrounding_box_contains(box0: AABB, box1: AABB)
        requires
            box0.wf(),
            box1.wf(),
        ensures
            AABB::surrounding_box(box0, box1).wf(),
            AABB::surrounding_box(box0, box1).contains(box0),
            AABB::surrounding_box(box0, box1).contains(box1),
    {
    }

    /// Containment chains: a box that contains a box contains what that box
    /// contains.
    pub proof fn lemma_contains_transitive(a: AABB, b: AABB, c: AABB)
        requires
            a.contains(b),
            b.contains(c),
        ensures
            a.contains(c),
    {
    }

    /// A window whose ends are numbers keeps ends that are numbers through
    /// any slab.
    pub proof fn lemma_tighten_keeps_numbers(s: Slab, tmin: Scalar, tmax: Scalar)
        requires
            !tmin.is_nan(),
            !tmax.is_nan(),
        ensures
            !s.tighten(tmin, tmax).0.is_nan(),
            !s.tighten(tmin, tmax).1.is_nan(),
            tmin.le(s.tighten(tmin, tmax).0),
            s.tighten(tmin, tmax).1.le(tmax),
    {
    }

    /// A slab that is crossed from minus infinity to plus infinity, as by a
    /// ray that runs between its two planes and parallel to them, leaves the
    /// window as it is; so does one whose distances are not numbers.
    pub proof fn lemma_open_slab_keeps_window(s: Slab, tmin: Scalar, tmax: Scalar)
        requires
            s.entry() == Scalar::neg_infinity() || s.entry().is_nan(),
            s.exit() == Scalar::infinity() || s.exit().is_nan(),
        ensures
            s.tighten(tmin, tmax) == (tmin, tmax),
    {
    }

    /// The window that three slabs leave of a window.
    pub open spec fn narrowed(x: Slab, y: Slab, z: Slab, tmin: Scalar, tmax: Scalar) -> (
        Scalar,
        Scalar,
    ) {
        z.tighten(
            y.tighten(x.tighten(tmin, tmax).0, x.tighten(tmin, tmax).1).0,
            y.tighten(x.tighten(tmin, tmax).0, x.tighten(tmin, tmax).1).1,
        )
    }

    /// The slab test answers whether the three slabs leave anything of the
    /// window: giving up at the first axis that leaves nothing changes no
    /// answer. `x`, `y` and `z` are what the arithmetic gives for the three
    /// axes, and gives only that.
    pub proof fn lemma_hit_is_overlap<S: Fn(Scalar, Scalar, Scalar, Scalar) -> Slab>(
        self,
        r: Ray,
        tmin: Scalar,
        tmax: Scalar,
        slab: S,
        x: Slab,
        y: Slab,
        z: Slab,
        out: bool,
    )
        requires
            !tmin.is_nan(),
            !tmax.is_nan(),
            forall|s: Slab|
                call_ensures(slab, (self.min.x, self.max.x, r.origin.x, r.direction.x), s) ==> s
                    == x,
            forall|s: Slab|
                call_ensures(slab, (self.min.y, self.max.y, r.origin.y, r.direction.y), s) ==> s
                    == y,
            forall|s: Slab|
                call_ensures(slab, (self.min.z, self.max.z, r.origin.z, r.direction.z), s) ==> s
                    == z,
            self.hit_spec(r, tmin, tmax, slab, out),
        ensures
            out == AABB::narrowed(x, y, z, tmin, tmax).0.lt(AABB::narrowed(x, y, z, tmin, tmax).1),
    {
        let w1 = x.tighten(tmin, tmax);
        let w2 = y.tighten(w1.0, w1.1);
        let w3 = z.tighten(w2.0, w2.1);
        AABB::lemma_tighten_keeps_numbers(x, tmin, tmax);
        AABB::lemma_tighten_keeps_numbers(y, w1.0, w1.1);
        AABB::lemma_tighten_keeps_numbers(z, w2.0, w2.1);
        assert(self.min.spec_axis(0) == self.min.x && self.min.spec_axis(1) == self.min.y
            && self.min.spec_axis(2) == self.min.z);
        assert(self.hit_from(r, 0, tmin, tmax, slab, out));
        if !w1.1.le(w1.0) {
            assert(self.hit_from(r, 1, w1.0, w1.1, slab, out));
            if !w2.1.le(w2.0) {
                assert(self.hit_from(r, 2, w2.0, w2.1, slab, out));
                if !w3.1.le(w3.0) {
                    assert(self.hit_from(r, 3, w3.0, w3.1, slab, out));
                }
            }
        }
    }

    /// Whether the arithmetic of the slabs treats a wider slab as a wider
    /// slab: with the lower plane no higher and the upper plane no lower,
    /// the entry comes no later and the exit no earlier, where they are
    /// numbers at all.
    pub open spec fn slabs_widen<S: Fn(Scalar, Scalar, Scalar, Scalar) -> Slab>(slab: S) -> bool {
        forall|lo: Scalar, hi: Scalar, wide_lo: Scalar, wide_hi: Scalar, o: Scalar, d: Scalar, s: Slab, wide: Slab|
            wide_lo.le(lo) && hi.le(wide_hi) && #[trigger] call_ensures(slab, (lo, hi, o, d), s)
                && #[trigger] call_ensures(slab, (wide_lo, wide_hi, o, d), wide) ==> (
            wide.entry().is_nan() || wide.entry().le(s.entry())) && (wide.exit().is_nan()
                || s.exit().le(wide.exit()))
    }

    /// With such arithmetic, a ray that passes the slab test of a box
    /// passes that of every box around it.
    pub proof fn lemma_wider_box_is_hit<S: Fn(Scalar, Scalar, Scalar, Scalar) -> Slab>(
        self,
        outer: AABB,
        r: Ray,
        tmin: Scalar,
        tmax: Scalar,
        slab: S,
        out: bool,
    )
        requires
            outer.contains(self),
            !tmin.is_nan(),
            !tmax.is_nan(),
            AABB::slabs_widen(slab),
            self.hit_spec(r, tmin, tmax, slab, true),
            outer.hit_spec(r, tmin, tmax, slab, out),
        ensures
            out,
    {
        self.lemma_wider_from(outer, r, 0, tmin, tmax, tmin, tmax, slab, out);
    }

    proof fn lemma_wider_from<S: Fn(Scalar, Scalar, Scalar, Scalar) -> Slab>(
        self,
        outer: AABB,
        r: Ray,
        from: int,
        lo: Scalar,
        hi: Scalar,
        wide_lo: Scalar,
        wide_hi: Scalar,
        slab: S,
        out: bool,
    )
        requires
            0 <= from <= 3,
            outer.contains(self),
            wide_lo.le(lo),
            hi.le(wide_hi),
            AABB::slabs_widen(slab),
            self.hit_from(r, from, lo, hi, slab, true),
            outer.hit_from(r, from, wide_lo, wide_hi, slab, out),
        ensures
            out,
        decreases 3 - from,
    {
        if from < 3 {
            let s = choose|s: Slab|
                {
                    &&& #[trigger] call_ensures(
                        slab,
                        (
                            self.min.spec_axis(from),
                            self.max.spec_axis(from),
                            r.origin.spec_axis(from),
                            r.direction.spec_axis(from),
                        ),
                        s,
                    )
                    &&& if s.tighten(lo, hi).1.le(s.tighten(lo, hi).0) {
                        !true
                    } else {
                        self.hit_from(
                            r,
                            from + 1,
                            s.tighten(lo, hi).0,
                            s.tighten(lo, hi).1,
                            slab,
                            true,
                        )
                    }
                };
            let wide = choose|s: Slab|
                {
                    &&& #[trigger] call_ensures(
                        slab,
                        (
                            outer.min.spec_axis(from),
                            outer.max.spec_axis(from),
                            r.origin.spec_axis(from),
                            r.direction.spec_axis(from),
                        ),
                        s,
                    )
                    &&& if s.tighten(wide_lo, wide_hi).1.le(s.tighten(wide_lo, wide_hi).0) {
                        !out
                    } else {
                        outer.hit_from(
                            r,
                            from + 1,
                            s.tighten(wide_lo, wide_hi).0,
                            s.tighten(wide_lo, wide_hi).1,
                            slab,
                            out,
                        )
                    }
                };
            let w = s.tighten(lo, hi);
            let ww = wide.tighten(wide_lo, wide_hi);
            AABB::lemma_tighten_keeps_numbers(s, lo, hi);
            AABB::lemma_tighten_keeps_numbers(wide, wide_lo, wide_hi);
            assert(outer.min.spec_axis(from).le(self.min.spec_axis(from)));
            assert(self.max.spec_axis(from).le(outer.max.spec_axis(from)));
            assert(ww.0.le(w.0));
            assert(w.1.le(ww.1));
            self.lemma_wider_from(outer, r, from + 1, w.0, w.1, ww.0, ww.1, slab, out);
        }
    }

    /// A ray that runs parallel to the faces of one axis and outside the
    /// box's extent on it misses the box: on that axis both distances come
    /// out as the same infinity, and whatever the other axes give, the test
    /// answers `false`.
    pub proof fn lemma_parallel_outside_misses<S: Fn(Scalar, Scalar, Scalar, Scalar) -> Slab>(
        self,
        r: Ray,
        tmin: Scalar,
        tmax: Scalar,
        slab: S,
        axis: int,
        out: bool,
    )
        requires
            0 <= axis < 3,
            !tmin.is_nan(),
            !tmax.is_nan(),
            forall|s: Slab|
                call_ensures(
                    slab,
                    (
                        self.min.spec_axis(axis),
                        self.max.spec_axis(axis),
                        r.origin.spec_axis(axis),
                        r.direction.spec_axis(axis),
                    ),
                    s,
                ) ==> s.t0.is_infinite() && s.t1 == s.t0,
            self.hit_spec(r, tmin, tmax, slab, out),
        ensures
            !out,
    {
        self.lemma_misses_from(r, 0, tmin, tmax, slab, axis, out);
    }

    proof fn lemma_misses_from<S: Fn(Scalar, Scalar, Scalar, Scalar) -> Slab>(
        self,
        r: Ray,
        from: int,
        tmin: Scalar,
        tmax: Scalar,
        slab: S,
        axis: int,
        out: bool,
    )
        requires
            0 <= from <= axis < 3,
            !tmin.is_nan(),
            !tmax.is_nan(),
            forall|s: Slab|
                call_ensures(
                    slab,
                    (
                        self.min.spec_axis(axis),
                        self.max.spec_axis(axis),
                        r.origin.spec_axis(axis),
                        r.direction.spec_axis(axis),
                    ),
                    s,
                ) ==> s.t0.is_infinite() && s.t1 == s.t0,
            self.hit_from(r, from, tmin, tmax, slab, out),
        ensures
            !out,
        decreases 3 - from,
    {
        let s = choose|s: Slab|
            {
                &&& #[trigger] call_ensures(
                    slab,
                    (
                        self.min.spec_axis(from),
                        self.max.spec_axis(from),
                        r.origin.spec_axis(from),
                        r.direction.spec_axis(from),
                    ),
                    s,
                )
                &&& if s.tighten(tmin, tmax).1.le(s.tighten(tmin, tmax).0) {
                    !out
                } else {
                    self.hit_from(
                        r,
                        from + 1,
                        s.tighten(tmin, tmax).0,
                        s.tighten(tmin, tmax).1,
                        slab,
                        out,
                    )
                }
            };
        AABB::lemma_tighten_keeps_numbers(s, tmin, tmax);
        let w = s.tighten(tmin, tmax);
        if from < axis {
            if !w.1.le(w.0) {
                self.lemma_misses_from(r, from + 1, w.0, w.1, slab, axis, out);
            }
        } else {
            assert(s.t0.is_infinite() && s.t1 == s.t0);
            assert(s.entry() == s.t0 && s.exit() == s.t0);
            assert(w.1.le(w.0));
        }
    }

    /// A ray along one axis through the inside of the box hits it in every
    /// window that is not empty and holds the stretch inside the box: on the
    /// axis of travel the entry lies before the exit and both within the
    /// window, on the other two the slab is crossed from minus infinity to
    /// plus infinity.
    pub proof fn lemma_axial_ray_hits<S: Fn(Scalar, Scalar, Scalar, Scalar) -> Slab>(
        self,
        r: Ray,
        tmin: Scalar,
        tmax: Scalar,
        slab: S,
        axis: int,
        out: bool,
    )
        requires
            0 <= axis < 3,
            tmin.lt(tmax),
            forall|a: int, s: Slab|
                0 <= a < 3 && #[trigger] call_ensures(
                    slab,
                    (
                        self.min.spec_axis(a),
                        self.max.spec_axis(a),
                        r.origin.spec_axis(a),
                        r.direction.spec_axis(a),
                    ),
                    s,
                ) ==> if a == axis {
                    s.entry().lt(s.exit()) && tmin.le(s.entry()) && s.exit().le(tmax)
                } else {
                    s.entry() == Scalar::neg_infinity() && s.exit() == Scalar::infinity()
                },
            self.hit_spec(r, tmin, tmax, slab, out),
        ensures
            out,
    {
        self.lemma_hits_from(r, 0, tmin, tmax, slab, axis, out);
    }

    proof fn lemma_hits_from<S: Fn(Scalar, Scalar, Scalar, Scalar) -> Slab>(
        self,
        r: Ray,
        from: int,
        lo: Scalar,
        hi: Scalar,
        slab: S,
        axis: int,
        out: bool,
    )
        requires
            0 <= from <= 3,
            0 <= axis < 3,
            lo.lt(hi),
            forall|a: int, s: Slab|
                0 <= a < 3 && #[trigger] call_ensures(
                    slab,
                    (
                        self.min.spec_axis(a),
                        self.max.spec_axis(a),
                        r.origin.spec_axis(a),
                        r.direction.spec_axis(a),
                    ),
                    s,
                ) ==> if a == axis {
                    from <= axis ==> s.entry().lt(s.exit()) && lo.le(s.entry()) && s.exit().le(
                        hi,
                    )
                } else {
                    s.entry() == Scalar::neg_infinity() && s.exit() == Scalar::infinity()
                },
            self.hit_from(r, from, lo, hi, slab, out),
        ensures
            out,
        decreases 3 - from,
    {
        if from < 3 {
            let s = choose|s: Slab|
                {
                    &&& #[trigger] call_ensures(
                        slab,
                        (
                            self.min.spec_axis(from),
                            self.max.spec_axis(from),
                            r.origin.spec_axis(from),
                            r.direction.spec_axis(from),
                        ),
                        s,
                    )
                    &&& if s.tighten(lo, hi).1.le(s.tighten(lo, hi).0) {
                        !out
                    } else {
                        self.hit_from(
                            r,
                            from + 1,
                            s.tighten(lo, hi).0,
                            s.tighten(lo, hi).1,
                            slab,
                            out,
                        )
                    }
                };
            let w = s.tighten(lo, hi);
            assert(w.0.lt(w.1));
            if from != axis {
                assert(w == (lo, hi));
            }
            self.lemma_hits_from(r, from + 1, w.0, w.1, slab, axis, out);
        }
    }
}

} // verus!

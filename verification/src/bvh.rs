//! The bounding volume hierarchy: a binary tree of boxes over the
//! primitives of a scene, built once and then only read.

use vstd::prelude::*;
use crate::aabb::AABB;
use crate::aabb::Slab;
use crate::hittable::Geometry;
use crate::hittable::HitRecord;
use crate::hittable::Hittable;
use crate::ray::Ray;
use crate::rng::ThreadRng;
use crate::scalar::Scalar;
use crate::sphere::MovingSphere;
use crate::sphere::Roots;
use crate::sorting::keys_are_ordered;
use crate::sorting::lemma_sorted_on_ascending;
use crate::sorting::lemma_sorted_on_contents;
use crate::sorting::sort_on;
use crate::sorting::sorted_on;
use crate::sorting::spec_keys_are_ordered;
use crate::sphere::Surface;
use crate::vec3::Vec3;

verus! {

/// A primitive with what the construction needs of it: the lower corner of
/// its box at time zero, by which it is ordered, and its box over the time
/// span of the scene.
#[derive(Clone, Copy, Debug)]
pub struct Bounded {
    pub obj: Hittable,
    pub key: Vec3,
    pub bbox: AABB,
}

/// The hierarchy.
#[derive(Debug)]
pub enum BVH {
    /// Two subtrees and the box around their boxes.
    Node { left: Box<BVH>, right: Box<BVH>, bbox: AABB },
    /// One primitive and its box.
    Leaf { obj: Hittable, bbox: AABB },
}

/// The two halves that a node hands to its children: the primitives in
/// ascending order on an axis, cut in the middle, the smaller half first
/// where the number is odd.
pub open spec fn halves_on(s: Seq<Bounded>, axis: int) -> (Seq<Bounded>, Seq<Bounded>) {
    (
        sorted_on(s, axis).subrange(0, (s.len() / 2) as int),
        sorted_on(s, axis).subrange((s.len() / 2) as int, s.len() as int),
    )
}

/// Whether `entries` is what measuring `objs` may give, one by one.
pub open spec fn measured_all<S, L, Q, P, C>(
    objs: Seq<Hittable>,
    t0: Scalar,
    t1: Scalar,
    g: Geometry<S, L, Q, P, C>,
    entries: Seq<Bounded>,
) -> bool where
    S: Fn(Scalar, Scalar, Scalar, Scalar) -> Slab,
    L: Fn(MovingSphere, Scalar) -> Vec3,
    Q: Fn(Vec3, Scalar, Ray) -> Roots,
    P: Fn(Vec3, Scalar, Ray, Scalar) -> Surface,
    C: Fn(Vec3, Scalar) -> AABB,
 {
    &&& entries.len() == objs.len()
    &&& forall|i: int|
        0 <= i < objs.len() ==> Bounded::measured(objs[i], t0, t1, g, #[trigger] entries[i])
}

impl Bounded {
    /// Whether `e` is what measuring `obj` may give: the primitive itself,
    /// the lower corner of its box over the span from zero to zero, and its
    /// box over the span from `t0` to `t1`.
    pub open spec fn measured<S, L, Q, P, C>(
        obj: Hittable,
        t0: Scalar,
        t1: Scalar,
        g: Geometry<S, L, Q, P, C>,
        e: Bounded,
    ) -> bool where
        S: Fn(Scalar, Scalar, Scalar, Scalar) -> Slab,
        L: Fn(MovingSphere, Scalar) -> Vec3,
        Q: Fn(Vec3, Scalar, Ray) -> Roots,
        P: Fn(Vec3, Scalar, Ray, Scalar) -> Surface,
        C: Fn(Vec3, Scalar) -> AABB,
     {
        &&& e.obj == obj
        &&& exists|kb: AABB| #[trigger]
            obj.bounding_box_spec(Scalar::zero(), Scalar::zero(), g, Some(kb)) && e.key == kb.min
        &&& obj.bounding_box_spec(t0, t1, g, Some(e.bbox))
    }

    /// Measures a primitive for the construction.
    pub fn measure<S, L, Q, P, C>(
        obj: Hittable,
        t0: Scalar,
        t1: Scalar,
        g: &Geometry<S, L, Q, P, C>,
    ) -> (e: Bounded) where
        S: Fn(Scalar, Scalar, Scalar, Scalar) -> Slab,
        L: Fn(MovingSphere, Scalar) -> Vec3,
        Q: Fn(Vec3, Scalar, Ray) -> Roots,
        P: Fn(Vec3, Scalar, Ray, Scalar) -> Surface,
        C: Fn(Vec3, Scalar) -> AABB,

        requires
            g.total(),
        ensures
            Bounded::measured(obj, t0, t1, *g, e),
    {
        let at_rest = obj.bounding_box(Scalar::zero(), Scalar::zero(), g).unwrap();
        let bbox = obj.bounding_box(t0, t1, g).unwrap();
        Bounded { obj, key: at_rest.min, bbox }
    }
}

impl BVH {
    /// The box of the root.
    pub open spec fn spec_bbox(&self) -> AABB {
        match *self {
            BVH::Node { bbox, .. } => bbox,
            BVH::Leaf { bbox, .. } => bbox,
        }
    }

    /// Whether the tree is one that the construction may give for these
    /// primitives. One primitive makes a leaf. Two or more make a node:
    /// they are put in ascending order on one of the three axes, the first
    /// half goes to the left subtree and the rest to the right one, and the
    /// node's box is the box around the boxes of the two.
    pub open spec fn built_from(self, s: Seq<Bounded>) -> bool
        decreases self,
    {
        match self {
            BVH::Leaf { obj, bbox } => s.len() == 1 && obj == s[0].obj && bbox == s[0].bbox,
            BVH::Node { left, right, bbox } => {
                &&& s.len() >= 2
                &&& bbox == AABB::surrounding_box(left.spec_bbox(), right.spec_bbox())
                &&& exists|axis: int|
                    0 <= axis < 3 && left.built_from((#[trigger] halves_on(s, axis)).0)
                        && right.built_from(halves_on(s, axis).1)
            },
        }
    }

    /// What the search for the nearest hit may answer. A box that the ray
    /// misses answers for everything beneath it. Both subtrees of a node
    /// are asked with the window unchanged, and of two hits the strictly
    /// nearer one counts, the right one where neither is.
    pub open spec fn hit_spec<S, L, Q, P, C>(
        self,
        r: Ray,
        tmin: Scalar,
        tmax: Scalar,
        g: Geometry<S, L, Q, P, C>,
        out: Option<HitRecord>,
    ) -> bool where
        S: Fn(Scalar, Scalar, Scalar, Scalar) -> Slab,
        L: Fn(MovingSphere, Scalar) -> Vec3,
        Q: Fn(Vec3, Scalar, Ray) -> Roots,
        P: Fn(Vec3, Scalar, Ray, Scalar) -> Surface,
        C: Fn(Vec3, Scalar) -> AABB,

        decreases self,
    {
        match self {
            BVH::Leaf { obj, bbox } => exists|inside: bool| #[trigger]
                bbox.hit_spec(r, tmin, tmax, g.slab, inside) && if inside {
                    obj.hit_spec(r, tmin, tmax, g, out)
                } else {
                    out is None
                },
            BVH::Node { left, right, bbox } => exists|inside: bool| #[trigger]
                bbox.hit_spec(r, tmin, tmax, g.slab, inside) && if inside {
                    exists|l: Option<HitRecord>, rr: Option<HitRecord>|
                        {
                            &&& left.hit_spec(r, tmin, tmax, g, l)
                            &&& right.hit_spec(r, tmin, tmax, g, rr)
                            &&& out == #[trigger] HitRecord::nearer(l, rr)
                        }
                } else {
                    out is None
                },
        }
    }

    /// Builds the hierarchy over primitives that were measured. At each
    /// node an axis is drawn at random.
    pub fn build(entries: Vec<Bounded>, rng: &mut ThreadRng) -> (tree: BVH)
        requires
            entries@.len() >= 1,
            entries@.len() >= 2 ==> spec_keys_are_ordered(entries@),
        ensures
            tree.built_from(entries@),
        decreases entries@.len(),
    {
        let axis = rng.pick_axis();
        let n = entries.len();
        if n == 1 {
            BVH::Leaf { obj: entries[0].obj, bbox: entries[0].bbox }
        } else {
            let sorted = sort_on(&entries, axis);
            proof {
                lemma_sorted_on_contents(entries@, axis as int);
                lemma_sorted_on_ascending(entries@, axis as int);
            }
            let mid = n / 2;
            let mut left_items: Vec<Bounded> = Vec::new();
            let mut right_items: Vec<Bounded> = Vec::new();
            let mut i: usize = 0;
            while i < n
                invariant
                    i <= n,
                    n == sorted@.len(),
                    mid == n / 2,
                    left_items@ == sorted@.subrange(0, if i < mid { i as int } else { mid as int }),
                    right_items@ == sorted@.subrange(
                        mid as int,
                        if i < mid {
                            mid as int
                        } else {
                            i as int
                        },
                    ),
                decreases n - i,
            {
                if i < mid {
                    left_items.push(sorted[i]);
                    assert(left_items@ =~= sorted@.subrange(0, i + 1));
                } else {
                    right_items.push(sorted[i]);
                    assert(right_items@ =~= sorted@.subrange(mid as int, i + 1));
                }
                i = i + 1;
            }
            assert(left_items@ == halves_on(entries@, axis as int).0);
            assert(right_items@ == halves_on(entries@, axis as int).1);
            let (left, right) = if n == 2 {
                (
                    BVH::Leaf { obj: left_items[0].obj, bbox: left_items[0].bbox },
                    BVH::Leaf { obj: right_items[0].obj, bbox: right_items[0].bbox },
                )
            } else {
                let right = BVH::build(right_items, rng);
                let left = BVH::build(left_items, rng);
                (left, right)
            };
            let bbox = AABB::surrounding_box(left.bbox(), right.bbox());
            assert(left.built_from(halves_on(entries@, axis as int).0));
            assert(right.built_from(halves_on(entries@, axis as int).1));
            let tree = BVH::Node { left: Box::new(left), right: Box::new(right), bbox };
            assert(tree.built_from(entries@));
            tree
        }
    }

    /// Builds the hierarchy over the primitives of a scene whose shutter
    /// is open from `t0` to `t1`.
    pub fn new<S, L, Q, P, C>(
        objs: Vec<Hittable>,
        t0: Scalar,
        t1: Scalar,
        g: &Geometry<S, L, Q, P, C>,
        rng: &mut ThreadRng,
    ) -> (tree: BVH) where
        S: Fn(Scalar, Scalar, Scalar, Scalar) -> Slab,
        L: Fn(MovingSphere, Scalar) -> Vec3,
        Q: Fn(Vec3, Scalar, Ray) -> Roots,
        P: Fn(Vec3, Scalar, Ray, Scalar) -> Surface,
        C: Fn(Vec3, Scalar) -> AABB,

        requires
            objs@.len() >= 1,
            g.total(),
            objs@.len() >= 2 ==> forall|i: int, kb: AABB|
                0 <= i < objs@.len() && #[trigger] objs@[i].bounding_box_spec(
                    Scalar::zero(),
                    Scalar::zero(),
                    *g,
                    Some(kb),
                ) ==> kb.min.is_ordered(),
        ensures
            exists|entries: Seq<Bounded>| #[trigger]
                tree.built_from(entries) && measured_all(objs@, t0, t1, *g, entries),
    {
        let mut entries: Vec<Bounded> = Vec::new();
        let mut i: usize = 0;
        while i < objs.len()
            invariant
                i <= objs@.len(),
                g.total(),
                entries@.len() == i,
                forall|j: int|
                    0 <= j < i ==> Bounded::measured(objs@[j], t0, t1, *g, #[trigger] entries@[j]),
            decreases objs@.len() - i,
        {
            let e = Bounded::measure(objs[i], t0, t1, g);
            entries.push(e);
            i = i + 1;
        }
        assert(measured_all(objs@, t0, t1, *g, entries@));
        let ghost measured = entries@;
        let tree = BVH::build(entries, rng);
        assert(tree.built_from(measured));
        tree
    }

    /// Builds the hierarchy over the primitives of a scene whose shutter
    /// is open from `t0` to `t1`, unless there is no primitive, or there
    /// are two or more and the key of one is not a number on some axis.
    pub fn try_new<S, L, Q, P, C>(
        objs: Vec<Hittable>,
        t0: Scalar,
        t1: Scalar,
        g: &Geometry<S, L, Q, P, C>,
        rng: &mut ThreadRng,
    ) -> (out: Option<BVH>) where
        S: Fn(Scalar, Scalar, Scalar, Scalar) -> Slab,
        L: Fn(MovingSphere, Scalar) -> Vec3,
        Q: Fn(Vec3, Scalar, Ray) -> Roots,
        P: Fn(Vec3, Scalar, Ray, Scalar) -> Surface,
        C: Fn(Vec3, Scalar) -> AABB,

        requires
            g.total(),
        ensures
            objs@.len() == 0 ==> out is None,
            objs@.len() > 0 ==> exists|entries: Seq<Bounded>| #[trigger]
                measured_all(objs@, t0, t1, *g, entries) && match out {
                    Some(tree) => tree.built_from(entries) && (entries.len() >= 2
                        ==> spec_keys_are_ordered(entries)),
                    None => entries.len() >= 2 && !spec_keys_are_ordered(entries),
                },
    {
        if objs.len() == 0 {
            return None;
        }
        let mut entries: Vec<Bounded> = Vec::new();
        let mut i: usize = 0;
        while i < objs.len()
            invariant
                i <= objs@.len(),
                g.total(),
                entries@.len() == i,
                forall|j: int|
                    0 <= j < i ==> Bounded::measured(objs@[j], t0, t1, *g, #[trigger] entries@[j]),
            decreases objs@.len() - i,
        {
            let e = Bounded::measure(objs[i], t0, t1, g);
            entries.push(e);
            i = i + 1;
        }
        let ghost measured = entries@;
        assert(measured_all(objs@, t0, t1, *g, measured));
        if entries.len() >= 2 && !keys_are_ordered(&entries) {
            return None;
        }
        let tree = BVH::build(entries, rng);
        assert(tree.built_from(measured));
        Some(tree)
    }

    /// The box of the root.
    #[verifier::when_used_as_spec(spec_bbox)]
    pub fn bbox(&self) -> (b: AABB)
        ensures
            b == self.spec_bbox(),
    {
        match self {
            BVH::Node { bbox, .. } => *bbox,
            BVH::Leaf { bbox, .. } => *bbox,
        }
    }

    /// The box around everything in the hierarchy: the one that was made
    /// when it was built, whatever the time span asked for.
    pub fn bounding_box(&self, t0: Scalar, t1: Scalar) -> (out: Option<AABB>)
        ensures
            out == Some(self.spec_bbox()),
    {
        Some(self.bbox())
    }

    /// The nearest hit of the ray strictly inside the window.
    pub fn hit<S, L, Q, P, C>(
        &self,
        r: &Ray,
        tmin: Scalar,
        tmax: Scalar,
        g: &Geometry<S, L, Q, P, C>,
    ) -> (out: Option<HitRecord>) where
        S: Fn(Scalar, Scalar, Scalar, Scalar) -> Slab,
        L: Fn(MovingSphere, Scalar) -> Vec3,
        Q: Fn(Vec3, Scalar, Ray) -> Roots,
        P: Fn(Vec3, Scalar, Ray, Scalar) -> Surface,
        C: Fn(Vec3, Scalar) -> AABB,

        requires
            g.total(),
        ensures
            self.hit_spec(*r, tmin, tmax, *g, out),
        decreases self,
    {
        match self {
            BVH::Leaf { obj, bbox } => {
                if bbox.hit(r, tmin, tmax, &g.slab) {
                    obj.hit(r, tmin, tmax, g)
                } else {
                    None
                }
            },
            BVH::Node { left, right, bbox } => {
                if bbox.hit(r, tmin, tmax, &g.slab) {
                    let hit_left = left.hit(r, tmin, tmax, g);
                    let hit_right = right.hit(r, tmin, tmax, g);
                    HitRecord::nearer(hit_left, hit_right)
                } else {
                    None
                }
            },
        }
    }
}

/// Whether a primitive with this box is among the measured ones.
pub open spec fn among(s: Seq<Bounded>, obj: Hittable, bbox: AABB) -> bool {
    exists|i: int| 0 <= i < s.len() && (#[trigger] s[i]).obj == obj && s[i].bbox == bbox
}

/// Sorting keeps who is among the primitives.
pub proof fn lemma_sorted_on_among(s: Seq<Bounded>, axis: int, obj: Hittable, bbox: AABB)
    ensures
        among(sorted_on(s, axis), obj, bbox) <==> among(s, obj, bbox),
{
    broadcast use vstd::seq_lib::group_to_multiset_ensures;

    lemma_sorted_on_contents(s, axis);
    let sorted = sorted_on(s, axis);
    if among(s, obj, bbox) {
        let i = choose|i: int| 0 <= i < s.len() && (#[trigger] s[i]).obj == obj && s[i].bbox == bbox;
        assert(s.contains(s[i]));
        assert(sorted.to_multiset().count(s[i]) > 0);
        assert(sorted.contains(s[i]));
        let j = choose|j: int| 0 <= j < sorted.len() && sorted[j] == s[i];
        assert(sorted[j].obj == obj && sorted[j].bbox == bbox);
    }
    if among(sorted, obj, bbox) {
        let i = choose|i: int|
            0 <= i < sorted.len() && (#[trigger] sorted[i]).obj == obj && sorted[i].bbox == bbox;
        assert(sorted.contains(sorted[i]));
        assert(s.to_multiset().count(sorted[i]) > 0);
        assert(s.contains(sorted[i]));
        let j = choose|j: int| 0 <= j < s.len() && s[j] == sorted[i];
        assert(s[j].obj == obj && s[j].bbox == bbox);
    }
}

/// Who is among the primitives is in one of the two halves, and in no
/// half is anyone else.
pub proof fn lemma_halves_among(s: Seq<Bounded>, axis: int, obj: Hittable, bbox: AABB)
    ensures
        among(halves_on(s, axis).0, obj, bbox) || among(halves_on(s, axis).1, obj, bbox) <==> among(
            s,
            obj,
            bbox,
        ),
{
    lemma_sorted_on_contents(s, axis);
    lemma_sorted_on_among(s, axis, obj, bbox);
    let sorted = sorted_on(s, axis);
    let mid = (s.len() / 2) as int;
    let l = halves_on(s, axis).0;
    let r = halves_on(s, axis).1;
    if among(sorted, obj, bbox) {
        let i = choose|i: int|
            0 <= i < sorted.len() && (#[trigger] sorted[i]).obj == obj && sorted[i].bbox == bbox;
        if i < mid {
            assert(l[i] == sorted[i]);
        } else {
            assert(r[i - mid] == sorted[i]);
        }
    }
    if among(l, obj, bbox) {
        let i = choose|i: int| 0 <= i < l.len() && (#[trigger] l[i]).obj == obj && l[i].bbox == bbox;
        assert(sorted[i] == l[i]);
    }
    if among(r, obj, bbox) {
        let i = choose|i: int| 0 <= i < r.len() && (#[trigger] r[i]).obj == obj && r[i].bbox == bbox;
        assert(sorted[i + mid] == r[i]);
    }
}

impl BVH {
    /// Whether a primitive with this box stands in a leaf of the tree.
    pub open spec fn holds(self, obj: Hittable, bbox: AABB) -> bool
        decreases self,
    {
        match self {
            BVH::Leaf { obj: o, bbox: b } => o == obj && b == bbox,
            BVH::Node { left, right, .. } => left.holds(obj, bbox) || right.holds(obj, bbox),
        }
    }

    /// Whether every leaf's box is well-formed and every node's box is the
    /// box around the boxes of its two subtrees.
    pub open spec fn boxes_enclose(self) -> bool
        decreases self,
    {
        match self {
            BVH::Leaf { bbox, .. } => bbox.wf(),
            BVH::Node { left, right, bbox } => {
                &&& left.boxes_enclose()
                &&& right.boxes_enclose()
                &&& bbox == AABB::surrounding_box(left.spec_bbox(), right.spec_bbox())
            },
        }
    }

    /// The number of leaves.
    pub open spec fn leaves(self) -> nat
        decreases self,
    {
        match self {
            BVH::Leaf { .. } => 1,
            BVH::Node { left, right, .. } => left.leaves() + right.leaves(),
        }
    }

    /// A tree that was built has one leaf for each primitive.
    pub proof fn lemma_built_leaves(self, s: Seq<Bounded>)
        requires
            self.built_from(s),
        ensures
            self.leaves() == s.len(),
        decreases self,
    {
        match self {
            BVH::Leaf { .. } => {},
            BVH::Node { left, right, .. } => {
                let axis = choose|axis: int|
                    0 <= axis < 3 && left.built_from((#[trigger] halves_on(s, axis)).0)
                        && right.built_from(halves_on(s, axis).1);
                lemma_sorted_on_contents(s, axis);
                left.lemma_built_leaves(halves_on(s, axis).0);
                right.lemma_built_leaves(halves_on(s, axis).1);
            },
        }
    }

    /// In such a tree the root's box is well-formed.
    pub proof fn lemma_root_wf(self)
        requires
            self.boxes_enclose(),
        ensures
            self.spec_bbox().wf(),
        decreases self,
    {
        match self {
            BVH::Leaf { .. } => {},
            BVH::Node { left, right, .. } => {
                left.lemma_root_wf();
                right.lemma_root_wf();
                AABB::lemma_surrounding_box_contains(left.spec_bbox(), right.spec_bbox());
            },
        }
    }

    /// In such a tree the root's box contains the box of every leaf.
    pub proof fn lemma_root_encloses(self, obj: Hittable, bbox: AABB)
        requires
            self.boxes_enclose(),
            self.holds(obj, bbox),
        ensures
            self.spec_bbox().contains(bbox),
        decreases self,
    {
        match self {
            BVH::Leaf { .. } => {},
            BVH::Node { left, right, .. } => {
                left.lemma_root_wf();
                right.lemma_root_wf();
                AABB::lemma_surrounding_box_contains(left.spec_bbox(), right.spec_bbox());
                if left.holds(obj, bbox) {
                    left.lemma_root_encloses(obj, bbox);
                    AABB::lemma_contains_transitive(self.spec_bbox(), left.spec_bbox(), bbox);
                } else {
                    right.lemma_root_encloses(obj, bbox);
                    AABB::lemma_contains_transitive(self.spec_bbox(), right.spec_bbox(), bbox);
                }
            },
        }
    }

    /// A tree that was built holds the primitives it was built from, each
    /// with its box, and nothing else.
    pub proof fn lemma_built_holds(self, s: Seq<Bounded>, obj: Hittable, bbox: AABB)
        requires
            self.built_from(s),
        ensures
            self.holds(obj, bbox) <==> among(s, obj, bbox),
        decreases self,
    {
        match self {
            BVH::Leaf { .. } => {
                if among(s, obj, bbox) {
                    let i = choose|i: int|
                        0 <= i < s.len() && (#[trigger] s[i]).obj == obj && s[i].bbox == bbox;
                    assert(i == 0);
                }
                if self.holds(obj, bbox) {
                    assert(s[0].obj == obj && s[0].bbox == bbox);
                }
            },
            BVH::Node { left, right, .. } => {
                let axis = choose|axis: int|
                    0 <= axis < 3 && left.built_from((#[trigger] halves_on(s, axis)).0)
                        && right.built_from(halves_on(s, axis).1);
                left.lemma_built_holds(halves_on(s, axis).0, obj, bbox);
                right.lemma_built_holds(halves_on(s, axis).1, obj, bbox);
                lemma_halves_among(s, axis, obj, bbox);
            },
        }
    }

    /// A tree that was built from primitives with well-formed boxes has
    /// well-formed boxes throughout.
    pub proof fn lemma_built_encloses(self, s: Seq<Bounded>)
        requires
            self.built_from(s),
            forall|i: int| 0 <= i < s.len() ==> (#[trigger] s[i]).bbox.wf(),
        ensures
            self.boxes_enclose(),
        decreases self,
    {
        match self {
            BVH::Leaf { .. } => {
                assert(s[0].bbox.wf());
            },
            BVH::Node { left, right, .. } => {
                let axis = choose|axis: int|
                    0 <= axis < 3 && left.built_from((#[trigger] halves_on(s, axis)).0)
                        && right.built_from(halves_on(s, axis).1);
                let l = halves_on(s, axis).0;
                let r = halves_on(s, axis).1;
                assert forall|i: int| 0 <= i < l.len() implies (#[trigger] l[i]).bbox.wf() by {
                    lemma_halves_among(s, axis, l[i].obj, l[i].bbox);
                    assert(among(l, l[i].obj, l[i].bbox));
                    let j = choose|j: int|
                        0 <= j < s.len() && (#[trigger] s[j]).obj == l[i].obj && s[j].bbox
                            == l[i].bbox;
                    assert(s[j].bbox.wf());
                }
                assert forall|i: int| 0 <= i < r.len() implies (#[trigger] r[i]).bbox.wf() by {
                    lemma_halves_among(s, axis, r[i].obj, r[i].bbox);
                    assert(among(r, r[i].obj, r[i].bbox));
                    let j = choose|j: int|
                        0 <= j < s.len() && (#[trigger] s[j]).obj == r[i].obj && s[j].bbox
                            == r[i].bbox;
                    assert(s[j].bbox.wf());
                }
                left.lemma_built_encloses(l);
                right.lemma_built_encloses(r);
            },
        }
    }
}

} // verus!

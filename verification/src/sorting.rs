//! Putting primitives in order on an axis.

use vstd::prelude::*;
use crate::bvh::Bounded;
use crate::scalar::Scalar;

verus! {

/// Whether `a` comes strictly before `b` on an axis.
pub open spec fn spec_before(a: Bounded, b: Bounded, axis: int) -> bool {
    a.key.spec_axis(axis).lt(b.key.spec_axis(axis))
}

/// `sorted` with `x` put behind everything that does not come strictly
/// after it.
pub open spec fn insert_sorted(sorted: Seq<Bounded>, x: Bounded, axis: int) -> Seq<Bounded>
    decreases sorted.len(),
{
    if sorted.len() == 0 {
        seq![x]
    } else if spec_before(x, sorted.last(), axis) {
        insert_sorted(sorted.drop_last(), x, axis).push(sorted.last())
    } else {
        sorted.push(x)
    }
}

/// The primitives in ascending order on an axis, those that are level in
/// the order in which they were given.
pub open spec fn sorted_on(s: Seq<Bounded>, axis: int) -> Seq<Bounded>
    decreases s.len(),
{
    if s.len() == 0 {
        Seq::empty()
    } else {
        insert_sorted(sorted_on(s.drop_last(), axis), s.last(), axis)
    }
}

/// Whether every key is a number on every axis.
pub open spec fn spec_keys_are_ordered(s: Seq<Bounded>) -> bool {
    forall|i: int| 0 <= i < s.len() ==> (#[trigger] s[i]).key.is_ordered()
}

/// Whether every key is a number on every axis: what `BVH::build` asks of
/// two primitives or more.
pub fn keys_are_ordered(entries: &Vec<Bounded>) -> (r: bool)
    ensures
        r == spec_keys_are_ordered(entries@),
{
    let mut i: usize = 0;
    while i < entries.len()
        invariant
            i <= entries.len(),
            forall|j: int| 0 <= j < i ==> (#[trigger] entries@[j]).key.is_ordered(),
        decreases entries.len() - i,
    {
        if !entries[i].key.is_ordered() {
            return false;
        }
        i = i + 1;
    }
    true
}

fn before(a: &Bounded, b: &Bounded, axis: usize) -> (r: bool)
    requires
        axis < 3,
    ensures
        r == spec_before(*a, *b, axis as int),
{
    a.key.axis(axis).lt(b.key.axis(axis))
}

/// Inserting keeps what was there and adds the one.
pub proof fn lemma_insert_sorted_contents(sorted: Seq<Bounded>, x: Bounded, axis: int)
    ensures
        insert_sorted(sorted, x, axis).len() == sorted.len() + 1,
        insert_sorted(sorted, x, axis).to_multiset() == sorted.to_multiset().insert(x),
    decreases sorted.len(),
{
    broadcast use vstd::seq_lib::group_to_multiset_ensures;

    if sorted.len() == 0 {
        assert(sorted =~= Seq::empty());
        assert(seq![x] =~= Seq::<Bounded>::empty().push(x));
    } else if spec_before(x, sorted.last(), axis) {
        lemma_insert_sorted_contents(sorted.drop_last(), x, axis);
        assert(sorted =~= sorted.drop_last().push(sorted.last()));
        assert(sorted.drop_last().to_multiset().insert(x).insert(sorted.last())
            =~= sorted.drop_last().to_multiset().insert(sorted.last()).insert(x));
    } else {
    }
}

/// Sorting loses nothing, adds nothing and repeats nothing.
pub proof fn lemma_sorted_on_contents(s: Seq<Bounded>, axis: int)
    ensures
        sorted_on(s, axis).len() == s.len(),
        sorted_on(s, axis).to_multiset() == s.to_multiset(),
    decreases s.len(),
{
    broadcast use vstd::seq_lib::group_to_multiset_ensures;

    if s.len() == 0 {
        assert(s =~= Seq::empty());
    } else {
        lemma_sorted_on_contents(s.drop_last(), axis);
        lemma_insert_sorted_contents(sorted_on(s.drop_last(), axis), s.last(), axis);
        assert(s =~= s.drop_last().push(s.last()));
    }
}

/// Whether no primitive comes strictly before one that stands ahead of it.
pub open spec fn ascending(s: Seq<Bounded>, axis: int) -> bool {
    forall|i: int, j: int| 0 <= i < j < s.len() ==> !spec_before(#[trigger] s[j], #[trigger] s[i], axis)
}

/// Inserting into an ascending sequence leaves it ascending.
pub proof fn lemma_insert_sorted_ascending(sorted: Seq<Bounded>, x: Bounded, axis: int)
    requires
        ascending(sorted, axis),
        spec_keys_are_ordered(sorted),
        x.key.is_ordered(),
    ensures
        ascending(insert_sorted(sorted, x, axis), axis),
        spec_keys_are_ordered(insert_sorted(sorted, x, axis)),
        forall|k: int|
            0 <= k < insert_sorted(sorted, x, axis).len() ==> #[trigger] insert_sorted(
                sorted,
                x,
                axis,
            )[k] == x || sorted.contains(insert_sorted(sorted, x, axis)[k]),
    decreases sorted.len(),
{
    let out = insert_sorted(sorted, x, axis);
    if sorted.len() == 0 {
    } else if spec_before(x, sorted.last(), axis) {
        let head = sorted.drop_last();
        lemma_insert_sorted_ascending(head, x, axis);
        lemma_insert_sorted_contents(head, x, axis);
        let inner = insert_sorted(head, x, axis);
        assert forall|k: int| 0 <= k < out.len() implies #[trigger] out[k] == x || sorted.contains(
            out[k],
        ) by {
            if k < inner.len() {
                if inner[k] != x {
                    assert(head.contains(inner[k]));
                    let w = choose|w: int| 0 <= w < head.len() && head[w] == inner[k];
                    assert(sorted[w] == inner[k]);
                }
            } else {
                assert(out[k] == sorted[sorted.len() - 1]);
            }
        }
        assert forall|i: int, j: int| 0 <= i < j < out.len() implies !spec_before(
            #[trigger] out[j],
            #[trigger] out[i],
            axis,
        ) by {
            if j == out.len() - 1 {
                assert(out[j] == sorted.last());
                assert(out[i] == inner[i]);
                if inner[i] != x {
                    assert(head.contains(inner[i]));
                    let w = choose|w: int| 0 <= w < head.len() && head[w] == inner[i];
                    assert(sorted[w] == inner[i]);
                    assert(!spec_before(sorted[sorted.len() - 1], sorted[w], axis));
                }
            } else {
                assert(out[i] == inner[i] && out[j] == inner[j]);
            }
        }
        assert forall|k: int| 0 <= k < out.len() implies (#[trigger] out[k]).key.is_ordered() by {
            if k < inner.len() {
                assert(out[k] == inner[k]);
            } else {
                assert(out[k] == sorted[sorted.len() - 1]);
            }
        }
    } else {
        assert forall|k: int| 0 <= k < out.len() implies #[trigger] out[k] == x || sorted.contains(
            out[k],
        ) by {
            if k < sorted.len() {
                assert(out[k] == sorted[k]);
            }
        }
        assert forall|i: int, j: int| 0 <= i < j < out.len() implies !spec_before(
            #[trigger] out[j],
            #[trigger] out[i],
            axis,
        ) by {
            if j == out.len() - 1 {
                assert(out[i] == sorted[i]);
                assert(!spec_before(sorted[sorted.len() - 1], sorted[i], axis));
            } else {
                assert(out[i] == sorted[i] && out[j] == sorted[j]);
            }
        }
        assert forall|k: int| 0 <= k < out.len() implies (#[trigger] out[k]).key.is_ordered() by {
            if k < sorted.len() {
                assert(out[k] == sorted[k]);
            }
        }
    }
}

/// What is sorted is ascending.
pub proof fn lemma_sorted_on_ascending(s: Seq<Bounded>, axis: int)
    requires
        spec_keys_are_ordered(s),
    ensures
        ascending(sorted_on(s, axis), axis),
        spec_keys_are_ordered(sorted_on(s, axis)),
    decreases s.len(),
{
    if s.len() > 0 {
        assert forall|i: int| 0 <= i < s.drop_last().len() implies (#[trigger] s.drop_last()[i]).key.is_ordered() by {
            assert(s.drop_last()[i] == s[i]);
        }
        lemma_sorted_on_ascending(s.drop_last(), axis);
        assert(s.last() == s[s.len() - 1]);
        lemma_insert_sorted_ascending(sorted_on(s.drop_last(), axis), s.last(), axis);
    }
}

/// The test whether a primitive is level with the number `k` on an axis.
pub open spec fn level_with(k: Scalar, axis: int) -> spec_fn(Bounded) -> bool {
    |e: Bounded| e.key.spec_axis(axis).same(k)
}

/// Filtering a sequence with one more item keeps the item or not, behind
/// what is kept of the rest.
proof fn lemma_filter_push(s: Seq<Bounded>, x: Bounded, pred: spec_fn(Bounded) -> bool)
    ensures
        s.push(x).filter(pred) == if pred(x) {
            s.filter(pred).push(x)
        } else {
            s.filter(pred)
        },
{
    reveal(Seq::filter);
    assert(s.push(x).drop_last() =~= s);
}

/// Inserting puts the new primitive behind those that are level with it
/// and leaves the order of all others as it was.
pub proof fn lemma_insert_sorted_stable(sorted: Seq<Bounded>, x: Bounded, axis: int, k: Scalar)
    ensures
        insert_sorted(sorted, x, axis).filter(level_with(k, axis)) == if level_with(k, axis)(x) {
            sorted.filter(level_with(k, axis)).push(x)
        } else {
            sorted.filter(level_with(k, axis))
        },
    decreases sorted.len(),
{
    let pred = level_with(k, axis);
    if sorted.len() == 0 {
        assert(sorted =~= Seq::empty());
        assert(seq![x] =~= Seq::<Bounded>::empty().push(x));
        lemma_filter_push(Seq::empty(), x, pred);
    } else if spec_before(x, sorted.last(), axis) {
        let head = sorted.drop_last();
        lemma_insert_sorted_stable(head, x, axis, k);
        lemma_filter_push(insert_sorted(head, x, axis), sorted.last(), pred);
        lemma_filter_push(head, sorted.last(), pred);
        assert(sorted =~= head.push(sorted.last()));
        assert(!(pred(x) && pred(sorted.last())));
    } else {
        lemma_filter_push(sorted, x, pred);
    }
}

/// Sorting is stable: the primitives that are level with one another on
/// the axis stand in the order in which they were given.
pub proof fn lemma_sorted_on_stable(s: Seq<Bounded>, axis: int, k: Scalar)
    ensures
        sorted_on(s, axis).filter(level_with(k, axis)) == s.filter(level_with(k, axis)),
    decreases s.len(),
{
    let pred = level_with(k, axis);
    if s.len() == 0 {
        assert(s =~= Seq::empty());
    } else {
        lemma_sorted_on_stable(s.drop_last(), axis, k);
        lemma_insert_sorted_stable(sorted_on(s.drop_last(), axis), s.last(), axis, k);
        lemma_filter_push(s.drop_last(), s.last(), pred);
        assert(s =~= s.drop_last().push(s.last()));
    }
}

/// Two ascending sequences run into one: the later of the two last
/// primitives goes last, and where they are level, that of `b`.
pub open spec fn merged(a: Seq<Bounded>, b: Seq<Bounded>, axis: int) -> Seq<Bounded>
    decreases a.len() + b.len(),
{
    if a.len() == 0 {
        b
    } else if b.len() == 0 {
        a
    } else if spec_before(b.last(), a.last(), axis) {
        merged(a.drop_last(), b, axis).push(a.last())
    } else {
        merged(a, b.drop_last(), axis).push(b.last())
    }
}

/// Inserting into the second sequence before merging is inserting into
/// what was merged.
pub proof fn lemma_merged_insert(a: Seq<Bounded>, b: Seq<Bounded>, x: Bounded, axis: int)
    requires
        spec_keys_are_ordered(a),
        spec_keys_are_ordered(b),
        x.key.is_ordered(),
    ensures
        merged(a, insert_sorted(b, x, axis), axis) == insert_sorted(merged(a, b, axis), x, axis),
    decreases a.len() + b.len(),
{
    let bx = insert_sorted(b, x, axis);
    lemma_insert_sorted_contents(b, x, axis);
    if a.len() == 0 {
    } else {
        let a_head = a.drop_last();
        assert(a.last() == a[a.len() - 1]);
        assert forall|i: int| 0 <= i < a_head.len() implies (#[trigger] a_head[i]).key.is_ordered() by {
            assert(a_head[i] == a[i]);
        }
        if b.len() == 0 {
            assert(bx =~= seq![x]);
            assert(bx.last() == x);
            assert(bx.drop_last() =~= Seq::<Bounded>::empty());
            if spec_before(x, a.last(), axis) {
                lemma_merged_insert(a_head, b, x, axis);
                assert(merged(a_head, b, axis) == a_head);
            } else {
                assert(merged(a, Seq::<Bounded>::empty(), axis) == a);
            }
        } else {
            let y = b.last();
            let b_head = b.drop_last();
            assert(y == b[b.len() - 1]);
            assert forall|i: int| 0 <= i < b_head.len() implies (#[trigger] b_head[i]).key.is_ordered() by {
                assert(b_head[i] == b[i]);
            }
            if spec_before(x, y, axis) {
                let inner = insert_sorted(b_head, x, axis);
                lemma_insert_sorted_contents(b_head, x, axis);
                assert(bx == inner.push(y));
                assert(bx.last() == y);
                assert(bx.drop_last() =~= inner);
                if spec_before(y, a.last(), axis) {
                    lemma_merged_insert(a_head, b, x, axis);
                    let m = merged(a_head, b, axis);
                    assert(merged(a, b, axis) == m.push(a.last()));
                    assert(m.push(a.last()).last() == a.last());
                    assert(m.push(a.last()).drop_last() =~= m);
                } else {
                    lemma_merged_insert(a, b_head, x, axis);
                    let m = merged(a, b_head, axis);
                    assert(merged(a, b, axis) == m.push(y));
                    assert(m.push(y).last() == y);
                    assert(m.push(y).drop_last() =~= m);
                }
            } else {
                assert(bx == b.push(x));
                assert(bx.last() == x);
                assert(bx.drop_last() =~= b);
                if spec_before(x, a.last(), axis) {
                    lemma_merged_insert(a_head, b, x, axis);
                    let m = merged(a_head, b, axis);
                    assert(spec_before(y, a.last(), axis));
                    assert(merged(a, b, axis) == m.push(a.last()));
                    assert(m.push(a.last()).last() == a.last());
                    assert(m.push(a.last()).drop_last() =~= m);
                } else {
                    let m = merged(a, b, axis);
                    if spec_before(y, a.last(), axis) {
                        assert(m.last() == a.last());
                    } else {
                        assert(m.last() == y);
                    }
                }
            }
        }
    }
}

/// Sorting two sequences and merging them is sorting the one behind the
/// other.
pub proof fn lemma_sorted_on_concat(l: Seq<Bounded>, r: Seq<Bounded>, axis: int)
    requires
        spec_keys_are_ordered(l),
        spec_keys_are_ordered(r),
    ensures
        sorted_on(l + r, axis) == merged(sorted_on(l, axis), sorted_on(r, axis), axis),
    decreases r.len(),
{
    if r.len() == 0 {
        assert(l + r =~= l);
        assert(sorted_on(r, axis) =~= Seq::<Bounded>::empty());
    } else {
        let head = r.drop_last();
        let x = r.last();
        assert(x == r[r.len() - 1]);
        assert forall|i: int| 0 <= i < head.len() implies (#[trigger] head[i]).key.is_ordered() by {
            assert(head[i] == r[i]);
        }
        lemma_sorted_on_concat(l, head, axis);
        assert((l + r).drop_last() =~= l + head);
        assert((l + r).last() == x);
        lemma_sorted_on_ascending(l, axis);
        lemma_sorted_on_ascending(head, axis);
        lemma_merged_insert(sorted_on(l, axis), sorted_on(head, axis), x, axis);
    }
}

/// Runs two sequences into one.
fn merge(a: &Vec<Bounded>, b: &Vec<Bounded>, axis: usize) -> (out: Vec<Bounded>)
    requires
        axis < 3,
        a@.len() + b@.len() <= usize::MAX,
    ensures
        out@ == merged(a@, b@, axis as int),
{
    let n = a.len() + b.len();
    let mut out: Vec<Bounded> = Vec::new();
    if n == 0 {
        assert(out@ =~= b@);
        return out;
    }
    let filler = if a.len() > 0 {
        a[0]
    } else {
        b[0]
    };
    let mut k: usize = 0;
    while k < n
        invariant
            k <= n,
            out@.len() == k,
        decreases n - k,
    {
        out.push(filler);
        k = k + 1;
    }
    let mut i: usize = a.len();
    let mut j: usize = b.len();
    assert(a@.subrange(0, i as int) =~= a@);
    assert(b@.subrange(0, j as int) =~= b@);
    assert(merged(a@, b@, axis as int) + out@.subrange(n as int, n as int) =~= merged(
        a@,
        b@,
        axis as int,
    ));
    while i + j > 0
        invariant
            axis < 3,
            i <= a@.len(),
            j <= b@.len(),
            n == a@.len() + b@.len(),
            out@.len() == n,
            merged(a@, b@, axis as int) == merged(
                a@.subrange(0, i as int),
                b@.subrange(0, j as int),
                axis as int,
            ) + out@.subrange(i + j, n as int),
        decreases i + j,
    {
        let ghost ai = a@.subrange(0, i as int);
        let ghost bj = b@.subrange(0, j as int);
        let ghost tail = out@.subrange(i + j, n as int);
        let from_a = if i == 0 {
            false
        } else if j == 0 {
            true
        } else {
            before(&b[j - 1], &a[i - 1], axis)
        };
        if from_a {
            proof {
                assert(ai.last() == a@[i - 1]);
                assert(ai.drop_last() =~= a@.subrange(0, i - 1));
                if j > 0 {
                    assert(bj.last() == b@[j - 1]);
                }
                assert(merged(ai, bj, axis as int) == merged(ai.drop_last(), bj, axis as int).push(
                    ai.last(),
                ));
            }
            i = i - 1;
            out[i + j] = a[i];
        } else {
            proof {
                assert(bj.last() == b@[j - 1]);
                assert(bj.drop_last() =~= b@.subrange(0, j - 1));
                if i > 0 {
                    assert(ai.last() == a@[i - 1]);
                }
                assert(merged(ai, bj, axis as int) == merged(ai, bj.drop_last(), axis as int).push(
                    bj.last(),
                ));
            }
            j = j - 1;
            out[i + j] = b[j];
        }
        proof {
            let x = out@[i + j];
            assert(out@.subrange(i + j, n as int) =~= seq![x] + tail);
            let m = merged(a@.subrange(0, i as int), b@.subrange(0, j as int), axis as int);
            assert(m.push(x) + tail =~= m + (seq![x] + tail));
        }
    }
    assert(a@.subrange(0, 0) =~= Seq::<Bounded>::empty());
    assert(merged(a@.subrange(0, 0), b@.subrange(0, 0), axis as int) + out@.subrange(0, n as int)
        =~= out@);
    out
}

/// The primitives from `lo` up to `hi` in ascending order.
fn sort_range(entries: &Vec<Bounded>, lo: usize, hi: usize, axis: usize) -> (out: Vec<Bounded>)
    requires
        lo <= hi <= entries@.len(),
        axis < 3,
        spec_keys_are_ordered(entries@),
    ensures
        out@ == sorted_on(entries@.subrange(lo as int, hi as int), axis as int),
    decreases hi - lo,
{
    let ghost part = entries@.subrange(lo as int, hi as int);
    if hi - lo == 0 {
        Vec::new()
    } else if hi - lo == 1 {
        let mut out: Vec<Bounded> = Vec::new();
        out.push(entries[lo]);
        proof {
            assert(part.drop_last() =~= Seq::<Bounded>::empty());
            assert(sorted_on(part.drop_last(), axis as int) =~= Seq::<Bounded>::empty());
            assert(part.last() == entries@[lo as int]);
            assert(out@ =~= seq![entries@[lo as int]]);
        }
        out
    } else {
        let mid = lo + (hi - lo) / 2;
        let left = sort_range(entries, lo, mid, axis);
        let right = sort_range(entries, mid, hi, axis);
        proof {
            let l = entries@.subrange(lo as int, mid as int);
            let r = entries@.subrange(mid as int, hi as int);
            assert(part =~= l + r);
            assert forall|i: int| 0 <= i < l.len() implies (#[trigger] l[i]).key.is_ordered() by {
                assert(l[i] == entries@[lo + i]);
            }
            assert forall|i: int| 0 <= i < r.len() implies (#[trigger] r[i]).key.is_ordered() by {
                assert(r[i] == entries@[mid + i]);
            }
            lemma_sorted_on_concat(l, r, axis as int);
            lemma_sorted_on_contents(l, axis as int);
            lemma_sorted_on_contents(r, axis as int);
        }
        merge(&left, &right, axis)
    }
}

/// The primitives in ascending order on an axis, those that are level in
/// the order in which they were given.
pub fn sort_on(entries: &Vec<Bounded>, axis: usize) -> (out: Vec<Bounded>)
    requires
        axis < 3,
        spec_keys_are_ordered(entries@),
    ensures
        out@ == sorted_on(entries@, axis as int),
{
    assert(entries@.subrange(0, entries@.len() as int) =~= entries@);
    sort_range(entries, 0, entries.len(), axis)
}

} // verus!

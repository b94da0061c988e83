//! The bounding volume hierarchy: its nodes, what makes it sound, and the
//! build, one node at a time.
//!
//! The build asks its caller for one thing only: what each candidate cut
//! of a node costs. Everything else is decided here: which candidate
//! wins, whether the node is cut at all, how its triangles are reordered,
//! and what its children are.

use vstd::prelude::*;
use crate::scene::{Scene, Triangle};
use crate::vector::{Vec3k, KEY_MAX, KEY_MIN, key_min, key_max};

verus! {

/// The lower bound, on one axis, of the box grown from nothing over `tris`.
pub open spec fn span_low(tris: Seq<Triangle>, axis: int) -> int
    decreases tris.len(),
{
    if tris.len() == 0 {
        KEY_MAX as int
    } else {
        key_min(span_low(tris.drop_last(), axis), tris.last().low(axis))
    }
}

/// The upper bound, on one axis, of the box grown from nothing over `tris`.
pub open spec fn span_high(tris: Seq<Triangle>, axis: int) -> int
    decreases tris.len(),
{
    if tris.len() == 0 {
        KEY_MIN as int
    } else {
        key_max(span_high(tris.drop_last(), axis), tris.last().high(axis))
    }
}

/// Growing a box by one more triangle is one more step of the span.
pub proof fn lemma_span_push(tris: Seq<Triangle>, t: Triangle, axis: int)
    ensures
        span_low(tris.push(t), axis) == key_min(span_low(tris, axis), t.low(axis)),
        span_high(tris.push(t), axis) == key_max(span_high(tris, axis), t.high(axis)),
{
    assert(tris.push(t).drop_last() =~= tris);
}

/// One node of the hierarchy: a box, and either a run of triangles (a leaf)
/// or a pair of adjacent child nodes.
#[derive(Clone, Copy, Debug)]
pub struct Node {
    pub bounds_min: Vec3k,
    pub bounds_max: Vec3k,
    pub children_id: usize,
    pub first_tri_id: usize,
    pub num_tris: usize,
}

impl Node {
    /// A node that holds nothing: its box is inside out, so that growing it
    /// by any triangle gives that triangle's own box.
    pub fn default() -> (n: Self)
        ensures
            n.children_id == 0,
            n.first_tri_id == 0,
            n.num_tris == 0,
            n.spans(Seq::<Triangle>::empty()),
    {
        Self {
            bounds_min: Vec3k::from(KEY_MAX),
            bounds_max: Vec3k::from(KEY_MIN),
            children_id: 0,
            first_tri_id: 0,
            num_tris: 0,
        }
    }

    /// The node's box never starts above the largest finite key nor ends
    /// below the smallest: it has grown from nothing.
    pub open spec fn capped(self) -> bool {
        forall|a: int|
            #![trigger self.bounds_min.data[a]]
            #![trigger self.bounds_max.data[a]]
            0 <= a < 3 ==> self.bounds_min.data[a] <= KEY_MAX && self.bounds_max.data[a] >= KEY_MIN
    }

    /// The node's box is exactly the box grown from nothing over `tris`.
    pub open spec fn spans(self, tris: Seq<Triangle>) -> bool {
        forall|a: int|
            #![trigger span_low(tris, a)]
            #![trigger span_high(tris, a)]
            0 <= a < 3 ==> self.bounds_min.data[a] == span_low(tris, a) && self.bounds_max.data[a]
                == span_high(tris, a)
    }

    /// Every corner of `t` lies inside the node's box.
    pub open spec fn encloses(self, t: Triangle) -> bool {
        forall|v: int, a: int|
            0 <= v < 3 && 0 <= a < 3 ==> self.bounds_min.data[a] <= #[trigger] t.vertices[v].position[a]
                <= self.bounds_max.data[a]
    }

    /// Widens the box just enough to hold the three corners of `tri`.
    pub fn grow_by_tri(&mut self, tri: &Triangle)
        ensures
            forall|a: int|
                0 <= a < 3 ==> final(self).bounds_min.data[a] == key_min(
                    old(self).bounds_min.data[a] as int,
                    tri.low(a),
                ) && final(self).bounds_max.data[a] == key_max(
                    old(self).bounds_max.data[a] as int,
                    tri.high(a),
                ),
            final(self).children_id == old(self).children_id,
            final(self).first_tri_id == old(self).first_tri_id,
            final(self).num_tris == old(self).num_tris,
    {
        let c0 = Vec3k { data: tri.vertices[0].position };
        let c1 = Vec3k { data: tri.vertices[1].position };
        let c2 = Vec3k { data: tri.vertices[2].position };
        self.bounds_min = Vec3k::min(Vec3k::min(Vec3k::min(self.bounds_min, c0), c1), c2);
        self.bounds_max = Vec3k::max(Vec3k::max(Vec3k::max(self.bounds_max, c0), c1), c2);
    }
}

/// The triangles of `tris`, in order, whose centroid on `axis` lies below
/// `pos` (for `left`), or does not (for `!left`).
pub open spec fn side(tris: Seq<Triangle>, axis: int, pos: int, left: bool) -> Seq<Triangle>
    decreases tris.len(),
{
    if tris.len() == 0 {
        tris
    } else {
        let rest = side(tris.drop_last(), axis, pos, left);
        if (tris.last().centroid.data[axis] < pos) == left {
            rest.push(tris.last())
        } else {
            rest
        }
    }
}

/// `t` is one of `tris[lo..hi]`.
pub open spec fn among(t: Triangle, tris: Seq<Triangle>, lo: int, hi: int) -> bool {
    exists|m: int| lo <= m < hi && t == #[trigger] tris[m]
}

/// `tris` with the entries at `i` and `j` exchanged.
pub open spec fn swapped(tris: Seq<Triangle>, i: int, j: int) -> Seq<Triangle> {
    tris.update(i, tris[j]).update(j, tris[i])
}

/// The two-ended sweep over `tris[lo..hi]`: a triangle whose centroid lies
/// below `pos` stays at the front and the front advances; any other is
/// exchanged with the last unsorted triangle and the back retreats. Gives
/// the reordered triangles and the place where the two ends met.
pub open spec fn sweep(tris: Seq<Triangle>, lo: int, hi: int, axis: int, pos: int) -> (
    Seq<Triangle>,
    int,
)
    decreases hi - lo,
{
    if lo >= hi {
        (tris, lo)
    } else if tris[lo].centroid.data[axis] < pos {
        sweep(tris, lo + 1, hi, axis, pos)
    } else {
        sweep(swapped(tris, lo, hi - 1), lo, hi - 1, axis, pos)
    }
}

/// Reorders `tris[lo..hi]` in place so that the triangles whose centroid on
/// `axis` lies below `pos` come first; returns where the second group
/// starts. Nothing outside `lo..hi` moves.
pub fn partition(tris: &mut Vec<Triangle>, lo: usize, hi: usize, axis: usize, pos: i32) -> (mid:
    usize)
    requires
        lo <= hi <= old(tris)@.len(),
        axis < 3,
    ensures
        (final(tris)@, mid as int) == sweep(old(tris)@, lo as int, hi as int, axis as int, pos as int),
        lo <= mid <= hi,
        final(tris)@.len() == old(tris)@.len(),
        final(tris)@.to_multiset() == old(tris)@.to_multiset(),
        forall|k: int| 0 <= k < lo || hi <= k < old(tris)@.len() ==> final(tris)@[k] == old(tris)@[k],
        forall|k: int| lo <= k < mid ==> (#[trigger] final(tris)@[k]).centroid.data[axis as int] < pos,
        forall|k: int| mid <= k < hi ==> (#[trigger] final(tris)@[k]).centroid.data[axis as int] >= pos,
        forall|k: int|
            lo <= k < hi ==> among(#[trigger] final(tris)@[k], old(tris)@, lo as int, hi as int),
{
    let mut i: usize = lo;
    let mut j: usize = hi;
    while i < j
        invariant
            lo <= i <= j <= hi <= tris@.len(),
            axis < 3,
            tris@.len() == old(tris)@.len(),
            sweep(tris@, i as int, j as int, axis as int, pos as int) == sweep(
                old(tris)@,
                lo as int,
                hi as int,
                axis as int,
                pos as int,
            ),
            tris@.to_multiset() == old(tris)@.to_multiset(),
            forall|k: int| 0 <= k < lo || hi <= k < old(tris)@.len() ==> tris@[k] == old(tris)@[k],
            forall|k: int| lo <= k < i ==> (#[trigger] tris@[k]).centroid.data[axis as int] < pos,
            forall|k: int| j <= k < hi ==> (#[trigger] tris@[k]).centroid.data[axis as int] >= pos,
            forall|k: int|
                lo <= k < hi ==> among(#[trigger] tris@[k], old(tris)@, lo as int, hi as int),
        decreases j - i,
    {
        if tris[i].mid().data[axis] < pos {
            i += 1;
        } else {
            let ghost before = tris@;
            let front = tris[i];
            let back = tris[j - 1];
            tris[i] = back;
            tris[j - 1] = front;
            proof {
                assert(tris@ =~= swapped(before, i as int, j - 1));
                let half = before.update(i as int, back);
                vstd::seq_lib::to_multiset_update(before, i as int, back);
                vstd::seq_lib::to_multiset_update(half, j - 1, front);
                vstd::seq_lib::to_multiset_contains(before, front);
                vstd::seq_lib::to_multiset_contains(half, back);
                assert(before.contains(front));
                assert(half[i as int] == back);
                assert(half.contains(back));
                assert(tris@.to_multiset() =~= before.to_multiset());
                assert forall|k: int| lo <= k < hi implies among(
                    #[trigger] tris@[k],
                    old(tris)@,
                    lo as int,
                    hi as int,
                ) by {
                    let src = if k == i { j - 1 } else if k == j - 1 { i as int } else { k };
                    assert(tris@[k] == before[src]);
                    assert(among(before[src], old(tris)@, lo as int, hi as int));
                }
            }
            j -= 1;
        }
    }
    i
}

/// A place to cut a node in two, with what the cut was judged to cost.
#[derive(Clone, Copy, Debug)]
pub struct Split {
    pub axis: usize,
    pub pos: i32,
    pub cost: i32,
}

/// How many places a node is tried to be cut at on each axis.
pub const NUM_BINS: usize = 8;

/// How many places a node is tried to be cut at in all.
pub const NUM_CUTS: usize = 24;

/// The axis and the bin of the `k`-th place a node is tried to be cut at:
/// all bins of the first axis come first, from the lowest up, then those
/// of the second axis, then those of the third.
pub fn slot(k: usize) -> (at: (usize, usize))
    requires
        k < NUM_CUTS,
    ensures
        at.0 == k / NUM_BINS,
        at.1 == k % NUM_BINS,
        at.0 < 3,
        at.1 < NUM_BINS,
{
    (k / NUM_BINS, k % NUM_BINS)
}

/// The candidates for a node from what was found for each place it is
/// tried to be cut at, in the order of the places: for each, where on the
/// axis the cut lies and what it costs.
pub fn binned(found: &Vec<(i32, i32)>) -> (candidates: Vec<Split>)
    requires
        found@.len() <= NUM_CUTS,
    ensures
        candidates@.len() == found@.len(),
        forall|k: int|
            0 <= k < found@.len() ==> (#[trigger] candidates@[k]).axis == k / (NUM_BINS as int)
                && candidates@[k].pos == found@[k].0 && candidates@[k].cost == found@[k].1,
        forall|k: int| 0 <= k < candidates@.len() ==> (#[trigger] candidates@[k]).axis < 3,
{
    let mut candidates: Vec<Split> = Vec::new();
    let mut k: usize = 0;
    while k < found.len()
        invariant
            k <= found@.len() <= NUM_CUTS,
            candidates@.len() == k,
            forall|m: int|
                0 <= m < k ==> (#[trigger] candidates@[m]).axis == m / (NUM_BINS as int)
                    && candidates@[m].pos == found@[m].0 && candidates@[m].cost == found@[m].1,
            forall|m: int| 0 <= m < k ==> (#[trigger] candidates@[m]).axis < 3,
        decreases found@.len() - k,
    {
        let (axis, _) = slot(k);
        candidates.push(Split { axis, pos: found[k].0, cost: found[k].1 });
        k += 1;
    }
    candidates
}

/// A cost that is not above zero rules its cut out: it counts as the
/// largest cost there is.
pub open spec fn effective_cost(raw: int) -> int {
    if raw > 0 {
        raw
    } else {
        KEY_MAX as int
    }
}

/// The cut that wins among `candidates`, taken in order: a candidate
/// replaces the one held only when it is strictly cheaper. What is held
/// before the first candidate is a cut at key 0 on axis 0 with the largest
/// cost, so a candidate that is ruled out never wins.
pub open spec fn best_of(candidates: Seq<Split>) -> Split
    decreases candidates.len(),
{
    if candidates.len() == 0 {
        Split { axis: 0, pos: 0, cost: KEY_MAX }
    } else {
        let held = best_of(candidates.drop_last());
        let c = candidates.last();
        if effective_cost(c.cost as int) < held.cost {
            Split { axis: c.axis, pos: c.pos, cost: effective_cost(c.cost as int) as i32 }
        } else {
            held
        }
    }
}

/// Picks the winning cut among `candidates`.
pub fn best_split(candidates: &Vec<Split>) -> (best: Split)
    ensures
        best == best_of(candidates@),
        best.cost <= KEY_MAX,
        forall|k: int|
            0 <= k < candidates@.len() ==> best.cost <= effective_cost(
                (#[trigger] candidates@[k]).cost as int,
            ),
        best.cost == KEY_MAX ==> best.axis == 0 && best.pos == 0,
        best.cost < KEY_MAX ==> exists|k: int|
            0 <= k < candidates@.len() && best.axis == (#[trigger] candidates@[k]).axis && best.pos
                == candidates@[k].pos && best.cost == candidates@[k].cost && forall|m: int|
                0 <= m < k ==> best.cost < effective_cost((#[trigger] candidates@[m]).cost as int),
        (forall|k: int| 0 <= k < candidates@.len() ==> (#[trigger] candidates@[k]).axis < 3)
            ==> best.axis < 3,
{
    let mut best = Split { axis: 0, pos: 0, cost: KEY_MAX };
    let ghost mut winner: int = -1;
    let mut i: usize = 0;
    proof {
        assert(candidates@.take(0) =~= Seq::<Split>::empty());
    }
    while i < candidates.len()
        invariant
            i <= candidates@.len(),
            best == best_of(candidates@.take(i as int)),
            best.cost <= KEY_MAX,
            forall|k: int|
                0 <= k < i ==> best.cost <= effective_cost((#[trigger] candidates@[k]).cost as int),
            best.cost == KEY_MAX ==> best.axis == 0 && best.pos == 0,
            best.cost < KEY_MAX ==> 0 <= winner < i && best.axis == candidates@[winner].axis
                && best.pos == candidates@[winner].pos && best.cost == candidates@[winner].cost
                && forall|m: int|
                0 <= m < winner ==> best.cost < effective_cost((#[trigger] candidates@[m]).cost as int),
            (forall|k: int| 0 <= k < candidates@.len() ==> (#[trigger] candidates@[k]).axis < 3)
                ==> best.axis < 3,
        decreases candidates@.len() - i,
    {
        let c = candidates[i];
        let cost: i32 = if c.cost > 0 { c.cost } else { KEY_MAX };
        proof {
            assert(candidates@.take(i + 1).drop_last() =~= candidates@.take(i as int));
            assert(candidates@.take(i + 1).last() == c);
        }
        if cost < best.cost {
            best = Split { axis: c.axis, pos: c.pos, cost };
            proof {
                winner = i as int;
            }
        }
        i += 1;
    }
    proof {
        assert(candidates@.take(i as int) =~= candidates@);
    }
    best
}

/// A box grown over triangles holds every one of them.
pub proof fn lemma_span_encloses(tris: Seq<Triangle>, k: int, v: int, axis: int)
    requires
        0 <= k < tris.len(),
        0 <= v < 3,
    ensures
        span_low(tris, axis) <= tris[k].vertices[v].position[axis] <= span_high(tris, axis),
    decreases tris.len(),
{
    if k < tris.len() - 1 {
        lemma_span_encloses(tris.drop_last(), k, v, axis);
    }
}

/// Node `i` is a leaf whose run of triangles includes place `t`.
pub open spec fn holds(nodes: Seq<Node>, i: int, t: int) -> bool {
    &&& 0 <= i < nodes.len()
    &&& nodes[i].first_tri_id <= t < nodes[i].first_tri_id + nodes[i].num_tris
}

/// Place `t` belongs to some leaf.
pub open spec fn covered(nodes: Seq<Node>, t: int) -> bool {
    exists|i: int| #[trigger] holds(nodes, i, t)
}

/// Node `k` is a child of an earlier node.
pub open spec fn has_parent(nodes: Seq<Node>, k: int) -> bool {
    exists|p: int|
        0 <= p < k && (#[trigger] nodes[p]).num_tris == 0 && (nodes[p].children_id == k
            || nodes[p].children_id + 1 == k)
}

/// The box of `inner` lies inside the box of `outer`.
pub open spec fn within(inner: Node, outer: Node) -> bool {
    forall|a: int|
        #![trigger inner.bounds_min.data[a]]
        #![trigger inner.bounds_max.data[a]]
        #![trigger outer.bounds_min.data[a]]
        #![trigger outer.bounds_max.data[a]]
        0 <= a < 3 ==> outer.bounds_min.data[a] <= inner.bounds_min.data[a]
            && inner.bounds_max.data[a] <= outer.bounds_max.data[a]
}

/// Node `i` is either a leaf, or has two children that come after it in
/// the array and whose boxes lie inside its own, or is the childless root
/// of a scene without triangles; and its box has grown from nothing.
pub open spec fn shaped(nodes: Seq<Node>, i: int, count: int) -> bool {
    let n = nodes[i];
    &&& n.first_tri_id + n.num_tris <= count
    &&& n.num_tris > 0 ==> n.children_id == 0
    &&& n.num_tris == 0 ==> (i < n.children_id && n.children_id + 1 < nodes.len() && within(
        nodes[n.children_id as int],
        n,
    ) && within(nodes[n.children_id + 1], n)) || (count == 0 && nodes.len() == 1 && n.children_id
        == 0)
    &&& n.capped()
}

/// A box grown from nothing never starts above the largest finite key nor
/// ends below the smallest.
pub proof fn lemma_span_capped(tris: Seq<Triangle>, axis: int)
    ensures
        span_low(tris, axis) <= KEY_MAX,
        span_high(tris, axis) >= KEY_MIN,
    decreases tris.len(),
{
    if tris.len() > 0 {
        lemma_span_capped(tris.drop_last(), axis);
    }
}

/// A box grown over triangles that all lie in another box lies in that
/// box too.
pub proof fn lemma_span_within(tris: Seq<Triangle>, outer: Node, axis: int)
    requires
        0 <= axis < 3,
        outer.capped(),
        forall|k: int| 0 <= k < tris.len() ==> outer.encloses(#[trigger] tris[k]),
    ensures
        outer.bounds_min.data[axis] <= span_low(tris, axis),
        span_high(tris, axis) <= outer.bounds_max.data[axis],
    decreases tris.len(),
{
    if tris.len() > 0 {
        assert forall|k: int| 0 <= k < tris.drop_last().len() implies outer.encloses(
            #[trigger] tris.drop_last()[k],
        ) by {
            assert(tris.drop_last()[k] == tris[k]);
        }
        lemma_span_within(tris.drop_last(), outer, axis);
        let t = tris.last();
        assert(outer.encloses(tris[tris.len() - 1]));
        assert(outer.bounds_min.data[axis] <= t.vertices[0].position[axis] <= outer.bounds_max.data[axis]);
        assert(outer.bounds_min.data[axis] <= t.vertices[1].position[axis] <= outer.bounds_max.data[axis]);
        assert(outer.bounds_min.data[axis] <= t.vertices[2].position[axis] <= outer.bounds_max.data[axis]);
    }
}

/// The nodes form a sound hierarchy over `tris`: every node is well shaped
/// (so the boxes of children lie inside their parent's) and all but the
/// root have a parent; every leaf's box holds each triangle of its run;
/// the runs of the leaves are disjoint and together cover every triangle;
/// the root's box holds every triangle.
pub open spec fn sound(nodes: Seq<Node>, tris: Seq<Triangle>) -> bool {
    &&& nodes.len() >= 1
    &&& forall|i: int| 0 <= i < nodes.len() ==> #[trigger] shaped(nodes, i, tris.len() as int)
    &&& forall|k: int| 1 <= k < nodes.len() ==> #[trigger] has_parent(nodes, k)
    &&& forall|i: int, t: int| #[trigger] holds(nodes, i, t) ==> nodes[i].encloses(tris[t])
    &&& forall|t: int| 0 <= t < tris.len() ==> #[trigger] covered(nodes, t)
    &&& forall|i: int, j: int, t: int| #[trigger]
        holds(nodes, i, t) && #[trigger] holds(nodes, j, t) ==> i == j
    &&& forall|t: int| 0 <= t < tris.len() ==> nodes[0].encloses(#[trigger] tris[t])
}

/// Place `t` belongs to one leaf and to no other node.
pub open spec fn in_one_leaf(nodes: Seq<Node>, t: int) -> bool {
    exists|i: int| #[trigger]
        holds(nodes, i, t) && nodes[i].num_tris > 0 && forall|j: int| #[trigger]
            holds(nodes, j, t) ==> j == i
}

/// In a sound hierarchy every triangle of a leaf's run lies inside the
/// leaf's box, corner for corner and key for key; and every triangle
/// belongs to the run of exactly one leaf.
pub proof fn law_leaves_hold_and_partition(nodes: Seq<Node>, tris: Seq<Triangle>)
    requires
        sound(nodes, tris),
    ensures
        forall|i: int, t: int| #[trigger]
            holds(nodes, i, t) ==> 0 <= t < tris.len() && nodes[i].num_tris > 0
                && nodes[i].encloses(tris[t]),
        forall|t: int| 0 <= t < tris.len() ==> #[trigger] in_one_leaf(nodes, t),
{
    assert forall|i: int, t: int| #[trigger] holds(nodes, i, t) implies 0 <= t < tris.len()
        && nodes[i].num_tris > 0 && nodes[i].encloses(tris[t]) by {
        assert(shaped(nodes, i, tris.len() as int));
    }
    assert forall|t: int| 0 <= t < tris.len() implies #[trigger] in_one_leaf(nodes, t) by {
        assert(covered(nodes, t));
        let i = choose|i: int| #[trigger] holds(nodes, i, t);
        assert(holds(nodes, i, t) && nodes[i].num_tris > 0 && forall|j: int| #[trigger]
            holds(nodes, j, t) ==> j == i);
    }
}

/// Reordering the triangles inside one node's run keeps a hierarchy sound.
pub proof fn lemma_sound_reordered(
    nodes: Seq<Node>,
    before: Seq<Triangle>,
    after: Seq<Triangle>,
    index: int,
)
    requires
        sound(nodes, before),
        0 <= index < nodes.len(),
        after.len() == before.len(),
        forall|k: int|
            0 <= k < nodes[index].first_tri_id || nodes[index].first_tri_id + nodes[index].num_tris
                <= k < before.len() ==> after[k] == before[k],
        forall|k: int|
            nodes[index].first_tri_id <= k < nodes[index].first_tri_id + nodes[index].num_tris
                ==> among(
                #[trigger] after[k],
                before,
                nodes[index].first_tri_id as int,
                nodes[index].first_tri_id + nodes[index].num_tris,
            ),
    ensures
        sound(nodes, after),
{
    let lo = nodes[index].first_tri_id as int;
    let hi = nodes[index].first_tri_id + nodes[index].num_tris;
    assert(shaped(nodes, index, before.len() as int));
    assert forall|i: int, t: int| #[trigger] holds(nodes, i, t) implies nodes[i].encloses(
        after[t],
    ) by {
        assert(shaped(nodes, i, before.len() as int));
        if lo <= t < hi {
            assert(holds(nodes, index, t));
            let m = choose|m: int| lo <= m < hi && after[t] == #[trigger] before[m];
            assert(holds(nodes, index, m));
        }
    }
    assert forall|t: int| 0 <= t < after.len() implies nodes[0].encloses(#[trigger] after[t]) by {
        if lo <= t < hi {
            let m = choose|m: int| lo <= m < hi && after[t] == #[trigger] before[m];
            assert(nodes[0].encloses(before[m]));
        } else {
            assert(nodes[0].encloses(before[t]));
        }
    }
    assert forall|i: int| 0 <= i < nodes.len() implies #[trigger] shaped(
        nodes,
        i,
        after.len() as int,
    ) by {
        assert(shaped(nodes, i, before.len() as int));
    }
}

/// Node `index` after it has been cut: no triangles of its own, and its
/// children at `children`.
pub open spec fn emptied(n: Node, children: usize) -> Node {
    Node { children_id: children, num_tris: 0, ..n }
}

/// Cutting a leaf's run in two and appending a leaf for each part keeps a
/// hierarchy sound.
pub proof fn lemma_sound_cut(nodes: Seq<Node>, tris: Seq<Triangle>, index: int, a: Node, b: Node)
    requires
        sound(nodes, tris),
        0 <= index < nodes.len(),
        nodes.len() <= usize::MAX,
        a.children_id == 0 && b.children_id == 0,
        a.first_tri_id == nodes[index].first_tri_id,
        0 < a.num_tris < nodes[index].num_tris,
        b.first_tri_id == a.first_tri_id + a.num_tris,
        b.num_tris == nodes[index].num_tris - a.num_tris,
        forall|t: int| a.first_tri_id <= t < a.first_tri_id + a.num_tris ==> a.encloses(#[trigger] tris[t]),
        forall|t: int| b.first_tri_id <= t < b.first_tri_id + b.num_tris ==> b.encloses(#[trigger] tris[t]),
        a.spans(tris.subrange(a.first_tri_id as int, a.first_tri_id + a.num_tris)),
        b.spans(tris.subrange(b.first_tri_id as int, b.first_tri_id + b.num_tris)),
    ensures
        sound(
            nodes.update(index, emptied(nodes[index], nodes.len() as usize)).push(a).push(b),
            tris,
        ),
{
    let len = nodes.len() as int;
    let after = nodes.update(index, emptied(nodes[index], nodes.len() as usize)).push(a).push(b);
    assert(shaped(nodes, index, tris.len() as int));
    let parent = nodes[index];
    let run_a = tris.subrange(a.first_tri_id as int, a.first_tri_id + a.num_tris);
    let run_b = tris.subrange(b.first_tri_id as int, b.first_tri_id + b.num_tris);
    assert forall|k: int| 0 <= k < run_a.len() implies parent.encloses(#[trigger] run_a[k]) by {
        assert(holds(nodes, index, a.first_tri_id + k));
    }
    assert forall|k: int| 0 <= k < run_b.len() implies parent.encloses(#[trigger] run_b[k]) by {
        assert(holds(nodes, index, b.first_tri_id + k));
    }
    assert forall|x: int| 0 <= x < 3 implies parent.bounds_min.data[x] <= a.bounds_min.data[x]
        && a.bounds_max.data[x] <= parent.bounds_max.data[x] && a.bounds_min.data[x] <= KEY_MAX
        && a.bounds_max.data[x] >= KEY_MIN by {
        lemma_span_within(run_a, parent, x);
        lemma_span_capped(run_a, x);
        assert(a.bounds_min.data[x] == span_low(run_a, x));
    }
    assert forall|x: int| 0 <= x < 3 implies parent.bounds_min.data[x] <= b.bounds_min.data[x]
        && b.bounds_max.data[x] <= parent.bounds_max.data[x] && b.bounds_min.data[x] <= KEY_MAX
        && b.bounds_max.data[x] >= KEY_MIN by {
        lemma_span_within(run_b, parent, x);
        lemma_span_capped(run_b, x);
        assert(b.bounds_min.data[x] == span_low(run_b, x));
    }
    assert(within(a, parent));
    assert(within(b, parent));
    assert(a.capped());
    assert(b.capped());
    assert forall|i: int| 0 <= i < after.len() implies #[trigger] shaped(
        after,
        i,
        tris.len() as int,
    ) by {
        if i < len {
            assert(shaped(nodes, i, tris.len() as int));
            if i == index {
                assert(within(after[len], after[index]));
                assert(within(after[len + 1], after[index]));
            } else if nodes[i].num_tris == 0 {
                let c = nodes[i].children_id as int;
                assert(within(after[c], after[i]));
                assert(within(after[c + 1], after[i]));
            }
        }
    }
    assert forall|k: int| 1 <= k < after.len() implies #[trigger] has_parent(after, k) by {
        if k < len {
            assert(has_parent(nodes, k));
            let p = choose|p: int|
                0 <= p < k && (#[trigger] nodes[p]).num_tris == 0 && (nodes[p].children_id == k
                    || nodes[p].children_id + 1 == k);
            assert(after[p] == nodes[p]);
        } else {
            assert(after[index].num_tris == 0);
        }
    }
    assert forall|i: int, t: int| #[trigger] holds(after, i, t) implies after[i].encloses(
        tris[t],
    ) by {
        if i < len {
            assert(holds(nodes, i, t));
        }
    }
    assert forall|t: int| 0 <= t < tris.len() implies #[trigger] covered(after, t) by {
        assert(covered(nodes, t));
        let i = choose|i: int| #[trigger] holds(nodes, i, t);
        if i == index {
            if t < b.first_tri_id {
                assert(holds(after, len, t));
            } else {
                assert(holds(after, len + 1, t));
            }
        } else {
            assert(holds(after, i, t));
        }
    }
    assert forall|i: int, j: int, t: int| #[trigger]
        holds(after, i, t) && #[trigger] holds(after, j, t) implies i == j by {
        if i < len {
            assert(holds(nodes, i, t));
        } else {
            assert(holds(nodes, index, t));
        }
        if j < len {
            assert(holds(nodes, j, t));
        } else {
            assert(holds(nodes, index, t));
        }
    }
    assert(after[0].bounds_min == nodes[0].bounds_min && after[0].bounds_max == nodes[0].bounds_max);
}

/// What cutting node `index` makes of `nodes` and `tris`.
///
/// The winning cut among `candidates` is taken. If it is not strictly
/// cheaper than `parent_cost`, nothing changes. Otherwise the node's
/// triangles are swept; if either group is empty only the triangles have
/// changed. Otherwise the node loses its triangles to two new leaves at
/// the end of the array, the group below the cut first, each with a box
/// that spans its group.
pub open spec fn cut_outcome(
    nodes: Seq<Node>,
    tris: Seq<Triangle>,
    index: int,
    candidates: Seq<Split>,
    parent_cost: int,
    nodes_after: Seq<Node>,
    tris_after: Seq<Triangle>,
    grown: bool,
) -> bool {
    let best = best_of(candidates);
    let node = nodes[index];
    let first = node.first_tri_id as int;
    let swept = sweep(tris, first, first + node.num_tris, best.axis as int, best.pos as int);
    if best.cost >= parent_cost {
        &&& !grown
        &&& tris_after == tris
        &&& nodes_after == nodes
    } else if swept.1 == first || swept.1 == first + node.num_tris {
        &&& !grown
        &&& tris_after == swept.0
        &&& nodes_after == nodes
    } else {
        let len = nodes.len() as int;
        &&& grown
        &&& tris_after == swept.0
        &&& nodes_after.len() == len + 2
        &&& nodes_after.subrange(0, len) == nodes.update(index, emptied(node, len as usize))
        &&& nodes_after[len].first_tri_id == first
        &&& nodes_after[len].num_tris == swept.1 - first
        &&& nodes_after[len].children_id == 0
        &&& nodes_after[len].spans(swept.0.subrange(first, swept.1))
        &&& nodes_after[len + 1].first_tri_id == swept.1
        &&& nodes_after[len + 1].num_tris == first + node.num_tris - swept.1
        &&& nodes_after[len + 1].children_id == 0
        &&& nodes_after[len + 1].spans(swept.0.subrange(swept.1, first + node.num_tris))
    }
}

/// The run of triangles that goes to the first child (`below`) or to the
/// second when node `index` is cut by the winning candidate.
pub open spec fn child_run(
    nodes: Seq<Node>,
    tris: Seq<Triangle>,
    index: int,
    candidates: Seq<Split>,
    below: bool,
) -> Seq<Triangle> {
    let best = best_of(candidates);
    let first = nodes[index].first_tri_id as int;
    let end = first + nodes[index].num_tris;
    let swept = sweep(tris, first, end, best.axis as int, best.pos as int);
    if below {
        swept.0.subrange(first, swept.1)
    } else {
        swept.0.subrange(swept.1, end)
    }
}

/// Two nodes with the same fields and the same box, key by key, are the
/// same node.
pub proof fn lemma_node_equal(x: Node, y: Node)
    requires
        x.children_id == y.children_id,
        x.first_tri_id == y.first_tri_id,
        x.num_tris == y.num_tris,
        forall|a: int|
            0 <= a < 3 ==> x.bounds_min.data[a] == y.bounds_min.data[a] && x.bounds_max.data[a]
                == y.bounds_max.data[a],
    ensures
        x == y,
{
    assert(x.bounds_min.data =~= y.bounds_min.data);
    assert(x.bounds_max.data =~= y.bounds_max.data);
}

/// The root of a build is a function of the triangles: two nodes at place
/// zero that hold all of the same triangles in boxes grown over them are
/// the same node.
pub proof fn law_root_deterministic(tris: Seq<Triangle>, one: Node, two: Node)
    requires
        one.spans(tris) && two.spans(tris),
        one.first_tri_id == 0 && two.first_tri_id == 0,
        one.num_tris == tris.len() && two.num_tris == tris.len(),
        one.children_id == 0 && two.children_id == 0,
    ensures
        one == two,
{
    assert forall|a: int| 0 <= a < 3 implies one.bounds_min.data[a] == two.bounds_min.data[a]
        && one.bounds_max.data[a] == two.bounds_max.data[a] by {
        assert(one.bounds_min.data[a] == span_low(tris, a));
        assert(two.bounds_min.data[a] == span_low(tris, a));
    }
    lemma_node_equal(one, two);
}

/// Cutting is a function of what it is given: from the same nodes, the
/// same triangles in the same order, the same node to cut, the same
/// candidates and the same parent cost, two cuts leave the same node array
/// and the same order of triangles, and agree on whether children were
/// appended.
pub proof fn law_cut_deterministic(
    nodes: Seq<Node>,
    tris: Seq<Triangle>,
    index: int,
    candidates: Seq<Split>,
    parent_cost: int,
    nodes_one: Seq<Node>,
    tris_one: Seq<Triangle>,
    grown_one: bool,
    nodes_two: Seq<Node>,
    tris_two: Seq<Triangle>,
    grown_two: bool,
)
    requires
        0 <= index < nodes.len(),
        cut_outcome(nodes, tris, index, candidates, parent_cost, nodes_one, tris_one, grown_one),
        cut_outcome(nodes, tris, index, candidates, parent_cost, nodes_two, tris_two, grown_two),
    ensures
        nodes_one == nodes_two,
        tris_one == tris_two,
        grown_one == grown_two,
{
    if grown_one {
        let len = nodes.len() as int;
        assert forall|i: int| 0 <= i < len + 2 implies nodes_one[i] == nodes_two[i] by {
            if i < len {
                assert(nodes_one.subrange(0, len)[i] == nodes_two.subrange(0, len)[i]);
            } else if i == len {
                let run = child_run(nodes, tris, index, candidates, true);
                assert forall|a: int| 0 <= a < 3 implies nodes_one[len].bounds_min.data[a]
                    == nodes_two[len].bounds_min.data[a] && nodes_one[len].bounds_max.data[a]
                    == nodes_two[len].bounds_max.data[a] by {
                    assert(nodes_one[len].bounds_min.data[a] == span_low(run, a));
                    assert(nodes_two[len].bounds_min.data[a] == span_low(run, a));
                }
                lemma_node_equal(nodes_one[len], nodes_two[len]);
            } else {
                let run = child_run(nodes, tris, index, candidates, false);
                let x = nodes_one[len + 1];
                let y = nodes_two[len + 1];
                assert forall|a: int| 0 <= a < 3 implies x.bounds_min.data[a] == y.bounds_min.data[a]
                    && x.bounds_max.data[a] == y.bounds_max.data[a] by {
                    assert(x.bounds_min.data[a] == span_low(run, a));
                    assert(y.bounds_min.data[a] == span_low(run, a));
                }
                lemma_node_equal(x, y);
            }
        }
        assert(nodes_one =~= nodes_two);
    }
}

/// `t` is one of `tris`.
pub open spec fn one_of(t: Triangle, tris: Seq<Triangle>) -> bool {
    exists|k: int| 0 <= k < tris.len() && t == #[trigger] tris[k]
}

/// A side counts its first triangle and what the rest gives it.
pub proof fn lemma_side_front(s: Seq<Triangle>, axis: int, pos: int, left: bool)
    requires
        s.len() > 0,
    ensures
        side(s, axis, pos, left).len() == (if (s[0].centroid.data[axis] < pos) == left {
            1int
        } else {
            0int
        }) + side(s.skip(1), axis, pos, left).len(),
    decreases s.len(),
{
    if s.len() == 1 {
        assert(s.drop_last() =~= Seq::<Triangle>::empty());
        assert(s.skip(1) =~= Seq::<Triangle>::empty());
        assert(side(s.drop_last(), axis, pos, left).len() == 0);
    } else {
        lemma_side_front(s.drop_last(), axis, pos, left);
        assert(s.drop_last().skip(1) =~= s.skip(1).drop_last());
        assert(s.skip(1).last() == s.last());
        assert(s.drop_last()[0] == s[0]);
    }
}

/// The two sides of a run take all of it between them.
pub proof fn lemma_side_total(s: Seq<Triangle>, axis: int, pos: int)
    ensures
        side(s, axis, pos, true).len() + side(s, axis, pos, false).len() == s.len(),
    decreases s.len(),
{
    if s.len() > 0 {
        lemma_side_total(s.drop_last(), axis, pos);
    }
}

/// A side holds just the triangles of the run that lie on it.
pub proof fn lemma_side_members(s: Seq<Triangle>, axis: int, pos: int, left: bool)
    ensures
        forall|q: int|
            0 <= q < side(s, axis, pos, left).len() ==> one_of(
                #[trigger] side(s, axis, pos, left)[q],
                s,
            ) && (side(s, axis, pos, left)[q].centroid.data[axis] < pos) == left,
        forall|j: int|
            0 <= j < s.len() && ((#[trigger] s[j]).centroid.data[axis] < pos) == left ==> one_of(
                s[j],
                side(s, axis, pos, left),
            ),
    decreases s.len(),
{
    if s.len() > 0 {
        let rest = s.drop_last();
        let here = side(s, axis, pos, left);
        let before = side(rest, axis, pos, left);
        lemma_side_members(rest, axis, pos, left);
        assert forall|q: int| 0 <= q < here.len() implies one_of(#[trigger] here[q], s) && (
        here[q].centroid.data[axis] < pos) == left by {
            if q < before.len() {
                assert(here[q] == before[q]);
                assert(one_of(before[q], rest));
                let k = choose|k: int| 0 <= k < rest.len() && before[q] == #[trigger] rest[k];
                assert(s[k] == rest[k]);
            } else {
                assert(here[q] == s[s.len() - 1]);
            }
        }
        assert forall|j: int|
            0 <= j < s.len() && ((#[trigger] s[j]).centroid.data[axis] < pos) == left implies one_of(
            s[j],
            here,
        ) by {
            if j < rest.len() {
                assert(rest[j] == s[j]);
                assert(one_of(rest[j], before));
                let q = choose|q: int| 0 <= q < before.len() && rest[j] == #[trigger] before[q];
                assert(here[q] == before[q]);
            } else {
                assert(here[here.len() - 1] == s[j]);
            }
        }
    }
}

/// What the sweep leaves: the same number of triangles; in the run, those
/// below the cut before the meeting place and the others from it on; every
/// triangle of the run still in the run, and none that was not in it.
pub proof fn lemma_sweep(tris: Seq<Triangle>, lo: int, hi: int, axis: int, pos: int)
    requires
        0 <= lo <= hi <= tris.len(),
    ensures
        ({
            let out = sweep(tris, lo, hi, axis, pos).0;
            let mid = sweep(tris, lo, hi, axis, pos).1;
            &&& out.len() == tris.len()
            &&& lo <= mid <= hi
            &&& forall|k: int| lo <= k < mid ==> (#[trigger] out[k]).centroid.data[axis] < pos
            &&& forall|k: int| mid <= k < hi ==> (#[trigger] out[k]).centroid.data[axis] >= pos
            &&& forall|k: int| lo <= k < hi ==> among(#[trigger] out[k], tris, lo, hi)
            &&& forall|m: int| lo <= m < hi ==> among(#[trigger] tris[m], out, lo, hi)
        }),
    decreases hi - lo,
{
    let out = sweep(tris, lo, hi, axis, pos).0;
    let mid = sweep(tris, lo, hi, axis, pos).1;
    if lo >= hi {
    } else if tris[lo].centroid.data[axis] < pos {
        lemma_sweep(tris, lo + 1, hi, axis, pos);
        assert forall|k: int| lo <= k < hi implies among(#[trigger] out[k], tris, lo, hi) by {
            if k > lo {
                assert(among(out[k], tris, lo + 1, hi));
                let m = choose|m: int| lo + 1 <= m < hi && out[k] == #[trigger] tris[m];
                assert(out[k] == tris[m]);
            } else {
                lemma_sweep_outside(tris, lo + 1, hi, axis, pos, lo);
                assert(out[lo] == tris[lo]);
            }
        }
        assert forall|m: int| lo <= m < hi implies among(#[trigger] tris[m], out, lo, hi) by {
            if m > lo {
                assert(among(tris[m], out, lo + 1, hi));
                let k = choose|k: int| lo + 1 <= k < hi && tris[m] == #[trigger] out[k];
                assert(tris[m] == out[k]);
            } else {
                lemma_sweep_outside(tris, lo + 1, hi, axis, pos, lo);
                assert(out[lo] == tris[lo]);
            }
        }
        assert forall|k: int| lo <= k < mid implies (#[trigger] out[k]).centroid.data[axis] < pos by {
            if k == lo {
                lemma_sweep_outside(tris, lo + 1, hi, axis, pos, lo);
            }
        }
    } else {
        let turned = swapped(tris, lo, hi - 1);
        lemma_sweep(turned, lo, hi - 1, axis, pos);
        lemma_sweep_outside(turned, lo, hi - 1, axis, pos, hi - 1);
        assert(out[hi - 1] == turned[hi - 1]);
        assert(turned[hi - 1] == tris[lo]);
        assert forall|k: int| lo <= k < hi implies among(#[trigger] out[k], tris, lo, hi) by {
            if k < hi - 1 {
                assert(among(out[k], turned, lo, hi - 1));
                let m = choose|m: int| lo <= m < hi - 1 && out[k] == #[trigger] turned[m];
                let from = if m == lo {
                    hi - 1
                } else {
                    m
                };
                assert(turned[m] == tris[from]);
            } else {
                assert(out[k] == tris[lo]);
            }
        }
        assert forall|m: int| lo <= m < hi implies among(#[trigger] tris[m], out, lo, hi) by {
            let to = if m == lo {
                hi - 1
            } else if m == hi - 1 {
                lo
            } else {
                m
            };
            assert(turned[to] == tris[m]);
            if to < hi - 1 {
                assert(among(turned[to], out, lo, hi - 1));
                let k = choose|k: int| lo <= k < hi - 1 && turned[to] == #[trigger] out[k];
                assert(tris[m] == out[k]);
            } else {
                assert(tris[m] == out[hi - 1]);
            }
        }
        assert forall|k: int| mid <= k < hi implies (#[trigger] out[k]).centroid.data[axis] >= pos by {
            if k == hi - 1 {
                assert(out[k] == tris[lo]);
            }
        }
    }
}

/// The sweep moves nothing outside the run.
pub proof fn lemma_sweep_outside(tris: Seq<Triangle>, lo: int, hi: int, axis: int, pos: int, k: int)
    requires
        0 <= lo <= hi <= tris.len(),
        0 <= k < lo || hi <= k < tris.len(),
    ensures
        sweep(tris, lo, hi, axis, pos).0.len() == tris.len(),
        sweep(tris, lo, hi, axis, pos).0[k] == tris[k],
    decreases hi - lo,
{
    if lo >= hi {
    } else if tris[lo].centroid.data[axis] < pos {
        lemma_sweep_outside(tris, lo + 1, hi, axis, pos, k);
    } else {
        lemma_sweep_outside(swapped(tris, lo, hi - 1), lo, hi - 1, axis, pos, k);
    }
}

/// The sweep puts as many triangles before the meeting place as lie
/// below the cut.
pub proof fn lemma_sweep_count(tris: Seq<Triangle>, lo: int, hi: int, axis: int, pos: int)
    requires
        0 <= lo <= hi <= tris.len(),
    ensures
        sweep(tris, lo, hi, axis, pos).1 - lo == side(tris.subrange(lo, hi), axis, pos, true).len(),
    decreases hi - lo,
{
    let run = tris.subrange(lo, hi);
    if lo >= hi {
        assert(run =~= Seq::<Triangle>::empty());
    } else if tris[lo].centroid.data[axis] < pos {
        lemma_sweep_count(tris, lo + 1, hi, axis, pos);
        lemma_side_front(run, axis, pos, true);
        assert(run.skip(1) =~= tris.subrange(lo + 1, hi));
    } else {
        let turned = swapped(tris, lo, hi - 1);
        lemma_sweep_count(turned, lo, hi - 1, axis, pos);
        let short = turned.subrange(lo, hi - 1);
        lemma_side_front(run, axis, pos, true);
        if lo == hi - 1 {
            assert(short =~= Seq::<Triangle>::empty());
            assert(run.skip(1) =~= Seq::<Triangle>::empty());
        } else {
            let middle = tris.subrange(lo + 1, hi - 1);
            assert(run.skip(1).drop_last() =~= middle);
            assert(run.skip(1).last() == tris[hi - 1]);
            lemma_side_front(short, axis, pos, true);
            assert(short[0] == tris[hi - 1]);
            assert(short.skip(1) =~= middle);
        }
    }
}

/// A box grown over triangles starts no higher than any of them starts
/// and ends no lower than any of them ends.
pub proof fn lemma_span_bounds(tris: Seq<Triangle>, k: int, axis: int)
    requires
        0 <= k < tris.len(),
    ensures
        span_low(tris, axis) <= tris[k].low(axis),
        span_high(tris, axis) >= tris[k].high(axis),
    decreases tris.len(),
{
    if k < tris.len() - 1 {
        lemma_span_bounds(tris.drop_last(), k, axis);
    }
}

/// A box grown over triangles is the tightest: it starts at the largest
/// finite key or where one of them starts, and ends at the smallest or
/// where one of them ends.
pub proof fn lemma_span_tight(tris: Seq<Triangle>, axis: int)
    ensures
        span_low(tris, axis) == KEY_MAX || exists|k: int|
            0 <= k < tris.len() && span_low(tris, axis) == (#[trigger] tris[k]).low(axis),
        span_high(tris, axis) == KEY_MIN || exists|k: int|
            0 <= k < tris.len() && span_high(tris, axis) == (#[trigger] tris[k]).high(axis),
    decreases tris.len(),
{
    if tris.len() > 0 {
        let rest = tris.drop_last();
        lemma_span_tight(rest, axis);
        if span_low(tris, axis) == tris.last().low(axis) {
            assert(tris[tris.len() - 1] == tris.last());
        } else if span_low(tris, axis) != KEY_MAX {
            let k = choose|k: int|
                0 <= k < rest.len() && span_low(rest, axis) == (#[trigger] rest[k]).low(axis);
            assert(tris[k] == rest[k]);
        }
        if span_high(tris, axis) == tris.last().high(axis) {
            assert(tris[tris.len() - 1] == tris.last());
        } else if span_high(tris, axis) != KEY_MIN {
            let k = choose|k: int|
                0 <= k < rest.len() && span_high(rest, axis) == (#[trigger] rest[k]).high(axis);
            assert(tris[k] == rest[k]);
        }
    }
}

/// Boxes grown over the same triangles are the same, in whatever order
/// and however often the triangles come.
pub proof fn lemma_span_same(one: Seq<Triangle>, two: Seq<Triangle>, axis: int)
    requires
        forall|k: int| 0 <= k < one.len() ==> one_of(#[trigger] one[k], two),
        forall|k: int| 0 <= k < two.len() ==> one_of(#[trigger] two[k], one),
    ensures
        span_low(one, axis) == span_low(two, axis),
        span_high(one, axis) == span_high(two, axis),
{
    lemma_span_tight(one, axis);
    lemma_span_tight(two, axis);
    lemma_span_capped(one, axis);
    lemma_span_capped(two, axis);
    assert forall|k: int| 0 <= k < one.len() implies span_low(two, axis) <= (#[trigger] one[k]).low(
        axis,
    ) && span_high(two, axis) >= one[k].high(axis) by {
        assert(one_of(one[k], two));
        let m = choose|m: int| 0 <= m < two.len() && one[k] == #[trigger] two[m];
        lemma_span_bounds(two, m, axis);
    }
    assert forall|k: int| 0 <= k < two.len() implies span_low(one, axis) <= (#[trigger] two[k]).low(
        axis,
    ) && span_high(one, axis) >= two[k].high(axis) by {
        assert(one_of(two[k], one));
        let m = choose|m: int| 0 <= m < one.len() && two[k] == #[trigger] one[m];
        lemma_span_bounds(one, m, axis);
    }
}

/// The cut that is made is the cut that was costed: when the triangles of
/// a run are swept about a cut, the triangles before the meeting place
/// are as many as lie below the cut, and a box grown over them is the box
/// grown over those that lie below the cut, in the order they had; and
/// likewise for the others.
pub proof fn law_cut_is_what_was_costed(
    tris: Seq<Triangle>,
    lo: int,
    hi: int,
    axis: int,
    pos: int,
    a: int,
)
    requires
        0 <= lo <= hi <= tris.len(),
    ensures
        ({
            let run = tris.subrange(lo, hi);
            let out = sweep(tris, lo, hi, axis, pos).0;
            let mid = sweep(tris, lo, hi, axis, pos).1;
            &&& lo <= mid <= hi <= out.len()
            &&& mid - lo == side(run, axis, pos, true).len()
            &&& hi - mid == side(run, axis, pos, false).len()
            &&& span_low(out.subrange(lo, mid), a) == span_low(side(run, axis, pos, true), a)
            &&& span_high(out.subrange(lo, mid), a) == span_high(side(run, axis, pos, true), a)
            &&& span_low(out.subrange(mid, hi), a) == span_low(side(run, axis, pos, false), a)
            &&& span_high(out.subrange(mid, hi), a) == span_high(side(run, axis, pos, false), a)
        }),
{
    let run = tris.subrange(lo, hi);
    let out = sweep(tris, lo, hi, axis, pos).0;
    let mid = sweep(tris, lo, hi, axis, pos).1;
    let below = side(run, axis, pos, true);
    let above = side(run, axis, pos, false);
    let first = out.subrange(lo, mid);
    let second = out.subrange(mid, hi);
    lemma_sweep(tris, lo, hi, axis, pos);
    lemma_sweep_count(tris, lo, hi, axis, pos);
    lemma_side_total(run, axis, pos);
    lemma_side_members(run, axis, pos, true);
    lemma_side_members(run, axis, pos, false);
    assert forall|k: int| 0 <= k < first.len() implies one_of(#[trigger] first[k], below) by {
        assert(first[k] == out[lo + k]);
        assert(among(out[lo + k], tris, lo, hi));
        let m = choose|m: int| lo <= m < hi && out[lo + k] == #[trigger] tris[m];
        assert(run[m - lo] == tris[m]);
        assert(one_of(run[m - lo], below));
    }
    assert forall|k: int| 0 <= k < second.len() implies one_of(#[trigger] second[k], above) by {
        assert(second[k] == out[mid + k]);
        assert(among(out[mid + k], tris, lo, hi));
        let m = choose|m: int| lo <= m < hi && out[mid + k] == #[trigger] tris[m];
        assert(run[m - lo] == tris[m]);
        assert(one_of(run[m - lo], above));
    }
    assert forall|q: int| 0 <= q < below.len() implies one_of(#[trigger] below[q], first) by {
        assert(one_of(below[q], run));
        let j = choose|j: int| 0 <= j < run.len() && below[q] == #[trigger] run[j];
        assert(run[j] == tris[lo + j]);
        assert(among(tris[lo + j], out, lo, hi));
        let k = choose|k: int| lo <= k < hi && tris[lo + j] == #[trigger] out[k];
        assert(k < mid);
        assert(first[k - lo] == out[k]);
    }
    assert forall|q: int| 0 <= q < above.len() implies one_of(#[trigger] above[q], second) by {
        assert(one_of(above[q], run));
        let j = choose|j: int| 0 <= j < run.len() && above[q] == #[trigger] run[j];
        assert(run[j] == tris[lo + j]);
        assert(among(tris[lo + j], out, lo, hi));
        let k = choose|k: int| lo <= k < hi && tris[lo + j] == #[trigger] out[k];
        assert(k >= mid);
        assert(second[k - mid] == out[k]);
    }
    lemma_span_same(first, below, a);
    lemma_span_same(second, above, a);
}

/// What is left to do on a queued node with `count` triangles: a node
/// with `count` triangles can be cut at most `count - 1` times over, and
/// each node that comes of it is looked at once.
pub open spec fn weight(count: int) -> nat {
    if count <= 0 {
        1
    } else {
        (2 * count - 1) as nat
    }
}

/// The work left on the queued nodes, all together.
pub open spec fn work(nodes: Seq<Node>, pending: Seq<usize>) -> nat
    decreases pending.len(),
{
    if pending.len() == 0 {
        0
    } else {
        work(nodes, pending.drop_last()) + weight(nodes[pending.last() as int].num_tris as int)
    }
}

/// The work left depends only on the queued nodes.
pub proof fn lemma_work_same(before: Seq<Node>, after: Seq<Node>, pending: Seq<usize>)
    requires
        forall|k: int|
            0 <= k < pending.len() ==> 0 <= #[trigger] pending[k] < before.len() && pending[k]
                < after.len() && before[pending[k] as int].num_tris == after[pending[k] as int].num_tris,
    ensures
        work(before, pending) == work(after, pending),
    decreases pending.len(),
{
    if pending.len() > 0 {
        lemma_work_same(before, after, pending.drop_last());
    }
}

/// The node array. Node 0 is the root.
#[derive(Clone, Debug)]
pub struct BVH {
    pub nodes: Vec<Node>,
}

impl BVH {
    /// The hierarchy is sound over `tris`.
    pub open spec fn wf(&self, tris: Seq<Triangle>) -> bool {
        sound(self.nodes@, tris)
    }

    /// Starts a build over the scene's triangles: one node, the root, that
    /// holds them all in a box grown over them, queued to be looked at.
    pub fn build(scene: &Scene) -> (b: Builder)
        ensures
            b.wf(scene.tris@),
            b.bvh.nodes@.len() == 1,
            b.bvh.nodes@[0].first_tri_id == 0,
            b.bvh.nodes@[0].num_tris == scene.tris@.len(),
            b.bvh.nodes@[0].children_id == 0,
            b.bvh.nodes@[0].spans(scene.tris@),
            b.pending@ == seq![0usize],
    {
        let root = Self::leaf_over(&scene.tris, 0, scene.tris.len());
        let mut nodes: Vec<Node> = Vec::new();
        nodes.push(root);
        let mut pending: Vec<usize> = Vec::new();
        pending.push(0);
        proof {
            assert(scene.tris@.subrange(0, scene.tris@.len() as int) =~= scene.tris@);
            assert forall|a: int| 0 <= a < 3 implies root.bounds_min.data[a] <= KEY_MAX
                && root.bounds_max.data[a] >= KEY_MIN by {
                lemma_span_capped(scene.tris@, a);
                assert(root.bounds_min.data[a] == span_low(scene.tris@, a));
            }
            assert(nodes@[0] == root);
            assert(root.capped());
            assert(shaped(nodes@, 0, scene.tris@.len() as int));
            assert forall|t: int| 0 <= t < scene.tris@.len() implies #[trigger] covered(nodes@, t) by {
                assert(holds(nodes@, 0, t));
            }
        }
        Builder { bvh: BVH { nodes }, pending }
    }

    /// A fresh leaf over `tris[first..first + count]`, its box grown over
    /// exactly those triangles.
    pub fn leaf_over(tris: &Vec<Triangle>, first: usize, count: usize) -> (n: Node)
        requires
            first + count <= tris@.len(),
        ensures
            n.first_tri_id == first,
            n.num_tris == count,
            n.children_id == 0,
            n.spans(tris@.subrange(first as int, first + count)),
            forall|t: int| first <= t < first + count ==> n.encloses(#[trigger] tris@[t]),
    {
        let mut n = Node::default();
        n.first_tri_id = first;
        n.num_tris = count;
        let total = tris.len();
        let ghost run = tris@.subrange(first as int, first + count);
        proof {
            assert(run.take(0) =~= Seq::<Triangle>::empty());
        }
        let mut i: usize = 0;
        while i < count
            invariant
                i <= count,
                total == tris@.len(),
                first + count <= total,
                run == tris@.subrange(first as int, first + count),
                n.first_tri_id == first,
                n.num_tris == count,
                n.children_id == 0,
                n.spans(run.take(i as int)),
            decreases count - i,
        {
            let tri = &tris[first + i];
            proof {
                assert(run.take(i + 1) =~= run.take(i as int).push(*tri));
                assert forall|a: int| 0 <= a < 3 implies span_low(run.take(i + 1), a) == key_min(
                    span_low(run.take(i as int), a),
                    tri.low(a),
                ) && span_high(run.take(i + 1), a) == key_max(
                    span_high(run.take(i as int), a),
                    tri.high(a),
                ) by {
                    lemma_span_push(run.take(i as int), *tri, a);
                }
            }
            n.grow_by_tri(tri);
            i += 1;
        }
        proof {
            assert(run.take(count as int) =~= run);
            assert forall|t: int| first <= t < first + count implies n.encloses(
                #[trigger] tris@[t],
            ) by {
                assert(run[t - first] == tris@[t]);
                assert forall|v: int, a: int| 0 <= v < 3 && 0 <= a < 3 implies n.bounds_min.data[a]
                    <= #[trigger] tris@[t].vertices[v].position[a] <= n.bounds_max.data[a] by {
                    lemma_span_encloses(run, t - first, v, a);
                }
            }
        }
        n
    }

    /// Cuts node `index` in two if a cut is worth it.
    ///
    /// The winning cut among `candidates` is taken. If it is not strictly
    /// cheaper than `parent_cost`, nothing changes. Otherwise the node's
    /// triangles are swept into those below the cut and the rest; if
    /// either group is empty the node stays a leaf (its triangles stay as
    /// the sweep left them). Otherwise two leaves, one for each group, are
    /// appended to the node array and become the node's children. Returns
    /// whether the children were appended.
    pub fn split_node(
        index: usize,
        bvh: &mut BVH,
        scene: &mut Scene,
        candidates: &Vec<Split>,
        parent_cost: i32,
    ) -> (grown: bool)
        requires
            old(bvh).wf(old(scene).tris@),
            index < old(bvh).nodes@.len(),
            forall|k: int| 0 <= k < candidates@.len() ==> (#[trigger] candidates@[k]).axis < 3,
        ensures
            final(bvh).wf(final(scene).tris@),
            final(scene).tris@.to_multiset() == old(scene).tris@.to_multiset(),
            final(scene).tris@.len() == old(scene).tris@.len(),
            final(scene).materials == old(scene).materials,
            final(scene).textures == old(scene).textures,
            final(scene).bvh == old(scene).bvh,
            cut_outcome(
                old(bvh).nodes@,
                old(scene).tris@,
                index as int,
                candidates@,
                parent_cost as int,
                final(bvh).nodes@,
                final(scene).tris@,
                grown,
            ),
    {
        let used_nodes = bvh.nodes.len();
        let node = bvh.nodes[index];
        let best = best_split(candidates);
        if best.cost >= parent_cost {
            return false;
        }
        proof {
            assert(shaped(bvh.nodes@, index as int, scene.tris@.len() as int));
        }
        let first = node.first_tri_id;
        let count = node.num_tris;
        let total = scene.tris.len();
        let mid = partition(&mut scene.tris, first, first + count, best.axis, best.pos);
        proof {
            lemma_sound_reordered(bvh.nodes@, old(scene).tris@, scene.tris@, index as int);
        }
        let a_count = mid - first;
        if a_count == 0 || a_count == count {
            return false;
        }
        let a = Self::leaf_over(&scene.tris, first, a_count);
        let b = Self::leaf_over(&scene.tris, mid, count - a_count);
        let mut parent = node;
        parent.children_id = used_nodes;
        parent.num_tris = 0;
        proof {
            lemma_sound_cut(bvh.nodes@, scene.tris@, index as int, a, b);
        }
        bvh.nodes[index] = parent;
        bvh.nodes.push(a);
        bvh.nodes.push(b);
        proof {
            assert(bvh.nodes@.subrange(0, used_nodes as int) =~= old(bvh).nodes@.update(
                index as int,
                emptied(node, used_nodes),
            ));
        }
        true
    }

    /// Sorts the triangles of `node` by which side of `split_pos` their
    /// centroid falls on along `split_axis`, and returns for each side a
    /// node whose box spans that side's triangles and whose `num_tris`
    /// counts them. The scene is left as it is.
    pub fn evaluate_sah(scene: &Scene, node: &Node, split_axis: usize, split_pos: i32) -> (halves: (
        Node,
        Node,
    ))
        requires
            split_axis < 3,
            node.first_tri_id + node.num_tris <= scene.tris@.len(),
        ensures
            ({
                let run = scene.tris@.subrange(
                    node.first_tri_id as int,
                    node.first_tri_id + node.num_tris,
                );
                let below = side(run, split_axis as int, split_pos as int, true);
                let above = side(run, split_axis as int, split_pos as int, false);
                &&& halves.0.spans(below)
                &&& halves.0.num_tris == below.len()
                &&& halves.1.spans(above)
                &&& halves.1.num_tris == above.len()
                &&& halves.0.num_tris + halves.1.num_tris == node.num_tris
            }),
            halves.0.children_id == 0 && halves.0.first_tri_id == 0,
            halves.1.children_id == 0 && halves.1.first_tri_id == 0,
    {
        let mut left = Node::default();
        let mut right = Node::default();
        let ghost run = scene.tris@.subrange(
            node.first_tri_id as int,
            node.first_tri_id + node.num_tris,
        );
        let total = scene.tris.len();
        proof {
            assert(run.take(0) =~= Seq::<Triangle>::empty());
        }
        let mut i: usize = 0;
        while i < node.num_tris
            invariant
                i <= node.num_tris,
                total == scene.tris@.len(),
                split_axis < 3,
                node.first_tri_id + node.num_tris <= scene.tris@.len(),
                run == scene.tris@.subrange(
                    node.first_tri_id as int,
                    node.first_tri_id + node.num_tris,
                ),
                left.spans(side(run.take(i as int), split_axis as int, split_pos as int, true)),
                left.num_tris == side(run.take(i as int), split_axis as int, split_pos as int, true).len(),
                right.spans(side(run.take(i as int), split_axis as int, split_pos as int, false)),
                right.num_tris == side(
                    run.take(i as int),
                    split_axis as int,
                    split_pos as int,
                    false,
                ).len(),
                left.num_tris + right.num_tris == i,
                left.children_id == 0 && left.first_tri_id == 0,
                right.children_id == 0 && right.first_tri_id == 0,
            decreases node.num_tris - i,
        {
            let tri = &scene.tris[node.first_tri_id + i];
            proof {
                assert(run.take(i + 1).drop_last() =~= run.take(i as int));
                assert(run.take(i + 1).last() == *tri);
                let ghost_left = side(run.take(i as int), split_axis as int, split_pos as int, true);
                let ghost_right = side(run.take(i as int), split_axis as int, split_pos as int, false);
                assert forall|a: int| 0 <= a < 3 implies span_low(ghost_left.push(*tri), a) == key_min(
                    span_low(ghost_left, a),
                    tri.low(a),
                ) && span_high(ghost_left.push(*tri), a) == key_max(
                    span_high(ghost_left, a),
                    tri.high(a),
                ) && span_low(ghost_right.push(*tri), a) == key_min(span_low(ghost_right, a), tri.low(a))
                    && span_high(ghost_right.push(*tri), a) == key_max(
                    span_high(ghost_right, a),
                    tri.high(a),
                ) by {
                    lemma_span_push(ghost_left, *tri, a);
                    lemma_span_push(ghost_right, *tri, a);
                }
            }
            if tri.mid().data[split_axis] < split_pos {
                left.grow_by_tri(tri);
                left.num_tris += 1;
            } else {
                right.grow_by_tri(tri);
                right.num_tris += 1;
            }
            i += 1;
        }
        proof {
            assert(run.take(node.num_tris as int) =~= run);
        }
        (left, right)
    }
}

/// A build under way: the hierarchy so far, and the nodes that have not
/// been looked at yet, the next one last.
///
/// Whoever drives the build works out, for the next node, what each
/// candidate cut costs and what leaving the node whole costs, and hands
/// both to `split`, until no node is left.
#[derive(Clone, Debug)]
pub struct Builder {
    pub bvh: BVH,
    pub pending: Vec<usize>,
}

impl Builder {
    /// The hierarchy so far is sound over `tris`, and the queued nodes are
    /// nodes of it, none queued twice.
    pub open spec fn wf(&self, tris: Seq<Triangle>) -> bool {
        &&& self.bvh.wf(tris)
        &&& forall|k: int|
            0 <= k < self.pending@.len() ==> #[trigger] self.pending@[k] < self.bvh.nodes@.len()
        &&& forall|k: int, m: int|
            0 <= k < m < self.pending@.len() ==> #[trigger] self.pending@[k]
                != #[trigger] self.pending@[m]
    }

    /// An upper bound on the calls of `split` still to come.
    pub open spec fn remaining(&self) -> nat {
        work(self.bvh.nodes@, self.pending@)
    }

    /// The node to look at next, if any is left.
    pub fn next_node(&self) -> (next: Option<usize>)
        ensures
            next == (if self.pending@.len() == 0 {
                None
            } else {
                Some(self.pending@.last())
            }),
    {
        if self.pending.len() == 0 {
            None
        } else {
            Some(self.pending[self.pending.len() - 1])
        }
    }

    /// Looks at the next queued node: cuts it if the winning candidate is
    /// worth it, and queues the children it got, the first child to be
    /// looked at next. Returns whether the node was cut.
    pub fn split(&mut self, scene: &mut Scene, candidates: &Vec<Split>, parent_cost: i32) -> (grown:
        bool)
        requires
            old(self).wf(old(scene).tris@),
            old(self).pending@.len() > 0,
            forall|k: int| 0 <= k < candidates@.len() ==> (#[trigger] candidates@[k]).axis < 3,
        ensures
            final(self).wf(final(scene).tris@),
            final(scene).tris@.to_multiset() == old(scene).tris@.to_multiset(),
            final(scene).tris@.len() == old(scene).tris@.len(),
            final(scene).materials == old(scene).materials,
            final(scene).textures == old(scene).textures,
            final(scene).bvh == old(scene).bvh,
            cut_outcome(
                old(self).bvh.nodes@,
                old(scene).tris@,
                old(self).pending@.last() as int,
                candidates@,
                parent_cost as int,
                final(self).bvh.nodes@,
                final(scene).tris@,
                grown,
            ),
            final(self).pending@ == (if grown {
                old(self).pending@.drop_last().push((old(self).bvh.nodes@.len() + 1) as usize).push(
                    old(self).bvh.nodes@.len() as usize,
                )
            } else {
                old(self).pending@.drop_last()
            }),
            final(self).remaining() < old(self).remaining(),
    {
        let index = self.pending[self.pending.len() - 1];
        let used_nodes = self.bvh.nodes.len();
        let ghost rest = self.pending@.drop_last();
        let ghost nodes_before = self.bvh.nodes@;
        self.pending.pop();
        proof {
            assert(self.pending@ =~= rest);
            assert(old(self).pending@.drop_last() == rest);
        }
        let grown = BVH::split_node(index, &mut self.bvh, scene, candidates, parent_cost);
        proof {
            assert(shaped(nodes_before, index as int, scene.tris@.len() as int));
            assert forall|k: int| 0 <= k < rest.len() implies 0 <= #[trigger] rest[k]
                < nodes_before.len() && rest[k] < self.bvh.nodes@.len() && nodes_before[rest[k] as int].num_tris
                == self.bvh.nodes@[rest[k] as int].num_tris by {
                assert(rest[k] == old(self).pending@[k]);
                assert(old(self).pending@[k] != old(self).pending@[old(self).pending@.len() - 1]);
                if grown {
                    assert(self.bvh.nodes@.subrange(0, used_nodes as int)[rest[k] as int]
                        == self.bvh.nodes@[rest[k] as int]);
                }
            }
            lemma_work_same(nodes_before, self.bvh.nodes@, rest);
        }
        if grown {
            let now = self.bvh.nodes.len();
            self.pending.push(used_nodes + 1);
            self.pending.push(used_nodes);
            proof {
                let one = rest.push((used_nodes + 1) as usize);
                let two = one.push(used_nodes);
                assert(self.pending@ =~= two);
                assert(two.drop_last() =~= one);
                assert(one.drop_last() =~= rest);
                assert(two.last() == used_nodes);
                assert(one.last() == used_nodes + 1);
                assert(work(self.bvh.nodes@, one) == work(self.bvh.nodes@, rest) + weight(
                    self.bvh.nodes@[used_nodes + 1].num_tris as int,
                ));
                assert(work(self.bvh.nodes@, two) == work(self.bvh.nodes@, one) + weight(
                    self.bvh.nodes@[used_nodes as int].num_tris as int,
                ));
                assert(work(self.bvh.nodes@, two) == work(self.bvh.nodes@, rest) + weight(
                    self.bvh.nodes@[used_nodes + 1].num_tris as int,
                ) + weight(self.bvh.nodes@[used_nodes as int].num_tris as int));
                assert forall|k: int, m: int| 0 <= k < m < two.len() implies #[trigger] two[k]
                    != #[trigger] two[m] by {
                    if m < rest.len() {
                        assert(rest[k] == old(self).pending@[k]);
                        assert(rest[m] == old(self).pending@[m]);
                    } else if k < rest.len() {
                        assert(rest[k] == old(self).pending@[k]);
                    }
                }
                assert forall|k: int| 0 <= k < two.len() implies #[trigger] two[k]
                    < self.bvh.nodes@.len() by {
                    if k < rest.len() {
                        assert(rest[k] == old(self).pending@[k]);
                    }
                }
            }
        } else {
            proof {
                assert forall|k: int, m: int| 0 <= k < m < rest.len() implies #[trigger] rest[k]
                    != #[trigger] rest[m] by {
                    assert(rest[k] == old(self).pending@[k]);
                    assert(rest[m] == old(self).pending@[m]);
                }
                assert forall|k: int| 0 <= k < rest.len() implies #[trigger] rest[k]
                    < self.bvh.nodes@.len() by {
                    assert(rest[k] == old(self).pending@[k]);
                }
            }
        }
        grown
    }

    /// Ends a build that has no node left to look at: the scene gets the
    /// hierarchy.
    pub fn finish(self, scene: &mut Scene)
        requires
            self.wf(old(scene).tris@),
            self.pending@.len() == 0,
        ensures
            final(scene).bvh == self.bvh,
            final(scene).bvh.wf(final(scene).tris@),
            final(scene).tris == old(scene).tris,
            final(scene).materials == old(scene).materials,
            final(scene).textures == old(scene).textures,
    {
        scene.bvh = self.bvh;
    }
}

} // verus!

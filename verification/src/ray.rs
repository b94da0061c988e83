//! What a ray does in the scene, as far as it can be decided by comparing:
//! whether a box or a triangle counts as hit, which hit is the nearest,
//! in which order the nodes of the hierarchy are looked at, and when a
//! path ends.

use vstd::prelude::*;
use crate::bvh::{Node, shaped};
use crate::scene::{Scene, Triangle};
use crate::vector::{KEY_MAX, KEY_ONE};

verus! {

/// How many nodes a descent from node `i` looks at when every box on the
/// way is hit: the node itself and, if it has children, all that a descent
/// from each of them looks at.
pub open spec fn visits(nodes: Seq<Node>, i: int) -> nat
    decreases nodes.len() - i,
{
    if 0 <= i < nodes.len() && nodes[i].num_tris == 0 && i < nodes[i].children_id
        && nodes[i].children_id + 1 < nodes.len() {
        1 + visits(nodes, nodes[i].children_id as int) + visits(nodes, nodes[i].children_id + 1)
    } else {
        1
    }
}

/// All that descents from the queued nodes look at, together.
pub open spec fn queue_visits(nodes: Seq<Node>, stack: Seq<usize>) -> nat
    decreases stack.len(),
{
    if stack.len() == 0 {
        0
    } else {
        queue_visits(nodes, stack.drop_last()) + visits(nodes, stack.last() as int)
    }
}

/// The nodes that a descent from node `i` looks at, in order, when
/// `inside` says of each node whether the ray hits its box: the node
/// itself, then, if it is hit and has children, all that a descent from
/// the first child looks at, then all that one from the second does.
pub open spec fn tour(nodes: Seq<Node>, i: int, inside: Seq<bool>) -> Seq<usize>
    decreases nodes.len() - i,
{
    if !(0 <= i < nodes.len()) {
        Seq::empty()
    } else if inside[i] && nodes[i].num_tris == 0 && i < nodes[i].children_id
        && nodes[i].children_id + 1 < nodes.len() {
        seq![i as usize] + tour(nodes, nodes[i].children_id as int, inside) + tour(
            nodes,
            nodes[i].children_id + 1,
            inside,
        )
    } else {
        seq![i as usize]
    }
}

/// The nodes that descents from the queued nodes look at, the last queued
/// first.
pub open spec fn queue_tour(nodes: Seq<Node>, stack: Seq<usize>, inside: Seq<bool>) -> Seq<usize>
    decreases stack.len(),
{
    if stack.len() == 0 {
        Seq::empty()
    } else {
        tour(nodes, stack.last() as int, inside) + queue_tour(nodes, stack.drop_last(), inside)
    }
}

/// The key of the smallest distance at which a hit counts: one
/// ten-thousandth.
pub const KEY_HIT_OFFSET: i32 = 0x38D1_B717;

/// Whether a ray meets a box, from where it enters the last of the three
/// slabs (`t_near`) and where it leaves the first (`t_far`): it does when
/// it enters before it leaves, and leaves ahead of its origin.
pub fn intersect_node(t_near: i32, t_far: i32) -> (hit: bool)
    ensures
        hit == (t_near < t_far && t_far > 0),
{
    t_near < t_far && t_far > 0
}

/// Whether a ray meets a triangle, from the determinant `det`, the
/// distance `t` along the ray, and the two barycentric weights `u` and `v`
/// with their sum: the determinant is not zero, the distance is beyond the
/// offset, and the weights lie in the triangle.
pub fn intersect_tri(det: i32, t: i32, u: i32, v: i32, u_plus_v: i32) -> (hit: bool)
    ensures
        hit == (t > KEY_HIT_OFFSET && det != 0 && 0 <= u <= KEY_ONE && 0 <= v && u_plus_v
            <= KEY_ONE),
{
    t > KEY_HIT_OFFSET && det != 0 && 0 <= u && u <= KEY_ONE && 0 <= v && u_plus_v <= KEY_ONE
}

/// Whether a ray bounces off a surface rather than passing into it: it
/// does when the reflectance is above the number drawn.
pub fn reflects(fresnel: i32, drawn: i32) -> (r: bool)
    ensures
        r == (fresnel > drawn),
{
    fresnel > drawn
}

/// The nearest meeting of a ray with the scene found so far.
#[derive(Clone, Copy, Debug)]
pub struct HitInfo {
    pub has_hit: bool,
    /// The key of the distance along the ray.
    pub distance: i32,
    /// The place of the triangle in the scene.
    pub tri_id: usize,
    pub material_id: usize,
    pub front_face: bool,
}

impl HitInfo {
    /// No meeting yet: anything at a finite distance is nearer.
    pub fn default() -> (h: Self)
        ensures
            !h.has_hit,
            h.distance == KEY_MAX,
            h.tri_id == 0,
            h.material_id == 0,
            !h.front_face,
    {
        HitInfo { has_hit: false, distance: KEY_MAX, tri_id: 0, material_id: 0, front_face: false }
    }

    /// Takes `candidate` in place of what is held if it is a hit and
    /// strictly nearer, and says whether it did.
    pub fn offer(&mut self, candidate: HitInfo) -> (taken: bool)
        ensures
            taken == (candidate.has_hit && candidate.distance < old(self).distance),
            *final(self) == (if taken {
                candidate
            } else {
                *old(self)
            }),
    {
        if candidate.has_hit && candidate.distance < self.distance {
            *self = candidate;
            true
        } else {
            false
        }
    }
}

/// What a ray's meeting with triangle `tri_id` comes to, from the
/// determinant `det`, the distance `t` along the ray, and the two
/// barycentric weights `u` and `v` with their sum: whether it is a hit, at
/// what distance, of which material, and on which face. The front face is
/// met when the determinant is above zero.
pub fn hit_of(tri: &Triangle, tri_id: usize, det: i32, t: i32, u: i32, v: i32, u_plus_v: i32) -> (h:
    HitInfo)
    ensures
        h.has_hit == (t > KEY_HIT_OFFSET && det != 0 && 0 <= u <= KEY_ONE && 0 <= v && u_plus_v
            <= KEY_ONE),
        h.front_face == (det > 0),
        h.distance == t,
        h.tri_id == tri_id,
        h.material_id == tri.material_id,
{
    HitInfo {
        has_hit: intersect_tri(det, t, u, v, u_plus_v),
        distance: t,
        tri_id,
        material_id: tri.material_id,
        front_face: det > 0,
    }
}

/// What is held after the hits of `offered` have been offered in order to
/// what was `held`.
pub open spec fn after_offers(held: HitInfo, offered: Seq<HitInfo>) -> HitInfo
    decreases offered.len(),
{
    if offered.len() == 0 {
        held
    } else {
        let so_far = after_offers(held, offered.drop_last());
        if offered.last().has_hit && offered.last().distance < so_far.distance {
            offered.last()
        } else {
            so_far
        }
    }
}

/// Whatever is offered, what is held in the end is no farther than what
/// was held at first and no farther than any hit that was offered; and it
/// is what was held at first or one of the hits offered.
pub proof fn law_nearest_is_kept(held: HitInfo, offered: Seq<HitInfo>)
    ensures
        after_offers(held, offered).distance <= held.distance,
        forall|k: int|
            0 <= k < offered.len() && (#[trigger] offered[k]).has_hit ==> after_offers(
                held,
                offered,
            ).distance <= offered[k].distance,
        after_offers(held, offered) == held || exists|k: int|
            0 <= k < offered.len() && (#[trigger] offered[k]).has_hit && after_offers(held, offered)
                == offered[k],
    decreases offered.len(),
{
    if offered.len() > 0 {
        let rest = offered.drop_last();
        law_nearest_is_kept(held, rest);
        let so_far = after_offers(held, rest);
        assert forall|k: int| 0 <= k < offered.len() && (#[trigger] offered[k]).has_hit implies after_offers(
            held,
            offered,
        ).distance <= offered[k].distance by {
            if k < rest.len() {
                assert(rest[k] == offered[k]);
            }
        }
        if after_offers(held, offered) == so_far && so_far != held {
            let k = choose|k: int|
                0 <= k < rest.len() && (#[trigger] rest[k]).has_hit && so_far == rest[k];
            assert(offered[k] == rest[k]);
        } else if after_offers(held, offered) != so_far {
            assert(offered[offered.len() - 1] == offered.last());
        }
    }
}

/// What looking at one node came to.
#[derive(Clone, Copy, Debug, PartialEq, Eq)]
pub enum Visit {
    /// The ray passes the node's box by: nothing below it matters.
    Missed,
    /// The node is a leaf: each triangle of its run is to be tried, in
    /// order.
    Leaf { first_tri_id: usize, num_tris: usize },
    /// The node has no triangles of its own.
    Inner,
}

impl Visit {
    /// The colour channel that a visit adds to when the hierarchy is drawn
    /// instead of the scene: red (0) for a leaf of more than four
    /// triangles, green (1) for a smaller leaf, blue (2) for a node
    /// without triangles, none for a node that was missed.
    pub fn debug_channel(&self) -> (channel: Option<usize>)
        ensures
            channel == (match *self {
                Visit::Missed => None::<usize>,
                Visit::Leaf { first_tri_id, num_tris } => if num_tris > 4 {
                    Some(0usize)
                } else {
                    Some(1usize)
                },
                Visit::Inner => Some(2usize),
            }),
    {
        match *self {
            Visit::Missed => None,
            Visit::Leaf { first_tri_id, num_tris } => if num_tris > 4 {
                Some(0)
            } else {
                Some(1)
            },
            Visit::Inner => Some(2),
        }
    }
}

/// A depth-first descent through a scene's hierarchy, one node at a time.
///
/// Whoever drives it tests the ray against the box of the next node and
/// reports the outcome to `advance`, which says what to do with the node
/// and queues its children, the first child to be looked at next. A
/// descent ends on any array of nodes, sound or not.
#[derive(Clone, Debug)]
pub struct Traversal {
    pub stack: Vec<usize>,
}

impl Traversal {
    /// Every queued node is a node of the hierarchy.
    pub open spec fn wf(&self, nodes: Seq<Node>) -> bool {
        forall|k: int| 0 <= k < self.stack@.len() ==> #[trigger] self.stack@[k] < nodes.len()
    }

    /// An upper bound on the calls of `advance` still to come.
    pub open spec fn remaining(&self, nodes: Seq<Node>) -> nat {
        queue_visits(nodes, self.stack@)
    }

    /// A descent that starts at the root.
    pub fn new() -> (t: Self)
        ensures
            t.stack@ == seq![0usize],
    {
        let mut stack: Vec<usize> = Vec::new();
        stack.push(0);
        Traversal { stack }
    }

    /// The node to look at next, if any is left.
    pub fn next_node(&self) -> (next: Option<usize>)
        ensures
            next == (if self.stack@.len() == 0 {
                None
            } else {
                Some(self.stack@.last())
            }),
    {
        if self.stack.len() == 0 {
            None
        } else {
            Some(self.stack[self.stack.len() - 1])
        }
    }

    /// Takes the next node off the queue. `inside` says whether the ray
    /// hits the node's box. A node that is hit and has no triangles gets
    /// its two children queued, if they are nodes that come after it; a
    /// leaf that is hit has its run handed out, which in a sound hierarchy
    /// is a run of triangles of the scene.
    pub fn advance(&mut self, scene: &Scene, inside: bool) -> (visit: Visit)
        requires
            old(self).wf(scene.bvh.nodes@),
            old(self).stack@.len() > 0,
        ensures
            final(self).wf(scene.bvh.nodes@),
            ({
                let index = old(self).stack@.last();
                let node = scene.bvh.nodes@[index as int];
                &&& visit == (if !inside {
                    Visit::Missed
                } else if node.num_tris > 0 {
                    Visit::Leaf { first_tri_id: node.first_tri_id, num_tris: node.num_tris }
                } else {
                    Visit::Inner
                })
                &&& final(self).stack@ == (if inside && node.num_tris == 0 && index
                    < node.children_id && node.children_id + 1 < scene.bvh.nodes@.len() {
                    old(self).stack@.drop_last().push((node.children_id + 1) as usize).push(
                        node.children_id,
                    )
                } else {
                    old(self).stack@.drop_last()
                })
            }),
            scene.bvh.wf(scene.tris@) ==> (visit matches Visit::Leaf { first_tri_id, num_tris }
                ==> first_tri_id + num_tris <= scene.tris@.len()),
            final(self).remaining(scene.bvh.nodes@) < old(self).remaining(scene.bvh.nodes@),
    {
        let index = self.stack[self.stack.len() - 1];
        let ghost rest = self.stack@.drop_last();
        let ghost nodes = scene.bvh.nodes@;
        self.stack.pop();
        let node = scene.bvh.nodes[index];
        let total = scene.bvh.nodes.len();
        proof {
            assert(self.stack@ =~= rest);
            if scene.bvh.wf(scene.tris@) {
                assert(shaped(nodes, index as int, scene.tris@.len() as int));
            }
            assert forall|k: int| 0 <= k < rest.len() implies #[trigger] rest[k] < nodes.len() by {
                assert(rest[k] == old(self).stack@[k]);
            }
        }
        if !inside {
            Visit::Missed
        } else if node.num_tris > 0 {
            Visit::Leaf { first_tri_id: node.first_tri_id, num_tris: node.num_tris }
        } else {
            if index < node.children_id && node.children_id < total - 1 {
                self.stack.push(node.children_id + 1);
                self.stack.push(node.children_id);
                proof {
                    let one = rest.push((node.children_id + 1) as usize);
                    let two = one.push(node.children_id);
                    assert(self.stack@ =~= two);
                    assert(two.drop_last() =~= one);
                    assert(one.drop_last() =~= rest);
                    assert(queue_visits(nodes, one) == queue_visits(nodes, rest) + visits(
                        nodes,
                        node.children_id + 1,
                    ));
                    assert(queue_visits(nodes, two) == queue_visits(nodes, one) + visits(
                        nodes,
                        node.children_id as int,
                    ));
                }
            }
            Visit::Inner
        }
    }
}

/// Runs a whole descent for a ray of which `inside` says, node by node,
/// whether it hits the node's box, and returns the nodes looked at, in
/// order: the root first, children after their parent, the first child
/// and all below it before the second, nothing below a box that is
/// missed.
pub fn descend(scene: &Scene, inside: &Vec<bool>) -> (seen: Vec<usize>)
    requires
        scene.bvh.nodes@.len() > 0,
        inside@.len() == scene.bvh.nodes@.len(),
    ensures
        seen@ == tour(scene.bvh.nodes@, 0, inside@),
{
    let ghost nodes = scene.bvh.nodes@;
    let total = scene.bvh.nodes.len();
    let mut walk = Traversal::new();
    let mut seen: Vec<usize> = Vec::new();
    proof {
        assert(walk.stack@.len() == 1 && walk.stack@.last() == 0);
        assert(walk.stack@.drop_last() =~= Seq::<usize>::empty());
        assert(queue_tour(nodes, walk.stack@.drop_last(), inside@) =~= Seq::<usize>::empty());
        assert(queue_tour(nodes, walk.stack@, inside@) =~= tour(nodes, 0, inside@));
    }
    while walk.stack.len() > 0
        invariant
            nodes == scene.bvh.nodes@,
            total == nodes.len(),
            inside@.len() == nodes.len(),
            walk.wf(nodes),
            seen@ + queue_tour(nodes, walk.stack@, inside@) == tour(nodes, 0, inside@),
        decreases walk.remaining(nodes),
    {
        let index = walk.stack[walk.stack.len() - 1];
        let ghost before = walk.stack@;
        let ghost rest = walk.stack@.drop_last();
        let ghost so_far = seen@;
        proof {
            assert(queue_tour(nodes, before, inside@) == tour(nodes, index as int, inside@)
                + queue_tour(nodes, rest, inside@));
        }
        let _ = walk.advance(scene, inside[index]);
        seen.push(index);
        proof {
            let node = nodes[index as int];
            if inside@[index as int] && node.num_tris == 0 && index < node.children_id
                && node.children_id + 1 < nodes.len() {
                let one = rest.push((node.children_id + 1) as usize);
                let two = one.push(node.children_id);
                assert(walk.stack@ == two);
                assert(two.drop_last() =~= one);
                assert(one.drop_last() =~= rest);
                assert(one.last() == node.children_id + 1);
                assert(two.last() == node.children_id);
                assert(queue_tour(nodes, one, inside@) == tour(nodes, node.children_id + 1, inside@)
                    + queue_tour(nodes, rest, inside@));
                assert(queue_tour(nodes, two, inside@) == tour(
                    nodes,
                    node.children_id as int,
                    inside@,
                ) + queue_tour(nodes, one, inside@));
                assert(seen@ + queue_tour(nodes, two, inside@) =~= so_far + queue_tour(
                    nodes,
                    before,
                    inside@,
                ));
            } else {
                assert(tour(nodes, index as int, inside@) =~= seq![index]);
                assert(seen@ + queue_tour(nodes, rest, inside@) =~= so_far + queue_tour(
                    nodes,
                    before,
                    inside@,
                ));
            }
        }
    }
    proof {
        assert(seen@ + Seq::<usize>::empty() =~= seen@);
    }
    seen
}

/// The bookkeeping of one path through the scene: how many times it may
/// still bounce, and how often the hierarchy has been descended for it.
#[derive(Clone, Copy, Debug)]
pub struct Trace {
    pub max_bounces: usize,
    pub debug_bvh: bool,
    pub bounces: usize,
    pub descents: usize,
    pub open: bool,
}

impl Trace {
    /// The counts agree: a path never bounces more often than it may, and
    /// while it is open it has descended once for each bounce.
    pub open spec fn wf(&self) -> bool {
        &&& self.bounces <= self.max_bounces
        &&& self.bounces <= self.descents <= self.bounces + 1
        &&& self.descents <= self.max_bounces
        &&& self.open ==> self.bounces < self.max_bounces && self.descents == self.bounces
    }

    /// A path that has not left the camera yet. It is open if it may
    /// bounce at all.
    pub fn new(max_bounces: usize, debug_bvh: bool) -> (t: Self)
        ensures
            t.wf(),
            t.max_bounces == max_bounces,
            t.debug_bvh == debug_bvh,
            t.bounces == 0,
            t.descents == 0,
            t.open == (max_bounces > 0),
    {
        Trace { max_bounces, debug_bvh, bounces: 0, descents: 0, open: max_bounces > 0 }
    }

    /// Records one descent of the hierarchy and whether it found a hit.
    /// When the hierarchy itself is being drawn the path ends there. A
    /// miss ends the path; a hit is a bounce, and the path stays open
    /// while it may bounce again. The descents of a path never exceed
    /// `max_bounces`.
    pub fn record(&mut self, hit: bool)
        requires
            old(self).wf(),
            old(self).open,
        ensures
            final(self).wf(),
            final(self).max_bounces == old(self).max_bounces,
            final(self).debug_bvh == old(self).debug_bvh,
            final(self).descents == old(self).descents + 1,
            final(self).descents <= final(self).max_bounces + 1,
            final(self).bounces == (if hit && !old(self).debug_bvh {
                old(self).bounces + 1
            } else {
                old(self).bounces as int
            }),
            final(self).open == (hit && !old(self).debug_bvh && old(self).bounces + 1 < old(
                self,
            ).max_bounces),
    {
        self.descents = self.descents + 1;
        if self.debug_bvh || !hit {
            self.open = false;
        } else {
            self.bounces = self.bounces + 1;
            self.open = self.bounces < self.max_bounces;
        }
    }

    /// What the light gathered along the path is divided by at the end:
    /// the number of bounces, or nothing if there was none.
    pub fn divisor(&self) -> (d: Option<usize>)
        ensures
            d == (if self.bounces == 0 {
                None
            } else {
                Some(self.bounces)
            }),
    {
        if self.bounces == 0 {
            None
        } else {
            Some(self.bounces)
        }
    }
}

} // verus!

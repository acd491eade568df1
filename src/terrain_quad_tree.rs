//! The level-of-detail traversal of one face tree: each node splits when the
//! camera comes near, merges when it moves away, and every change is
//! announced to the mesh builder through the request queue.
use vstd::prelude::*;
use crate::face::{Face, Point3};
use crate::mesh_queue::{MeshComputer, MeshRequest, MeshRequestKind};
use crate::quad_tree::{descendants_in, merge_seq, split_seq, QuadTree, Splittable, TreeNode};
use crate::terrain::{child_center, is_near, lemma_side_length, near, TerrainNode, MAX_DEPTH};
use crate::quad_tree::{quadrant_at, Quadrant};

verus! {

/// Every payload of the tree lies on `face` and has `scale`.
pub open spec fn uniform(t: QuadTree<TerrainNode>, face: Face, scale: u32) -> bool {
    forall|j: int|
        0 <= j < t.nodes@.len() ==> (#[trigger] t.nodes@[j]).node.face == face && t.nodes@[j].node.scale
            == scale
}

pub open spec fn request(kind: MeshRequestKind, face: Face, scale: u32, node: int) -> MeshRequest {
    MeshRequest { kind, face, node: node as usize, scale }
}

/// The requests announcing the four children that a split placed from `first` on.
pub open spec fn create_requests(face: Face, scale: u32, first: int) -> Seq<MeshRequest> {
    seq![
        request(MeshRequestKind::Create, face, scale, first),
        request(MeshRequestKind::Create, face, scale, first + 1),
        request(MeshRequestKind::Create, face, scale, first + 2),
        request(MeshRequestKind::Create, face, scale, first + 3),
    ]
}

/// The requests tearing down each of `nodes`, in order.
pub open spec fn remove_requests(face: Face, scale: u32, nodes: Seq<usize>) -> Seq<MeshRequest> {
    nodes.map_values(|j: usize| request(MeshRequestKind::Remove, face, scale, j as int))
}

pub open spec fn room(q: MeshComputer) -> int {
    q.capacity_spec() - q@.len()
}

/// The tree and the queued requests after one pass of the level-of-detail
/// policy from slot `i` of `nodes`, with `reqs` waiting in a queue that holds
/// at most `cap` requests, below the depth ceiling `max_depth`. `fuel` is one
/// more than the number of levels from `i` down to the ceiling.
///
/// A leaf near the camera that can split, where the queue has room for four
/// requests, is split, its four children are announced, and then each child
/// takes a pass in turn. A split node near the camera keeps its children, and
/// each of them takes a pass in turn. A split node away from the camera is
/// merged and every node below it is announced for teardown, where the queue
/// has room for all of them. Otherwise nothing changes.
pub open spec fn traverse(
    nodes: Seq<TreeNode<TerrainNode>>,
    reqs: Seq<MeshRequest>,
    i: int,
    camera: Point3,
    max_depth: u8,
    cap: nat,
    fuel: nat,
) -> (Seq<TreeNode<TerrainNode>>, Seq<MeshRequest>)
    decreases fuel, 0int,
{
    if fuel == 0 {
        (nodes, reqs)
    } else {
        let e = nodes[i];
        let close = near(camera, e.node.center, e.level as nat);
        let room = cap - reqs.len();
        match e.first_child {
            None => if close && e.level < max_depth && nodes.len() + 4 <= usize::MAX && room >= 4 {
                let n = nodes.len() as int;
                traverse_children(
                    split_seq(nodes, i),
                    reqs + create_requests(e.node.face, e.node.scale, n),
                    n,
                    camera,
                    max_depth,
                    cap,
                    (fuel - 1) as nat,
                    4,
                )
            } else {
                (nodes, reqs)
            },
            Some(f) => if close {
                traverse_children(nodes, reqs, f as int, camera, max_depth, cap, (fuel - 1) as nat, 4)
            } else {
                let below = descendants_in(nodes, i, (fuel - 1) as nat);
                if below.len() <= room {
                    (merge_seq(nodes, i), reqs + remove_requests(e.node.face, e.node.scale, below))
                } else {
                    (nodes, reqs)
                }
            },
        }
    }
}

/// The passes of the first `k` of the children placed from `first` on, in
/// quadrant order, each starting from what the one before it left.
pub open spec fn traverse_children(
    nodes: Seq<TreeNode<TerrainNode>>,
    reqs: Seq<MeshRequest>,
    first: int,
    camera: Point3,
    max_depth: u8,
    cap: nat,
    fuel: nat,
    k: nat,
) -> (Seq<TreeNode<TerrainNode>>, Seq<MeshRequest>)
    decreases fuel, k + 1,
{
    if k == 0 {
        (nodes, reqs)
    } else {
        let before = traverse_children(nodes, reqs, first, camera, max_depth, cap, fuel, (k - 1) as nat);
        traverse(before.0, before.1, first + k - 1, camera, max_depth, cap, fuel)
    }
}

/// One more than the number of levels from slot `i` down to the ceiling.
pub open spec fn fuel_at(t: QuadTree<TerrainNode>, i: int) -> nat {
    (t.max_depth - t.nodes@[i].level + 1) as nat
}

/// One pass of the level-of-detail policy from slot `i` down took the tree
/// from `t0` to `t1` and the queue from `q0` to `q1`, as `traverse` says.
/// Besides: the tree stays well formed on its face and scale, no payload of
/// an existing slot changes, slots before `i` are untouched, and requests
/// are only ever appended.
pub open spec fn lod_pass(
    t0: QuadTree<TerrainNode>,
    t1: QuadTree<TerrainNode>,
    i: int,
    camera: Point3,
    q0: MeshComputer,
    q1: MeshComputer,
) -> bool {
    let n0 = q0@.len() as int;
    &&& t1.wf()
    &&& uniform(t1, t0.nodes@[0].node.face, t0.nodes@[0].node.scale)
    &&& t1.max_depth == t0.max_depth
    &&& t1.nodes@.len() >= t0.nodes@.len()
    &&& forall|j: int| 0 <= j < i ==> #[trigger] t1.nodes@[j] == t0.nodes@[j]
    &&& forall|j: int| 0 <= j < t0.nodes@.len() ==> #[trigger] t1.nodes@[j].node == t0.nodes@[j].node
    &&& q1.wf()
    &&& q1.capacity_spec() == q0.capacity_spec()
    &&& q1@.len() >= n0
    &&& q1@.subrange(0, n0) == q0@
    &&& (t1.nodes@, q1@) == traverse(t0.nodes@, q0@, i, camera, t0.max_depth, q0.capacity_spec(), fuel_at(t0, i))
    &&& splits_here(t0, i, camera, q0) ==> t1.nodes@[i] == split_seq(t0.nodes@, i)[i] && q1@.subrange(
        n0,
        n0 + 4,
    ) == create_requests(t0.nodes@[i].node.face, t0.nodes@[i].node.scale, t0.nodes@.len() as int)
}

/// A pass over leaf `i` splits it: the camera is near, the node can split,
/// and the queue has room to announce the four children.
pub open spec fn splits_here(t: QuadTree<TerrainNode>, i: int, camera: Point3, q: MeshComputer) -> bool {
    &&& t.is_leaf(i)
    &&& near(camera, t.nodes@[i].node.center, t.nodes@[i].level as nat)
    &&& t.can_split(i)
    &&& room(q) >= 4
}

impl QuadTree<TerrainNode> {
    /// One pass of the level-of-detail policy from slot `i` down, as
    /// `traverse` describes: a leaf near the camera splits, announces its four
    /// children and then evaluates each of them; a split node near the camera
    /// evaluates each of its children; a split node away from the camera
    /// merges and announces the teardown of every node below it. Where the
    /// queue has no room for the announcements the node is left as it is, to
    /// be evaluated again on the next pass.
    pub fn update(&mut self, i: usize, camera: Point3, queue: &mut MeshComputer)
        requires
            old(self).wf(),
            i < old(self).nodes@.len(),
            uniform(*old(self), old(self).nodes@[0].node.face, old(self).nodes@[0].node.scale),
            old(queue).wf(),
        ensures
            lod_pass(*old(self), *final(self), i as int, camera, *old(queue), *final(queue)),
        decreases self.max_depth - self.nodes@[i as int].level,
    {
        let ghost t0 = *self;
        let ghost q0 = queue@;
        let ghost cap = queue.capacity_spec();
        let ghost face0 = self.nodes@[0].node.face;
        let ghost scale0 = self.nodes@[0].node.scale;
        let ghost fuel = fuel_at(t0, i as int);
        proof {
            assert(self.node_ok(i as int));
        }
        let level = self.nodes[i].level;
        let face = self.nodes[i].node.face;
        let scale = self.nodes[i].node.scale;
        let close = is_near(camera, &self.nodes[i].node, level);
        let first: usize;
        match self.nodes[i].first_child {
            None => {
                let n = self.nodes.len();
                if !close || level >= self.max_depth || n > usize::MAX - 4 || queue.room() < 4 {
                    assert(queue@.subrange(0, q0.len() as int) =~= q0);
                    return;
                }
                let split = self.split(i);
                assert(split);
                proof {
                    assert(self.nodes@ == split_seq(t0.nodes@, i as int));
                    assert forall|j: int| 0 <= j < self.nodes@.len() implies (#[trigger] self.nodes@[j]).node.face
                        == face0 && self.nodes@[j].node.scale == scale0 by {
                        if j < n {
                            assert(self.nodes@[j].node == t0.nodes@[j].node);
                        }
                    }
                }
                let mut k: usize = 0;
                while k < 4
                    invariant
                        k <= 4,
                        n + 4 <= usize::MAX,
                        queue.wf(),
                        queue.capacity_spec() == cap,
                        q0.len() + 4 <= queue.capacity_spec(),
                        queue@ == q0 + create_requests(face, scale, n as int).take(k as int),
                    decreases 4 - k,
                {
                    let r = queue.schedule(
                        MeshRequest { kind: MeshRequestKind::Create, face, node: n + k, scale },
                    );
                    assert(r is Ok);
                    proof {
                        assert(create_requests(face, scale, n as int).take(k + 1) =~= create_requests(
                            face,
                            scale,
                            n as int,
                        ).take(k as int).push(request(MeshRequestKind::Create, face, scale, n + k)));
                    }
                    k = k + 1;
                }
                assert(create_requests(face, scale, n as int).take(4) =~= create_requests(face, scale, n as int));
                first = n;
            },
            Some(f) => {
                if !close {
                    let mut below: Vec<usize> = Vec::new();
                    self.collect_descendants(i, &mut below);
                    assert(below@ =~= t0.descendants(i as int));
                    if below.len() > queue.room() {
                        assert(queue@.subrange(0, q0.len() as int) =~= q0);
                        return;
                    }
                    let _ = self.merge(i);
                    proof {
                        assert forall|j: int| 0 <= j < self.nodes@.len() implies (#[trigger] self.nodes@[j]).node.face
                            == face0 && self.nodes@[j].node.scale == scale0 by {
                            assert(self.nodes@[j].node == t0.nodes@[j].node);
                        }
                    }
                    let mut k: usize = 0;
                    while k < below.len()
                        invariant
                            k <= below@.len(),
                            below@ == t0.descendants(i as int),
                            queue.wf(),
                            queue.capacity_spec() == cap,
                            q0.len() + below@.len() <= queue.capacity_spec(),
                            queue@ == q0 + remove_requests(face, scale, below@.take(k as int)),
                        decreases below@.len() - k,
                    {
                        let node = below[k];
                        let r = queue.schedule(
                            MeshRequest { kind: MeshRequestKind::Remove, face, node, scale },
                        );
                        assert(r is Ok);
                        proof {
                            assert(below@.take(k + 1) =~= below@.take(k as int).push(node));
                            assert(remove_requests(face, scale, below@.take(k + 1)) =~= remove_requests(
                                face,
                                scale,
                                below@.take(k as int),
                            ).push(request(MeshRequestKind::Remove, face, scale, node as int)));
                        }
                        k = k + 1;
                    }
                    assert(below@.take(below@.len() as int) =~= below@);
                    assert(queue@.subrange(0, q0.len() as int) =~= q0);
                    assert forall|j: int| 0 <= j < i implies #[trigger] self.nodes@[j] == t0.nodes@[j] by {
                        assert(self.nodes@ == t0.merge_nodes(i as int));
                    }
                    return;
                }
                first = f;
            },
        }
        let ghost t1 = *self;
        let ghost q1 = queue@;
        assert(q1.subrange(0, q0.len() as int) =~= q0);
        proof {
            if t0.is_leaf(i as int) {
                let creates = create_requests(face, scale, t0.nodes@.len() as int);
                assert(q1.subrange(q0.len() as int, q0.len() + 4int) =~= creates);
            }
        }
        assert forall|j: int| 0 <= j < i implies t1.nodes@[j] == t0.nodes@[j] by {
            if t0.is_leaf(i as int) {
                assert(t1.nodes@ == t0.split_nodes(i as int));
            }
        }
        assert forall|j: int| 0 <= j < t0.nodes@.len() implies #[trigger] t1.nodes@[j].node == t0.nodes@[j].node by {
            if t0.is_leaf(i as int) {
                assert(t1.nodes@ == t0.split_nodes(i as int));
            }
        }
        let mut k: usize = 0;
        while k < 4
            invariant
                k <= 4,
                i < first,
                i < self.nodes@.len(),
                t0 == *old(self),
                cap == old(queue).capacity_spec(),
                fuel == fuel_at(t0, i as int),
                forall|j: int| 0 <= j < i ==> t1.nodes@[j] == t0.nodes@[j],
                forall|j: int| 0 <= j < t0.nodes@.len() ==> #[trigger] t1.nodes@[j].node == t0.nodes@[j].node,
                t1.nodes@.len() >= t0.nodes@.len(),
                self.wf(),
                uniform(*self, face0, scale0),
                self.max_depth == t0.max_depth,
                self.nodes@.len() >= t1.nodes@.len(),
                self.nodes@[i as int].first_child == Some(first),
                self.nodes@[i as int].level == t0.nodes@[i as int].level,
                forall|j: int| 0 <= j <= i ==> self.nodes@[j] == t1.nodes@[j],
                forall|j: int| 0 <= j < t1.nodes@.len() ==> #[trigger] self.nodes@[j].node == t1.nodes@[j].node,
                queue.wf(),
                queue.capacity_spec() == cap,
                queue@.len() >= q1.len(),
                queue@.subrange(0, q1.len() as int) == q1,
                (self.nodes@, queue@) == traverse_children(
                    t1.nodes@,
                    q1,
                    first as int,
                    camera,
                    t0.max_depth,
                    cap,
                    (fuel - 1) as nat,
                    k as nat,
                ),
            decreases 4 - k,
        {
            proof {
                assert(self.node_ok(i as int));
                assert(self.child_of(first + k, i as int));
                assert(self.node_ok(first + k));
                assert(self.max_depth - self.nodes@[first + k].level < t0.max_depth - t0.nodes@[i as int].level);
            }
            let ghost tp = *self;
            let ghost qp = *queue;
            let len = self.nodes.len();
            assert(first + 4 <= len);
            self.update(first + k, camera, queue);
            proof {
                assert(fuel_at(tp, first + k) == (fuel - 1) as nat);
                assert(queue@.subrange(0, q1.len() as int) =~= queue@.subrange(0, qp@.len() as int).subrange(
                    0,
                    q1.len() as int,
                ));
                assert forall|j: int| 0 <= j < t1.nodes@.len() implies #[trigger] self.nodes@[j].node
                    == t1.nodes@[j].node by {
                    assert(self.nodes@[j].node == tp.nodes@[j].node);
                }
            }
            k = k + 1;
        }
        proof {
            assert(queue@.subrange(0, q0.len() as int) =~= queue@.subrange(0, q1.len() as int).subrange(
                0,
                q0.len() as int,
            ));
            if t0.is_leaf(i as int) {
                assert(queue@.subrange(q0.len() as int, q0.len() + 4int) =~= queue@.subrange(
                    0,
                    q1.len() as int,
                ).subrange(q0.len() as int, q0.len() + 4int));
            }
            assert forall|j: int| 0 <= j < t0.nodes@.len() implies #[trigger] self.nodes@[j].node
                == t0.nodes@[j].node by {
                assert(self.nodes@[j].node == t1.nodes@[j].node);
            }
        }
    }
}

/// The quadtree of patches covering one cube face.
pub struct TerrainQuadTree {
    pub quad_tree: QuadTree<TerrainNode>,
}

impl TerrainQuadTree {
    pub open spec fn face(&self) -> Face {
        self.quad_tree.nodes@[0].node.face
    }

    pub open spec fn scale(&self) -> u32 {
        self.quad_tree.nodes@[0].node.scale
    }

    pub open spec fn wf(&self) -> bool {
        &&& self.quad_tree.wf()
        &&& uniform(self.quad_tree, self.face(), self.scale())
    }

    /// A tree of one root patch covering `face`, which may split down to
    /// level `depth`.
    pub fn new(depth: u8, scale: u32, face: Face) -> (r: TerrainQuadTree)
        requires
            depth <= MAX_DEPTH,
        ensures
            r.wf(),
            r.face() == face,
            r.scale() == scale,
            r.quad_tree.max_depth == depth,
            r.quad_tree.nodes@.len() == 1,
            r.quad_tree.nodes@[0].level == 0,
            r.quad_tree.nodes@[0].first_child is None,
            r.quad_tree.nodes@[0].node.entity is None,
            r.quad_tree.nodes@[0].node.length == crate::terrain::ROOT_LENGTH,
            crate::terrain::face_coords(face, r.quad_tree.nodes@[0].node.center) == (
                crate::face::CUBE_HALF as int,
                0int,
                0int,
            ),
    {
        let root = TerrainNode::root(face, scale);
        let quad_tree = QuadTree::new(depth, 0, root);
        TerrainQuadTree { quad_tree }
    }

    /// One pass of the level-of-detail policy over the whole tree, from the
    /// root down; see `QuadTree::update` for what happens at each node.
    pub fn update(&mut self, camera: Point3, queue: &mut MeshComputer)
        requires
            old(self).wf(),
            old(queue).wf(),
        ensures
            final(self).wf(),
            final(self).face() == old(self).face(),
            final(self).scale() == old(self).scale(),
            lod_pass(old(self).quad_tree, final(self).quad_tree, 0, camera, *old(queue), *final(queue)),
    {
        self.quad_tree.update(0, camera, queue);
        proof {
            assert(self.quad_tree.node_ok(0));
        }
    }

    /// Records the scene object that shows the patch of slot `node`.
    pub fn attach_entity(&mut self, node: usize, entity: u64)
        requires
            old(self).wf(),
            node < old(self).quad_tree.nodes@.len(),
        ensures
            final(self).wf(),
            final(self).face() == old(self).face(),
            final(self).scale() == old(self).scale(),
            final(self).quad_tree.max_depth == old(self).quad_tree.max_depth,
            final(self).quad_tree.nodes@.len() == old(self).quad_tree.nodes@.len(),
            forall|j: int|
                0 <= j < old(self).quad_tree.nodes@.len() && j != node ==> final(self).quad_tree.nodes@[j]
                    == old(self).quad_tree.nodes@[j],
            final(self).quad_tree.nodes@[node as int].node == (TerrainNode {
                entity: Some(entity),
                ..old(self).quad_tree.nodes@[node as int].node
            }),
            final(self).quad_tree.nodes@[node as int].first_child == old(self).quad_tree.nodes@[node as int].first_child,
            final(self).quad_tree.nodes@[node as int].parent == old(self).quad_tree.nodes@[node as int].parent,
            final(self).quad_tree.nodes@[node as int].level == old(self).quad_tree.nodes@[node as int].level,
    {
        proof {
            assert(self.quad_tree.node_ok(node as int));
            assert(self.quad_tree.nodes@[0].node.face == self.face());
        }
        let mut payload = *self.quad_tree.node(node);
        payload.entity = Some(entity);
        self.quad_tree.set_node(node, payload);
        proof {
            assert(self.quad_tree.nodes@[0].node.face == old(self).face());
            assert(self.quad_tree.nodes@[0].node.scale == old(self).scale());
        }
    }

    /// The scene object of slot `node`, if its mesh was built.
    pub fn entity(&self, node: usize) -> (r: Option<u64>)
        requires
            node < self.quad_tree.nodes@.len(),
        ensures
            r == self.quad_tree.nodes@[node as int].node.entity,
    {
        self.quad_tree.node(node).entity
    }
}

/// A pass over a split node away from the camera, with room in the queue,
/// leaves that node a leaf with its payload kept, and queues exactly one
/// teardown request for each node that was below it, and nothing else.
pub proof fn lemma_far_camera_merges(
    t0: QuadTree<TerrainNode>,
    t1: QuadTree<TerrainNode>,
    i: int,
    camera: Point3,
    q0: MeshComputer,
    q1: MeshComputer,
)
    requires
        t0.wf(),
        0 <= i < t0.nodes@.len(),
        lod_pass(t0, t1, i, camera, q0, q1),
        !t0.is_leaf(i),
        !near(camera, t0.nodes@[i].node.center, t0.nodes@[i].level as nat),
        t0.descendants(i).len() <= room(q0),
    ensures
        t1.is_leaf(i),
        t1.nodes@[i].node == t0.nodes@[i].node,
        t1.nodes@[i].level == t0.nodes@[i].level,
        t1.nodes@[i].parent == t0.nodes@[i].parent,
        q1@ == q0@ + remove_requests(t0.nodes@[i].node.face, t0.nodes@[i].node.scale, t0.descendants(i)),
{
    assert(t0.node_ok(i));
    assert(fuel_at(t0, i) > 0);
    assert((fuel_at(t0, i) - 1) as nat == (t0.max_depth - t0.nodes@[i].level) as nat);
}

/// Each child's side is exactly half its parent's, at every depth of a face
/// tree.
pub proof fn lemma_child_half_length(t: QuadTree<TerrainNode>, p: int, c: int)
    requires
        t.wf(),
        0 <= p < t.nodes@.len(),
        t.nodes@[p].first_child matches Some(f) && f <= c < f + 4,
    ensures
        t.nodes@[c].node.length * 2 == t.nodes@[p].node.length,
{
    assert(t.node_ok(p));
    let f = t.nodes@[p].first_child.unwrap();
    assert(t.child_of(c, p)) by {
        if c == f + 1 {
            assert(t.child_of(f + 1, p));
        } else if c == f + 2 {
            assert(t.child_of(f + 2, p));
        } else if c == f + 3 {
            assert(t.child_of(f + 3, p));
        }
    }
    assert(t.node_ok(c));
    lemma_side_length(t.nodes@[p].level as nat);
}

/// A child's center is a function of its parent's center, side and face and
/// of its quadrant alone: two parents that agree on those derive the same
/// center, whatever the levels or the order in which children are derived.
pub proof fn lemma_child_center_deterministic(
    a: TerrainNode,
    b: TerrainNode,
    quadrant: Quadrant,
    level_a: nat,
    level_b: nat,
)
    requires
        a.center == b.center,
        a.length == b.length,
        a.face == b.face,
    ensures
        a.child_spec(quadrant, level_a).center == b.child_spec(quadrant, level_b).center,
        a.child_spec(quadrant, level_a).center == child_center(a.center, a.length as int, a.face, quadrant),
{
}

/// After a split, the child in each quadrant has the center derived from the
/// parent for that quadrant.
pub proof fn lemma_split_child_centers(t: QuadTree<TerrainNode>, i: int, k: int)
    requires
        t.wf(),
        0 <= i < t.nodes@.len(),
        t.can_split(i),
        0 <= k < 4,
    ensures
        t.split_nodes(i)[t.nodes@.len() + k].node.center == child_center(
            t.nodes@[i].node.center,
            t.nodes@[i].node.length as int,
            t.nodes@[i].node.face,
            quadrant_at(k),
        ),
{
}

} // verus!

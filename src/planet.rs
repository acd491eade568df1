//! The planet: one terrain quadtree per cube face, driven by the camera, and
//! the step that turns the queued mesh requests into work for the scene.
use vstd::prelude::*;
use crate::face::{Face, Point3};
use crate::mesh_queue::{MeshComputer, MeshRequest, MeshRequestKind};
use crate::face::CUBE_HALF;
use crate::terrain::{face_coords, TerrainNode, MAX_DEPTH, ROOT_LENGTH};
use crate::terrain_quad_tree::{lod_pass, request, room, TerrainQuadTree};

verus! {

/// The face of the tree at position `k` of a planet.
pub open spec fn face_at(k: int) -> Face {
    if k == 0 {
        Face::Back
    } else if k == 1 {
        Face::Front
    } else if k == 2 {
        Face::Left
    } else if k == 3 {
        Face::Right
    } else if k == 4 {
        Face::Top
    } else {
        Face::Bottom
    }
}

/// The position of the tree of `face` in a planet.
pub open spec fn face_index(face: Face) -> int {
    match face {
        Face::Back => 0,
        Face::Front => 1,
        Face::Left => 2,
        Face::Right => 3,
        Face::Top => 4,
        Face::Bottom => 5,
    }
}

fn face_at_index(k: usize) -> (r: Face)
    requires
        k < 6,
    ensures
        r == face_at(k as int),
        face_index(r) == k,
{
    if k == 0 {
        Face::Back
    } else if k == 1 {
        Face::Front
    } else if k == 2 {
        Face::Left
    } else if k == 3 {
        Face::Right
    } else if k == 4 {
        Face::Top
    } else {
        Face::Bottom
    }
}

fn index_of_face(face: Face) -> (r: usize)
    ensures
        r == face_index(face),
        face_at(r as int) == face,
{
    match face {
        Face::Back => 0,
        Face::Front => 1,
        Face::Left => 2,
        Face::Right => 3,
        Face::Top => 4,
        Face::Bottom => 5,
    }
}

/// Work for the scene that a mesh request turns into.
#[derive(Clone, Copy, Debug, PartialEq, Eq, Structural)]
pub enum MeshAction {
    /// Build and show the patch of `node`, hiding the patch of `parent`,
    /// which the new patch and its siblings now cover.
    Build { face: Face, node: usize, parent: Option<usize>, center: Point3, length: i64, scale: u32 },
    /// Remove the scene object of `node`, if it has one; where `reveal` names
    /// the node that was merged, show its patch again.
    Teardown { face: Face, node: usize, reveal: Option<usize> },
}

pub struct Planet {
    pub planet_sides: Vec<TerrainQuadTree>,
}

/// Each of the six trees went from `before` to `after` by one pass of the
/// level-of-detail policy from its root, in order, the queue going from
/// `states[k]` to `states[k + 1]` during the pass of tree `k`, from `q0` at
/// the start to `q1` at the end.
pub open spec fn planet_pass(
    before: Planet,
    after: Planet,
    camera: Point3,
    q0: MeshComputer,
    q1: MeshComputer,
    states: Seq<MeshComputer>,
) -> bool {
    &&& states.len() == 7
    &&& states[0] == q0
    &&& states[6] == q1
    &&& forall|k: int|
        0 <= k < 6 ==> #[trigger] lod_pass(
            before.planet_sides@[k].quad_tree,
            after.planet_sides@[k].quad_tree,
            0,
            camera,
            states[k],
            states[k + 1],
        )
}

impl Planet {
    pub open spec fn wf(&self) -> bool {
        &&& self.planet_sides@.len() == 6
        &&& forall|k: int|
            0 <= k < 6 ==> (#[trigger] self.planet_sides@[k]).wf() && self.planet_sides@[k].face()
                == face_at(k)
    }

    /// The tree of `face`.
    pub open spec fn tree_of(&self, face: Face) -> TerrainQuadTree {
        self.planet_sides@[face_index(face)]
    }

    /// What the mesh builder does for `req`: a creation is built only while its
    /// node still hangs from the root, since a merge may have detached it
    /// after the request was queued; a removal always tears down.
    pub open spec fn action_for(&self, req: MeshRequest) -> Option<MeshAction> {
        let t = self.tree_of(req.face).quad_tree;
        let j = req.node as int;
        if j >= t.nodes@.len() {
            None
        } else {
            match req.kind {
                MeshRequestKind::Create => if t.attached(j) {
                    Some(
                        MeshAction::Build {
                            face: req.face,
                            node: req.node,
                            parent: t.nodes@[j].parent,
                            center: t.nodes@[j].node.center,
                            length: t.nodes@[j].node.length,
                            scale: t.nodes@[j].node.scale,
                        },
                    )
                } else {
                    None
                },
                MeshRequestKind::Remove => Some(
                    MeshAction::Teardown {
                        face: req.face,
                        node: req.node,
                        reveal: match t.nodes@[j].parent {
                            Some(p) => if p < t.nodes@.len() && t.attached(p as int) && t.is_leaf(p as int) {
                                Some(p)
                            } else {
                                None
                            },
                            None => None,
                        },
                    },
                ),
            }
        }
    }

    /// The actions for `reqs`, in order, leaving out the requests that need none.
    pub open spec fn actions_for(&self, reqs: Seq<MeshRequest>) -> Seq<MeshAction>
        decreases reqs.len(),
    {
        if reqs.len() == 0 {
            Seq::empty()
        } else {
            let before = self.actions_for(reqs.drop_last());
            match self.action_for(reqs.last()) {
                Some(a) => before.push(a),
                None => before,
            }
        }
    }

    /// Six single-patch trees, one per face in the order of `face_at`, each
    /// rooted at level 0 with a patch covering its whole face, and each free to
    /// split down to level `size`; a creation request for each root patch is
    /// queued.
    pub fn new(size: u8, scale: u32, queue: &mut MeshComputer) -> (r: Planet)
        requires
            size <= MAX_DEPTH,
            old(queue).wf(),
            room(*old(queue)) >= 6,
        ensures
            r.wf(),
            forall|k: int|
                0 <= k < 6 ==> (#[trigger] r.planet_sides@[k]).scale() == scale
                    && r.planet_sides@[k].quad_tree.max_depth == size
                    && r.planet_sides@[k].quad_tree.nodes@.len() == 1
                    && r.planet_sides@[k].quad_tree.nodes@[0].first_child is None
                    && r.planet_sides@[k].quad_tree.nodes@[0].level == 0
                    && r.planet_sides@[k].quad_tree.nodes@[0].node.entity is None
                    && r.planet_sides@[k].quad_tree.nodes@[0].node.length == ROOT_LENGTH
                    && face_coords(face_at(k), r.planet_sides@[k].quad_tree.nodes@[0].node.center) == (
                        CUBE_HALF as int,
                        0int,
                        0int,
                    ),
            final(queue).wf(),
            final(queue).capacity_spec() == old(queue).capacity_spec(),
            final(queue)@ == old(queue)@ + Seq::new(
                6,
                |k: int| request(MeshRequestKind::Create, face_at(k), scale, 0),
            ),
    {
        let ghost q0 = queue@;
        let ghost creates = Seq::new(6, |k: int| request(MeshRequestKind::Create, face_at(k), scale, 0));
        let mut planet_sides: Vec<TerrainQuadTree> = Vec::new();
        let mut k: usize = 0;
        while k < 6
            invariant
                k <= 6,
                size <= MAX_DEPTH,
                planet_sides@.len() == k,
                forall|m: int|
                    0 <= m < k ==> (#[trigger] planet_sides@[m]).wf() && planet_sides@[m].face() == face_at(m)
                        && planet_sides@[m].scale() == scale
                        && planet_sides@[m].quad_tree.max_depth == size
                        && planet_sides@[m].quad_tree.nodes@.len() == 1
                        && planet_sides@[m].quad_tree.nodes@[0].first_child is None
                        && planet_sides@[m].quad_tree.nodes@[0].level == 0
                        && planet_sides@[m].quad_tree.nodes@[0].node.entity is None
                        && planet_sides@[m].quad_tree.nodes@[0].node.length == ROOT_LENGTH
                        && face_coords(face_at(m), planet_sides@[m].quad_tree.nodes@[0].node.center) == (
                            CUBE_HALF as int,
                            0int,
                            0int,
                        ),
                queue.wf(),
                queue.capacity_spec() == old(queue).capacity_spec(),
                q0.len() + 6 <= queue.capacity_spec(),
                queue@ == q0 + creates.take(k as int),
                creates == Seq::new(6, |m: int| request(MeshRequestKind::Create, face_at(m), scale, 0)),
            decreases 6 - k,
        {
            let face = face_at_index(k);
            planet_sides.push(TerrainQuadTree::new(size, scale, face));
            let r = queue.schedule(MeshRequest { kind: MeshRequestKind::Create, face, node: 0, scale });
            assert(r is Ok);
            proof {
                assert(creates.take(k + 1) =~= creates.take(k as int).push(
                    request(MeshRequestKind::Create, face, scale, 0),
                ));
            }
            k = k + 1;
        }
        assert(creates.take(6) =~= creates);
        Planet { planet_sides }
    }

    /// One pass of the level-of-detail policy over the six trees, in order:
    /// each tree takes a pass from its root, appending to the queue.
    pub fn update(&mut self, camera: Point3, queue: &mut MeshComputer)
        requires
            old(self).wf(),
            old(queue).wf(),
        ensures
            final(self).wf(),
            forall|k: int|
                0 <= k < 6 ==> (#[trigger] final(self).planet_sides@[k]).scale() == old(self).planet_sides@[k].scale()
                    && final(self).planet_sides@[k].quad_tree.max_depth == old(self).planet_sides@[k].quad_tree.max_depth,
            final(queue).wf(),
            final(queue).capacity_spec() == old(queue).capacity_spec(),
            final(queue)@.len() >= old(queue)@.len(),
            final(queue)@.subrange(0, old(queue)@.len() as int) == old(queue)@,
            exists|states: Seq<MeshComputer>|
                #[trigger] planet_pass(*old(self), *final(self), camera, *old(queue), *final(queue), states),
    {
        let ghost mut states: Seq<MeshComputer> = seq![*queue];
        let ghost start = *queue;
        let mut k: usize = 0;
        while k < 6
            invariant
                k <= 6,
                self.wf(),
                forall|m: int|
                    0 <= m < 6 ==> (#[trigger] self.planet_sides@[m]).scale() == old(self).planet_sides@[m].scale()
                        && self.planet_sides@[m].quad_tree.max_depth == old(self).planet_sides@[m].quad_tree.max_depth,
                queue.wf(),
                queue.capacity_spec() == old(queue).capacity_spec(),
                queue@.len() >= old(queue)@.len(),
                queue@.subrange(0, old(queue)@.len() as int) == old(queue)@,
                states.len() == k + 1,
                states[0] == start,
                states[k as int] == *queue,
                forall|m: int|
                    0 <= m < k ==> #[trigger] lod_pass(
                        old(self).planet_sides@[m].quad_tree,
                        self.planet_sides@[m].quad_tree,
                        0,
                        camera,
                        states[m],
                        states[m + 1],
                    ),
                forall|m: int| k <= m < 6 ==> #[trigger] self.planet_sides@[m] == old(self).planet_sides@[m],
            decreases 6 - k,
        {
            let ghost q1 = queue@;
            let ghost sides = self.planet_sides@;
            let ghost before = states;
            assert(sides[k as int].wf());
            self.planet_sides[k].update(camera, queue);
            proof {
                states = before.push(*queue);
                assert(self.planet_sides@ == sides.update(k as int, self.planet_sides@[k as int]));
                assert(queue@.subrange(0, old(queue)@.len() as int) =~= queue@.subrange(
                    0,
                    q1.len() as int,
                ).subrange(0, old(queue)@.len() as int));
                assert forall|m: int|
                    0 <= m < k + 1 implies #[trigger] lod_pass(
                        old(self).planet_sides@[m].quad_tree,
                        self.planet_sides@[m].quad_tree,
                        0,
                        camera,
                        states[m],
                        states[m + 1],
                    ) by {
                    if m == k {
                        assert(sides[m] == old(self).planet_sides@[m]);
                    } else {
                        assert(lod_pass(
                            old(self).planet_sides@[m].quad_tree,
                            sides[m].quad_tree,
                            0,
                            camera,
                            before[m],
                            before[m + 1],
                        ));
                    }
                }
            }
            k = k + 1;
        }
        assert(planet_pass(*old(self), *self, camera, start, *queue, states));
    }

    /// The tree of `face`.
    pub fn side(&self, face: Face) -> (r: &TerrainQuadTree)
        requires
            self.wf(),
        ensures
            *r == self.tree_of(face),
    {
        let k = index_of_face(face);
        &self.planet_sides[k]
    }

    /// Records the scene object built for slot `node` of the tree of `face`.
    pub fn attach_entity(&mut self, face: Face, node: usize, entity: u64)
        requires
            old(self).wf(),
            node < old(self).tree_of(face).quad_tree.nodes@.len(),
        ensures
            final(self).wf(),
            forall|k: int|
                0 <= k < 6 && k != face_index(face) ==> #[trigger] final(self).planet_sides@[k] == old(self).planet_sides@[k],
            final(self).tree_of(face).quad_tree.nodes@.len() == old(self).tree_of(face).quad_tree.nodes@.len(),
            final(self).tree_of(face).quad_tree.nodes@[node as int].node.entity == Some(entity),
            forall|j: int|
                0 <= j < old(self).tree_of(face).quad_tree.nodes@.len() && j != node ==> final(self).tree_of(face).quad_tree.nodes@[j] == old(self).tree_of(face).quad_tree.nodes@[j],
    {
        let k = index_of_face(face);
        let ghost sides = self.planet_sides@;
        assert(sides[k as int].wf());
        self.planet_sides[k].attach_entity(node, entity);
        proof {
            assert(self.planet_sides@ == sides.update(k as int, self.planet_sides@[k as int]));
        }
    }

    /// The scene object of slot `node` of the tree of `face`, if any.
    pub fn entity(&self, face: Face, node: usize) -> (r: Option<u64>)
        requires
            self.wf(),
        ensures
            node < self.tree_of(face).quad_tree.nodes@.len() ==> r == self.tree_of(face).quad_tree.nodes@[node as int].node.entity,
            node >= self.tree_of(face).quad_tree.nodes@.len() ==> r is None,
    {
        let t = self.side(face);
        if node < t.quad_tree.len() {
            t.entity(node)
        } else {
            None
        }
    }

    /// The action for one request; see `action_for`.
    fn plan_one(&self, req: MeshRequest) -> (r: Option<MeshAction>)
        requires
            self.wf(),
        ensures
            r == self.action_for(req),
    {
        let t = &self.side(req.face).quad_tree;
        proof {
            assert(self.planet_sides@[face_index(req.face)].wf());
        }
        let j = req.node;
        if j >= t.len() {
            return None;
        }
        match req.kind {
            MeshRequestKind::Create => {
                if t.is_attached(j) {
                    let e = t.node(j);
                    let a = MeshAction::Build {
                        face: req.face,
                        node: j,
                        parent: t.parent(j),
                        center: e.center,
                        length: e.length,
                        scale: e.scale,
                    };
                    Some(a)
                } else {
                    None
                }
            },
            MeshRequestKind::Remove => {
                let reveal = match t.parent(j) {
                    Some(p) => {
                        if t.is_attached(p) && !t.has_children(p) {
                            Some(p)
                        } else {
                            None
                        }
                    },
                    None => None,
                };
                let a = MeshAction::Teardown { face: req.face, node: j, reveal };
                Some(a)
            },
        }
    }

    /// The actions for `requests`, in their order.
    pub fn plan(&self, requests: &Vec<MeshRequest>) -> (r: Vec<MeshAction>)
        requires
            self.wf(),
        ensures
            r@ == self.actions_for(requests@),
    {
        let mut out: Vec<MeshAction> = Vec::new();
        let mut k: usize = 0;
        while k < requests.len()
            invariant
                self.wf(),
                k <= requests@.len(),
                out@ == self.actions_for(requests@.take(k as int)),
            decreases requests@.len() - k,
        {
            let req = requests[k];
            proof {
                assert(requests@.take(k + 1).drop_last() =~= requests@.take(k as int));
                assert(requests@.take(k + 1).last() == req);
            }
            match self.plan_one(req) {
                Some(a) => out.push(a),
                None => {},
            }
            k = k + 1;
        }
        assert(requests@.take(requests@.len() as int) =~= requests@);
        out
    }

    /// Takes every queued request, oldest first, and returns the work for the
    /// scene that they call for.
    pub fn compute_meshes(&self, queue: &mut MeshComputer) -> (r: Vec<MeshAction>)
        requires
            self.wf(),
            old(queue).wf(),
        ensures
            r@ == self.actions_for(old(queue)@),
            final(queue).wf(),
            final(queue).capacity_spec() == old(queue).capacity_spec(),
            final(queue)@ == Seq::<MeshRequest>::empty(),
    {
        let requests = queue.drain();
        self.plan(&requests)
    }
}

} // verus!

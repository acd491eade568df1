//! Level-of-detail terrain for a cube-mapped planet: one quadtree of terrain
//! patches per cube face, a distance-driven split/merge policy, and a bounded
//! queue of mesh-build requests between the traversal and the mesh builder.
//!
//! Positions are integers in planet units: the base cube spans
//! `[-CUBE_HALF, CUBE_HALF]` on each axis, and a planet's `scale` is the number
//! of world units that `CUBE_HALF` planet units stand for.
use vstd::prelude::*;

pub mod face;
pub mod quad_tree;
pub mod mesh_queue;
pub mod terrain;
pub mod terrain_quad_tree;
pub mod planet;
pub mod indices;

use crate::mesh_queue::MeshComputer;
use crate::planet::Planet;
use crate::terrain_quad_tree::room;

verus! {

/// Grid cells along each side of a patch's mesh.
pub const MESH_SIZE: u32 = 16;

/// The subdivision ceiling of the planet that `SpaceCraftPlugin` sets up.
pub const PLANET_RADIUS: u8 = 10;

/// Marks the one camera whose position drives the level of detail.
#[derive(Clone, Copy, Debug, PartialEq, Eq, Structural)]
pub struct MainCamera;

/// The planet scene: its settings and its setup.
#[derive(Clone, Copy, Debug, PartialEq, Eq, Structural)]
pub struct SpaceCraftPlugin;

/// Two to the power `e`.
pub open spec fn two_to(e: nat) -> nat
    decreases e,
{
    if e == 0 {
        1
    } else {
        2 * two_to((e - 1) as nat)
    }
}

impl SpaceCraftPlugin {
    /// World units per `CUBE_HALF` planet units for a planet of `radius`:
    /// `MESH_SIZE` grid cells for each of the `2^(radius-1)` patches that
    /// span half an edge at the deepest level.
    pub fn planet_scale(radius: u8) -> (r: u32)
        requires
            1 <= radius <= 28,
        ensures
            r == two_to((radius - 1) as nat) * MESH_SIZE,
    {
        let mut r: u32 = MESH_SIZE;
        let mut k: u8 = 1;
        while k < radius
            invariant
                1 <= k <= radius <= 28,
                r == two_to((k - 1) as nat) * MESH_SIZE,
            decreases radius - k,
        {
            proof {
                lemma_two_to_monotone((k - 1) as nat, 26);
                lemma_two_to_26();
            }
            r = r * 2;
            k = k + 1;
        }
        r
    }

    /// Builds the planet and queues the creation of its six root patches.
    pub fn setup(queue: &mut MeshComputer) -> (r: Planet)
        requires
            old(queue).wf(),
            room(*old(queue)) >= 6,
        ensures
            r.wf(),
            forall|k: int|
                0 <= k < 6 ==> (#[trigger] r.planet_sides@[k]).scale() == two_to(
                    (PLANET_RADIUS - 1) as nat,
                ) * MESH_SIZE && r.planet_sides@[k].quad_tree.max_depth == PLANET_RADIUS,
            final(queue).wf(),
            final(queue)@.len() == old(queue)@.len() + 6,
    {
        let scale = SpaceCraftPlugin::planet_scale(PLANET_RADIUS);
        Planet::new(PLANET_RADIUS, scale, queue)
    }
}

proof fn lemma_two_to_26()
    ensures
        two_to(26) == 67108864,
{
    reveal_with_fuel(two_to, 27);
}

proof fn lemma_two_to_monotone(a: nat, b: nat)
    requires
        a <= b,
    ensures
        two_to(a) <= two_to(b),
    decreases b - a,
{
    if a < b {
        lemma_two_to_monotone(a, (b - 1) as nat);
    }
}

} // verus!

//! Terrain patches on one cube face: their geometry in planet units, and the
//! distance policy that splits and merges them.
use vstd::prelude::*;
use crate::face::{Face, Point3, CUBE_HALF};
use crate::quad_tree::{QuadTree, Quadrant, Splittable, TreeNode};

verus! {

/// The deepest level a face tree can reach: the side of a patch there is
/// still an even number of planet units.
pub const MAX_DEPTH: u8 = 30;

/// The side length of a root patch: the whole edge of the cube.
pub const ROOT_LENGTH: i64 = 2147483648;

/// How many half sides away from a patch's center the camera may be for the
/// patch to stay split.
pub const LOD_MULTIPLIER: i64 = 7;

/// The side length of a patch at `level`: halved at each level below the root.
pub open spec fn side_length(level: nat) -> int
    decreases 31 - level,
{
    if level >= 31 {
        1
    } else {
        2 * side_length(level + 1)
    }
}

pub proof fn lemma_side_length(level: nat)
    requires
        level <= MAX_DEPTH,
    ensures
        side_length(level) == 2 * side_length(level + 1),
        2 <= side_length(level) <= ROOT_LENGTH,
        level == 0 ==> side_length(level) == ROOT_LENGTH,
        level < MAX_DEPTH ==> side_length(level) == 4 * side_length(level + 2),
    decreases level,
{
    if level == 0 {
        reveal_with_fuel(side_length, 32);
        assert(side_length(0) == ROOT_LENGTH);
    } else {
        lemma_side_length((level - 1) as nat);
    }
    lemma_side_length_lower(level);
}

proof fn lemma_side_length_lower(level: nat)
    requires
        level <= 31,
    ensures
        side_length(level) >= 1,
        level <= MAX_DEPTH ==> side_length(level) >= 2,
    decreases 31 - level,
{
    if level < 31 {
        lemma_side_length_lower(level + 1);
    }
}

/// The coordinates of `c` along a face's outward normal and along the two
/// vectors of `perpendicular_vectors`.
pub open spec fn face_coords(face: Face, c: Point3) -> (int, int, int) {
    match face {
        Face::Top => (c.y as int, c.x as int, c.z as int),
        Face::Bottom => (-c.y, c.x as int, -c.z),
        Face::Left => (-c.x, c.y as int, c.z as int),
        Face::Right => (c.x as int, c.y as int, -c.z),
        Face::Front => (-c.z, c.x as int, c.y as int),
        Face::Back => (c.z as int, c.x as int, -c.y),
    }
}

/// `c` moved by `du` along the first and `dv` along the second in-face vector.
pub open spec fn offset_point(face: Face, c: Point3, du: int, dv: int) -> Point3 {
    match face {
        Face::Top => Point3 { x: (c.x + du) as i64, y: c.y, z: (c.z + dv) as i64 },
        Face::Bottom => Point3 { x: (c.x + du) as i64, y: c.y, z: (c.z - dv) as i64 },
        Face::Left => Point3 { x: c.x, y: (c.y + du) as i64, z: (c.z + dv) as i64 },
        Face::Right => Point3 { x: c.x, y: (c.y + du) as i64, z: (c.z - dv) as i64 },
        Face::Front => Point3 { x: (c.x + du) as i64, y: (c.y + dv) as i64, z: c.z },
        Face::Back => Point3 { x: (c.x + du) as i64, y: (c.y - dv) as i64, z: c.z },
    }
}

/// The signed in-face offset of a quadrant's center from its parent's center.
pub open spec fn quadrant_offset(quadrant: Quadrant, off: int) -> (int, int) {
    match quadrant {
        Quadrant::TopLeft => (-off, off),
        Quadrant::TopRight => (off, off),
        Quadrant::BottomLeft => (-off, -off),
        Quadrant::BottomRight => (off, -off),
    }
}

/// The center of the child in `quadrant` of a patch with center `center` and
/// side `length` on `face`: a quarter side along each in-face vector.
pub open spec fn child_center(center: Point3, length: int, face: Face, quadrant: Quadrant) -> Point3 {
    let (du, dv) = quadrant_offset(quadrant, length / 4);
    offset_point(face, center, du, dv)
}

pub open spec fn abs(v: int) -> int {
    if v < 0 {
        -v
    } else {
        v
    }
}

/// A patch with this center and side lies on the face, inside its edges.
pub open spec fn on_face(face: Face, center: Point3, length: int) -> bool {
    let (n, u, v) = face_coords(face, center);
    &&& n == CUBE_HALF
    &&& abs(u) + length / 2 <= CUBE_HALF
    &&& abs(v) + length / 2 <= CUBE_HALF
}

/// The payload of a terrain quadtree node.
#[derive(Clone, Copy, Debug, PartialEq, Eq, Structural)]
pub struct TerrainNode {
    /// Center of the patch on the cube's surface, in planet units.
    pub center: Point3,
    pub face: Face,
    /// Side length of the patch, in planet units.
    pub length: i64,
    /// World units per `CUBE_HALF` planet units.
    pub scale: u32,
    /// The scene object showing the patch, once its mesh was built.
    pub entity: Option<u64>,
}

impl Splittable for TerrainNode {
    open spec fn depth_limit() -> nat {
        MAX_DEPTH as nat
    }

    open spec fn valid_at(&self, level: nat) -> bool {
        &&& level <= MAX_DEPTH
        &&& self.length == side_length(level)
        &&& on_face(self.face, self.center, self.length as int)
    }

    open spec fn child_spec(&self, quadrant: Quadrant, level: nat) -> TerrainNode {
        TerrainNode {
            center: child_center(self.center, self.length as int, self.face, quadrant),
            face: self.face,
            length: (self.length / 2) as i64,
            scale: self.scale,
            entity: None,
        }
    }

    proof fn lemma_child_valid(&self, quadrant: Quadrant, level: nat) {
        lemma_side_length(level);
        lemma_side_length(level + 1);
    }

    fn split(&self, quadrant: Quadrant, level: u8) -> (r: TerrainNode) {
        proof {
            lemma_side_length((level - 1) as nat);
            lemma_side_length(level as nat);
        }
        let off = self.length / 4;
        let (du, dv) = match quadrant {
            Quadrant::TopLeft => (-off, off),
            Quadrant::TopRight => (off, off),
            Quadrant::BottomLeft => (-off, -off),
            Quadrant::BottomRight => (off, -off),
        };
        proof {
            assert(on_face(self.face, self.center, self.length as int));
        }
        let center = TerrainNode::compute_center_for_face(self.face, self.center, du, dv);
        TerrainNode { center, face: self.face, length: self.length / 2, scale: self.scale, entity: None }
    }
}

impl TerrainNode {
    /// `center` moved by `du` along the first and `dv` along the second
    /// in-face vector of `face`.
    pub fn compute_center_for_face(face: Face, center: Point3, du: i64, dv: i64) -> (r: Point3)
        requires
            -CUBE_HALF <= center.x <= CUBE_HALF,
            -CUBE_HALF <= center.y <= CUBE_HALF,
            -CUBE_HALF <= center.z <= CUBE_HALF,
            -CUBE_HALF <= du <= CUBE_HALF,
            -CUBE_HALF <= dv <= CUBE_HALF,
        ensures
            r == offset_point(face, center, du as int, dv as int),
    {
        let c = center;
        match face {
            Face::Top => Point3::new(c.x + du, c.y, c.z + dv),
            Face::Bottom => Point3::new(c.x + du, c.y, c.z - dv),
            Face::Left => Point3::new(c.x, c.y + du, c.z + dv),
            Face::Right => Point3::new(c.x, c.y + du, c.z - dv),
            Face::Front => Point3::new(c.x + du, c.y + dv, c.z),
            Face::Back => Point3::new(c.x + du, c.y - dv, c.z),
        }
    }

    /// The patch covering a whole face, centred where the face's normal
    /// meets it.
    pub fn root(face: Face, scale: u32) -> (r: TerrainNode)
        ensures
            r.valid_at(0),
            r.face == face,
            r.scale == scale,
            r.entity is None,
            r.length == ROOT_LENGTH,
            face_coords(face, r.center) == (CUBE_HALF as int, 0int, 0int),
    {
        proof {
            lemma_side_length(0);
        }
        let center = match face {
            Face::Top => Point3::new(0, CUBE_HALF, 0),
            Face::Bottom => Point3::new(0, -CUBE_HALF, 0),
            Face::Left => Point3::new(-CUBE_HALF, 0, 0),
            Face::Right => Point3::new(CUBE_HALF, 0, 0),
            Face::Front => Point3::new(0, 0, -CUBE_HALF),
            Face::Back => Point3::new(0, 0, CUBE_HALF),
        };
        TerrainNode { center, face, length: ROOT_LENGTH, scale, entity: None }
    }
}

/// The distance from a patch at `level` within which the camera keeps it split.
pub open spec fn threshold_spec(level: nat) -> int {
    LOD_MULTIPLIER * (side_length(level) / 2)
}

/// The squared distance between two points.
pub open spec fn dist2(a: Point3, b: Point3) -> int {
    (a.x - b.x) * (a.x - b.x) + (a.y - b.y) * (a.y - b.y) + (a.z - b.z) * (a.z - b.z)
}

/// The camera is close enough to a patch centred at `center` at `level` for
/// that patch to be split.
pub open spec fn near(camera: Point3, center: Point3, level: nat) -> bool {
    dist2(camera, center) <= threshold_spec(level) * threshold_spec(level)
}

/// The distance within which a patch at `level` stays split, in planet units.
pub fn threshold(level: u8) -> (r: i64)
    requires
        level <= MAX_DEPTH,
    ensures
        r == threshold_spec(level as nat),
{
    let mut side: i64 = ROOT_LENGTH;
    let mut k: u8 = 0;
    proof {
        lemma_side_length(0);
    }
    while k < level
        invariant
            k <= level <= MAX_DEPTH,
            side == side_length(k as nat),
        decreases level - k,
    {
        proof {
            lemma_side_length(k as nat);
        }
        side = side / 2;
        k = k + 1;
    }
    proof {
        lemma_side_length(level as nat);
    }
    LOD_MULTIPLIER * (side / 2)
}

/// A deeper level never has a larger threshold: the camera must come
/// strictly closer to keep a deeper patch split.
pub proof fn lemma_threshold_decreasing(a: nat, b: nat)
    requires
        a < b <= MAX_DEPTH,
    ensures
        threshold_spec(b) < threshold_spec(a),
    decreases b - a,
{
    lemma_side_length(a);
    lemma_side_length((b - 1) as nat);
    lemma_side_length(b);
    if a + 1 < b {
        lemma_threshold_decreasing(a, (b - 1) as nat);
    }
}

/// Whether the squared distance between `camera` and `center` is at most
/// `limit` squared.
fn within(camera: Point3, center: Point3, limit: i64) -> (r: bool)
    requires
        0 <= limit <= ROOT_LENGTH * LOD_MULTIPLIER,
        -CUBE_HALF <= center.x <= CUBE_HALF,
        -CUBE_HALF <= center.y <= CUBE_HALF,
        -CUBE_HALF <= center.z <= CUBE_HALF,
    ensures
        r == (dist2(camera, center) <= limit * limit),
{
    let dx: i128 = camera.x as i128 - center.x as i128;
    let dy: i128 = camera.y as i128 - center.y as i128;
    let dz: i128 = camera.z as i128 - center.z as i128;
    let l: i128 = limit as i128;
    proof {
        assert(dx * dx >= 0) by (nonlinear_arith);
        assert(dy * dy >= 0) by (nonlinear_arith);
        assert(dz * dz >= 0) by (nonlinear_arith);
    }
    if dx > l || -dx > l || dy > l || -dy > l || dz > l || -dz > l {
        proof {
            assert(l * l <= ROOT_LENGTH * LOD_MULTIPLIER * (ROOT_LENGTH * LOD_MULTIPLIER)) by (nonlinear_arith)
                requires
                    0 <= l <= ROOT_LENGTH * LOD_MULTIPLIER,
            ;
            if dx > l || -dx > l {
                assert(dx * dx > l * l) by (nonlinear_arith)
                    requires
                        dx > l || -dx > l,
                        l >= 0,
                ;
            } else if dy > l || -dy > l {
                assert(dy * dy > l * l) by (nonlinear_arith)
                    requires
                        dy > l || -dy > l,
                        l >= 0,
                ;
            } else {
                assert(dz * dz > l * l) by (nonlinear_arith)
                    requires
                        dz > l || -dz > l,
                        l >= 0,
                ;
            }
        }
        return false;
    }
    proof {
        assert(dx * dx <= l * l) by (nonlinear_arith)
            requires
                -l <= dx <= l,
        ;
        assert(dy * dy <= l * l) by (nonlinear_arith)
            requires
                -l <= dy <= l,
        ;
        assert(dz * dz <= l * l) by (nonlinear_arith)
            requires
                -l <= dz <= l,
        ;
        assert(l * l <= ROOT_LENGTH * LOD_MULTIPLIER * (ROOT_LENGTH * LOD_MULTIPLIER)) by (nonlinear_arith)
            requires
                0 <= l <= ROOT_LENGTH * LOD_MULTIPLIER,
        ;
    }
    dx * dx + dy * dy + dz * dz <= l * l
}

/// The camera is close enough to a patch for it to be split.
pub fn is_near(camera: Point3, node: &TerrainNode, level: u8) -> (r: bool)
    requires
        node.valid_at(level as nat),
    ensures
        r == near(camera, node.center, level as nat),
{
    proof {
        lemma_side_length(level as nat);
    }
    within(camera, node.center, LOD_MULTIPLIER * (node.length / 2))
}

} // verus!

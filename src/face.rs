//! Cube faces and integer points in planet units.
use vstd::prelude::*;

verus! {

/// Planet units per half edge of the base cube: the cube spans
/// `[-CUBE_HALF, CUBE_HALF]` on each axis.
pub const CUBE_HALF: i64 = 1073741824;

/// A point or a vector with integer coordinates in planet units.
#[derive(Clone, Copy, Debug, PartialEq, Eq, Structural)]
pub struct Point3 {
    pub x: i64,
    pub y: i64,
    pub z: i64,
}

impl Point3 {
    pub fn new(x: i64, y: i64, z: i64) -> (r: Point3)
        ensures
            r == (Point3 { x, y, z }),
    {
        Point3 { x, y, z }
    }
}

/// One of the six sides of the base cube.
#[derive(Clone, Copy, Debug, PartialEq, Eq, Structural)]
pub enum Face {
    Top,
    Bottom,
    Left,
    Right,
    Front,
    Back,
}

/// The unit outward normal of a face.
pub open spec fn direction_spec(face: Face) -> (int, int, int) {
    match face {
        Face::Top => (0, 1, 0),
        Face::Bottom => (0, -1, 0),
        Face::Left => (-1, 0, 0),
        Face::Right => (1, 0, 0),
        Face::Front => (0, 0, -1),
        Face::Back => (0, 0, 1),
    }
}

/// An orthogonal pair of unit vectors spanning the plane of a face.
pub open spec fn perpendicular_spec(face: Face) -> ((int, int, int), (int, int, int)) {
    match face {
        Face::Top => ((1, 0, 0), (0, 0, 1)),
        Face::Bottom => ((1, 0, 0), (0, 0, -1)),
        Face::Left => ((0, 1, 0), (0, 0, 1)),
        Face::Right => ((0, 1, 0), (0, 0, -1)),
        Face::Front => ((1, 0, 0), (0, 1, 0)),
        Face::Back => ((1, 0, 0), (0, -1, 0)),
    }
}

pub open spec fn point_of(v: (int, int, int)) -> Point3 {
    Point3 { x: v.0 as i64, y: v.1 as i64, z: v.2 as i64 }
}

impl Face {
    /// The unit outward normal of this face.
    pub fn direction_vector(&self) -> (r: Point3)
        ensures
            r == point_of(direction_spec(*self)),
    {
        match self {
            Face::Top => Point3::new(0, 1, 0),
            Face::Bottom => Point3::new(0, -1, 0),
            Face::Left => Point3::new(-1, 0, 0),
            Face::Right => Point3::new(1, 0, 0),
            Face::Front => Point3::new(0, 0, -1),
            Face::Back => Point3::new(0, 0, 1),
        }
    }

    /// Two orthogonal unit vectors in the plane of this face.
    pub fn perpendicular_vectors(&self) -> (r: (Point3, Point3))
        ensures
            r.0 == point_of(perpendicular_spec(*self).0),
            r.1 == point_of(perpendicular_spec(*self).1),
    {
        match self {
            Face::Top => (Point3::new(1, 0, 0), Point3::new(0, 0, 1)),
            Face::Bottom => (Point3::new(1, 0, 0), Point3::new(0, 0, -1)),
            Face::Left => (Point3::new(0, 1, 0), Point3::new(0, 0, 1)),
            Face::Right => (Point3::new(0, 1, 0), Point3::new(0, 0, -1)),
            Face::Front => (Point3::new(1, 0, 0), Point3::new(0, 1, 0)),
            Face::Back => (Point3::new(1, 0, 0), Point3::new(0, -1, 0)),
        }
    }
}

} // verus!

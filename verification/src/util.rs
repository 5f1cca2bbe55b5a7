use vstd::prelude::*;

verus! {

/// A position or direction in world space, measured in voxel units.
#[derive(Debug, Clone, Copy, PartialEq, Eq, Structural)]
pub struct WorldVec {
    pub x: i64,
    pub y: i64,
    pub z: i64,
}

impl WorldVec {
    pub fn new(x: i64, y: i64, z: i64) -> (r: WorldVec)
        ensures
            r == (WorldVec { x, y, z }),
    {
        WorldVec { x, y, z }
    }
}

/// One of the six axis-aligned faces of a cube-shaped chunk.
///
/// This single enumeration, together with `as_face_number`, fixes the face
/// ordering and the bit assignment used by the opacity mask everywhere in
/// the crate.
#[derive(Debug, Clone, Copy, PartialEq, Eq, Structural, Hash)]
pub enum Face {
    Left,
    Right,
    Bottom,
    Top,
    Back,
    Front,
}

impl Face {
    /// The face on the other side of the cube.
    pub open spec fn spec_opposite(self) -> Face {
        match self {
            Face::Left => Face::Right,
            Face::Right => Face::Left,
            Face::Bottom => Face::Top,
            Face::Top => Face::Bottom,
            Face::Back => Face::Front,
            Face::Front => Face::Back,
        }
    }

    pub fn opposite(&self) -> (r: Face)
        ensures
            r == self.spec_opposite(),
    {
        match self {
            Face::Left => Face::Right,
            Face::Right => Face::Left,
            Face::Bottom => Face::Top,
            Face::Top => Face::Bottom,
            Face::Back => Face::Front,
            Face::Front => Face::Back,
        }
    }

    /// The stable index of this face, used as its bit position in the
    /// opacity mask.
    pub open spec fn spec_face_number(self) -> int {
        match self {
            Face::Left => 0,
            Face::Right => 1,
            Face::Bottom => 2,
            Face::Top => 3,
            Face::Back => 4,
            Face::Front => 5,
        }
    }

    pub fn as_face_number(&self) -> (r: usize)
        ensures
            r == self.spec_face_number(),
    {
        match self {
            Face::Left => 0,
            Face::Right => 1,
            Face::Bottom => 2,
            Face::Top => 3,
            Face::Back => 4,
            Face::Front => 5,
        }
    }

    /// The stable index of this face; the same mapping as `as_face_number`.
    pub fn as_num(&self) -> (r: usize)
        ensures
            r == self.spec_face_number(),
    {
        self.as_face_number()
    }

    /// The outward unit normal of this face.
    pub open spec fn spec_normal(self) -> (int, int, int) {
        match self {
            Face::Left => (-1, 0, 0),
            Face::Right => (1, 0, 0),
            Face::Bottom => (0, -1, 0),
            Face::Top => (0, 1, 0),
            Face::Back => (0, 0, -1),
            Face::Front => (0, 0, 1),
        }
    }

    pub fn normal(&self) -> (r: WorldVec)
        ensures
            (r.x as int, r.y as int, r.z as int) == self.spec_normal(),
    {
        match self {
            Face::Left => WorldVec { x: -1, y: 0, z: 0 },
            Face::Right => WorldVec { x: 1, y: 0, z: 0 },
            Face::Bottom => WorldVec { x: 0, y: -1, z: 0 },
            Face::Top => WorldVec { x: 0, y: 1, z: 0 },
            Face::Back => WorldVec { x: 0, y: 0, z: -1 },
            Face::Front => WorldVec { x: 0, y: 0, z: 1 },
        }
    }
}

/// Taking the opposite face twice gives the original face back.
pub proof fn lemma_opposite_involution(f: Face)
    ensures
        f.spec_opposite().spec_opposite() == f,
{
}

} // verus!

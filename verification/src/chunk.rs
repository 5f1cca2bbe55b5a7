use vstd::prelude::*;

use crate::octree::VoxelOctree;
use crate::util::{Face, WorldVec};
use crate::voxel::{OptionalVoxel, Voxel};

verus! {

/// Edge length of a chunk in voxels; a fixed power of two.
pub const CHUNK_SIZE: usize = 16;

/// Position of a chunk on the world grid, in chunk units.
#[derive(Debug, Clone, Copy, PartialEq, Eq, Structural, Hash)]
pub struct ChunkPosition {
    pub x: i32,
    pub y: i32,
    pub z: i32,
}

impl View for ChunkPosition {
    type V = (int, int, int);

    open spec fn view(&self) -> (int, int, int) {
        (self.x as int, self.y as int, self.z as int)
    }
}

/// The grid position one step from `p` through face `f`.
pub open spec fn spec_neighbor(p: (int, int, int), f: Face) -> (int, int, int) {
    match f {
        Face::Left => (p.0 - 1, p.1, p.2),
        Face::Right => (p.0 + 1, p.1, p.2),
        Face::Bottom => (p.0, p.1 - 1, p.2),
        Face::Top => (p.0, p.1 + 1, p.2),
        Face::Back => (p.0, p.1, p.2 - 1),
        Face::Front => (p.0, p.1, p.2 + 1),
    }
}

/// Squared Euclidean distance between two grid positions.
pub open spec fn spec_dist2(a: (int, int, int), b: (int, int, int)) -> int {
    (a.0 - b.0) * (a.0 - b.0) + (a.1 - b.1) * (a.1 - b.1) + (a.2 - b.2) * (a.2 - b.2)
}

impl ChunkPosition {
    pub fn new(x: i32, y: i32, z: i32) -> (r: Self)
        ensures
            r == (ChunkPosition { x, y, z }),
    {
        ChunkPosition { x, y, z }
    }

    /// The chunk that contains a world position: component-wise flooring
    /// division by the chunk edge length, so that negative coordinates map
    /// to the correct chunk.
    pub fn from_world_position(pos: WorldVec) -> (r: ChunkPosition)
        requires
            i32::MIN * (CHUNK_SIZE as int) <= pos.x < (i32::MAX + 1) * (CHUNK_SIZE as int),
            i32::MIN * (CHUNK_SIZE as int) <= pos.y < (i32::MAX + 1) * (CHUNK_SIZE as int),
            i32::MIN * (CHUNK_SIZE as int) <= pos.z < (i32::MAX + 1) * (CHUNK_SIZE as int),
        ensures
            r.x as int * CHUNK_SIZE <= pos.x < r.x as int * CHUNK_SIZE + CHUNK_SIZE,
            r.y as int * CHUNK_SIZE <= pos.y < r.y as int * CHUNK_SIZE + CHUNK_SIZE,
            r.z as int * CHUNK_SIZE <= pos.z < r.z as int * CHUNK_SIZE + CHUNK_SIZE,
    {
        let x = floor_div_chunk(pos.x);
        let y = floor_div_chunk(pos.y);
        let z = floor_div_chunk(pos.z);
        ChunkPosition { x: x as i32, y: y as i32, z: z as i32 }
    }

    /// The world position of this chunk's origin corner.
    pub fn as_world_position(&self) -> (r: WorldVec)
        ensures
            r.x == self.x as int * CHUNK_SIZE,
            r.y == self.y as int * CHUNK_SIZE,
            r.z == self.z as int * CHUNK_SIZE,
    {
        WorldVec {
            x: (self.x as i64) * (CHUNK_SIZE as i64),
            y: (self.y as i64) * (CHUNK_SIZE as i64),
            z: (self.z as i64) * (CHUNK_SIZE as i64),
        }
    }

    /// Converts a position relative to the chunk to a position in the world.
    pub fn inner_to_world_position(&self, x: usize, y: usize, z: usize) -> (r: WorldVec)
        requires
            x < CHUNK_SIZE,
            y < CHUNK_SIZE,
            z < CHUNK_SIZE,
        ensures
            r.x == self.x as int * CHUNK_SIZE + x,
            r.y == self.y as int * CHUNK_SIZE + y,
            r.z == self.z as int * CHUNK_SIZE + z,
    {
        WorldVec {
            x: (self.x as i64) * (CHUNK_SIZE as i64) + (x as i64),
            y: (self.y as i64) * (CHUNK_SIZE as i64) + (y as i64),
            z: (self.z as i64) * (CHUNK_SIZE as i64) + (z as i64),
        }
    }

    /// Converts a position in the world to a position relative to the chunk.
    pub fn world_to_inner_position(&self, pos: WorldVec) -> (r: WorldVec)
        requires
            i64::MIN <= pos.x - self.x as int * CHUNK_SIZE <= i64::MAX,
            i64::MIN <= pos.y - self.y as int * CHUNK_SIZE <= i64::MAX,
            i64::MIN <= pos.z - self.z as int * CHUNK_SIZE <= i64::MAX,
        ensures
            r.x == pos.x - self.x as int * CHUNK_SIZE,
            r.y == pos.y - self.y as int * CHUNK_SIZE,
            r.z == pos.z - self.z as int * CHUNK_SIZE,
    {
        WorldVec {
            x: pos.x - (self.x as i64) * (CHUNK_SIZE as i64),
            y: pos.y - (self.y as i64) * (CHUNK_SIZE as i64),
            z: pos.z - (self.z as i64) * (CHUNK_SIZE as i64),
        }
    }

    /// The six adjacent grid positions, each paired with the face of this
    /// chunk that it touches, in the fixed face order.
    pub fn neighbors(&self) -> (r: Vec<(ChunkPosition, Face)>)
        requires
            i32::MIN < self.x < i32::MAX,
            i32::MIN < self.y < i32::MAX,
            i32::MIN < self.z < i32::MAX,
        ensures
            r@.len() == 6,
            forall|k: int|
                0 <= k < 6 ==> (#[trigger] r@[k].1).spec_face_number() == k && r@[k].0@
                    == spec_neighbor(self@, r@[k].1),
    {
        let r: Vec<(ChunkPosition, Face)> = vec![
            (ChunkPosition::new(self.x - 1, self.y, self.z), Face::Left),
            (ChunkPosition::new(self.x + 1, self.y, self.z), Face::Right),
            (ChunkPosition::new(self.x, self.y - 1, self.z), Face::Bottom),
            (ChunkPosition::new(self.x, self.y + 1, self.z), Face::Top),
            (ChunkPosition::new(self.x, self.y, self.z - 1), Face::Back),
            (ChunkPosition::new(self.x, self.y, self.z + 1), Face::Front),
        ];
        r
    }

    /// Squared Euclidean distance to another chunk position, measured in
    /// chunk units. Comparing it against a squared threshold orders
    /// distances exactly as the Euclidean distance itself would.
    pub fn distance_squared_to(&self, other: &ChunkPosition) -> (r: u128)
        ensures
            r == spec_dist2(self@, other@),
    {
        let dx = (self.x as i128) - (other.x as i128);
        let dy = (self.y as i128) - (other.y as i128);
        let dz = (self.z as i128) - (other.z as i128);
        proof {
            lemma_square_bound(dx as int);
            lemma_square_bound(dy as int);
            lemma_square_bound(dz as int);
        }
        (dx * dx + dy * dy + dz * dz) as u128
    }
}

/// Flooring division of a world coordinate by the chunk edge length.
fn floor_div_chunk(a: i64) -> (r: i64)
    ensures
        r * CHUNK_SIZE <= a < r * CHUNK_SIZE + CHUNK_SIZE,
{
    if a >= 0 {
        let q = (a as u64) / (CHUNK_SIZE as u64);
        proof {
            vstd::arithmetic::div_mod::lemma_fundamental_div_mod(a as int, CHUNK_SIZE as int);
            vstd::arithmetic::div_mod::lemma_mod_bound(a as int, CHUNK_SIZE as int);
        }
        q as i64
    } else {
        let b = -(a + 1);
        let q = (b as u64) / (CHUNK_SIZE as u64);
        proof {
            vstd::arithmetic::div_mod::lemma_fundamental_div_mod(b as int, CHUNK_SIZE as int);
            vstd::arithmetic::div_mod::lemma_mod_bound(b as int, CHUNK_SIZE as int);
        }
        -(q as i64) - 1
    }
}

/// The square of a coordinate difference is non-negative and small enough
/// that a sum of three of them fits the machine's widest integer.
proof fn lemma_square_bound(d: int)
    requires
        -0x1_0000_0000 <= d <= 0x1_0000_0000,
    ensures
        0 <= d * d <= 0x1_0000_0000_0000_0000,
{
    assert(0 <= d * d <= 0x1_0000_0000_0000_0000) by (nonlinear_arith)
        requires
            -0x1_0000_0000 <= d <= 0x1_0000_0000,
    ;
}

/// Stepping to a neighbor and then stepping back through the opposite face
/// returns to the starting position.
pub proof fn lemma_neighbor_opposite(p: (int, int, int), f: Face)
    ensures
        spec_neighbor(spec_neighbor(p, f), f.spec_opposite()) == p,
{
}

/// The voxel that a chunk-content map holds at a coordinate, with the
/// default-empty reading for coordinates never written.
pub open spec fn map_voxel_at(m: Map<(int, int, int), Voxel>, p: (int, int, int)) -> Voxel {
    if m.contains_key(p) {
        m[p]
    } else {
        Voxel::Empty
    }
}

/// The boundary voxel of face `f` indexed by plane coordinates `(i, j)`.
pub open spec fn face_cell(f: Face, i: int, j: int) -> (int, int, int) {
    match f {
        Face::Left => (0int, i, j),
        Face::Right => (CHUNK_SIZE - 1, i, j),
        Face::Bottom => (i, 0int, j),
        Face::Top => (i, CHUNK_SIZE - 1, j),
        Face::Back => (i, j, 0int),
        Face::Front => (i, j, CHUNK_SIZE - 1),
    }
}

/// Whether every boundary voxel on face `f` of the given chunk contents is
/// fully opaque.
pub open spec fn plane_opaque(m: Map<(int, int, int), Voxel>, f: Face) -> bool {
    forall|i: int, j: int|
        0 <= i < CHUNK_SIZE && 0 <= j < CHUNK_SIZE ==> (#[trigger] map_voxel_at(
            m,
            face_cell(f, i, j),
        )).spec_is_opaque()
}

/// Which bit of an opacity mask stands for a face.
spec fn spec_mask_bit(mask: u8, f: Face) -> bool {
    match f {
        Face::Left => mask & 1u8 != 0,
        Face::Right => mask & 2u8 != 0,
        Face::Bottom => mask & 4u8 != 0,
        Face::Top => mask & 8u8 != 0,
        Face::Back => mask & 16u8 != 0,
        Face::Front => mask & 32u8 != 0,
    }
}

/// A cube-shaped region of the voxel world: a sparse voxel store, the
/// region's grid position, and a six-bit summary of which faces are fully
/// opaque.
#[derive(Debug)]
pub struct Chunk {
    /// Position of the chunk in world space (in chunk units).
    pub position: ChunkPosition,
    /// Octree containing voxels.
    octree: VoxelOctree<Voxel>,
    /// Bitmask of which chunk faces are fully opaque, one bit per face in
    /// the fixed face order; 1 means opaque.
    opaque_faces: u8,
}

impl Chunk {
    /// The voxel store is well-formed and has the chunk edge length.
    pub closed spec fn wf(self) -> bool {
        &&& self.octree.wf()
        &&& self.octree.spec_size() == CHUNK_SIZE
    }

    /// The chunk's grid position, for use in contracts.
    pub closed spec fn spec_position(self) -> ChunkPosition {
        self.position
    }

    /// The voxels this chunk holds, keyed by local coordinate.
    pub closed spec fn voxels(self) -> Map<(int, int, int), Voxel> {
        self.octree@
    }

    /// The voxel at a local coordinate, default-empty.
    pub open spec fn spec_voxel_at(self, x: int, y: int, z: int) -> Voxel {
        map_voxel_at(self.voxels(), (x, y, z))
    }

    /// The stored voxel at a local coordinate, or `None` where nothing was
    /// ever written.
    pub open spec fn spec_voxel_lookup(self, x: int, y: int, z: int) -> Option<Voxel> {
        if self.voxels().contains_key((x, y, z)) {
            Some(self.voxels()[(x, y, z)])
        } else {
            None
        }
    }

    /// What the chunk's opacity mask reports for a face.
    pub closed spec fn spec_face_opaque(self, f: Face) -> bool {
        spec_mask_bit(self.opaque_faces, f)
    }

    /// The chunk's grid position.
    pub fn position(&self) -> (r: ChunkPosition)
        ensures
            r == self.spec_position(),
    {
        self.position
    }

    /// A chunk at the given grid position with no voxels set and an
    /// all-clear opacity mask.
    pub fn new(position: ChunkPosition) -> (r: Chunk)
        ensures
            r.wf(),
            r.spec_position() == position,
            r.voxels() == Map::<(int, int, int), Voxel>::empty(),
            forall|f: Face| !r.spec_face_opaque(f),
    {
        proof {
            assert(crate::octree::spec_is_pow2(1));
            assert(crate::octree::spec_is_pow2(2));
            assert(crate::octree::spec_is_pow2(4));
            assert(crate::octree::spec_is_pow2(8));
            assert(crate::octree::spec_is_pow2(16));
        }
        let octree = VoxelOctree::<Voxel>::new(CHUNK_SIZE).unwrap();
        let r = Chunk { position, octree, opaque_faces: 0 };
        proof {
            lemma_zero_mask_clear();
        }
        r
    }

    /// A chunk at the given grid position; the same as `new`.
    pub fn at(position: ChunkPosition) -> (r: Chunk)
        ensures
            r.wf(),
            r.spec_position() == position,
            r.voxels() == Map::<(int, int, int), Voxel>::empty(),
            forall|f: Face| !r.spec_face_opaque(f),
    {
        Chunk::new(position)
    }

    /// Write a voxel at a local coordinate. The opacity mask is left as it
    /// was; recompute it once the chunk's contents are complete.
    pub fn insert(&mut self, x: usize, y: usize, z: usize, voxel: Voxel)
        requires
            old(self).wf(),
            x < CHUNK_SIZE,
            y < CHUNK_SIZE,
            z < CHUNK_SIZE,
        ensures
            final(self).wf(),
            final(self).spec_position() == old(self).spec_position(),
            final(self).voxels() == old(self).voxels().insert(
                (x as int, y as int, z as int),
                voxel,
            ),
            forall|f: Face|
                final(self).spec_face_opaque(f) == old(self).spec_face_opaque(f),
    {
        self.octree.insert(x, y, z, voxel);
    }

    /// Read the voxel at a local coordinate; `None` where nothing was ever
    /// written.
    pub fn get(&self, x: usize, y: usize, z: usize) -> (r: Option<Voxel>)
        requires
            self.wf(),
            x < CHUNK_SIZE,
            y < CHUNK_SIZE,
            z < CHUNK_SIZE,
        ensures
            r == self.spec_voxel_lookup(x as int, y as int, z as int),
    {
        match self.octree.get_value(x, y, z) {
            Some(v) => Some(*v),
            None => None,
        }
    }

    /// Whether every boundary voxel on one face is fully opaque, by
    /// scanning that face's plane.
    fn face_fully_opaque(&self, face: Face) -> (r: bool)
        requires
            self.wf(),
        ensures
            r == plane_opaque(self.voxels(), face),
    {
        let mut i: usize = 0;
        while i < CHUNK_SIZE
            invariant
                self.wf(),
                i <= CHUNK_SIZE,
                forall|a: int, b: int|
                    0 <= a < i && 0 <= b < CHUNK_SIZE ==> (#[trigger] map_voxel_at(
                        self.voxels(),
                        face_cell(face, a, b),
                    )).spec_is_opaque(),
            decreases CHUNK_SIZE - i,
        {
            let mut j: usize = 0;
            while j < CHUNK_SIZE
                invariant
                    self.wf(),
                    i < CHUNK_SIZE,
                    j <= CHUNK_SIZE,
                    forall|a: int, b: int|
                        0 <= a < i && 0 <= b < CHUNK_SIZE ==> (#[trigger] map_voxel_at(
                            self.voxels(),
                            face_cell(face, a, b),
                        )).spec_is_opaque(),
                    forall|b: int|
                        0 <= b < j ==> (#[trigger] map_voxel_at(
                            self.voxels(),
                            face_cell(face, i as int, b),
                        )).spec_is_opaque(),
                decreases CHUNK_SIZE - j,
            {
                let (x, y, z) = match face {
                    Face::Left => (0usize, i, j),
                    Face::Right => (CHUNK_SIZE - 1, i, j),
                    Face::Bottom => (i, 0usize, j),
                    Face::Top => (i, CHUNK_SIZE - 1, j),
                    Face::Back => (i, j, 0usize),
                    Face::Front => (i, j, CHUNK_SIZE - 1),
                };
                proof {
                    assert(face_cell(face, i as int, j as int) == (
                        x as int,
                        y as int,
                        z as int,
                    ));
                }
                let opaque = match self.get(x, y, z) {
                    Some(v) => v.is_opaque(),
                    None => false,
                };
                if !opaque {
                    proof {
                        assert(!map_voxel_at(
                            self.voxels(),
                            face_cell(face, i as int, j as int),
                        ).spec_is_opaque());
                    }
                    return false;
                }
                j += 1;
            }
            i += 1;
        }
        true
    }

    /// Recalculates which faces are fully opaque for later use in culling.
    pub fn recalculate_opaque_faces(&mut self)
        requires
            old(self).wf(),
        ensures
            final(self).wf(),
            final(self).spec_position() == old(self).spec_position(),
            final(self).voxels() == old(self).voxels(),
            forall|f: Face|
                #[trigger] final(self).spec_face_opaque(f) == plane_opaque(
                    old(self).voxels(),
                    f,
                ),
    {
        let left = self.face_fully_opaque(Face::Left);
        let right = self.face_fully_opaque(Face::Right);
        let bottom = self.face_fully_opaque(Face::Bottom);
        let top = self.face_fully_opaque(Face::Top);
        let back = self.face_fully_opaque(Face::Back);
        let front = self.face_fully_opaque(Face::Front);
        self.opaque_faces = pack_mask(left, right, bottom, top, back, front);
        proof {
            assert forall|f: Face|
                #[trigger] self.spec_face_opaque(f) == plane_opaque(old(self).voxels(), f) by {
                match f {
                    Face::Left => {},
                    Face::Right => {},
                    Face::Bottom => {},
                    Face::Top => {},
                    Face::Back => {},
                    Face::Front => {},
                }
            }
        }
    }

    /// Check whether the opacity mask reports the given face as fully
    /// opaque.
    pub fn is_face_opaque(&self, face: Face) -> (r: bool)
        ensures
            r == self.spec_face_opaque(face),
    {
        let n = face.as_face_number();
        let r = (self.opaque_faces >> (n as u8)) & 1 == 1;
        proof {
            let m = self.opaque_faces;
            match face {
                Face::Left => {
                    assert((m >> 0u8) & 1 == 1 <==> m & 1u8 != 0) by (bit_vector);
                },
                Face::Right => {
                    assert((m >> 1u8) & 1 == 1 <==> m & 2u8 != 0) by (bit_vector);
                },
                Face::Bottom => {
                    assert((m >> 2u8) & 1 == 1 <==> m & 4u8 != 0) by (bit_vector);
                },
                Face::Top => {
                    assert((m >> 3u8) & 1 == 1 <==> m & 8u8 != 0) by (bit_vector);
                },
                Face::Back => {
                    assert((m >> 4u8) & 1 == 1 <==> m & 16u8 != 0) by (bit_vector);
                },
                Face::Front => {
                    assert((m >> 5u8) & 1 == 1 <==> m & 32u8 != 0) by (bit_vector);
                },
            }
        }
        r
    }

    /// The grid position of the chunk on the other side of the given face.
    pub fn get_neighbor_position(&self, face: Face) -> (r: ChunkPosition)
        requires
            i32::MIN < self.spec_position().x < i32::MAX,
            i32::MIN < self.spec_position().y < i32::MAX,
            i32::MIN < self.spec_position().z < i32::MAX,
        ensures
            r@ == spec_neighbor(self.spec_position()@, face),
    {
        let p = self.position;
        match face {
            Face::Left => ChunkPosition::new(p.x - 1, p.y, p.z),
            Face::Right => ChunkPosition::new(p.x + 1, p.y, p.z),
            Face::Bottom => ChunkPosition::new(p.x, p.y - 1, p.z),
            Face::Top => ChunkPosition::new(p.x, p.y + 1, p.z),
            Face::Back => ChunkPosition::new(p.x, p.y, p.z - 1),
            Face::Front => ChunkPosition::new(p.x, p.y, p.z + 1),
        }
    }

    /// Converts inner position to world position.
    pub fn inner_to_world_position(&self, x: usize, y: usize, z: usize) -> (r: WorldVec)
        requires
            x < CHUNK_SIZE,
            y < CHUNK_SIZE,
            z < CHUNK_SIZE,
        ensures
            r.x == self.spec_position().x as int * CHUNK_SIZE + x,
            r.y == self.spec_position().y as int * CHUNK_SIZE + y,
            r.z == self.spec_position().z as int * CHUNK_SIZE + z,
    {
        self.position.inner_to_world_position(x, y, z)
    }

    /// Converts world position to inner position.
    pub fn world_to_inner_position(&self, pos: WorldVec) -> (r: WorldVec)
        requires
            i64::MIN <= pos.x - self.spec_position().x as int * CHUNK_SIZE <= i64::MAX,
            i64::MIN <= pos.y - self.spec_position().y as int * CHUNK_SIZE <= i64::MAX,
            i64::MIN <= pos.z - self.spec_position().z as int * CHUNK_SIZE <= i64::MAX,
        ensures
            r.x == pos.x - self.spec_position().x as int * CHUNK_SIZE,
            r.y == pos.y - self.spec_position().y as int * CHUNK_SIZE,
            r.z == pos.z - self.spec_position().z as int * CHUNK_SIZE,
    {
        self.position.world_to_inner_position(pos)
    }

    /// The index of a local coordinate in a dense row-major layout.
    pub fn linearize_position(x: usize, y: usize, z: usize) -> (r: usize)
        requires
            x < CHUNK_SIZE,
            y < CHUNK_SIZE,
            z < CHUNK_SIZE,
        ensures
            r == x + y * CHUNK_SIZE + z * CHUNK_SIZE * CHUNK_SIZE,
            r < CHUNK_SIZE * CHUNK_SIZE * CHUNK_SIZE,
    {
        x + y * CHUNK_SIZE + z * CHUNK_SIZE * CHUNK_SIZE
    }

    /// The local coordinate whose dense row-major index is `index`; the
    /// inverse of `linearize_position`.
    pub fn delinearize_position(index: usize) -> (r: (usize, usize, usize))
        requires
            index < CHUNK_SIZE * CHUNK_SIZE * CHUNK_SIZE,
        ensures
            r.0 < CHUNK_SIZE,
            r.1 < CHUNK_SIZE,
            r.2 < CHUNK_SIZE,
            r.0 + r.1 * CHUNK_SIZE + r.2 * CHUNK_SIZE * CHUNK_SIZE == index,
    {
        let x = index % CHUNK_SIZE;
        let y = (index / CHUNK_SIZE) % CHUNK_SIZE;
        let z = index / CHUNK_SIZE / CHUNK_SIZE;
        (x, y, z)
    }

    /// A dense snapshot of the chunk's voxels with a one-cell empty border
    /// on all sides, laid out row-major over the padded extent. This is the
    /// input that surface extraction by greedy quad merging consumes.
    pub fn padded_voxels(&self) -> (r: Vec<OptionalVoxel>)
        requires
            self.wf(),
        ensures
            r@.len() == (CHUNK_SIZE + 2) * (CHUNK_SIZE + 2) * (CHUNK_SIZE + 2),
            forall|x: int, y: int, z: int|
                0 <= x < CHUNK_SIZE && 0 <= y < CHUNK_SIZE && 0 <= z < CHUNK_SIZE ==> r@[
                    padded_index(x + 1, y + 1, z + 1)
                ] == OptionalVoxel::spec_from_option(#[trigger] self.spec_voxel_lookup(x, y, z)),
            forall|x: int, y: int, z: int|
                0 <= x < CHUNK_SIZE + 2 && 0 <= y < CHUNK_SIZE + 2 && 0 <= z < CHUNK_SIZE + 2
                    && on_padding_border(x, y, z) ==> r@[#[trigger] padded_index(x, y, z)]
                    == OptionalVoxel::Empty,
    {
        proof {
            lemma_padded_dims();
        }
        let p = CHUNK_SIZE + 2;
        let total = p * p * p;
        let mut buf: Vec<OptionalVoxel> = Vec::new();
        while buf.len() < total
            invariant
                buf@.len() <= total,
                total == (CHUNK_SIZE + 2) * (CHUNK_SIZE + 2) * (CHUNK_SIZE + 2),
                forall|k: int| 0 <= k < buf@.len() ==> buf@[k] == OptionalVoxel::Empty,
            decreases total - buf@.len(),
        {
            buf.push(OptionalVoxel::Empty);
        }
        let mut x: usize = 0;
        while x < CHUNK_SIZE
            invariant
                self.wf(),
                x <= CHUNK_SIZE,
                buf@.len() == (CHUNK_SIZE + 2) * (CHUNK_SIZE + 2) * (CHUNK_SIZE + 2),
                forall|a: int, b: int, c: int|
                    0 <= a < CHUNK_SIZE && 0 <= b < CHUNK_SIZE && 0 <= c < CHUNK_SIZE && a < x
                        ==> buf@[padded_index(a + 1, b + 1, c + 1)]
                        == OptionalVoxel::spec_from_option(
                        #[trigger] self.spec_voxel_lookup(a, b, c),
                    ),
                forall|a: int, b: int, c: int|
                    0 <= a < CHUNK_SIZE + 2 && 0 <= b < CHUNK_SIZE + 2 && 0 <= c < CHUNK_SIZE + 2
                        && !(1 <= a < CHUNK_SIZE + 1 && 1 <= b < CHUNK_SIZE + 1 && 1 <= c
                        < CHUNK_SIZE + 1) ==> buf@[#[trigger] padded_index(a, b, c)]
                        == OptionalVoxel::Empty,
            decreases CHUNK_SIZE - x,
        {
            let mut y: usize = 0;
            while y < CHUNK_SIZE
                invariant
                    self.wf(),
                    x < CHUNK_SIZE,
                    y <= CHUNK_SIZE,
                    buf@.len() == (CHUNK_SIZE + 2) * (CHUNK_SIZE + 2) * (CHUNK_SIZE + 2),
                    forall|a: int, b: int, c: int|
                        0 <= a < CHUNK_SIZE && 0 <= b < CHUNK_SIZE && 0 <= c < CHUNK_SIZE && (a < x
                            || (a == x && b < y)) ==> buf@[padded_index(a + 1, b + 1, c + 1)]
                            == OptionalVoxel::spec_from_option(
                            #[trigger] self.spec_voxel_lookup(a, b, c),
                        ),
                    forall|a: int, b: int, c: int|
                        0 <= a < CHUNK_SIZE + 2 && 0 <= b < CHUNK_SIZE + 2 && 0 <= c < CHUNK_SIZE
                            + 2 && !(1 <= a < CHUNK_SIZE + 1 && 1 <= b < CHUNK_SIZE + 1 && 1 <= c
                            < CHUNK_SIZE + 1) ==> buf@[#[trigger] padded_index(a, b, c)]
                            == OptionalVoxel::Empty,
                decreases CHUNK_SIZE - y,
            {
                let mut z: usize = 0;
                while z < CHUNK_SIZE
                    invariant
                        self.wf(),
                        x < CHUNK_SIZE,
                        y < CHUNK_SIZE,
                        z <= CHUNK_SIZE,
                        buf@.len() == (CHUNK_SIZE + 2) * (CHUNK_SIZE + 2) * (CHUNK_SIZE + 2),
                        forall|a: int, b: int, c: int|
                            0 <= a < CHUNK_SIZE && 0 <= b < CHUNK_SIZE && 0 <= c < CHUNK_SIZE && (a
                                < x || (a == x && b < y) || (a == x && b == y && c < z)) ==> buf@[
                                padded_index(a + 1, b + 1, c + 1)
                            ] == OptionalVoxel::spec_from_option(
                                #[trigger] self.spec_voxel_lookup(a, b, c),
                            ),
                        forall|a: int, b: int, c: int|
                            0 <= a < CHUNK_SIZE + 2 && 0 <= b < CHUNK_SIZE + 2 && 0 <= c
                                < CHUNK_SIZE + 2 && !(1 <= a < CHUNK_SIZE + 1 && 1 <= b
                                < CHUNK_SIZE + 1 && 1 <= c < CHUNK_SIZE + 1) ==> buf@[
                                #[trigger] padded_index(a, b, c)
                            ] == OptionalVoxel::Empty,
                    decreases CHUNK_SIZE - z,
                {
                    proof {
                        lemma_padded_dims();
                    }
                    let idx = (x + 1) + (CHUNK_SIZE + 2) * (y + 1) + (CHUNK_SIZE + 2) * (CHUNK_SIZE
                        + 2) * (z + 1);
                    proof {
                        assert(idx == padded_index(x + 1, y + 1, z + 1));
                        assert(idx < buf@.len());
                    }
                    let cell = OptionalVoxel::from(self.get(x, y, z));
                    buf[idx] = cell;
                    proof {
                        assert forall|a: int, b: int, c: int|
                            0 <= a < CHUNK_SIZE + 2 && 0 <= b < CHUNK_SIZE + 2 && 0 <= c
                                < CHUNK_SIZE + 2 && padded_index(a, b, c) == idx implies a == x + 1
                            && b == y + 1 && c == z + 1 by {
                            lemma_padded_index_injective(a, b, c, x + 1, y + 1, z + 1);
                        }
                    }
                    z += 1;
                }
                y += 1;
            }
            x += 1;
        }
        buf
    }

    /// A chunk at the grid origin whose twelve cube edges are filled with
    /// opaque voxels and whose other cells are empty.
    pub fn outlined() -> (r: Chunk)
        ensures
            r.wf(),
            r.spec_position() == (ChunkPosition { x: 0, y: 0, z: 0 }),
            forall|a: int, b: int, c: int|
                0 <= a < CHUNK_SIZE && 0 <= b < CHUNK_SIZE && 0 <= c < CHUNK_SIZE
                    ==> #[trigger] r.spec_voxel_at(a, b, c) == (if edge_cell(a, b, c) {
                    Voxel::NonEmpty { is_opaque: true }
                } else {
                    Voxel::Empty
                }),
            forall|f: Face| !r.spec_face_opaque(f),
    {
        let mut chunk = Chunk::new(ChunkPosition::new(0, 0, 0));
        let mut x: usize = 0;
        while x < CHUNK_SIZE
            invariant
                chunk.wf(),
                x <= CHUNK_SIZE,
                chunk.spec_position() == (ChunkPosition { x: 0, y: 0, z: 0 }),
                forall|f: Face| !chunk.spec_face_opaque(f),
                forall|a: int, b: int, c: int|
                    0 <= a < CHUNK_SIZE && 0 <= b < CHUNK_SIZE && 0 <= c < CHUNK_SIZE
                        ==> #[trigger] chunk.spec_voxel_at(a, b, c) == (if a < x && edge_cell(
                        a,
                        b,
                        c,
                    ) {
                        Voxel::NonEmpty { is_opaque: true }
                    } else {
                        Voxel::Empty
                    }),
            decreases CHUNK_SIZE - x,
        {
            let mut y: usize = 0;
            while y < CHUNK_SIZE
                invariant
                    chunk.wf(),
                    x < CHUNK_SIZE,
                    y <= CHUNK_SIZE,
                    chunk.spec_position() == (ChunkPosition { x: 0, y: 0, z: 0 }),
                    forall|f: Face| !chunk.spec_face_opaque(f),
                    forall|a: int, b: int, c: int|
                        0 <= a < CHUNK_SIZE && 0 <= b < CHUNK_SIZE && 0 <= c < CHUNK_SIZE
                            ==> #[trigger] chunk.spec_voxel_at(a, b, c) == (if (a < x || (a == x
                            && b < y)) && edge_cell(a, b, c) {
                            Voxel::NonEmpty { is_opaque: true }
                        } else {
                            Voxel::Empty
                        }),
                decreases CHUNK_SIZE - y,
            {
                let mut z: usize = 0;
                while z < CHUNK_SIZE
                    invariant
                        chunk.wf(),
                        x < CHUNK_SIZE,
                        y < CHUNK_SIZE,
                        z <= CHUNK_SIZE,
                        chunk.spec_position() == (ChunkPosition { x: 0, y: 0, z: 0 }),
                        forall|f: Face| !chunk.spec_face_opaque(f),
                        forall|a: int, b: int, c: int|
                            0 <= a < CHUNK_SIZE && 0 <= b < CHUNK_SIZE && 0 <= c < CHUNK_SIZE
                                ==> #[trigger] chunk.spec_voxel_at(a, b, c) == (if (a < x || (a
                                == x && b < y) || (a == x && b == y && c < z)) && edge_cell(
                                a,
                                b,
                                c,
                            ) {
                                Voxel::NonEmpty { is_opaque: true }
                            } else {
                                Voxel::Empty
                            }),
                    decreases CHUNK_SIZE - z,
                {
                    if x == 0 && y == 0 || x == 0 && z == 0 || y == 0 && z == 0 || x == CHUNK_SIZE
                        - 1 && y == CHUNK_SIZE - 1 || x == CHUNK_SIZE - 1 && z == CHUNK_SIZE - 1
                        || y == CHUNK_SIZE - 1 && z == CHUNK_SIZE - 1 || x == 0 && y == CHUNK_SIZE
                        - 1 || x == 0 && z == CHUNK_SIZE - 1 || y == 0 && z == CHUNK_SIZE - 1 || x
                        == CHUNK_SIZE - 1 && y == 0 || x == CHUNK_SIZE - 1 && z == 0 || y
                        == CHUNK_SIZE - 1 && z == 0 {
                        chunk.insert(x, y, z, Voxel::opaque());
                    }
                    z += 1;
                }
                y += 1;
            }
            x += 1;
        }
        chunk
    }
}

/// The row-major index of a coordinate in the padded snapshot. The padded
/// edge length is the chunk edge length plus the two border cells, 18, and
/// a padded plane holds 324 cells.
pub open spec fn padded_index(x: int, y: int, z: int) -> int {
    x + 18 * y + 324 * z
}

/// Whether a coordinate of the padded snapshot lies on its one-cell border.
pub open spec fn on_padding_border(x: int, y: int, z: int) -> bool {
    !(1 <= x < CHUNK_SIZE + 1 && 1 <= y < CHUNK_SIZE + 1 && 1 <= z < CHUNK_SIZE + 1)
}

/// Whether a local coordinate lies on one of the twelve edges of the chunk
/// cube.
pub open spec fn edge_cell(x: int, y: int, z: int) -> bool {
    ||| x == 0 && y == 0
    ||| x == 0 && z == 0
    ||| y == 0 && z == 0
    ||| x == CHUNK_SIZE - 1 && y == CHUNK_SIZE - 1
    ||| x == CHUNK_SIZE - 1 && z == CHUNK_SIZE - 1
    ||| y == CHUNK_SIZE - 1 && z == CHUNK_SIZE - 1
    ||| x == 0 && y == CHUNK_SIZE - 1
    ||| x == 0 && z == CHUNK_SIZE - 1
    ||| y == 0 && z == CHUNK_SIZE - 1
    ||| x == CHUNK_SIZE - 1 && y == 0
    ||| x == CHUNK_SIZE - 1 && z == 0
    ||| y == CHUNK_SIZE - 1 && z == 0
}

/// The concrete extent and cell count of the padded snapshot.
proof fn lemma_padded_dims()
    ensures
        (CHUNK_SIZE + 2) * (CHUNK_SIZE + 2) == 324,
        (CHUNK_SIZE + 2) * (CHUNK_SIZE + 2) * (CHUNK_SIZE + 2) == 5832,
{
    assert((CHUNK_SIZE + 2) * (CHUNK_SIZE + 2) == 324 && (CHUNK_SIZE + 2) * (CHUNK_SIZE + 2) * (
    CHUNK_SIZE + 2) == 5832) by (nonlinear_arith)
        requires
            CHUNK_SIZE == 16,
    ;
}

/// Distinct coordinates of the padded snapshot have distinct row-major
/// indices.
proof fn lemma_padded_index_injective(
    x1: int,
    y1: int,
    z1: int,
    x2: int,
    y2: int,
    z2: int,
)
    requires
        0 <= x1 < CHUNK_SIZE + 2,
        0 <= y1 < CHUNK_SIZE + 2,
        0 <= z1 < CHUNK_SIZE + 2,
        0 <= x2 < CHUNK_SIZE + 2,
        0 <= y2 < CHUNK_SIZE + 2,
        0 <= z2 < CHUNK_SIZE + 2,
        padded_index(x1, y1, z1) == padded_index(x2, y2, z2),
    ensures
        x1 == x2 && y1 == y2 && z1 == z2,
{
}

/// A zeroed opacity mask reports no face as opaque.
proof fn lemma_zero_mask_clear()
    ensures
        forall|f: Face| !spec_mask_bit(0u8, f),
{
    assert(0u8 & 1u8 == 0 && 0u8 & 2u8 == 0 && 0u8 & 4u8 == 0 && 0u8 & 8u8 == 0 && 0u8 & 16u8 == 0
        && 0u8 & 32u8 == 0) by (bit_vector);
    assert forall|f: Face| !spec_mask_bit(0u8, f) by {
        match f {
            Face::Left => {},
            Face::Right => {},
            Face::Bottom => {},
            Face::Top => {},
            Face::Back => {},
            Face::Front => {},
        }
    }
}

/// Packs six per-face opacity flags into the mask, one bit per face in the
/// fixed face order.
fn pack_mask(left: bool, right: bool, bottom: bool, top: bool, back: bool, front: bool) -> (m: u8)
    ensures
        spec_mask_bit(m, Face::Left) == left,
        spec_mask_bit(m, Face::Right) == right,
        spec_mask_bit(m, Face::Bottom) == bottom,
        spec_mask_bit(m, Face::Top) == top,
        spec_mask_bit(m, Face::Back) == back,
        spec_mask_bit(m, Face::Front) == front,
{
    let v0: u8 = if left { 1 } else { 0 };
    let v1: u8 = if right { 1 } else { 0 };
    let v2: u8 = if bottom { 1 } else { 0 };
    let v3: u8 = if top { 1 } else { 0 };
    let v4: u8 = if back { 1 } else { 0 };
    let v5: u8 = if front { 1 } else { 0 };
    let m = v0 | (v1 << 1u8) | (v2 << 2u8) | (v3 << 3u8) | (v4 << 4u8) | (v5 << 5u8);
    proof {
        assert((m & 1u8 != 0 <==> v0 == 1) && (m & 2u8 != 0 <==> v1 == 1) && (m & 4u8 != 0 <==> v2
            == 1) && (m & 8u8 != 0 <==> v3 == 1) && (m & 16u8 != 0 <==> v4 == 1) && (m & 32u8 != 0
            <==> v5 == 1)) by (bit_vector)
            requires
                m == v0 | (v1 << 1u8) | (v2 << 2u8) | (v3 << 3u8) | (v4 << 4u8) | (v5 << 5u8),
                v0 <= 1,
                v1 <= 1,
                v2 <= 1,
                v3 <= 1,
                v4 <= 1,
                v5 <= 1,
        ;
    }
    m
}

} // verus!

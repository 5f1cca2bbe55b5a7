use vstd::prelude::*;

use crate::chunk::{plane_opaque, Chunk, ChunkPosition, CHUNK_SIZE};
use crate::util::Face;
use crate::voxel::Voxel;

verus! {

/// A world-generation strategy: a pure function from a chunk position and a
/// local voxel coordinate to the voxel there.
pub trait WorldGenerator {
    /// The voxel this generator assigns to local coordinate `(x, y, z)` of
    /// the chunk at `position`.
    spec fn spec_voxel_at(&self, position: ChunkPosition, x: int, y: int, z: int) -> Voxel;

    /// Produce the voxel for one local coordinate of one chunk.
    fn voxel_at(&self, position: &ChunkPosition, x: usize, y: usize, z: usize) -> (r: Voxel)
        requires
            x < CHUNK_SIZE,
            y < CHUNK_SIZE,
            z < CHUNK_SIZE,
        ensures
            r == self.spec_voxel_at(*position, x as int, y as int, z as int),
    ;
}

/// Generates a flat world: every voxel below the ground level is opaque
/// ground, everything at or above it is air.
#[derive(Debug, Clone, Copy, PartialEq, Eq, Structural)]
pub struct FlatWorldGenerator {
    pub ground_level: i32,
}

impl Default for FlatWorldGenerator {
    fn default() -> (r: FlatWorldGenerator)
        ensures
            r.ground_level == 0,
    {
        FlatWorldGenerator { ground_level: 0 }
    }
}

impl WorldGenerator for FlatWorldGenerator {
    open spec fn spec_voxel_at(&self, position: ChunkPosition, x: int, y: int, z: int) -> Voxel {
        if position.y * CHUNK_SIZE + y < self.ground_level {
            Voxel::NonEmpty { is_opaque: true }
        } else {
            Voxel::Empty
        }
    }

    fn voxel_at(&self, position: &ChunkPosition, x: usize, y: usize, z: usize) -> (r: Voxel) {
        let world_y = (position.y as i64) * 16 + (y as i64);
        proof {
            assert(world_y == position.y * CHUNK_SIZE + y);
        }
        if world_y < self.ground_level as i64 {
            Voxel::NonEmpty { is_opaque: true }
        } else {
            Voxel::Empty
        }
    }
}

/// Tunable distances and cadences of the streaming world.
#[derive(Debug, Clone, Copy, PartialEq, Eq, Structural)]
pub struct WorldGeneratorConfig {
    /// Distance in chunks out to which chunks are meshed and shown.
    pub render_distance: u32,
    /// Distance in chunks out to which chunks are generated; chunks beyond
    /// it are rejected by the visibility walk and reclaimed by eviction.
    pub generation_distance: u32,
    /// Squared distance in chunks under which a chunk that is not yet
    /// generated is still expanded by the visibility walk, so that
    /// exploration does not stall around the observer.
    pub near_distance_squared: u64,
    /// Eviction runs every this many frames when the frame has spare time.
    pub collect_interval: u32,
    /// Eviction is forced every this many frames, bounding memory growth
    /// even under sustained frame-time pressure.
    pub force_collect_interval: u32,
}

impl Default for WorldGeneratorConfig {
    fn default() -> (r: WorldGeneratorConfig)
        ensures
            r.render_distance == 16,
            r.generation_distance == 18,
            r.near_distance_squared == 6,
            r.collect_interval == 60,
            r.force_collect_interval == 600,
    {
        WorldGeneratorConfig {
            render_distance: 16,
            generation_distance: 18,
            near_distance_squared: 6,
            collect_interval: 60,
            force_collect_interval: 600,
        }
    }
}

impl Chunk {
    /// Fill a freshly created chunk by asking the generator for every local
    /// coordinate; only non-empty voxels are stored. The opacity mask is
    /// left as it was; recompute it once generation is complete.
    pub fn generate_with<G: WorldGenerator>(&mut self, generator: &G)
        requires
            old(self).wf(),
            old(self).voxels() == Map::<(int, int, int), Voxel>::empty(),
        ensures
            final(self).wf(),
            final(self).spec_position() == old(self).spec_position(),
            forall|f: Face| final(self).spec_face_opaque(f) == old(self).spec_face_opaque(f),
            forall|a: int, b: int, c: int|
                0 <= a < CHUNK_SIZE && 0 <= b < CHUNK_SIZE && 0 <= c < CHUNK_SIZE
                    ==> #[trigger] final(self).spec_voxel_at(a, b, c) == generator.spec_voxel_at(
                    old(self).spec_position(),
                    a,
                    b,
                    c,
                ),
    {
        let position = self.position();
        let mut x: usize = 0;
        while x < CHUNK_SIZE
            invariant
                self.wf(),
                x <= CHUNK_SIZE,
                self.spec_position() == old(self).spec_position(),
                position == old(self).spec_position(),
                forall|f: Face| self.spec_face_opaque(f) == old(self).spec_face_opaque(f),
                forall|a: int, b: int, c: int|
                    0 <= a < CHUNK_SIZE && 0 <= b < CHUNK_SIZE && 0 <= c < CHUNK_SIZE && a < x
                        ==> #[trigger] self.spec_voxel_at(a, b, c) == generator.spec_voxel_at(
                        position,
                        a,
                        b,
                        c,
                    ),
                forall|a: int, b: int, c: int|
                    0 <= a < CHUNK_SIZE && 0 <= b < CHUNK_SIZE && 0 <= c < CHUNK_SIZE && a >= x
                        ==> !self.voxels().contains_key((a, b, c)),
            decreases CHUNK_SIZE - x,
        {
            let mut y: usize = 0;
            while y < CHUNK_SIZE
                invariant
                    self.wf(),
                    x < CHUNK_SIZE,
                    y <= CHUNK_SIZE,
                    self.spec_position() == old(self).spec_position(),
                    position == old(self).spec_position(),
                    forall|f: Face| self.spec_face_opaque(f) == old(self).spec_face_opaque(f),
                    forall|a: int, b: int, c: int|
                        0 <= a < CHUNK_SIZE && 0 <= b < CHUNK_SIZE && 0 <= c < CHUNK_SIZE && (a < x
                            || (a == x && b < y)) ==> #[trigger] self.spec_voxel_at(a, b, c)
                            == generator.spec_voxel_at(position, a, b, c),
                    forall|a: int, b: int, c: int|
                        0 <= a < CHUNK_SIZE && 0 <= b < CHUNK_SIZE && 0 <= c < CHUNK_SIZE && (a > x
                            || (a == x && b >= y)) ==> !self.voxels().contains_key((a, b, c)),
                decreases CHUNK_SIZE - y,
            {
                let mut z: usize = 0;
                while z < CHUNK_SIZE
                    invariant
                        self.wf(),
                        x < CHUNK_SIZE,
                        y < CHUNK_SIZE,
                        z <= CHUNK_SIZE,
                        self.spec_position() == old(self).spec_position(),
                        position == old(self).spec_position(),
                        forall|f: Face| self.spec_face_opaque(f) == old(self).spec_face_opaque(f),
                        forall|a: int, b: int, c: int|
                            0 <= a < CHUNK_SIZE && 0 <= b < CHUNK_SIZE && 0 <= c < CHUNK_SIZE && (a
                                < x || (a == x && b < y) || (a == x && b == y && c < z))
                                ==> #[trigger] self.spec_voxel_at(a, b, c)
                                == generator.spec_voxel_at(position, a, b, c),
                        forall|a: int, b: int, c: int|
                            0 <= a < CHUNK_SIZE && 0 <= b < CHUNK_SIZE && 0 <= c < CHUNK_SIZE && (a
                                > x || (a == x && b > y) || (a == x && b == y && c >= z))
                                ==> !self.voxels().contains_key((a, b, c)),
                    decreases CHUNK_SIZE - z,
                {
                    let voxel = generator.voxel_at(&position, x, y, z);
                    match voxel {
                        Voxel::Empty => {},
                        Voxel::NonEmpty { .. } => {
                            self.insert(x, y, z, voxel);
                        },
                    }
                    z += 1;
                }
                y += 1;
            }
            x += 1;
        }
    }
}

/// Generates the chunk at a grid position: create it, fill it from the
/// generator, and compute its opacity mask, so that it is ready for
/// visibility expansion.
pub fn generate_chunk<G: WorldGenerator>(generator: &G, position: ChunkPosition) -> (r: Chunk)
    ensures
        r.wf(),
        r.spec_position() == position,
        forall|a: int, b: int, c: int|
            0 <= a < CHUNK_SIZE && 0 <= b < CHUNK_SIZE && 0 <= c < CHUNK_SIZE
                ==> #[trigger] r.spec_voxel_at(a, b, c) == generator.spec_voxel_at(
                position,
                a,
                b,
                c,
            ),
        forall|f: Face| #[trigger] r.spec_face_opaque(f) == plane_opaque(r.voxels(), f),
{
    let mut chunk = Chunk::new(position);
    chunk.generate_with(generator);
    let ghost filled = chunk;
    chunk.recalculate_opaque_faces();
    proof {
        assert forall|a: int, b: int, c: int|
            0 <= a < CHUNK_SIZE && 0 <= b < CHUNK_SIZE && 0 <= c < CHUNK_SIZE implies #[trigger] chunk.spec_voxel_at(
            a,
            b,
            c,
        ) == generator.spec_voxel_at(position, a, b, c) by {
            assert(filled.spec_voxel_at(a, b, c) == generator.spec_voxel_at(position, a, b, c));
        }
    }
    chunk
}

} // verus!

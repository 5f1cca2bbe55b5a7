use voxel_world::chunk::{Chunk, ChunkPosition, CHUNK_SIZE};
use voxel_world::util::{Face, WorldVec};
use voxel_world::voxel::{OptionalVoxel, Voxel};

#[test]
fn test_chunk_creation() {
    let chunk = Chunk::new(ChunkPosition::new(0, 0, 0));
    assert_eq!(chunk.position, ChunkPosition::new(0, 0, 0));
}

#[test]
fn test_chunk_insert() {
    let mut chunk = Chunk::new(ChunkPosition::new(0, 0, 0));
    chunk.insert(0, 0, 0, Voxel::opaque());
    assert_eq!(chunk.get(0, 0, 0), Some(Voxel::opaque()));
}

#[test]
fn test_chunk_get() {
    let mut chunk = Chunk::new(ChunkPosition::new(0, 0, 0));
    chunk.insert(0, 0, 0, Voxel::opaque());
    assert_eq!(chunk.get(0, 0, 0), Some(Voxel::opaque()));
}

#[test]
fn test_chunk_get_none() {
    let chunk = Chunk::new(ChunkPosition::new(0, 0, 0));
    assert_eq!(chunk.get(0, 0, 0), None);
}

#[test]
fn test_chunk_opaque_faces() {
    let mut chunk = Chunk::new(ChunkPosition::new(0, 0, 0));
    // Fill top face
    for x in 0..CHUNK_SIZE {
        for z in 0..CHUNK_SIZE {
            chunk.insert(x, CHUNK_SIZE - 1, z, Voxel::opaque());
        }
    }

    chunk.recalculate_opaque_faces();

    assert!(chunk.is_face_opaque(Face::Top));
    assert!(!chunk.is_face_opaque(Face::Bottom));
}

#[test]
fn test_chunk_pos_eq() {
    let chunk_pos_1 = ChunkPosition::new(0, 0, 0);
    let chunk_pos_2 = ChunkPosition::new(0, 0, 0);
    assert_eq!(chunk_pos_1, chunk_pos_2);
}

#[test]
fn test_bottom_face_opaque() {
    let mut chunk = Chunk::new(ChunkPosition::new(0, 0, 0));
    // Fill bottom face
    for x in 0..CHUNK_SIZE {
        for z in 0..CHUNK_SIZE {
            chunk.insert(x, 0, z, Voxel::opaque());
        }
    }

    chunk.recalculate_opaque_faces();

    assert!(chunk.is_face_opaque(Face::Bottom));
    assert!(!chunk.is_face_opaque(Face::Top));
    assert!(!chunk.is_face_opaque(Face::Left));
}

#[test]
fn test_top_opaque() {
    let mut chunk = Chunk::new(ChunkPosition::new(0, 0, 0));
    // Fill the top layer with opaque voxels
    for x in 0..CHUNK_SIZE {
        for z in 0..CHUNK_SIZE {
            chunk.insert(x, CHUNK_SIZE - 1, z, Voxel::NonEmpty { is_opaque: true });
        }
    }

    chunk.recalculate_opaque_faces();

    assert!(chunk.is_face_opaque(Face::Top));
    assert!(!chunk.is_face_opaque(Face::Bottom));
    assert!(!chunk.is_face_opaque(Face::Left));
}

#[test]
fn test_opacity_mask_concrete_case() {
    // A chunk whose y = 15 plane is fully opaque has exactly its top face
    // reported opaque; a single translucent cell on another face keeps that
    // face clear.
    let mut chunk = Chunk::new(ChunkPosition::new(0, 0, 0));
    for x in 0..CHUNK_SIZE {
        for z in 0..CHUNK_SIZE {
            chunk.insert(x, CHUNK_SIZE - 1, z, Voxel::opaque());
        }
    }
    chunk.recalculate_opaque_faces();
    assert!(chunk.is_face_opaque(Face::Top));
    assert!(!chunk.is_face_opaque(Face::Bottom));
    assert!(!chunk.is_face_opaque(Face::Left));
    assert!(!chunk.is_face_opaque(Face::Right));
    assert!(!chunk.is_face_opaque(Face::Back));
    assert!(!chunk.is_face_opaque(Face::Front));

    // Fill the left face except one translucent cell: still not opaque.
    for y in 0..CHUNK_SIZE {
        for z in 0..CHUNK_SIZE {
            chunk.insert(0, y, z, Voxel::opaque());
        }
    }
    chunk.insert(0, 3, 4, Voxel::NonEmpty { is_opaque: false });
    chunk.recalculate_opaque_faces();
    assert!(!chunk.is_face_opaque(Face::Left));
    assert!(chunk.is_face_opaque(Face::Top));
}

#[test]
fn test_face_involution() {
    let faces = [Face::Left, Face::Right, Face::Bottom, Face::Top, Face::Back, Face::Front];
    for &f in faces.iter() {
        assert_eq!(f.opposite().opposite(), f);
    }
    let chunk = Chunk::new(ChunkPosition::new(3, -4, 5));
    for &f in faces.iter() {
        let neighbor = chunk.get_neighbor_position(f);
        let there = Chunk::new(neighbor);
        assert_eq!(there.get_neighbor_position(f.opposite()), chunk.position);
    }
}

#[test]
fn test_neighbors_order() {
    let p = ChunkPosition::new(1, 2, 3);
    let n = p.neighbors();
    assert_eq!(n.len(), 6);
    assert_eq!(n[0], (ChunkPosition::new(0, 2, 3), Face::Left));
    assert_eq!(n[1], (ChunkPosition::new(2, 2, 3), Face::Right));
    assert_eq!(n[2], (ChunkPosition::new(1, 1, 3), Face::Bottom));
    assert_eq!(n[3], (ChunkPosition::new(1, 3, 3), Face::Top));
    assert_eq!(n[4], (ChunkPosition::new(1, 2, 2), Face::Back));
    assert_eq!(n[5], (ChunkPosition::new(1, 2, 4), Face::Front));
}

#[test]
fn test_from_world_position_floors() {
    let p = ChunkPosition::from_world_position(WorldVec::new(-1, -17, 31));
    assert_eq!(p, ChunkPosition::new(-1, -2, 1));
    let q = ChunkPosition::from_world_position(WorldVec::new(0, 15, 16));
    assert_eq!(q, ChunkPosition::new(0, 0, 1));
}

#[test]
fn test_world_position_round_trip() {
    let p = ChunkPosition::new(-3, 2, 7);
    let w = p.as_world_position();
    assert_eq!(w, WorldVec::new(-48, 32, 112));
    assert_eq!(ChunkPosition::from_world_position(w), p);
    assert_eq!(p.inner_to_world_position(1, 2, 3), WorldVec::new(-47, 34, 115));
    assert_eq!(
        p.world_to_inner_position(WorldVec::new(-47, 34, 115)),
        WorldVec::new(1, 2, 3)
    );
}

#[test]
fn test_distance_squared() {
    let a = ChunkPosition::new(0, 0, 0);
    let b = ChunkPosition::new(3, -4, 12);
    assert_eq!(a.distance_squared_to(&b), 169);
    assert_eq!(b.distance_squared_to(&a), 169);
    assert_eq!(a.distance_squared_to(&a), 0);
}

#[test]
fn test_linearize_round_trip() {
    assert_eq!(Chunk::linearize_position(3, 5, 7), 3 + 5 * 16 + 7 * 256);
    assert_eq!(Chunk::delinearize_position(Chunk::linearize_position(3, 5, 7)), (3, 5, 7));
    assert_eq!(Chunk::delinearize_position(0), (0, 0, 0));
    assert_eq!(Chunk::delinearize_position(4095), (15, 15, 15));
}

#[test]
fn test_padded_voxels_layout() {
    let mut chunk = Chunk::new(ChunkPosition::new(0, 0, 0));
    chunk.insert(0, 0, 0, Voxel::opaque());
    chunk.insert(15, 3, 4, Voxel::NonEmpty { is_opaque: false });
    let padded = chunk.padded_voxels();
    assert_eq!(padded.len(), 18 * 18 * 18);
    // Interior cells sit at the local coordinate plus one on each axis.
    assert_eq!(padded[1 + 18 * 1 + 324 * 1], OptionalVoxel::Voxel(Voxel::opaque()));
    assert_eq!(
        padded[16 + 18 * 4 + 324 * 5],
        OptionalVoxel::Voxel(Voxel::NonEmpty { is_opaque: false })
    );
    assert_eq!(padded[2 + 18 * 1 + 324 * 1], OptionalVoxel::Empty);
    // The one-cell border is empty all around.
    assert_eq!(padded[0], OptionalVoxel::Empty);
    assert_eq!(padded[17 + 18 * 17 + 324 * 17], OptionalVoxel::Empty);
    assert_eq!(padded[0 + 18 * 1 + 324 * 1], OptionalVoxel::Empty);
}

#[test]
fn test_outlined_edges() {
    let chunk = Chunk::outlined();
    assert_eq!(chunk.get(0, 0, 0), Some(Voxel::opaque()));
    assert_eq!(chunk.get(0, 0, 7), Some(Voxel::opaque()));
    assert_eq!(chunk.get(15, 15, 9), Some(Voxel::opaque()));
    assert_eq!(chunk.get(5, 5, 5), None);
    assert_eq!(chunk.get(1, 2, 3), None);
}

#[test]
fn test_voxel_equal() {
    let opaque = Voxel::opaque();
    assert_eq!(opaque, Voxel::opaque());
}

#[test]
fn test_optional_voxel_from_option() {
    let opaque_voxel = Voxel::opaque();
    let voxel = Some(opaque_voxel);
    let optional_voxel: OptionalVoxel = voxel.into();
    assert_eq!(optional_voxel, OptionalVoxel::Voxel(Voxel::opaque()));
    let none: OptionalVoxel = None.into();
    assert_eq!(none, OptionalVoxel::Empty);
}

#[test]
fn test_voxel_default_and_opacity() {
    assert_eq!(Voxel::default(), Voxel::Empty);
    assert!(!Voxel::Empty.is_opaque());
    assert!(Voxel::opaque().is_opaque());
    assert!(!Voxel::NonEmpty { is_opaque: false }.is_opaque());
}

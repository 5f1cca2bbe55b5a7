use voxel_world::chunk::{Chunk, ChunkPosition, CHUNK_SIZE};
use voxel_world::generator::{generate_chunk, FlatWorldGenerator, WorldGeneratorConfig};
use voxel_world::registry::{should_collect_garbage, ChunkData};
use voxel_world::util::WorldVec;
use voxel_world::visibility::{compute_visible_set, update_visible_chunks, Frustum, Observer, Plane};
use voxel_world::voxel::Voxel;

fn observer_at_origin_facing_front() -> Observer {
    Observer {
        position: WorldVec::new(8, 8, 8),
        forward: WorldVec::new(0, 0, 1),
        frustum: Frustum { planes: Vec::new() },
    }
}

fn config_with_distance(generation_distance: u32) -> WorldGeneratorConfig {
    WorldGeneratorConfig {
        render_distance: generation_distance,
        generation_distance,
        near_distance_squared: 6,
        collect_interval: 60,
        force_collect_interval: 600,
    }
}

fn install(data: &mut ChunkData, chunk: Chunk) {
    data.note_generation_request(chunk.position());
    let requests = data.take_generation_requests();
    assert!(requests.contains(&chunk.position()));
    data.install_generated_chunk(chunk);
}

#[test]
fn test_end_to_end_flat_world() {
    // Observer in chunk (0,0,0) facing the front axis, generation distance
    // of two chunks, flat generator with ground level 0: everything above
    // ground is air, so nothing is occluded, and the chunks straight ahead
    // become visible while chunks behind the observer stay out.
    let observer = observer_at_origin_facing_front();
    let config = config_with_distance(2);
    let flat = FlatWorldGenerator { ground_level: 0 };
    let mut data = ChunkData::default();
    for _ in 0..6 {
        update_visible_chunks(&mut data, &observer, &config);
        for position in data.take_generation_requests() {
            data.install_generated_chunk(generate_chunk(&flat, position));
        }
    }
    assert!(data.visible_contains(&ChunkPosition::new(0, 0, 0)));
    assert!(data.visible_contains(&ChunkPosition::new(0, 0, 1)));
    assert!(data.visible_contains(&ChunkPosition::new(0, 0, 2)));
    // Chunks behind the observer fail the direction filter.
    assert!(!data.visible_contains(&ChunkPosition::new(0, 0, -1)));
    // Chunks beyond the generation distance are not reached.
    assert!(!data.visible_contains(&ChunkPosition::new(0, 0, 3)));
}

#[test]
fn test_occlusion_blocks_expansion() {
    // The loaded chunk at the origin reports its front face fully opaque;
    // with a generation distance of one chunk the only route to (0,0,1)
    // leads through that face, so (0,0,1) must not become visible even
    // though it is within distance and within the view volume.
    let observer = observer_at_origin_facing_front();
    let config = config_with_distance(1);
    let mut blocked = Chunk::new(ChunkPosition::new(0, 0, 0));
    for x in 0..CHUNK_SIZE {
        for y in 0..CHUNK_SIZE {
            blocked.insert(x, y, CHUNK_SIZE - 1, Voxel::opaque());
        }
    }
    blocked.recalculate_opaque_faces();
    let mut data = ChunkData::default();
    install(&mut data, blocked);
    update_visible_chunks(&mut data, &observer, &config);
    assert!(data.visible_contains(&ChunkPosition::new(0, 0, 0)));
    assert!(!data.visible_contains(&ChunkPosition::new(0, 0, 1)));

    // The same scene without the opaque face does reach (0,0,1).
    let mut open_data = ChunkData::default();
    install(&mut open_data, Chunk::new(ChunkPosition::new(0, 0, 0)));
    update_visible_chunks(&mut open_data, &observer, &config);
    assert!(open_data.visible_contains(&ChunkPosition::new(0, 0, 1)));
}

#[test]
fn test_visibility_deterministic() {
    let observer = observer_at_origin_facing_front();
    let config = config_with_distance(2);
    let flat = FlatWorldGenerator { ground_level: 8 };
    let mut data = ChunkData::default();
    for z in -2..3 {
        install(&mut data, generate_chunk(&flat, ChunkPosition::new(0, 0, z)));
    }
    let first = compute_visible_set(&data, &observer, &config);
    let second = compute_visible_set(&data, &observer, &config);
    assert_eq!(first, second);
    assert!(!first.is_empty());
}

#[test]
fn test_frustum_rejects_chunks() {
    // A single clip plane that admits only boxes reaching beyond the
    // world-space plane of the observer's own chunk: chunks ahead pass,
    // chunks to the side are rejected.
    let observer = Observer {
        position: WorldVec::new(8, 8, 8),
        forward: WorldVec::new(0, 0, 1),
        frustum: Frustum { planes: vec![Plane { a: 0, b: 0, c: 1, d: -17 }] },
    };
    let config = config_with_distance(2);
    let flat = FlatWorldGenerator { ground_level: 0 };
    let mut data = ChunkData::default();
    for _ in 0..6 {
        update_visible_chunks(&mut data, &observer, &config);
        for position in data.take_generation_requests() {
            data.install_generated_chunk(generate_chunk(&flat, position));
        }
    }
    assert!(data.visible_contains(&ChunkPosition::new(0, 0, 0)));
    assert!(data.visible_contains(&ChunkPosition::new(0, 0, 1)));
    assert!(!data.visible_contains(&ChunkPosition::new(1, 0, 0)));
    assert!(!data.visible_contains(&ChunkPosition::new(0, 1, 0)));
}

#[test]
fn test_eviction_boundary() {
    // At a generation distance of two chunks: a chunk at distance exactly
    // two is retained, one strictly beyond it is evicted, and one in the
    // visible set is never evicted regardless of distance.
    let config = config_with_distance(2);
    let mut data = ChunkData::default();
    install(&mut data, Chunk::new(ChunkPosition::new(2, 0, 0)));
    install(&mut data, Chunk::new(ChunkPosition::new(3, 0, 0)));
    install(&mut data, Chunk::new(ChunkPosition::new(5, 0, 0)));
    data.replace_visible(vec![ChunkPosition::new(5, 0, 0)]);
    let evicted = data.garbage_collect_chunks(&ChunkPosition::new(0, 0, 0), &config);
    assert_eq!(evicted, vec![ChunkPosition::new(3, 0, 0)]);
    assert!(data.get_loaded(&ChunkPosition::new(2, 0, 0)).is_some());
    assert!(data.get_loaded(&ChunkPosition::new(3, 0, 0)).is_none());
    assert!(data.get_loaded(&ChunkPosition::new(5, 0, 0)).is_some());
}

#[test]
fn test_mesh_lifecycle() {
    let mut data = ChunkData::default();
    let origin = ChunkPosition::new(0, 0, 0);
    let aside = ChunkPosition::new(1, 0, 0);
    install(&mut data, Chunk::new(origin));
    install(&mut data, Chunk::new(aside));
    data.replace_visible(vec![origin]);

    // Only the loaded chunk in the visible set is due for meshing.
    let requests = data.take_meshing_requests();
    assert_eq!(requests, vec![origin]);
    // While meshing is in flight it is not handed out again.
    assert!(data.take_meshing_requests().is_empty());

    data.install_mesh(origin, Some(7));
    assert_eq!(data.get_mesh(&origin), Some(7));
    // A meshed chunk is not meshed again.
    assert!(data.take_meshing_requests().is_empty());

    // A chunk whose mesh came back empty is marked and never retried.
    data.replace_visible(vec![origin, aside]);
    let more = data.take_meshing_requests();
    assert_eq!(more, vec![aside]);
    data.install_mesh(aside, None);
    assert!(data.is_known_empty(&aside));
    assert!(data.take_meshing_requests().is_empty());
}

#[test]
fn test_stale_results_are_discarded() {
    let mut data = ChunkData::default();
    let origin = ChunkPosition::new(0, 0, 0);
    // A generation result for a chunk that was never handed out (or whose
    // entry was evicted mid-flight) is silently discarded.
    data.install_generated_chunk(Chunk::new(origin));
    assert!(data.get_loaded(&origin).is_none());
    // Likewise a meshing result for a chunk not being meshed.
    data.install_mesh(origin, Some(3));
    assert_eq!(data.get_mesh(&origin), None);
}

#[test]
fn test_forget_removes_every_trace() {
    let mut data = ChunkData::default();
    let origin = ChunkPosition::new(0, 0, 0);
    install(&mut data, Chunk::new(origin));
    data.replace_visible(vec![origin]);
    let requests = data.take_meshing_requests();
    assert_eq!(requests, vec![origin]);
    data.install_mesh(origin, Some(9));
    data.forget(origin);
    assert!(data.get_loaded(&origin).is_none());
    assert_eq!(data.get_mesh(&origin), None);
}

#[test]
fn test_unload_invisible_drops_pending_requests() {
    let mut data = ChunkData::default();
    let ahead = ChunkPosition::new(0, 0, 1);
    let behind = ChunkPosition::new(0, 0, -1);
    data.note_generation_request(ahead);
    data.note_generation_request(behind);
    data.replace_visible(vec![ahead]);
    data.unload_invisible_chunks();
    let requests = data.take_generation_requests();
    assert_eq!(requests, vec![ahead]);
}

#[test]
fn test_get_chunk_containing() {
    let mut data = ChunkData::default();
    install(&mut data, Chunk::new(ChunkPosition::new(-1, 0, 0)));
    let found = data.get_chunk_containing(WorldVec::new(-5, 3, 15));
    assert!(found.is_some());
    assert_eq!(found.unwrap().position, ChunkPosition::new(-1, 0, 0));
    assert!(data.get_chunk_containing(WorldVec::new(5, 3, 15)).is_none());
}

#[test]
fn test_should_collect_garbage_cadence() {
    let config = config_with_distance(18);
    // Forced on the forced cadence even without spare time.
    assert!(should_collect_garbage(600, false, &config));
    assert!(should_collect_garbage(1200, false, &config));
    // Runs on the regular cadence.
    assert!(should_collect_garbage(60, false, &config));
    // Runs whenever the frame has spare time.
    assert!(should_collect_garbage(61, true, &config));
    // Otherwise waits.
    assert!(!should_collect_garbage(61, false, &config));
}

#[test]
fn test_generate_chunk_flat_contents() {
    // Ground level 8: the lower half of the origin chunk is solid ground,
    // the upper half air, so no face of the chunk is fully opaque except
    // the bottom.
    let flat = FlatWorldGenerator { ground_level: 8 };
    let chunk = generate_chunk(&flat, ChunkPosition::new(0, 0, 0));
    assert_eq!(chunk.get(0, 0, 0), Some(Voxel::NonEmpty { is_opaque: true }));
    assert_eq!(chunk.get(0, 7, 0), Some(Voxel::NonEmpty { is_opaque: true }));
    assert_eq!(chunk.get(0, 8, 0), None);
    assert!(chunk.is_face_opaque(voxel_world::util::Face::Bottom));
    assert!(!chunk.is_face_opaque(voxel_world::util::Face::Top));
    assert!(!chunk.is_face_opaque(voxel_world::util::Face::Left));

    // A chunk below ground is solid on every face.
    let below = generate_chunk(&flat, ChunkPosition::new(0, -1, 0));
    assert!(below.is_face_opaque(voxel_world::util::Face::Top));
    assert!(below.is_face_opaque(voxel_world::util::Face::Bottom));
    assert!(below.is_face_opaque(voxel_world::util::Face::Front));
}

use voxel_world::octree::{VoxelOctree, VoxelOctreeCreationError};

#[test]
fn test_octree_creation() {
    let octree = VoxelOctree::<u32>::new(8).unwrap();
    assert_eq!(octree.size(), 8);
}

#[test]
fn test_octree_creation_error() {
    let octree = VoxelOctree::<u32>::new(7);
    assert!(octree.is_err());
}

#[test]
fn test_octree_insert() {
    let mut octree = VoxelOctree::<u32>::new(8).unwrap();
    octree.insert(0, 0, 0, 1);
    octree.insert(1, 0, 0, 2);
    octree.insert(0, 1, 0, 3);
    octree.insert(1, 8, 0, 4);
    octree.insert(4, 7, 3, 5);

    assert_eq!(octree.get_value(0, 0, 0), Some(&1));
    assert_eq!(octree.get_value(1, 0, 0), Some(&2));
    assert_eq!(octree.get_value(0, 1, 0), Some(&3));
    assert_eq!(octree.get_value(1, 8, 0), Some(&4));
    assert_eq!(octree.get_value(4, 7, 3), Some(&5));
}

#[test]
fn test_octree_creation_edge_sizes() {
    assert!(VoxelOctree::<u32>::new(1).is_ok());
    assert!(VoxelOctree::<u32>::new(2).is_ok());
    assert!(VoxelOctree::<u32>::new(16).is_ok());
    assert!(VoxelOctree::<u32>::new(0).is_err());
    assert!(VoxelOctree::<u32>::new(12).is_err());
    match VoxelOctree::<u32>::new(9) {
        Err(VoxelOctreeCreationError::SizeNotPowerOfTwo) => {}
        _ => panic!("expected a size rejection"),
    }
}

#[test]
fn test_octree_round_trip_any_order() {
    let mut octree = VoxelOctree::<u32>::new(16).unwrap();
    let points = [
        (15usize, 0usize, 7usize, 10u32),
        (0, 15, 3, 11),
        (8, 8, 8, 12),
        (0, 0, 0, 13),
        (15, 15, 15, 14),
        (1, 2, 3, 15),
    ];
    for &(x, y, z, v) in points.iter() {
        octree.insert(x, y, z, v);
    }
    // Overwrite one point; every other point must keep its value.
    octree.insert(8, 8, 8, 99);
    assert_eq!(octree.get_value(8, 8, 8), Some(&99));
    assert_eq!(octree.get_value(15, 0, 7), Some(&10));
    assert_eq!(octree.get_value(0, 15, 3), Some(&11));
    assert_eq!(octree.get_value(0, 0, 0), Some(&13));
    assert_eq!(octree.get_value(15, 15, 15), Some(&14));
    assert_eq!(octree.get_value(1, 2, 3), Some(&15));
    // A point never written reads as absent.
    assert_eq!(octree.get_value(7, 7, 7), None);
}

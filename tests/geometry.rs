use chest_storage::geometry::{filter_region, BlockPos, Depot, Region};

fn region() -> Region {
    Region { walking_level: 70, x1: 0, z1: 0, x2: 20, z2: 20, min_y: 60, max_y: 70 }
}

#[test]
fn region_filter_drops_matching_blocks_outside_the_box() {
    let blocks = vec![
        BlockPos { x: 10, y: 64, z: 10 },
        BlockPos { x: 21, y: 64, z: 10 },
        BlockPos { x: 10, y: 59, z: 10 },
        BlockPos { x: 0, y: 70, z: 20 },
        BlockPos { x: 10, y: 64, z: -1 },
    ];
    let kept = filter_region(&blocks, &region());
    assert_eq!(kept, vec![BlockPos { x: 10, y: 64, z: 10 }, BlockPos { x: 0, y: 70, z: 20 }]);
}

#[test]
fn region_contains_is_inclusive() {
    let r = region();
    assert!(r.contains(BlockPos { x: 20, y: 60, z: 0 }));
    assert!(!r.contains(BlockPos { x: 20, y: 71, z: 0 }));
}

#[test]
fn actor_stands_at_walking_level() {
    let r = region();
    assert_eq!(r.stand_position(BlockPos { x: 3, y: 61, z: 4 }), BlockPos { x: 3, y: 70, z: 4 });
    let d = Depot { storage_x: 1, storage_y: 2, storage_z: 3, x: 4, y: 5, z: 6 };
    assert_eq!(d.storage(), BlockPos { x: 1, y: 2, z: 3 });
    assert_eq!(d.stand(), BlockPos { x: 4, y: 5, z: 6 });
}

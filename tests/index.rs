use chest_storage::geometry::BlockPos;
use chest_storage::index::InventoryIndex;

fn at(x: i32, y: i32, z: i32) -> BlockPos {
    BlockPos { x, y, z }
}

#[test]
fn ensuring_a_container_twice_keeps_one_record() {
    let mut index = InventoryIndex::new();
    index.create_chest(at(10, 64, 10));
    index.create_chest(at(10, 64, 10));
    assert_eq!(index.chests, vec![at(10, 64, 10)]);
    index.create_chest(at(11, 64, 10));
    assert_eq!(index.chests.len(), 2);
}

#[test]
fn writing_a_slot_twice_keeps_the_second_write() {
    let mut index = InventoryIndex::new();
    let p = at(1, 2, 3);
    index.set_item_in_chest(p, 0, "minecraft:dirt", 5, None);
    index.set_item_in_chest(p, 0, "minecraft:diamond", 3, Some(vec![1, 2]));
    let recs = index.items_in_chest(p);
    assert_eq!(recs.len(), 1);
    assert_eq!(recs[0].item_id, "minecraft:diamond");
    assert_eq!(recs[0].count, 3);
    assert_eq!(recs[0].tag, vec![1, 2]);
    assert_eq!(index.items.len(), 1);
    assert_eq!(index.chests, vec![p]);
}

#[test]
fn slot_without_tag_gets_empty_compound() {
    let mut index = InventoryIndex::new();
    index.set_item_in_chest(at(0, 0, 0), 4, "minecraft:stone", 1, None);
    assert_eq!(index.items[0].tag, vec![0x0a, 0x00, 0x00, 0x00]);
}

#[test]
fn clearing_then_finding_returns_nothing() {
    let mut index = InventoryIndex::new();
    index.set_item_in_chest(at(10, 64, 10), 0, "minecraft:diamond", 3, None);
    assert_eq!(index.find_item("diamond").len(), 1);
    index.clear();
    assert!(index.find_item("diamond").is_empty());
    assert!(index.find_item("minecraft:diamond").is_empty());
    assert!(index.chests.is_empty());
}

#[test]
fn find_matches_full_and_short_ids_but_never_air() {
    let mut index = InventoryIndex::new();
    index.set_item_in_chest(at(1, 1, 1), 0, "minecraft:diamond", 3, None);
    index.set_item_in_chest(at(2, 1, 1), 5, "minecraft:diamond", 7, None);
    index.set_item_in_chest(at(2, 1, 1), 6, "minecraft:diamond_block", 1, None);
    index.set_item_in_chest(at(2, 1, 1), 7, "minecraft:air", 0, None);
    let mut found: Vec<(i32, i32, i16)> =
        index.find_item("diamond").iter().map(|r| (r.pos.x, r.slot, r.count)).collect();
    found.sort();
    assert_eq!(found, vec![(1, 0, 3), (2, 5, 7)]);
    assert_eq!(index.find_item("minecraft:diamond").len(), 2);
    assert!(index.find_item("air").is_empty());
    assert!(index.find_item("minecraft:air").is_empty());
}

#[test]
fn slots_at_lists_only_that_container() {
    let mut index = InventoryIndex::new();
    index.set_item_in_chest(at(1, 1, 1), 0, "minecraft:dirt", 1, None);
    index.set_item_in_chest(at(1, 1, 1), 1, "minecraft:air", 0, None);
    index.set_item_in_chest(at(9, 9, 9), 0, "minecraft:dirt", 1, None);
    assert_eq!(index.items_in_chest(at(1, 1, 1)).len(), 2);
    assert!(index.items_in_chest(at(5, 5, 5)).is_empty());
    assert!(index.has_chest(at(9, 9, 9)));
    assert!(!index.has_chest(at(5, 5, 5)));
}

use chest_storage::contents::ItemSlot;
use chest_storage::geometry::{BlockPos, Depot, Region};
use chest_storage::index::InventoryIndex;
use chest_storage::notice::Notice;
use chest_storage::processor::{CommandProcessor, Effect, Phase};

fn at(x: i32, y: i32, z: i32) -> BlockPos {
    BlockPos { x, y, z }
}

fn processor() -> CommandProcessor {
    let region = Region { walking_level: 66, x1: 0, z1: 0, x2: 20, z2: 20, min_y: 60, max_y: 70 };
    let depot = Depot { storage_x: 30, storage_y: 64, storage_z: 30, x: 31, y: 65, z: 30 };
    CommandProcessor::new(region, depot, InventoryIndex::new())
}

fn diamonds() -> Vec<ItemSlot> {
    vec![ItemSlot::Present("minecraft:diamond".to_string(), 3), ItemSlot::Empty]
}

#[test]
fn index_then_withdraw_end_to_end() {
    let mut p = processor();
    let out = p.on_command("index");
    assert_eq!(out.effect, Effect::Scan);
    let out = p.on_scanned(&vec![at(10, 64, 10), at(50, 64, 10)]);
    assert!(matches!(out.notices[0], Notice::IndexingCount(1)));
    assert_eq!(out.effect, Effect::Open(at(10, 64, 10), at(10, 66, 10)));
    let out = p.on_opened(Some(diamonds()), 27, 63);
    assert_eq!(out.clicks, vec![0]);
    assert_eq!(out.touched, Some(at(10, 64, 10)));
    assert!(matches!(out.notices.last(), Some(Notice::Done)));
    assert_eq!(out.effect, Effect::NextCommand);
    assert!(p.index.has_chest(at(10, 64, 10)));
    let recs = p.index.items_in_chest(at(10, 64, 10));
    let slot0 = recs.iter().find(|r| r.slot == 0).unwrap();
    assert_eq!(slot0.item_id, "minecraft:diamond");
    assert_eq!(slot0.count, 3);

    let out = p.on_command("withdraw diamond");
    assert!(matches!(&out.notices[0], Notice::FoundAt(s, 3, pos) if s == "diamond" && *pos == at(10, 64, 10)));
    assert_eq!(out.effect, Effect::Open(at(10, 64, 10), at(10, 66, 10)));
    let out = p.on_opened(Some(diamonds()), 27, 63);
    assert_eq!(out.clicks, vec![0]);
    assert_eq!(out.effect, Effect::Open(at(30, 64, 30), at(31, 65, 30)));
    let out = p.on_opened(None, 27, 30);
    assert_eq!(out.clicks, vec![27, 28, 29]);
    assert_eq!(out.effect, Effect::NextCommand);
    assert!(p.index.find_item("diamond").is_empty());
    let recs = p.index.items_in_chest(at(10, 64, 10));
    let slot0 = recs.iter().find(|r| r.slot == 0).unwrap();
    assert_eq!(slot0.item_id, "minecraft:air");
    assert_eq!(slot0.count, 0);
}

#[test]
fn unavailable_container_is_skipped_for_the_next() {
    let mut p = processor();
    p.on_command("index");
    p.on_scanned(&vec![at(1, 61, 1), at(2, 61, 2)]);
    for _ in 0..5 {
        let out = p.on_open_failed();
        assert_eq!(out.effect, Effect::Open(at(1, 61, 1), at(1, 66, 1)));
    }
    let out = p.on_open_failed();
    assert!(out.notices.iter().any(|n| matches!(n, Notice::ContainerUnavailable(q) if *q == at(1, 61, 1))));
    assert_eq!(out.effect, Effect::Open(at(2, 61, 2), at(2, 66, 2)));
    assert!(!p.index.has_chest(at(1, 61, 1)));
}

#[test]
fn unreadable_container_is_reported_and_skipped() {
    let mut p = processor();
    p.on_command("index");
    p.on_scanned(&vec![at(1, 61, 1)]);
    let out = p.on_opened(None, 27, 63);
    assert!(out.notices.iter().any(|n| matches!(n, Notice::ReadFailure(q) if *q == at(1, 61, 1))));
    assert!(out.clicks.is_empty());
    assert_eq!(out.effect, Effect::NextCommand);
}

#[test]
fn viewchest_of_unknown_container_reports_no_items() {
    let mut p = processor();
    let out = p.on_command("viewchest 1 2 3");
    assert_eq!(out.notices.len(), 2);
    assert!(matches!(out.notices[0], Notice::NoItemsAtLocation));
    assert!(matches!(out.notices[1], Notice::NoItemsInStorageBlock));
    assert_eq!(out.effect, Effect::NextCommand);
}

#[test]
fn viewchest_lists_filled_slots() {
    let mut p = processor();
    p.index.set_item_in_chest(at(1, 2, 3), 0, "minecraft:air", 0, None);
    p.index.set_item_in_chest(at(1, 2, 3), 1, "minecraft:dirt", 9, None);
    let out = p.on_command("viewchest 1 2 3");
    assert_eq!(out.notices.len(), 1);
    assert!(matches!(&out.notices[0], Notice::ItemLine(s, 9) if s == "minecraft:dirt"));
}

#[test]
fn cleardb_then_find_reports_nothing() {
    let mut p = processor();
    p.index.set_item_in_chest(at(1, 2, 3), 0, "minecraft:diamond", 2, None);
    let out = p.on_command("cleardb");
    assert!(out.cleared);
    assert!(matches!(out.notices[0], Notice::ClearedDb));
    let out = p.on_command("find diamond");
    assert!(out.notices.is_empty());
}

#[test]
fn bad_and_unknown_commands_return_to_idle() {
    let mut p = processor();
    let out = p.on_command("viewchest 1 2");
    assert!(matches!(out.notices[0], Notice::BadArguments(_)));
    assert_eq!(out.effect, Effect::NextCommand);
    let out = p.on_command("fly");
    assert!(matches!(out.notices[0], Notice::UnknownCommand));
    assert!(matches!(p.phase, Phase::Idle));
}

#[test]
fn persistence_failure_stops_for_good() {
    let mut p = processor();
    let out = p.on_persistence_failure();
    assert!(matches!(out.notices[0], Notice::QueueDied));
    assert_eq!(out.effect, Effect::Halt);
    let out = p.on_persistence_failure();
    assert!(out.notices.is_empty());
    let out = p.on_command("index");
    assert_eq!(out.effect, Effect::Halt);
    assert!(out.notices.is_empty());
}

#[test]
fn deposit_opens_the_depot() {
    let mut p = processor();
    let out = p.on_command("deposit");
    assert_eq!(out.effect, Effect::Open(at(30, 64, 30), at(31, 65, 30)));
    let out = p.on_opened(Some(vec![]), 0, 0);
    assert!(out.clicks.is_empty());
    assert_eq!(out.effect, Effect::NextCommand);
}

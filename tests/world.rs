use chest_storage::geometry::{BlockPos, ChunkPos};
use chest_storage::world::{find_blocks, scan_section, Chunk, Palette, Section, World};

const BARREL: u32 = 7;
const STONE: u32 = 1;

fn cell(x: usize, y: usize, z: usize) -> usize {
    y * 256 + z * 16 + x
}

fn section_with(palette: Palette, marks: &[(usize, u32)], fill: u32) -> Section {
    let mut states = vec![fill; 4096];
    for &(i, v) in marks {
        states[i] = v;
    }
    Section::new(palette, states).unwrap()
}

fn sample_world() -> World {
    let mut world = World::new(-64);
    let mut a = Chunk::new(ChunkPos { x: 0, z: 0 });
    a.push_section(section_with(Palette::SingleValue(STONE), &[], STONE));
    a.push_section(section_with(
        Palette::Linear(vec![STONE, BARREL]),
        &[(cell(1, 2, 3), BARREL), (cell(15, 15, 15), BARREL)],
        STONE,
    ));
    assert!(world.add_chunk(a));
    let mut b = Chunk::new(ChunkPos { x: -1, z: 2 });
    b.push_section(section_with(Palette::Global, &[(cell(0, 0, 0), BARREL)], 3));
    assert!(world.add_chunk(b));
    world
}

fn sorted(mut v: Vec<BlockPos>) -> Vec<(i32, i32, i32)> {
    let mut r: Vec<(i32, i32, i32)> = v.drain(..).map(|p| (p.x, p.y, p.z)).collect();
    r.sort();
    r
}

#[test]
fn find_blocks_returns_exactly_matching_cells() {
    let world = sample_world();
    let reach = vec![ChunkPos { x: 0, z: 0 }, ChunkPos { x: -1, z: 2 }];
    let found = find_blocks(&world, &reach, &vec![BARREL]);
    assert_eq!(
        sorted(found),
        vec![(-16, -64, 32), (1, -46, 3), (15, -33, 15)]
    );
}

#[test]
fn find_blocks_has_no_duplicates_even_with_repeated_reach() {
    let world = sample_world();
    let reach = vec![
        ChunkPos { x: 0, z: 0 },
        ChunkPos { x: 0, z: 0 },
        ChunkPos { x: -1, z: 2 },
    ];
    let found = find_blocks(&world, &reach, &vec![BARREL]);
    assert_eq!(found.len(), 3);
}

#[test]
fn find_blocks_ignores_chunk_order() {
    let mut world = World::new(0);
    let mut other = World::new(0);
    let make = |x: i32, z: i32, at: usize| {
        let mut c = Chunk::new(ChunkPos { x, z });
        c.push_section(section_with(Palette::Global, &[(at, BARREL)], STONE));
        c
    };
    assert!(world.add_chunk(make(0, 0, 5)));
    assert!(world.add_chunk(make(1, 0, 9)));
    assert!(other.add_chunk(make(1, 0, 9)));
    assert!(other.add_chunk(make(0, 0, 5)));
    let reach = vec![ChunkPos { x: 0, z: 0 }, ChunkPos { x: 1, z: 0 }];
    let a = find_blocks(&world, &reach, &vec![BARREL]);
    let b = find_blocks(&other, &reach, &vec![BARREL]);
    assert_eq!(sorted(a), sorted(b));
}

#[test]
fn find_blocks_skips_chunks_out_of_reach_and_unloaded() {
    let world = sample_world();
    let reach = vec![ChunkPos { x: 5, z: 5 }, ChunkPos { x: -1, z: 2 }];
    let found = find_blocks(&world, &reach, &vec![BARREL]);
    assert_eq!(sorted(found), vec![(-16, -64, 32)]);
    let none = find_blocks(&world, &vec![], &vec![BARREL]);
    assert!(none.is_empty());
}

#[test]
fn rejected_section_decodes_no_cell() {
    let s = section_with(Palette::Linear(vec![STONE, 2]), &[(cell(4, 4, 4), 2)], STONE);
    let scan = scan_section(&s, ChunkPos { x: 0, z: 0 }, 0, &vec![BARREL]);
    assert_eq!(scan.cells_read, 0);
    assert!(scan.hits.is_empty());
    let single = section_with(Palette::SingleValue(STONE), &[], STONE);
    let scan = scan_section(&single, ChunkPos { x: 0, z: 0 }, 0, &vec![BARREL]);
    assert_eq!(scan.cells_read, 0);
}

#[test]
fn section_that_may_match_is_decoded_in_full() {
    let s = section_with(Palette::Hashmap(vec![STONE, BARREL]), &[(cell(2, 0, 1), BARREL)], STONE);
    let scan = scan_section(&s, ChunkPos { x: 2, z: -3 }, 16, &vec![BARREL]);
    assert_eq!(scan.cells_read, 4096);
    assert_eq!(scan.hits, vec![BlockPos { x: 34, y: 16, z: -47 }]);
    let g = section_with(Palette::Global, &[], STONE);
    let scan = scan_section(&g, ChunkPos { x: 0, z: 0 }, 0, &vec![BARREL]);
    assert_eq!(scan.cells_read, 4096);
    assert!(scan.hits.is_empty());
}

#[test]
fn palette_that_hides_a_cell_is_not_trusted() {
    let mut states = vec![STONE; 4096];
    states[10] = BARREL;
    let s = Section::new(Palette::SingleValue(STONE), states).unwrap();
    assert!(matches!(s.palette, Palette::Global));
    let scan = scan_section(&s, ChunkPos { x: 0, z: 0 }, 0, &vec![BARREL]);
    assert_eq!(scan.hits, vec![BlockPos { x: 10, y: 0, z: 0 }]);
}

#[test]
fn section_needs_every_cell() {
    assert!(Section::new(Palette::Global, vec![0; 4095]).is_none());
    assert!(Section::new(Palette::Global, vec![]).is_none());
}

#[test]
fn world_refuses_duplicate_and_distant_chunks() {
    let mut world = World::new(0);
    assert!(world.add_chunk(Chunk::new(ChunkPos { x: 3, z: 3 })));
    assert!(!world.add_chunk(Chunk::new(ChunkPos { x: 3, z: 3 })));
    assert!(!world.add_chunk(Chunk::new(ChunkPos { x: 200_000_000, z: 0 })));
    assert_eq!(world.chunks.len(), 1);
}

#[test]
fn palette_check_reads_only_the_table() {
    assert!(Palette::Linear(vec![1, 2, 3]).may_hold_any(&vec![3]));
    assert!(!Palette::Linear(vec![1, 2, 3]).may_hold_any(&vec![4]));
    assert!(!Palette::SingleValue(1).may_hold_any(&vec![]));
    assert!(Palette::Global.may_hold_any(&vec![]));
}

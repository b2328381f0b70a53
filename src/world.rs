use vstd::prelude::*;

use crate::geometry::{BlockPos, ChunkPos};

verus! {

/// Number of cells in one section (16 x 16 x 16).
pub const SECTION_CELLS: usize = 4096;

/// Largest chunk coordinate (in absolute value) whose blocks have `i32` coordinates.
pub const CHUNK_COORD_LIMIT: i32 = 134217727;

/// How the block states of a section are encoded.
#[derive(Debug)]
pub enum Palette {
    /// Every cell holds this state.
    SingleValue(u32),
    /// A small table of the states that occur.
    Linear(Vec<u32>),
    /// A hashed table of the states that occur.
    Hashmap(Vec<u32>),
    /// Cells hold states directly: nothing is known without reading them.
    Global,
}

impl Palette {
    /// Whether a cell of a section with this palette may hold `v`.
    pub open spec fn admits(&self, v: u32) -> bool {
        match self {
            Palette::SingleValue(w) => v == *w,
            Palette::Linear(ids) => ids@.contains(v),
            Palette::Hashmap(ids) => ids@.contains(v),
            Palette::Global => true,
        }
    }

    /// Whether the palette alone leaves open that some cell holds a target state.
    pub open spec fn may_hold(&self, targets: Seq<u32>) -> bool {
        match self {
            Palette::SingleValue(w) => targets.contains(*w),
            Palette::Linear(ids) => exists|j: int| 0 <= j < ids.len() && targets.contains(#[trigger] ids@[j]),
            Palette::Hashmap(ids) => exists|j: int| 0 <= j < ids.len() && targets.contains(#[trigger] ids@[j]),
            Palette::Global => true,
        }
    }

    /// Checks the palette against the target states without reading any cell.
    pub fn may_hold_any(&self, targets: &Vec<u32>) -> (r: bool)
        ensures
            r == self.may_hold(targets@),
    {
        match self {
            Palette::SingleValue(w) => contains_state(targets, *w),
            Palette::Linear(ids) => any_target(ids, targets),
            Palette::Hashmap(ids) => any_target(ids, targets),
            Palette::Global => true,
        }
    }
}

/// Whether `v` is one of `states`.
pub fn contains_state(states: &Vec<u32>, v: u32) -> (r: bool)
    ensures
        r == states@.contains(v),
{
    let mut i: usize = 0;
    while i < states.len()
        invariant
            i <= states.len(),
            forall|j: int| 0 <= j < i ==> states@[j] != v,
        decreases states.len() - i,
    {
        if states[i] == v {
            return true;
        }
        i += 1;
    }
    false
}

fn any_target(ids: &Vec<u32>, targets: &Vec<u32>) -> (r: bool)
    ensures
        r == exists|j: int| 0 <= j < ids.len() && targets@.contains(#[trigger] ids@[j]),
{
    let mut i: usize = 0;
    while i < ids.len()
        invariant
            i <= ids.len(),
            forall|j: int| 0 <= j < i ==> !targets@.contains(#[trigger] ids@[j]),
        decreases ids.len() - i,
    {
        if contains_state(targets, ids[i]) {
            return true;
        }
        i += 1;
    }
    false
}

/// One vertical slice of a chunk: its palette and the decoded state of each cell.
#[derive(Debug)]
pub struct Section {
    pub palette: Palette,
    pub states: Vec<u32>,
}

impl Section {
    /// Every cell holds a state that the palette admits.
    pub open spec fn consistent(palette: Palette, states: Seq<u32>) -> bool {
        forall|i: int| 0 <= i < states.len() ==> palette.admits(#[trigger] states[i])
    }

    pub open spec fn wf(&self) -> bool {
        &&& self.states.len() == SECTION_CELLS
        &&& Section::consistent(self.palette, self.states@)
    }

    /// A section from its palette and its cells; `None` unless there are exactly
    /// 4096 cells. A palette that does not admit every cell is replaced by
    /// `Global`, so that the cells are never skipped wrongly.
    pub fn new(palette: Palette, states: Vec<u32>) -> (r: Option<Section>)
        ensures
            r is Some <==> states.len() == SECTION_CELLS,
            r matches Some(s) ==> {
                &&& s.wf()
                &&& s.states@ == states@
                &&& Section::consistent(palette, states@) ==> s.palette == palette
                &&& !Section::consistent(palette, states@) ==> s.palette is Global
            },
    {
        if states.len() != SECTION_CELLS {
            return None;
        }
        let mut i: usize = 0;
        let mut ok = true;
        while i < states.len()
            invariant
                i <= states.len(),
                ok == Section::consistent(palette, states@.take(i as int)),
            decreases states.len() - i,
        {
            let v = states[i];
            let admitted = match &palette {
                Palette::SingleValue(w) => v == *w,
                Palette::Linear(ids) => contains_state(ids, v),
                Palette::Hashmap(ids) => contains_state(ids, v),
                Palette::Global => true,
            };
            proof {
                let t = states@.take(i + 1);
                assert(t[i as int] == v);
                assert forall|j: int| 0 <= j < i implies t[j] == states@.take(i as int)[j] by {}
            }
            ok = ok && admitted;
            i += 1;
        }
        assert(states@.take(states.len() as int) == states@);
        if ok {
            Some(Section { palette, states })
        } else {
            Some(Section { palette: Palette::Global, states })
        }
    }
}

/// A loaded chunk: its position and its sections from the bottom up.
#[derive(Debug)]
pub struct Chunk {
    pub pos: ChunkPos,
    pub sections: Vec<Section>,
}

impl Chunk {
    pub open spec fn wf(&self) -> bool {
        &&& -CHUNK_COORD_LIMIT <= self.pos.x <= CHUNK_COORD_LIMIT
        &&& -CHUNK_COORD_LIMIT <= self.pos.z <= CHUNK_COORD_LIMIT
        &&& forall|s: int| 0 <= s < self.sections.len() ==> (#[trigger] self.sections@[s]).wf()
    }

    /// A chunk with no sections yet.
    pub fn new(pos: ChunkPos) -> (r: Chunk)
        ensures
            r.pos == pos,
            r.sections@.len() == 0,
    {
        Chunk { pos, sections: Vec::new() }
    }

    /// Adds a section above those already there.
    pub fn push_section(&mut self, section: Section)
        ensures
            final(self).pos == old(self).pos,
            final(self).sections@ == old(self).sections@.push(section),
    {
        self.sections.push(section);
    }
}

/// A read-only snapshot of the loaded part of the world.
#[derive(Debug)]
pub struct World {
    /// The height of the bottom of every chunk.
    pub min_y: i32,
    pub chunks: Vec<Chunk>,
}

/// Whether a chunk of `n` sections whose bottom is at `min_y` has `i32` heights.
pub open spec fn height_fits(min_y: int, n: int) -> bool {
    min_y + 16 * n <= i32::MAX + 1
}

impl World {
    pub open spec fn wf(&self) -> bool {
        &&& forall|k: int| 0 <= k < self.chunks.len() ==> (#[trigger] self.chunks@[k]).wf()
        &&& forall|k: int|
            0 <= k < self.chunks.len() ==> height_fits(
                self.min_y as int,
                (#[trigger] self.chunks@[k]).sections.len() as int,
            )
        &&& forall|a: int, b: int|
            0 <= a < b < self.chunks.len() ==> (#[trigger] self.chunks@[a]).pos
                != (#[trigger] self.chunks@[b]).pos
    }

    /// An empty snapshot.
    pub fn new(min_y: i32) -> (r: World)
        ensures
            r.wf(),
            r.min_y == min_y,
            r.chunks@.len() == 0,
    {
        World { min_y, chunks: Vec::new() }
    }

    /// Adds a chunk. Refused (`false`, nothing changes) when a chunk at the same
    /// position is already there, or when its blocks would not have `i32`
    /// coordinates.
    pub fn add_chunk(&mut self, chunk: Chunk) -> (added: bool)
        requires
            old(self).wf(),
            forall|s: int| 0 <= s < chunk.sections.len() ==> (#[trigger] chunk.sections@[s]).wf(),
        ensures
            final(self).wf(),
            final(self).min_y == old(self).min_y,
            added <==> {
                &&& -CHUNK_COORD_LIMIT <= chunk.pos.x <= CHUNK_COORD_LIMIT
                &&& -CHUNK_COORD_LIMIT <= chunk.pos.z <= CHUNK_COORD_LIMIT
                &&& height_fits(old(self).min_y as int, chunk.sections.len() as int)
                &&& forall|k: int|
                    0 <= k < old(self).chunks.len() ==> (#[trigger] old(self).chunks@[k]).pos
                        != chunk.pos
            },
            added ==> final(self).chunks@ == old(self).chunks@.push(chunk),
            !added ==> final(self).chunks@ == old(self).chunks@,
    {
        if chunk.pos.x < -CHUNK_COORD_LIMIT || chunk.pos.x > CHUNK_COORD_LIMIT || chunk.pos.z
            < -CHUNK_COORD_LIMIT || chunk.pos.z > CHUNK_COORD_LIMIT {
            return false;
        }
        let room: i64 = i32::MAX as i64 + 1 - self.min_y as i64;
        if chunk.sections.len() as u64 > (room / 16) as u64 {
            return false;
        }
        let mut k: usize = 0;
        while k < self.chunks.len()
            invariant
                *self == *old(self),
                self.wf(),
                k <= self.chunks.len(),
                forall|j: int| 0 <= j < k ==> (#[trigger] self.chunks@[j]).pos != chunk.pos,
            decreases self.chunks.len() - k,
        {
            if self.chunks[k].pos == chunk.pos {
                return false;
            }
            k += 1;
        }
        self.chunks.push(chunk);
        true
    }
}

/// The world position of cell `i` of the section whose bottom is at `y_base`,
/// in the chunk at `(cx, cz)`.
pub open spec fn cell_pos(cx: int, y_base: int, cz: int, i: int) -> BlockPos {
    BlockPos {
        x: (cx * 16 + i % 16) as i32,
        y: (y_base + i / 256) as i32,
        z: (cz * 16 + (i / 16) % 16) as i32,
    }
}

/// The positions of the first `n` cells of a section that hold a target state,
/// in cell order.
pub open spec fn section_hits(
    states: Seq<u32>,
    targets: Seq<u32>,
    cx: int,
    y_base: int,
    cz: int,
    n: int,
) -> Seq<BlockPos>
    decreases n,
{
    if n <= 0 {
        Seq::empty()
    } else {
        let before = section_hits(states, targets, cx, y_base, cz, n - 1);
        if targets.contains(states[n - 1]) {
            before.push(cell_pos(cx, y_base, cz, n - 1))
        } else {
            before
        }
    }
}

/// The positions in the first `m` sections of a chunk that hold a target state.
pub open spec fn chunk_hits(c: Chunk, min_y: int, targets: Seq<u32>, m: int) -> Seq<BlockPos>
    decreases m,
{
    if m <= 0 {
        Seq::empty()
    } else {
        chunk_hits(c, min_y, targets, m - 1) + section_hits(
            c.sections@[m - 1].states@,
            targets,
            c.pos.x as int,
            min_y + 16 * (m - 1),
            c.pos.z as int,
            SECTION_CELLS as int,
        )
    }
}

/// The positions, chunk after chunk, of the first `n` chunks that lie in
/// `reach` and hold a target state.
pub open spec fn world_hits(
    chunks: Seq<Chunk>,
    min_y: int,
    reach: Seq<ChunkPos>,
    targets: Seq<u32>,
    n: int,
) -> Seq<BlockPos>
    decreases n,
{
    if n <= 0 {
        Seq::empty()
    } else {
        let c = chunks[n - 1];
        let before = world_hits(chunks, min_y, reach, targets, n - 1);
        if reach.contains(c.pos) {
            before + chunk_hits(c, min_y, targets, c.sections.len() as int)
        } else {
            before
        }
    }
}

/// What was found in one section, and how many cells were decoded to find it.
pub struct SectionScan {
    pub hits: Vec<BlockPos>,
    pub cells_read: u32,
}

proof fn lemma_rejected_section_has_no_hits(s: Section, targets: Seq<u32>, cx: int, y_base: int, cz: int, n: int)
    requires
        s.wf(),
        !s.palette.may_hold(targets),
        0 <= n <= SECTION_CELLS,
    ensures
        section_hits(s.states@, targets, cx, y_base, cz, n) == Seq::<BlockPos>::empty(),
    decreases n,
{
    if n > 0 {
        lemma_rejected_section_has_no_hits(s, targets, cx, y_base, cz, n - 1);
        let v = s.states@[n - 1];
        assert(s.palette.admits(v));
        match s.palette {
            Palette::Linear(ids) => {
                let j = choose|j: int| 0 <= j < ids.len() && ids@[j] == v;
                assert(!targets.contains(ids@[j]));
            },
            Palette::Hashmap(ids) => {
                let j = choose|j: int| 0 <= j < ids.len() && ids@[j] == v;
                assert(!targets.contains(ids@[j]));
            },
            _ => {},
        }
    }
}

/// Scans one section of the chunk at `chunk`, whose bottom is at `y_base`.
/// When the palette rules every target out, no cell is decoded and nothing is
/// found; otherwise all 4096 cells are decoded.
pub fn scan_section(section: &Section, chunk: ChunkPos, y_base: i32, targets: &Vec<u32>) -> (r:
    SectionScan)
    requires
        section.wf(),
        -CHUNK_COORD_LIMIT <= chunk.x <= CHUNK_COORD_LIMIT,
        -CHUNK_COORD_LIMIT <= chunk.z <= CHUNK_COORD_LIMIT,
        y_base + 16 <= i32::MAX + 1,
    ensures
        r.cells_read == (if section.palette.may_hold(targets@) {
            SECTION_CELLS as u32
        } else {
            0u32
        }),
        r.hits@ == section_hits(
            section.states@,
            targets@,
            chunk.x as int,
            y_base as int,
            chunk.z as int,
            SECTION_CELLS as int,
        ),
{
    if !section.palette.may_hold_any(targets) {
        proof {
            lemma_rejected_section_has_no_hits(
                *section,
                targets@,
                chunk.x as int,
                y_base as int,
                chunk.z as int,
                SECTION_CELLS as int,
            );
        }
        return SectionScan { hits: Vec::new(), cells_read: 0 };
    }
    let mut hits: Vec<BlockPos> = Vec::new();
    let mut cells_read: u32 = 0;
    let mut i: usize = 0;
    while i < SECTION_CELLS
        invariant
            section.wf(),
            i <= SECTION_CELLS,
            cells_read == i,
            -CHUNK_COORD_LIMIT <= chunk.x <= CHUNK_COORD_LIMIT,
            -CHUNK_COORD_LIMIT <= chunk.z <= CHUNK_COORD_LIMIT,
            y_base + 16 <= i32::MAX + 1,
            hits@ == section_hits(
                section.states@,
                targets@,
                chunk.x as int,
                y_base as int,
                chunk.z as int,
                i as int,
            ),
        decreases SECTION_CELLS - i,
    {
        let state = section.states[i];
        cells_read += 1;
        if contains_state(targets, state) {
            let p = BlockPos {
                x: chunk.x * 16 + (i % 16) as i32,
                y: y_base + (i / 256) as i32,
                z: chunk.z * 16 + ((i / 16) % 16) as i32,
            };
            hits.push(p);
        }
        i += 1;
    }
    SectionScan { hits, cells_read }
}

/// Whether `pos` is one of `reach`.
fn in_reach(reach: &Vec<ChunkPos>, pos: ChunkPos) -> (r: bool)
    ensures
        r == reach@.contains(pos),
{
    let mut i: usize = 0;
    while i < reach.len()
        invariant
            i <= reach.len(),
            forall|j: int| 0 <= j < i ==> reach@[j] != pos,
        decreases reach.len() - i,
    {
        if reach[i] == pos {
            return true;
        }
        i += 1;
    }
    false
}

/// The positions of every block of the snapshot whose state is one of
/// `block_states`, in the chunks listed in `reach` that are loaded. Chunks
/// of `reach` that are not loaded are skipped. Chunks are visited in the
/// snapshot's order, sections from the bottom up, cells in index order.
pub fn find_blocks(world: &World, reach: &Vec<ChunkPos>, block_states: &Vec<u32>) -> (r: Vec<
    BlockPos,
>)
    requires
        world.wf(),
    ensures
        r@ == world_hits(
            world.chunks@,
            world.min_y as int,
            reach@,
            block_states@,
            world.chunks.len() as int,
        ),
{
    let mut res: Vec<BlockPos> = Vec::new();
    let mut k: usize = 0;
    while k < world.chunks.len()
        invariant
            world.wf(),
            k <= world.chunks.len(),
            res@ == world_hits(world.chunks@, world.min_y as int, reach@, block_states@, k as int),
        decreases world.chunks.len() - k,
    {
        let chunk = &world.chunks[k];
        assert(chunk.wf());
        if in_reach(reach, chunk.pos) {
            let ghost before = res@;
            let mut s: usize = 0;
            while s < chunk.sections.len()
                invariant
                    world.wf(),
                    k < world.chunks.len(),
                    *chunk == world.chunks@[k as int],
                    chunk.wf(),
                    height_fits(world.min_y as int, chunk.sections.len() as int),
                    s <= chunk.sections.len(),
                    res@ == before + chunk_hits(*chunk, world.min_y as int, block_states@, s as int),
                decreases chunk.sections.len() - s,
            {
                let y_base: i32 = (world.min_y as i64 + 16 * s as i64) as i32;
                assert(chunk.sections@[s as int].wf());
                let scan = scan_section(&chunk.sections[s], chunk.pos, y_base, block_states);
                let mut hits = scan.hits;
                res.append(&mut hits);
                proof {
                    assert(before + chunk_hits(*chunk, world.min_y as int, block_states@, s + 1)
                        == before + chunk_hits(*chunk, world.min_y as int, block_states@, s as int)
                        + scan.hits@);
                }
                s += 1;
            }
        }
        k += 1;
    }
    res
}

} // verus!

verus! {

/// Cell `i` of section `s` of chunk `k` lies in reach and holds a target state.
pub open spec fn block_hit(
    chunks: Seq<Chunk>,
    reach: Seq<ChunkPos>,
    targets: Seq<u32>,
    k: int,
    s: int,
    i: int,
) -> bool {
    &&& 0 <= k < chunks.len()
    &&& reach.contains(chunks[k].pos)
    &&& 0 <= s < chunks[k].sections.len()
    &&& 0 <= i < SECTION_CELLS
    &&& targets.contains(chunks[k].sections@[s].states@[i])
}

/// The world position of cell `i` of section `s` of chunk `k`.
pub open spec fn block_at(chunks: Seq<Chunk>, min_y: int, k: int, s: int, i: int) -> BlockPos {
    cell_pos(chunks[k].pos.x as int, min_y + 16 * s, chunks[k].pos.z as int, i)
}

proof fn lemma_cell_index_injective(i: int, j: int)
    requires
        0 <= i < 4096,
        0 <= j < 4096,
        i % 16 == j % 16,
        (i / 16) % 16 == (j / 16) % 16,
        i / 256 == j / 256,
    ensures
        i == j,
{
    let a = i as u64;
    let b = j as u64;
    assert(a % 16 == b % 16 && (a / 16) % 16 == (b / 16) % 16 && a / 256 == b / 256);
    assert(a < 4096 && b < 4096 && a % 16 == b % 16 && (a / 16) % 16 == (b / 16) % 16 && a / 256
        == b / 256 ==> a == b) by (bit_vector);
}

/// Whether `p` lies in the 16 x 16 x 16 box of the section whose bottom is at
/// `y_base` in the chunk at `(cx, cz)`.
pub open spec fn in_section_box(p: BlockPos, cx: int, y_base: int, cz: int) -> bool {
    &&& cx * 16 <= p.x < cx * 16 + 16
    &&& y_base <= p.y < y_base + 16
    &&& cz * 16 <= p.z < cz * 16 + 16
}

/// `p` is the position of one of the first `n` cells, and that cell holds a target state.
pub open spec fn is_target_cell(
    p: BlockPos,
    states: Seq<u32>,
    targets: Seq<u32>,
    cx: int,
    y_base: int,
    cz: int,
    n: int,
) -> bool {
    exists|i: int| 0 <= i < n && targets.contains(states[i]) && p == #[trigger] cell_pos(cx, y_base, cz, i)
}

/// The hits of a section: no position twice, each one a target cell of the
/// first `n`, every such cell among them, all inside the section's box.
pub open spec fn section_hits_wf(
    h: Seq<BlockPos>,
    states: Seq<u32>,
    targets: Seq<u32>,
    cx: int,
    y_base: int,
    cz: int,
    n: int,
) -> bool {
    &&& h.no_duplicates()
    &&& forall|q: int|
        0 <= q < h.len() ==> is_target_cell(h[q], states, targets, cx, y_base, cz, n)
    &&& forall|i: int|
        0 <= i < n && targets.contains(states[i]) ==> h.contains(#[trigger] cell_pos(cx, y_base, cz, i))
    &&& forall|q: int| 0 <= q < h.len() ==> in_section_box(#[trigger] h[q], cx, y_base, cz)
}

proof fn lemma_section_hits(
    states: Seq<u32>,
    targets: Seq<u32>,
    cx: int,
    y_base: int,
    cz: int,
    n: int,
)
    requires
        0 <= n <= SECTION_CELLS,
        n <= states.len(),
        -CHUNK_COORD_LIMIT <= cx <= CHUNK_COORD_LIMIT,
        -CHUNK_COORD_LIMIT <= cz <= CHUNK_COORD_LIMIT,
        i32::MIN <= y_base,
        y_base + 16 <= i32::MAX + 1,
    ensures
        section_hits_wf(section_hits(states, targets, cx, y_base, cz, n), states, targets, cx, y_base, cz, n),
    decreases n,
{
    if n > 0 {
        lemma_section_hits(states, targets, cx, y_base, cz, n - 1);
        let before = section_hits(states, targets, cx, y_base, cz, n - 1);
        let h = section_hits(states, targets, cx, y_base, cz, n);
        if targets.contains(states[n - 1]) {
            let c = cell_pos(cx, y_base, cz, n - 1);
            assert(h == before.push(c));
            let m = n - 1;
            assert(0 <= m % 16 < 16);
            assert(0 <= (m / 16) % 16 < 16);
            assert(0 <= m / 256 < 16);
            assert(c.x == cx * 16 + m % 16);
            assert(c.y == y_base + m / 256);
            assert(c.z == cz * 16 + (m / 16) % 16);
            assert(in_section_box(c, cx, y_base, cz));
            assert forall|q: int| 0 <= q < h.len() implies in_section_box(#[trigger] h[q], cx, y_base, cz) by {
                if q < before.len() {
                    assert(h[q] == before[q]);
                }
            }
            assert forall|q: int| 0 <= q < before.len() implies before[q] != c by {
                let i = choose|i: int|
                    0 <= i < n - 1 && targets.contains(states[i]) && before[q] == #[trigger] cell_pos(
                        cx,
                        y_base,
                        cz,
                        i,
                    );
                if before[q] == c {
                    lemma_cell_index_injective(i, n - 1);
                }
            }
            assert(h.no_duplicates()) by {
                assert forall|a: int, b: int| 0 <= a < h.len() && 0 <= b < h.len() && a != b implies h[a] != h[b] by {
                    if a < before.len() && b < before.len() {
                        assert(h[a] == before[a] && h[b] == before[b]);
                    } else if a < before.len() {
                        assert(h[a] == before[a]);
                    } else {
                        assert(h[b] == before[b]);
                    }
                }
            }
            assert forall|i: int|
                0 <= i < n && targets.contains(states[i]) implies h.contains(
                #[trigger] cell_pos(cx, y_base, cz, i),
            ) by {
                if i < n - 1 {
                    let q = choose|q: int| 0 <= q < before.len() && before[q] == cell_pos(cx, y_base, cz, i);
                    assert(h[q] == before[q]);
                } else {
                    assert(h[before.len() as int] == c);
                }
            }
            assert forall|q: int|
                0 <= q < h.len() implies is_target_cell(h[q], states, targets, cx, y_base, cz, n) by {
                if q < before.len() {
                    assert(h[q] == before[q]);
                } else {
                    assert(h[q] == cell_pos(cx, y_base, cz, n - 1));
                }
            }
        } else {
            assert(h == before);
            assert forall|q: int|
                0 <= q < h.len() implies is_target_cell(h[q], states, targets, cx, y_base, cz, n) by {
                assert(h[q] == before[q]);
                let i = choose|i: int|
                    0 <= i < n - 1 && targets.contains(states[i]) && before[q] == #[trigger] cell_pos(cx, y_base, cz, i);
                assert(0 <= i < n && targets.contains(states[i]) && h[q] == cell_pos(cx, y_base, cz, i));
            }
            assert forall|i: int|
                0 <= i < n && targets.contains(states[i]) implies h.contains(
                #[trigger] cell_pos(cx, y_base, cz, i),
            ) by {
                assert(i < n - 1);
            }
        }
    }
}

/// `p` is a target cell of one of the first `m` sections of chunk `c`.
pub open spec fn is_chunk_target(p: BlockPos, c: Chunk, min_y: int, targets: Seq<u32>, m: int) -> bool {
    exists|s: int|
        0 <= s < m && #[trigger] is_target_cell(
            p,
            c.sections@[s].states@,
            targets,
            c.pos.x as int,
            min_y + 16 * s,
            c.pos.z as int,
            SECTION_CELLS as int,
        )
}

/// `p` lies in the column of chunk `c`, between `min_y` and the top of its first `m` sections.
pub open spec fn in_chunk_column(p: BlockPos, c: Chunk, min_y: int, m: int) -> bool {
    &&& c.pos.x * 16 <= p.x < c.pos.x * 16 + 16
    &&& c.pos.z * 16 <= p.z < c.pos.z * 16 + 16
    &&& min_y <= p.y < min_y + 16 * m
}

proof fn lemma_chunk_hits(c: Chunk, min_y: int, targets: Seq<u32>, m: int)
    requires
        c.wf(),
        0 <= m <= c.sections.len(),
        i32::MIN <= min_y,
        height_fits(min_y, c.sections.len() as int),
    ensures
        ({
            let h = chunk_hits(c, min_y, targets, m);
            &&& h.no_duplicates()
            &&& forall|q: int| 0 <= q < h.len() ==> is_chunk_target(#[trigger] h[q], c, min_y, targets, m)
            &&& forall|q: int| 0 <= q < h.len() ==> in_chunk_column(#[trigger] h[q], c, min_y, m)
            &&& forall|s: int, i: int|
                0 <= s < m && 0 <= i < SECTION_CELLS && targets.contains(c.sections@[s].states@[i])
                    ==> h.contains(#[trigger] cell_pos(c.pos.x as int, min_y + 16 * s, c.pos.z as int, i))
        }),
    decreases m,
{
    if m > 0 {
        lemma_chunk_hits(c, min_y, targets, m - 1);
        let s0 = m - 1;
        let y0 = min_y + 16 * s0;
        let sec = c.sections@[s0];
        assert(sec.wf());
        lemma_section_hits(sec.states@, targets, c.pos.x as int, y0, c.pos.z as int, SECTION_CELLS as int);
        let before = chunk_hits(c, min_y, targets, m - 1);
        let sh = section_hits(sec.states@, targets, c.pos.x as int, y0, c.pos.z as int, SECTION_CELLS as int);
        let h = chunk_hits(c, min_y, targets, m);
        assert(h == before + sh);
        assert forall|a: int, b: int| 0 <= a < before.len() && 0 <= b < sh.len() implies before[a] != sh[b] by {
            assert(in_chunk_column(before[a], c, min_y, m - 1));
            assert(in_section_box(sh[b], c.pos.x as int, y0, c.pos.z as int));
        }
        vstd::seq_lib::lemma_no_dup_in_concat(before, sh);
        assert forall|q: int| 0 <= q < h.len() implies is_chunk_target(#[trigger] h[q], c, min_y, targets, m) && in_chunk_column(h[q], c, min_y, m) by {
            if q < before.len() {
                assert(h[q] == before[q]);
                assert(is_chunk_target(before[q], c, min_y, targets, m - 1));
                let s = choose|s: int|
                    0 <= s < m - 1 && #[trigger] is_target_cell(
                        before[q],
                        c.sections@[s].states@,
                        targets,
                        c.pos.x as int,
                        min_y + 16 * s,
                        c.pos.z as int,
                        SECTION_CELLS as int,
                    );
                assert(is_target_cell(h[q], c.sections@[s].states@, targets, c.pos.x as int, min_y + 16 * s, c.pos.z as int, SECTION_CELLS as int));
            } else {
                let r = q - before.len();
                assert(h[q] == sh[r]);
                assert(in_section_box(sh[r], c.pos.x as int, y0, c.pos.z as int));
                assert(is_target_cell(h[q], sec.states@, targets, c.pos.x as int, y0, c.pos.z as int, SECTION_CELLS as int));
            }
        }
        assert forall|s: int, i: int|
            0 <= s < m && 0 <= i < SECTION_CELLS && targets.contains(c.sections@[s].states@[i])
                implies h.contains(#[trigger] cell_pos(c.pos.x as int, min_y + 16 * s, c.pos.z as int, i)) by {
            let p = cell_pos(c.pos.x as int, min_y + 16 * s, c.pos.z as int, i);
            if s < m - 1 {
                let q = choose|q: int| 0 <= q < before.len() && before[q] == p;
                assert(h[q] == before[q]);
            } else {
                let q = choose|q: int| 0 <= q < sh.len() && sh[q] == p;
                assert(h[before.len() + q] == sh[q]);
            }
        }
    }
}

/// `p` is a target cell of one of the first `n` chunks that lie in reach.
pub open spec fn is_world_target(
    p: BlockPos,
    chunks: Seq<Chunk>,
    min_y: int,
    reach: Seq<ChunkPos>,
    targets: Seq<u32>,
    n: int,
) -> bool {
    exists|k: int|
        0 <= k < n && reach.contains(chunks[k].pos) && #[trigger] is_chunk_target(
            p,
            chunks[k],
            min_y,
            targets,
            chunks[k].sections.len() as int,
        ) && in_chunk_column(p, chunks[k], min_y, chunks[k].sections.len() as int)
}

proof fn lemma_world_hits(world: World, reach: Seq<ChunkPos>, targets: Seq<u32>, n: int)
    requires
        world.wf(),
        0 <= n <= world.chunks.len(),
    ensures
        ({
            let chunks = world.chunks@;
            let h = world_hits(chunks, world.min_y as int, reach, targets, n);
            &&& h.no_duplicates()
            &&& forall|q: int|
                0 <= q < h.len() ==> is_world_target(#[trigger] h[q], chunks, world.min_y as int, reach, targets, n)
            &&& forall|k: int, s: int, i: int|
                k < n && block_hit(chunks, reach, targets, k, s, i) ==> h.contains(
                    #[trigger] block_at(chunks, world.min_y as int, k, s, i),
                )
        }),
    decreases n,
{
    let chunks = world.chunks@;
    let min_y = world.min_y as int;
    if n > 0 {
        lemma_world_hits(world, reach, targets, n - 1);
        let before = world_hits(chunks, min_y, reach, targets, n - 1);
        let h = world_hits(chunks, min_y, reach, targets, n);
        let c = chunks[n - 1];
        assert(c.wf());
        assert(height_fits(min_y, c.sections.len() as int));
        if reach.contains(c.pos) {
            let m = c.sections.len() as int;
            lemma_chunk_hits(c, min_y, targets, m);
            let ch = chunk_hits(c, min_y, targets, m);
            assert(h == before + ch);
            assert forall|a: int, b: int| 0 <= a < before.len() && 0 <= b < ch.len() implies before[a] != ch[b] by {
                assert(is_world_target(before[a], chunks, min_y, reach, targets, n - 1));
                let k = choose|k: int|
                    0 <= k < n - 1 && reach.contains(chunks[k].pos) && #[trigger] is_chunk_target(
                        before[a],
                        chunks[k],
                        min_y,
                        targets,
                        chunks[k].sections.len() as int,
                    ) && in_chunk_column(before[a], chunks[k], min_y, chunks[k].sections.len() as int);
                assert(chunks[k].pos != chunks[n - 1].pos);
                assert(in_chunk_column(ch[b], c, min_y, m));
            }
            vstd::seq_lib::lemma_no_dup_in_concat(before, ch);
            assert forall|q: int|
                0 <= q < h.len() implies is_world_target(#[trigger] h[q], chunks, min_y, reach, targets, n) by {
                if q < before.len() {
                    assert(h[q] == before[q]);
                    assert(is_world_target(before[q], chunks, min_y, reach, targets, n - 1));
                } else {
                    let r = q - before.len();
                    assert(h[q] == ch[r]);
                    assert(is_chunk_target(ch[r], c, min_y, targets, m));
                    assert(in_chunk_column(ch[r], c, min_y, m));
                }
            }
            assert forall|k: int, s: int, i: int|
                k < n && block_hit(chunks, reach, targets, k, s, i) implies h.contains(
                #[trigger] block_at(chunks, min_y, k, s, i),
            ) by {
                let p = block_at(chunks, min_y, k, s, i);
                if k < n - 1 {
                    let q = choose|q: int| 0 <= q < before.len() && before[q] == p;
                    assert(h[q] == before[q]);
                } else {
                    assert(ch.contains(cell_pos(c.pos.x as int, min_y + 16 * s, c.pos.z as int, i)));
                    let q = choose|q: int| 0 <= q < ch.len() && ch[q] == p;
                    assert(h[before.len() + q] == ch[q]);
                }
            }
        } else {
            assert(h == before);
            assert forall|q: int|
                0 <= q < h.len() implies is_world_target(#[trigger] h[q], chunks, min_y, reach, targets, n) by {
                assert(is_world_target(before[q], chunks, min_y, reach, targets, n - 1));
            }
        }
    }
}

/// What `find_blocks` returns holds no position twice, and holds a position
/// exactly when it is the position of a cell, in a loaded chunk in reach, whose
/// state is one of the targets.
pub proof fn lemma_find_blocks_exact(world: World, reach: Seq<ChunkPos>, targets: Seq<u32>)
    requires
        world.wf(),
    ensures
        ({
            let h = world_hits(world.chunks@, world.min_y as int, reach, targets, world.chunks.len() as int);
            &&& h.no_duplicates()
            &&& forall|p: BlockPos|
                #[trigger] h.contains(p) <==> exists|k: int, s: int, i: int|
                    block_hit(world.chunks@, reach, targets, k, s, i) && p == #[trigger] block_at(
                        world.chunks@,
                        world.min_y as int,
                        k,
                        s,
                        i,
                    )
        }),
{
    let chunks = world.chunks@;
    let min_y = world.min_y as int;
    let n = chunks.len() as int;
    lemma_world_hits(world, reach, targets, n);
    let h = world_hits(chunks, min_y, reach, targets, n);
    assert forall|p: BlockPos| #[trigger] h.contains(p) implies exists|k: int, s: int, i: int|
        block_hit(chunks, reach, targets, k, s, i) && p == #[trigger] block_at(chunks, min_y, k, s, i) by {
        let q = choose|q: int| 0 <= q < h.len() && h[q] == p;
        assert(is_world_target(h[q], chunks, min_y, reach, targets, n));
        let k = choose|k: int|
            0 <= k < n && reach.contains(chunks[k].pos) && #[trigger] is_chunk_target(
                p,
                chunks[k],
                min_y,
                targets,
                chunks[k].sections.len() as int,
            ) && in_chunk_column(p, chunks[k], min_y, chunks[k].sections.len() as int);
        let c = chunks[k];
        let s = choose|s: int|
            0 <= s < c.sections.len() && #[trigger] is_target_cell(
                p,
                c.sections@[s].states@,
                targets,
                c.pos.x as int,
                min_y + 16 * s,
                c.pos.z as int,
                SECTION_CELLS as int,
            );
        let i = choose|i: int|
            0 <= i < SECTION_CELLS && targets.contains(c.sections@[s].states@[i]) && p
                == #[trigger] cell_pos(c.pos.x as int, min_y + 16 * s, c.pos.z as int, i);
        assert(block_hit(chunks, reach, targets, k, s, i));
        assert(p == block_at(chunks, min_y, k, s, i));
    }
    assert forall|p: BlockPos| (exists|k: int, s: int, i: int|
        block_hit(chunks, reach, targets, k, s, i) && p == #[trigger] block_at(chunks, min_y, k, s, i))
        implies #[trigger] h.contains(p) by {
        let (k, s, i) = choose|k: int, s: int, i: int|
            block_hit(chunks, reach, targets, k, s, i) && p == #[trigger] block_at(chunks, min_y, k, s, i);
        assert(h.contains(block_at(chunks, min_y, k, s, i)));
    }
}

/// The order in which chunks are held does not matter: two snapshots with the
/// same chunks and the same bottom give the same found positions.
pub proof fn lemma_find_blocks_order_free(a: World, b: World, reach: Seq<ChunkPos>, targets: Seq<u32>)
    requires
        a.wf(),
        b.wf(),
        a.min_y == b.min_y,
        forall|c: Chunk| a.chunks@.contains(c) <==> b.chunks@.contains(c),
    ensures
        forall|p: BlockPos|
            world_hits(a.chunks@, a.min_y as int, reach, targets, a.chunks.len() as int).contains(p)
                <==> world_hits(b.chunks@, b.min_y as int, reach, targets, b.chunks.len() as int).contains(p),
{
    lemma_find_blocks_exact(a, reach, targets);
    lemma_find_blocks_exact(b, reach, targets);
    let min_y = a.min_y as int;
    let ha = world_hits(a.chunks@, min_y, reach, targets, a.chunks.len() as int);
    let hb = world_hits(b.chunks@, min_y, reach, targets, b.chunks.len() as int);
    assert forall|p: BlockPos| ha.contains(p) implies hb.contains(p) by {
        let (k, s, i) = choose|k: int, s: int, i: int|
            block_hit(a.chunks@, reach, targets, k, s, i) && p == #[trigger] block_at(a.chunks@, min_y, k, s, i);
        let c = a.chunks@[k];
        assert(a.chunks@.contains(c));
        let k2 = choose|k2: int| 0 <= k2 < b.chunks@.len() && b.chunks@[k2] == c;
        assert(block_hit(b.chunks@, reach, targets, k2, s, i));
        assert(p == block_at(b.chunks@, min_y, k2, s, i));
    }
    assert forall|p: BlockPos| hb.contains(p) implies ha.contains(p) by {
        let (k, s, i) = choose|k: int, s: int, i: int|
            block_hit(b.chunks@, reach, targets, k, s, i) && p == #[trigger] block_at(b.chunks@, min_y, k, s, i);
        let c = b.chunks@[k];
        assert(b.chunks@.contains(c));
        let k2 = choose|k2: int| 0 <= k2 < a.chunks@.len() && a.chunks@[k2] == c;
        assert(block_hit(a.chunks@, reach, targets, k2, s, i));
        assert(p == block_at(a.chunks@, min_y, k2, s, i));
    }
}

} // verus!

use vstd::prelude::*;

verus! {

/// A block position in the world.
#[derive(Clone, Copy, Debug, PartialEq, Eq, Structural)]
pub struct BlockPos {
    pub x: i32,
    pub y: i32,
    pub z: i32,
}

/// The horizontal position of a chunk, in chunk units.
#[derive(Clone, Copy, Debug, PartialEq, Eq, Structural)]
pub struct ChunkPos {
    pub x: i32,
    pub z: i32,
}

/// The box (inclusive on every side) in which containers are indexed, and the
/// height at which the actor stands while it opens one.
#[derive(Clone, Copy, Debug, PartialEq, Eq, Structural)]
pub struct Region {
    pub walking_level: i32,
    pub x1: i32,
    pub z1: i32,
    pub x2: i32,
    pub z2: i32,
    pub min_y: i32,
    pub max_y: i32,
}

/// The drop-off container and the place the actor stands to reach it.
#[derive(Clone, Copy, Debug, PartialEq, Eq, Structural)]
pub struct Depot {
    pub storage_x: i32,
    pub storage_y: i32,
    pub storage_z: i32,
    pub x: i32,
    pub y: i32,
    pub z: i32,
}

/// Configuration read once at start-up.
#[derive(Debug)]
pub struct Config {
    pub bot_owner: String,
    pub region: Region,
    pub depot: Depot,
}

impl Region {
    pub open spec fn spec_contains(&self, p: BlockPos) -> bool {
        &&& self.min_y <= p.y <= self.max_y
        &&& self.x1 <= p.x <= self.x2
        &&& self.z1 <= p.z <= self.z2
    }

    /// Whether `p` lies inside the box.
    #[verifier::when_used_as_spec(spec_contains)]
    pub fn contains(&self, p: BlockPos) -> (r: bool)
        ensures
            r == self.spec_contains(p),
    {
        p.y >= self.min_y && p.y <= self.max_y && p.x >= self.x1 && p.x <= self.x2 && p.z
            >= self.z1 && p.z <= self.z2
    }

    /// Where the actor stands to open the container at `target`: above it, at
    /// the walking level.
    pub fn stand_position(&self, target: BlockPos) -> (r: BlockPos)
        ensures
            r == (BlockPos { x: target.x, y: self.walking_level, z: target.z }),
    {
        BlockPos { x: target.x, y: self.walking_level, z: target.z }
    }
}

impl Depot {
    /// The depot container's own position.
    pub fn storage(&self) -> (r: BlockPos)
        ensures
            r == (BlockPos { x: self.storage_x, y: self.storage_y, z: self.storage_z }),
    {
        BlockPos { x: self.storage_x, y: self.storage_y, z: self.storage_z }
    }

    /// Where the actor stands to reach the depot.
    pub fn stand(&self) -> (r: BlockPos)
        ensures
            r == (BlockPos { x: self.x, y: self.y, z: self.z }),
    {
        BlockPos { x: self.x, y: self.y, z: self.z }
    }
}

/// The positions of `blocks` that lie inside `region`, in their order.
pub open spec fn in_region(blocks: Seq<BlockPos>, region: Region) -> Seq<BlockPos> {
    blocks.filter(|p: BlockPos| region.spec_contains(p))
}

/// Keeps the positions inside the region, in their order.
pub fn filter_region(blocks: &Vec<BlockPos>, region: &Region) -> (r: Vec<BlockPos>)
    ensures
        r@ == in_region(blocks@, *region),
{
    let mut r: Vec<BlockPos> = Vec::new();
    let mut i: usize = 0;
    while i < blocks.len()
        invariant
            i <= blocks.len(),
            r@ == in_region(blocks@.take(i as int), *region),
        decreases blocks.len() - i,
    {
        let p = blocks[i];
        proof {
            assert(blocks@.take(i + 1).drop_last() == blocks@.take(i as int));
            reveal(Seq::filter);
        }
        if region.contains(p) {
            r.push(p);
        }
        i += 1;
    }
    assert(blocks@.take(blocks.len() as int) == blocks@);
    r
}

/// Filtering keeps a position exactly when it was among the blocks and lies in
/// the region: a position outside the box is never kept, whatever it holds.
pub proof fn lemma_filter_region_exact(blocks: Seq<BlockPos>, region: Region, p: BlockPos)
    ensures
        in_region(blocks, region).contains(p) <==> (blocks.contains(p) && region.spec_contains(p)),
{
    let pred = |q: BlockPos| region.spec_contains(q);
    if in_region(blocks, region).contains(p) {
        blocks.lemma_filter_contains_rev(pred, p);
        let j = choose|j: int| 0 <= j < blocks.filter(pred).len() && blocks.filter(pred)[j] == p;
        blocks.lemma_filter_pred(pred, j);
    }
    if blocks.contains(p) && region.spec_contains(p) {
        let j = choose|j: int| 0 <= j < blocks.len() && blocks[j] == p;
        blocks.lemma_filter_contains(pred, j);
    }
}

} // verus!

use vstd::prelude::*;

use crate::geometry::BlockPos;

verus! {

/// The item id of an empty slot.
pub const AIR: &'static str = "minecraft:air";

/// The namespace that an item id given without one is looked up in.
pub const NAMESPACE: &'static str = "minecraft:";

/// A slot of a container: its position and index.
pub type SlotKey = (BlockPos, i32);

/// What a slot holds: item id, count and tag bytes.
pub type SlotValue = (Seq<char>, i16, Seq<u8>);

/// The last known contents of one slot of one container.
#[derive(Debug)]
pub struct SlotRecord {
    pub pos: BlockPos,
    pub slot: i32,
    pub item_id: String,
    pub count: i16,
    pub tag: Vec<u8>,
}

impl SlotRecord {
    pub open spec fn key(&self) -> SlotKey {
        (self.pos, self.slot)
    }

    pub open spec fn value(&self) -> SlotValue {
        (self.item_id@, self.count, self.tag@)
    }

    /// A copy of the record.
    pub fn duplicate(&self) -> (r: SlotRecord)
        ensures
            r.key() == self.key(),
            r.value() == self.value(),
    {
        let tag = self.tag.clone();
        assert(tag@ =~= self.tag@);
        SlotRecord {
            pos: self.pos,
            slot: self.slot,
            item_id: self.item_id.clone(),
            count: self.count,
            tag,
        }
    }
}

/// The slots that a sequence of records describes; a later record of a slot
/// stands over an earlier one.
pub open spec fn slot_map(s: Seq<SlotRecord>) -> Map<SlotKey, SlotValue>
    decreases s.len(),
{
    if s.len() == 0 {
        Map::empty()
    } else {
        slot_map(s.drop_last()).insert(s.last().key(), s.last().value())
    }
}

/// No two records are for the same slot.
pub open spec fn keys_unique(s: Seq<SlotRecord>) -> bool {
    forall|a: int, b: int| 0 <= a < b < s.len() ==> (#[trigger] s[a]).key() != (#[trigger] s[b]).key()
}

/// The serialised tag of a slot written without one: an NBT compound with an
/// empty name and no entries.
pub open spec fn empty_tag() -> Seq<u8> {
    seq![0x0au8, 0x00u8, 0x00u8, 0x00u8]
}

/// Whether a stored item id answers a query: the same id, or the query with
/// the namespace in front. Empty slots answer no query.
pub open spec fn item_matches(stored: Seq<char>, query: Seq<char>) -> bool {
    &&& stored != AIR@
    &&& (stored == query || stored == NAMESPACE@ + query)
}

/// The slots of `m` that lie in the container at `pos`.
pub open spec fn slots_at(m: Map<SlotKey, SlotValue>, pos: BlockPos) -> Map<SlotKey, SlotValue> {
    m.restrict(Set::new(|k: SlotKey| m.contains_key(k) && k.0 == pos))
}

/// The slots of `m` that hold the item `query`.
pub open spec fn slots_holding(m: Map<SlotKey, SlotValue>, query: Seq<char>) -> Map<
    SlotKey,
    SlotValue,
> {
    m.restrict(Set::new(|k: SlotKey| m.contains_key(k) && item_matches(m[k].0, query)))
}

/// The containers after `pos` was made sure of.
pub open spec fn with_chest(chests: Seq<BlockPos>, pos: BlockPos) -> Seq<BlockPos> {
    if chests.contains(pos) {
        chests
    } else {
        chests.push(pos)
    }
}

/// Which records a query selects.
pub enum Selector {
    /// The slots of the container at this position.
    At(BlockPos),
    /// The slots that hold this item.
    Holding(String),
}

impl Selector {
    pub open spec fn selects(&self, k: SlotKey, v: SlotValue) -> bool {
        match self {
            Selector::At(pos) => k.0 == *pos,
            Selector::Holding(q) => item_matches(v.0, q@),
        }
    }

    /// The slots of `m` that the selector selects.
    pub open spec fn selected(&self, m: Map<SlotKey, SlotValue>) -> Map<SlotKey, SlotValue> {
        m.restrict(Set::new(|k: SlotKey| m.contains_key(k) && self.selects(k, m[k])))
    }

    fn admits(&self, r: &SlotRecord) -> (b: bool)
        ensures
            b == self.selects(r.key(), r.value()),
    {
        match self {
            Selector::At(pos) => r.pos == *pos,
            Selector::Holding(q) => matches_query(&r.item_id, q.as_str()),
        }
    }
}

/// Whether the stored item id answers the query.
pub fn matches_query(stored: &String, query: &str) -> (r: bool)
    ensures
        r == item_matches(stored@, query@),
{
    let air = String::from_str(AIR);
    if *stored == air {
        return false;
    }
    let same = String::from_str(query);
    let full = String::from_str(NAMESPACE).concat(query);
    *stored == same || *stored == full
}

/// The persistent index of what every container holds.
#[derive(Debug)]
pub struct InventoryIndex {
    /// The known containers, each once.
    pub chests: Vec<BlockPos>,
    /// The slot records, one per slot.
    pub items: Vec<SlotRecord>,
}

/// Relies on hematite-nbt's `Blob::new` and `Blob::to_writer`: an empty blob is
/// written as the compound tag byte, a zero name length (two bytes) and the end
/// tag, and writing into a `Vec` does not fail.
#[verifier::external_body]
fn write_empty_blob() -> (r: Result<Vec<u8>, nbt::Error>)
    ensures
        r is Ok,
        r->Ok_0@ == empty_tag(),
{
    let mut out: Vec<u8> = Vec::new();
    nbt::Blob::new().to_writer(&mut out).map(|_| out)
}

#[verifier::external_type_specification]
#[verifier::external_body]
pub struct ExNbtError(nbt::Error);

/// A slot is described exactly when some record is for it.
pub proof fn lemma_slot_map_keys(s: Seq<SlotRecord>)
    ensures
        forall|k: SlotKey| #[trigger]
            slot_map(s).contains_key(k) <==> exists|i: int| 0 <= i < s.len() && (#[trigger] s[i]).key() == k,
    decreases s.len(),
{
    if s.len() > 0 {
        let d = s.drop_last();
        lemma_slot_map_keys(d);
        assert(slot_map(s) == slot_map(d).insert(s.last().key(), s.last().value()));
        assert forall|k: SlotKey| #[trigger]
            slot_map(s).contains_key(k) <==> exists|i: int| 0 <= i < s.len() && (#[trigger] s[i]).key() == k by {
            if slot_map(s).contains_key(k) && k != s.last().key() {
                let i = choose|i: int| 0 <= i < d.len() && (#[trigger] d[i]).key() == k;
                assert(s[i] == d[i]);
            }
            if exists|i: int| 0 <= i < s.len() && (#[trigger] s[i]).key() == k {
                let i = choose|i: int| 0 <= i < s.len() && (#[trigger] s[i]).key() == k;
                if i < s.len() - 1 {
                    assert(d[i] == s[i]);
                }
            }
        }
    }
}

proof fn lemma_slot_map_values(s: Seq<SlotRecord>)
    requires
        keys_unique(s),
    ensures
        forall|i: int| 0 <= i < s.len() ==> slot_map(s)[(#[trigger] s[i]).key()] == s[i].value(),
    decreases s.len(),
{
    if s.len() > 0 {
        let d = s.drop_last();
        assert(keys_unique(d)) by {
            assert forall|a: int, b: int| 0 <= a < b < d.len() implies (#[trigger] d[a]).key() != (
            #[trigger] d[b]).key() by {
                assert(d[a] == s[a] && d[b] == s[b]);
            }
        }
        lemma_slot_map_values(d);
        assert forall|i: int| 0 <= i < s.len() implies slot_map(s)[(#[trigger] s[i]).key()]
            == s[i].value() by {
            if i < s.len() - 1 {
                assert(d[i] == s[i]);
                assert(s[i].key() != s[s.len() - 1].key());
            }
        }
    }
}

proof fn lemma_slot_map_update(s: Seq<SlotRecord>, j: int, r: SlotRecord)
    requires
        0 <= j < s.len(),
        s[j].key() == r.key(),
        keys_unique(s),
    ensures
        slot_map(s.update(j, r)) == slot_map(s).insert(r.key(), r.value()),
        keys_unique(s.update(j, r)),
    decreases s.len(),
{
    let t = s.update(j, r);
    let d = s.drop_last();
    assert(keys_unique(t)) by {
        assert forall|a: int, b: int| 0 <= a < b < t.len() implies (#[trigger] t[a]).key() != (
        #[trigger] t[b]).key() by {
            assert(s[a].key() != s[b].key());
        }
    }
    assert(keys_unique(d)) by {
        assert forall|a: int, b: int| 0 <= a < b < d.len() implies (#[trigger] d[a]).key() != (
        #[trigger] d[b]).key() by {
            assert(d[a] == s[a] && d[b] == s[b]);
        }
    }
    if j == s.len() - 1 {
        assert(t.drop_last() == d);
        lemma_slot_map_keys(d);
        if slot_map(d).contains_key(r.key()) {
            let i = choose|i: int| 0 <= i < d.len() && (#[trigger] d[i]).key() == r.key();
            assert(s[i].key() == s[j].key());
        }
        assert(slot_map(t) =~= slot_map(s).insert(r.key(), r.value()));
    } else {
        assert(t.drop_last() == d.update(j, r));
        lemma_slot_map_update(d, j, r);
        assert(s.last().key() != r.key()) by {
            assert(s[j].key() != s[s.len() - 1].key());
        }
        assert(t.last() == s.last());
        assert(slot_map(t) =~= slot_map(s).insert(r.key(), r.value()));
    }
}

impl InventoryIndex {
    pub open spec fn wf(&self) -> bool {
        &&& self.chests@.no_duplicates()
        &&& keys_unique(self.items@)
        &&& forall|i: int| 0 <= i < self.items.len() ==> self.chests@.contains(#[trigger] self.items@[i].pos)
    }

    /// The slots the index knows, by container position and slot index.
    pub open spec fn slots(&self) -> Map<SlotKey, SlotValue> {
        slot_map(self.items@)
    }

    /// An empty index.
    pub fn new() -> (r: InventoryIndex)
        ensures
            r.wf(),
            r.chests@.len() == 0,
            r.items@.len() == 0,
    {
        InventoryIndex { chests: Vec::new(), items: Vec::new() }
    }

    /// Whether a container record exists at `pos`.
    pub fn has_chest(&self, pos: BlockPos) -> (r: bool)
        ensures
            r == self.chests@.contains(pos),
    {
        let mut i: usize = 0;
        while i < self.chests.len()
            invariant
                i <= self.chests.len(),
                forall|j: int| 0 <= j < i ==> self.chests@[j] != pos,
            decreases self.chests.len() - i,
        {
            if self.chests[i] == pos {
                return true;
            }
            i += 1;
        }
        false
    }

    /// Makes sure a container record exists at `pos`; nothing changes when one
    /// already does.
    pub fn create_chest(&mut self, pos: BlockPos)
        requires
            old(self).wf(),
        ensures
            final(self).wf(),
            final(self).chests@ == with_chest(old(self).chests@, pos),
            final(self).items@ == old(self).items@,
    {
        if !self.has_chest(pos) {
            self.chests.push(pos);
            proof {
                assert forall|i: int| 0 <= i < self.items.len() implies self.chests@.contains(
                    #[trigger] self.items@[i].pos,
                ) by {
                    let j = choose|j: int| 0 <= j < old(self).chests.len() && old(self).chests@[j] == self.items@[i].pos;
                    assert(self.chests@[j] == old(self).chests@[j]);
                }
            }
        }
    }

    /// Records what slot `slot` of the container at `pos` holds, over whatever
    /// was recorded for it before. A slot written without a tag gets the empty
    /// tag. The container record is made sure of too.
    pub fn set_item_in_chest(
        &mut self,
        pos: BlockPos,
        slot: i32,
        item_id: &str,
        item_count: i16,
        item_tag: Option<Vec<u8>>,
    )
        requires
            old(self).wf(),
        ensures
            final(self).wf(),
            final(self).chests@ == with_chest(old(self).chests@, pos),
            final(self).slots() == old(self).slots().insert(
                (pos, slot),
                (
                    item_id@,
                    item_count,
                    match item_tag {
                        Some(t) => t@,
                        None => empty_tag(),
                    },
                ),
            ),
    {
        self.create_chest(pos);
        assert(self.chests@.contains(pos)) by {
            if !old(self).chests@.contains(pos) {
                assert(self.chests@[self.chests@.len() - 1] == pos);
            }
        }
        let tag = match item_tag {
            Some(t) => t,
            None => match write_empty_blob() {
                Ok(b) => b,
                Err(_) => Vec::new(),
            },
        };
        let rec = SlotRecord { pos, slot, item_id: String::from_str(item_id), count: item_count, tag };
        let mut i: usize = 0;
        while i < self.items.len()
            invariant
                self.wf(),
                self.chests@.contains(pos),
                self.chests@ == with_chest(old(self).chests@, pos),
                self.items@ == old(self).items@,
                rec.key() == (pos, slot),
                rec.value() == (
                    item_id@,
                    item_count,
                    match item_tag {
                        Some(t) => t@,
                        None => empty_tag(),
                    },
                ),
                i <= self.items.len(),
                forall|j: int| 0 <= j < i ==> (#[trigger] self.items@[j]).key() != rec.key(),
            decreases self.items.len() - i,
        {
            if self.items[i].pos == pos && self.items[i].slot == slot {
                let ghost before = self.items@;
                proof {
                    lemma_slot_map_update(before, i as int, rec);
                }
                self.items.set(i, rec);
                proof {
                    assert(self.items@ == before.update(i as int, rec));
                    assert forall|j: int| 0 <= j < self.items.len() implies self.chests@.contains(
                        #[trigger] self.items@[j].pos,
                    ) by {
                        if j != i {
                            assert(self.items@[j] == before[j]);
                        }
                    }
                }
                return;
            }
            i += 1;
        }
        let ghost before = self.items@;
        self.items.push(rec);
        proof {
            assert(self.items@.drop_last() == before);
            assert forall|a: int, b: int| 0 <= a < b < self.items.len() implies (
            #[trigger] self.items@[a]).key() != (#[trigger] self.items@[b]).key() by {
                if b < before.len() {
                    assert(self.items@[a] == before[a] && self.items@[b] == before[b]);
                } else {
                    assert(self.items@[a] == before[a]);
                }
            }
            assert forall|j: int| 0 <= j < self.items.len() implies self.chests@.contains(
                #[trigger] self.items@[j].pos,
            ) by {
                if j < before.len() {
                    assert(self.items@[j] == before[j]);
                }
            }
        }
    }

    fn select(&self, sel: &Selector) -> (r: Vec<SlotRecord>)
        requires
            self.wf(),
        ensures
            keys_unique(r@),
            slot_map(r@) == sel.selected(self.slots()),
    {
        let mut r: Vec<SlotRecord> = Vec::new();
        let mut i: usize = 0;
        while i < self.items.len()
            invariant
                self.wf(),
                i <= self.items.len(),
                keys_unique(r@),
                slot_map(r@) == sel.selected(slot_map(self.items@.take(i as int))),
            decreases self.items.len() - i,
        {
            let ghost t = self.items@.take(i as int);
            let ghost m = slot_map(t);
            let ghost k = self.items@[i as int].key();
            let ghost v = self.items@[i as int].value();
            proof {
                let t1 = self.items@.take(i + 1);
                assert(t1.drop_last() == t);
                assert(slot_map(t1) == m.insert(k, v));
                lemma_slot_map_keys(t);
                if m.contains_key(k) {
                    let j = choose|j: int| 0 <= j < t.len() && (#[trigger] t[j]).key() == k;
                    assert(t[j] == self.items@[j]);
                }
                assert(!m.contains_key(k));
                lemma_slot_map_keys(r@);
            }
            if sel.admits(&self.items[i]) {
                let rec = self.items[i].duplicate();
                let ghost before = r@;
                r.push(rec);
                proof {
                    assert(r@.drop_last() == before);
                    assert(sel.selected(m.insert(k, v)) =~= sel.selected(m).insert(k, v));
                    assert forall|a: int, b: int| 0 <= a < b < r@.len() implies (
                    #[trigger] r@[a]).key() != (#[trigger] r@[b]).key() by {
                        if b == before.len() {
                            assert(r@[a] == before[a]);
                            assert(slot_map(before).contains_key(before[a].key()));
                        } else {
                            assert(r@[a] == before[a] && r@[b] == before[b]);
                        }
                    }
                }
            } else {
                proof {
                    assert(sel.selected(m.insert(k, v)) =~= sel.selected(m));
                }
            }
            i += 1;
        }
        assert(self.items@.take(self.items.len() as int) == self.items@);
        r
    }

    /// The records of the container at `pos`, each slot once, in no promised order.
    pub fn items_in_chest(&self, pos: BlockPos) -> (r: Vec<SlotRecord>)
        requires
            self.wf(),
        ensures
            keys_unique(r@),
            slot_map(r@) == slots_at(self.slots(), pos),
    {
        let sel = Selector::At(pos);
        let r = self.select(&sel);
        assert(sel.selected(self.slots()) =~= slots_at(self.slots(), pos));
        r
    }

    /// The records of the slots holding `item_id` (or the item of that name in
    /// the default namespace), each slot once, in no promised order.
    pub fn find_item(&self, item_id: &str) -> (r: Vec<SlotRecord>)
        requires
            self.wf(),
        ensures
            keys_unique(r@),
            slot_map(r@) == slots_holding(self.slots(), item_id@),
    {
        let sel = Selector::Holding(String::from_str(item_id));
        let r = self.select(&sel);
        assert(sel.selected(self.slots()) =~= slots_holding(self.slots(), item_id@));
        r
    }

    /// Removes every container record and every slot record.
    pub fn clear(&mut self)
        ensures
            final(self).wf(),
            final(self).chests@.len() == 0,
            final(self).items@.len() == 0,
            final(self).slots() == Map::<SlotKey, SlotValue>::empty(),
    {
        self.chests.clear();
        self.items.clear();
    }
}

/// How many records a sequence holds for slot `k`.
pub open spec fn records_for(s: Seq<SlotRecord>, k: SlotKey) -> nat {
    s.map_values(|r: SlotRecord| r.key()).to_multiset().count(k)
}

/// Making sure of a container twice is making sure of it once, and leaves
/// exactly one record of it.
pub proof fn lemma_create_chest_twice(chests: Seq<BlockPos>, pos: BlockPos)
    requires
        chests.no_duplicates(),
    ensures
        with_chest(with_chest(chests, pos), pos) == with_chest(chests, pos),
        with_chest(with_chest(chests, pos), pos).to_multiset().count(pos) == 1,
{
    broadcast use vstd::seq_lib::group_to_multiset_ensures;
    let c = with_chest(chests, pos);
    assert(c.contains(pos)) by {
        if !chests.contains(pos) {
            assert(c[c.len() - 1] == pos);
        }
    }
    assert(c.no_duplicates()) by {
        if !chests.contains(pos) {
            assert forall|a: int, b: int| 0 <= a < c.len() && 0 <= b < c.len() && a != b implies c[a]
                != c[b] by {
                if a < chests.len() && b < chests.len() {
                } else if a < chests.len() {
                    assert(chests.contains(c[a]));
                } else {
                    assert(chests.contains(c[b]));
                }
            }
        }
    }
    c.lemma_multiset_has_no_duplicates();
}

/// Writing a slot twice leaves what the second write said, as if the first had
/// not happened, in exactly one record.
pub proof fn lemma_set_item_twice(
    before: InventoryIndex,
    after: InventoryIndex,
    k: SlotKey,
    first: SlotValue,
    second: SlotValue,
)
    requires
        after.wf(),
        after.slots() == before.slots().insert(k, first).insert(k, second),
    ensures
        after.slots() == before.slots().insert(k, second),
        after.slots()[k] == second,
        records_for(after.items@, k) == 1,
{
    broadcast use vstd::seq_lib::group_to_multiset_ensures;
    assert(before.slots().insert(k, first).insert(k, second) =~= before.slots().insert(k, second));
    let s = after.items@;
    let keys = s.map_values(|r: SlotRecord| r.key());
    lemma_slot_map_keys(s);
    assert(slot_map(s).contains_key(k));
    let j = choose|j: int| 0 <= j < s.len() && (#[trigger] s[j]).key() == k;
    assert(keys[j] == k);
    assert(keys.contains(k));
    assert(keys.no_duplicates()) by {
        assert forall|a: int, b: int| 0 <= a < keys.len() && 0 <= b < keys.len() && a != b implies keys[a]
            != keys[b] by {
            if a < b {
                assert(s[a].key() != s[b].key());
            } else {
                assert(s[b].key() != s[a].key());
            }
        }
    }
    keys.lemma_multiset_has_no_duplicates();
}

/// An index whose records were all removed finds nothing, whatever is asked.
pub proof fn lemma_cleared_finds_nothing(found: Seq<SlotRecord>, query: Seq<char>)
    requires
        slot_map(found) == slots_holding(Map::<SlotKey, SlotValue>::empty(), query),
    ensures
        found.len() == 0,
{
    lemma_slot_map_keys(found);
    if found.len() > 0 {
        assert(slot_map(found).contains_key(found[0].key()));
    }
}

} // verus!

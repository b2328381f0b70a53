use vstd::prelude::*;

use crate::geometry::BlockPos;
use crate::index::{
    keys_unique, lemma_slot_map_keys, slot_map, slots_at, slots_holding, InventoryIndex, SlotKey,
    SlotRecord, SlotValue, AIR,
};
use crate::notice::Notice;

verus! {

/// `ns` reports, in order, each record of `recs` that holds an item.
pub open spec fn item_lines(ns: Seq<Notice>, recs: Seq<SlotRecord>) -> bool
    decreases recs.len(),
{
    if recs.len() == 0 {
        ns.len() == 0
    } else {
        let r = recs.last();
        if r.item_id@ == AIR@ {
            item_lines(ns, recs.drop_last())
        } else {
            &&& ns.len() > 0
            &&& ns.last() matches Notice::ItemLine(s, c) && s@ == r.item_id@ && c == r.count
            &&& item_lines(ns.drop_last(), recs.drop_last())
        }
    }
}

/// How many records of `recs` hold an item.
pub open spec fn filled(recs: Seq<SlotRecord>) -> nat
    decreases recs.len(),
{
    if recs.len() == 0 {
        0
    } else {
        filled(recs.drop_last()) + if recs.last().item_id@ == AIR@ {
            0nat
        } else {
            1nat
        }
    }
}

/// The report on the records `recs` of one container: that there are none,
/// then a line for each slot holding an item, then that it holds nothing.
pub open spec fn view_report(ns: Seq<Notice>, recs: Seq<SlotRecord>) -> bool {
    let head: int = if recs.len() == 0 {
        1
    } else {
        0
    };
    let tail: int = if filled(recs) == 0 {
        1
    } else {
        0
    };
    &&& ns.len() == head + filled(recs) + tail
    &&& recs.len() == 0 ==> ns[0] is NoItemsAtLocation
    &&& item_lines(ns.subrange(head, head + filled(recs)), recs)
    &&& filled(recs) == 0 ==> ns.last() is NoItemsInStorageBlock
}

/// `ns` reports, in order, each record of `recs` as found items of `query`.
pub open spec fn found_lines(ns: Seq<Notice>, recs: Seq<SlotRecord>, query: Seq<char>) -> bool {
    &&& ns.len() == recs.len()
    &&& forall|i: int|
        0 <= i < recs.len() ==> (#[trigger] ns[i] matches Notice::FoundAt(s, c, p) && s@ == query
            && c == recs[i].count && p == recs[i].pos)
}

fn item_line_notices(recs: &Vec<SlotRecord>, ns: &mut Vec<Notice>)
    ensures
        final(ns)@.subrange(0, old(ns)@.len() as int) == old(ns)@,
        final(ns)@.len() == old(ns)@.len() + filled(recs@),
        item_lines(final(ns)@.subrange(old(ns)@.len() as int, final(ns)@.len() as int), recs@),
{
    let ghost base = ns@.len();
    let air = String::from_str(AIR);
    let mut i: usize = 0;
    while i < recs.len()
        invariant
            i <= recs.len(),
            air@ == AIR@,
            base == old(ns)@.len(),
            ns@.subrange(0, base as int) == old(ns)@,
            ns@.len() == base + filled(recs@.take(i as int)),
            item_lines(ns@.subrange(base as int, ns@.len() as int), recs@.take(i as int)),
        decreases recs.len() - i,
    {
        let ghost before = ns@;
        proof {
            let t = recs@.take(i + 1);
            assert(t.drop_last() == recs@.take(i as int));
            assert(t.last() == recs@[i as int]);
        }
        if recs[i].item_id != air {
            ns.push(Notice::ItemLine(recs[i].item_id.clone(), recs[i].count));
            proof {
                let t = recs@.take(i + 1);
                let sub = ns@.subrange(base as int, ns@.len() as int);
                assert(sub.drop_last() =~= before.subrange(base as int, before.len() as int));
                assert(ns@.subrange(0, base as int) =~= before.subrange(0, base as int));
            }
        }
        i += 1;
    }
    assert(recs@.take(recs.len() as int) == recs@);
}

/// Reports what the index holds for the container at `pos`.
pub fn view_chest(index: &InventoryIndex, pos: BlockPos) -> (ns: Vec<Notice>)
    requires
        index.wf(),
    ensures
        exists|recs: Seq<SlotRecord>|
            keys_unique(recs) && slot_map(recs) == slots_at(index.slots(), pos) && view_report(
                ns@,
                recs,
            ),
{
    let recs = index.items_in_chest(pos);
    let mut ns: Vec<Notice> = Vec::new();
    if recs.len() == 0 {
        ns.push(Notice::NoItemsAtLocation);
    }
    let ghost head = ns@.len();
    item_line_notices(&recs, &mut ns);
    let ghost lines_end = ns@.len();
    let mut any = false;
    let mut i: usize = 0;
    let air = String::from_str(AIR);
    while i < recs.len()
        invariant
            i <= recs.len(),
            air@ == AIR@,
            any == (filled(recs@.take(i as int)) > 0),
        decreases recs.len() - i,
    {
        proof {
            let t = recs@.take(i + 1);
            assert(t.drop_last() == recs@.take(i as int));
        }
        if recs[i].item_id != air {
            any = true;
        }
        i += 1;
    }
    assert(recs@.take(recs.len() as int) == recs@);
    let ghost before = ns@;
    if !any {
        ns.push(Notice::NoItemsInStorageBlock);
    }
    proof {
        assert(ns@.subrange(head as int, (head + filled(recs@)) as int) =~= before.subrange(head as int, lines_end as int));
        if recs@.len() == 0 {
            assert(before.subrange(0, head as int)[0] == before[0]);
            assert(ns@[0] == before[0]);
        }
        assert(view_report(ns@, recs@));
    }
    ns
}

/// Reports each slot found holding `query`.
pub fn found_notices(recs: &Vec<SlotRecord>, query: &str) -> (ns: Vec<Notice>)
    ensures
        found_lines(ns@, recs@, query@),
{
    let mut ns: Vec<Notice> = Vec::new();
    let mut i: usize = 0;
    while i < recs.len()
        invariant
            i <= recs.len(),
            ns@.len() == i,
            forall|j: int|
                0 <= j < i ==> (#[trigger] ns@[j] matches Notice::FoundAt(s, c, p) && s@ == query@
                    && c == recs@[j].count && p == recs@[j].pos),
        decreases recs.len() - i,
    {
        ns.push(Notice::FoundAt(String::from_str(query), recs[i].count, recs[i].pos));
        i += 1;
    }
    ns
}

/// Finds the slots holding `query` and reports each of them.
pub fn find(index: &InventoryIndex, query: &str) -> (ns: Vec<Notice>)
    requires
        index.wf(),
    ensures
        exists|recs: Seq<SlotRecord>|
            keys_unique(recs) && slot_map(recs) == slots_holding(index.slots(), query@)
                && found_lines(ns@, recs, query@),
{
    let recs = index.find_item(query);
    found_notices(&recs, query)
}

/// Asking about a container the index has no record of is no error: nothing
/// is listed, and the report says that no items were found there.
pub proof fn lemma_view_unknown_chest(
    ns: Seq<Notice>,
    recs: Seq<SlotRecord>,
    slots: Map<SlotKey, SlotValue>,
    pos: BlockPos,
)
    requires
        forall|k: SlotKey| slots.contains_key(k) ==> k.0 != pos,
        slot_map(recs) == slots_at(slots, pos),
        view_report(ns, recs),
    ensures
        recs.len() == 0,
        ns == seq![Notice::NoItemsAtLocation, Notice::NoItemsInStorageBlock],
{
    lemma_slot_map_keys(recs);
    if recs.len() > 0 {
        assert(slot_map(recs).contains_key(recs[0].key()));
    }
    assert(ns =~= seq![Notice::NoItemsAtLocation, Notice::NoItemsInStorageBlock]);
}

} // verus!

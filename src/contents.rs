use vstd::prelude::*;

use crate::geometry::BlockPos;
use crate::index::{empty_tag, with_chest, InventoryIndex, SlotKey, SlotValue, AIR};
use crate::notice::Notice;

verus! {

/// Item ids whose slots are clicked when they are indexed.
pub const DIAMOND: &'static str = "minecraft:diamond";

pub const DIAMOND_BLOCK: &'static str = "minecraft:diamond_block";

/// One slot of an open container.
#[derive(Debug)]
pub enum ItemSlot {
    Empty,
    /// An item id and how many of it.
    Present(String, i8),
}

impl ItemSlot {
    /// The id recorded for the slot; an empty slot holds air.
    pub open spec fn kind(&self) -> Seq<char> {
        match self {
            ItemSlot::Empty => AIR@,
            ItemSlot::Present(k, _) => k@,
        }
    }

    /// The count recorded for the slot.
    pub open spec fn count(&self) -> i16 {
        match self {
            ItemSlot::Empty => 0,
            ItemSlot::Present(_, c) => *c as i16,
        }
    }
}

/// Whether slots holding this item are clicked while indexing.
pub open spec fn is_high_value(kind: Seq<char>) -> bool {
    kind == DIAMOND@ || kind == DIAMOND_BLOCK@
}

/// The slot index recorded for the `i`-th slot of a container.
pub open spec fn slot_index(i: int) -> i32 {
    if i <= i32::MAX {
        i as i32
    } else {
        -1i32
    }
}

/// The slots after the first `n` slots of the container at `pos` were recorded.
pub open spec fn recorded(m: Map<SlotKey, SlotValue>, pos: BlockPos, slots: Seq<ItemSlot>, n: int) -> Map<
    SlotKey,
    SlotValue,
>
    decreases n,
{
    if n <= 0 {
        m
    } else {
        recorded(m, pos, slots, n - 1).insert(
            (pos, slot_index(n - 1)),
            (slots[n - 1].kind(), slots[n - 1].count(), empty_tag()),
        )
    }
}

/// The slots after the first `n` slots of the container at `pos` were emptied.
pub open spec fn emptied(m: Map<SlotKey, SlotValue>, pos: BlockPos, n: int) -> Map<SlotKey, SlotValue>
    decreases n,
{
    if n <= 0 {
        m
    } else {
        emptied(m, pos, n - 1).insert((pos, slot_index(n - 1)), (AIR@, 0i16, empty_tag()))
    }
}

/// The indices among the first `n` slots that hold an item and, when
/// `high_value_only`, one whose slots are clicked while indexing.
pub open spec fn clicked(slots: Seq<ItemSlot>, n: int, high_value_only: bool) -> Seq<usize>
    decreases n,
{
    if n <= 0 {
        Seq::empty()
    } else {
        let before = clicked(slots, n - 1, high_value_only);
        if slots[n - 1] is Present && (!high_value_only || is_high_value(slots[n - 1].kind())) {
            before.push((n - 1) as usize)
        } else {
            before
        }
    }
}

/// `ns` reports, in order, the item of each of the first `n` slots that holds one.
pub open spec fn found_items(ns: Seq<Notice>, slots: Seq<ItemSlot>, n: int) -> bool
    decreases n,
{
    if n <= 0 {
        ns.len() == 0
    } else {
        match slots[n - 1] {
            ItemSlot::Empty => found_items(ns, slots, n - 1),
            ItemSlot::Present(k, c) => {
                &&& ns.len() > 0
                &&& ns.last() matches Notice::FoundItem(s, d) && s@ == k@ && d == c
                &&& found_items(ns.drop_last(), slots, n - 1)
            },
        }
    }
}

/// Whether `kind` is one of the ids whose slots are clicked while indexing.
pub fn high_value(kind: &String) -> (r: bool)
    ensures
        r == is_high_value(kind@),
{
    *kind == String::from_str(DIAMOND) || *kind == String::from_str(DIAMOND_BLOCK)
}

/// Records every slot of the open container at `pos` (empty ones as air), and
/// reports each item found. Returns the slots to click: those holding an item
/// of high value, or, when `take_all`, every slot holding an item. When
/// `take_all`, the slots are recorded as empty instead, since clicking takes
/// the items out.
pub fn record_contents(
    index: &mut InventoryIndex,
    pos: BlockPos,
    slots: &Vec<ItemSlot>,
    take_all: bool,
    notices: &mut Vec<Notice>,
) -> (clicks: Vec<usize>)
    requires
        old(index).wf(),
    ensures
        final(index).wf(),
        final(index).chests@ == with_chest(old(index).chests@, pos),
        !take_all ==> final(index).slots() == recorded(old(index).slots(), pos, slots@, slots.len() as int),
        take_all ==> final(index).slots() == emptied(old(index).slots(), pos, slots.len() as int),
        clicks@ == clicked(slots@, slots.len() as int, !take_all),
        final(notices)@.len() >= old(notices)@.len(),
        final(notices)@.subrange(0, old(notices)@.len() as int) == old(notices)@,
        found_items(
            final(notices)@.subrange(old(notices)@.len() as int, final(notices)@.len() as int),
            slots@,
            slots.len() as int,
        ),
{
    index.create_chest(pos);
    assert(index.chests@.contains(pos)) by {
        if !old(index).chests@.contains(pos) {
            assert(index.chests@[index.chests@.len() - 1] == pos);
        }
    }
    let ghost start = index.slots();
    let mut clicks: Vec<usize> = Vec::new();
    let mut i: usize = 0;
    while i < slots.len()
        invariant
            index.wf(),
            i <= slots.len(),
            index.chests@ == with_chest(old(index).chests@, pos),
            index.chests@.contains(pos),
            start == old(index).slots(),
            !take_all ==> index.slots() == recorded(start, pos, slots@, i as int),
            take_all ==> index.slots() == emptied(start, pos, i as int),
            clicks@ == clicked(slots@, i as int, !take_all),
            notices@.len() >= old(notices)@.len(),
            notices@.subrange(0, old(notices)@.len() as int) == old(notices)@,
            found_items(notices@.subrange(old(notices)@.len() as int, notices@.len() as int), slots@, i as int),
        decreases slots.len() - i,
    {
        let slot: i32 = if i <= i32::MAX as usize {
            i as i32
        } else {
            -1
        };
        let ghost before_notices = notices@;
        match &slots[i] {
            ItemSlot::Empty => {
                index.set_item_in_chest(pos, slot, AIR, 0, None);
                if take_all {
                    assert(index.slots() == emptied(start, pos, i + 1));
                } else {
                    assert(index.slots() == recorded(start, pos, slots@, i + 1));
                }
            },
            ItemSlot::Present(kind, count) => {
                if take_all {
                    index.set_item_in_chest(pos, slot, AIR, 0, None);
                    clicks.push(i);
                } else {
                    index.set_item_in_chest(pos, slot, kind.as_str(), *count as i16, None);
                    if high_value(kind) {
                        clicks.push(i);
                    }
                }
                notices.push(Notice::FoundItem(kind.clone(), *count));
                assert(notices@.subrange(0, old(notices)@.len() as int) =~= before_notices.subrange(
                    0,
                    old(notices)@.len() as int,
                ));
                assert(notices@.subrange(old(notices)@.len() as int, notices@.len() as int).drop_last()
                    =~= before_notices.subrange(old(notices)@.len() as int, before_notices.len() as int));
            },
        }
        i += 1;
    }
    clicks
}

} // verus!

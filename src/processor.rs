use vstd::prelude::*;

use crate::command::{command_of, parse_command, split_fields, Command, CommandView};
use crate::contents::{clicked, emptied, found_items, record_contents, recorded, ItemSlot};
use crate::geometry::{filter_region, in_region, BlockPos, Depot, Region};
use crate::index::{
    keys_unique, slot_map, slots_at, slots_holding, with_chest, InventoryIndex, SlotKey, SlotRecord,
    SlotValue,
};
use crate::notice::{Notice, ParseError};
use crate::report::{find, found_lines, found_notices, view_chest, view_report};
use crate::session::{OpenRetry, OPEN_RETRIES};

verus! {

/// What the processor is doing.
#[derive(Debug)]
pub enum Phase {
    /// Waiting for the next command.
    Idle,
    /// Waiting for the containers found near the actor.
    Scanning,
    /// Opening the container `targets[next]` of an `index`.
    Indexing(Vec<BlockPos>, usize, OpenRetry),
    /// Opening the container `sources[next]` of a `withdraw`.
    Withdrawing(Vec<BlockPos>, usize, OpenRetry),
    /// Opening the depot to put down what was withdrawn.
    DepotDeposit(OpenRetry),
    /// Opening the depot for a `deposit`.
    DepotInspect(OpenRetry),
    /// The index could not be written: nothing more is done.
    Aborted,
}

/// The outside work asked for next.
#[derive(Clone, Copy, Debug, PartialEq, Eq, Structural)]
pub enum Effect {
    /// Wait for the next command and hand it to `on_command`.
    NextCommand,
    /// Scan the world near the actor for containers and hand them to `on_scanned`.
    Scan,
    /// Stand at the second position, open the container at the first, and hand
    /// the outcome to `on_opened` or `on_open_failed`.
    Open(BlockPos, BlockPos),
    /// Stop for good.
    Halt,
}

/// What one step asks of the world around the processor.
#[derive(Debug)]
pub struct Output {
    /// Messages for the operator, in order.
    pub notices: Vec<Notice>,
    /// Slots of the container just opened to click, in order, before it is closed.
    pub clicks: Vec<usize>,
    /// The container whose records changed, to be written to the store.
    pub touched: Option<BlockPos>,
    /// Whether every record was removed, to be removed from the store too.
    pub cleared: bool,
    pub effect: Effect,
}

/// Runs commands one at a time against the index and the containers.
#[derive(Debug)]
pub struct CommandProcessor {
    pub region: Region,
    pub depot: Depot,
    pub index: InventoryIndex,
    pub phase: Phase,
}

/// The retry state before the first attempt to open a container.
pub open spec fn fresh() -> OpenRetry {
    OpenRetry { remaining: OPEN_RETRIES, retried: false }
}

/// The retry state of the container being opened, if one is.
pub open spec fn retry_of(p: Phase) -> Option<OpenRetry> {
    match p {
        Phase::Indexing(_, _, r) => Some(r),
        Phase::Withdrawing(_, _, r) => Some(r),
        Phase::DepotDeposit(r) => Some(r),
        Phase::DepotInspect(r) => Some(r),
        _ => None,
    }
}

/// The phase with another retry state.
pub open spec fn with_retry(p: Phase, r: OpenRetry) -> Phase {
    match p {
        Phase::Indexing(t, n, _) => Phase::Indexing(t, n, r),
        Phase::Withdrawing(t, n, _) => Phase::Withdrawing(t, n, r),
        Phase::DepotDeposit(_) => Phase::DepotDeposit(r),
        Phase::DepotInspect(_) => Phase::DepotInspect(r),
        _ => p,
    }
}

/// The phase once the container being opened is done with, whether it was
/// read or skipped.
pub open spec fn advanced(p: Phase) -> Phase {
    match p {
        Phase::Indexing(t, n, _) => if n + 1 < t.len() {
            Phase::Indexing(t, (n + 1) as usize, fresh())
        } else {
            Phase::Idle
        },
        Phase::Withdrawing(t, n, _) => if n + 1 < t.len() {
            Phase::Withdrawing(t, (n + 1) as usize, fresh())
        } else {
            Phase::DepotDeposit(fresh())
        },
        _ => Phase::Idle,
    }
}

/// What a successful attempt reports: a retry that worked.
pub open spec fn success_notices(r: OpenRetry) -> Seq<Notice> {
    if r.retried {
        seq![Notice::RetrySuccessful]
    } else {
        Seq::empty()
    }
}

/// What leaving this phase reports: the end of an `index`.
pub open spec fn done_notices(p: Phase) -> Seq<Notice> {
    if ends_index(p) {
        seq![Notice::Done]
    } else {
        Seq::empty()
    }
}

/// Whether leaving this phase ends an `index`, which is reported.
pub open spec fn ends_index(p: Phase) -> bool {
    p matches Phase::Indexing(t, n, _) && n + 1 >= t.len()
}

/// The positions of the records, each once, in the order they first appear.
pub open spec fn positions_of(recs: Seq<SlotRecord>) -> Seq<BlockPos>
    decreases recs.len(),
{
    if recs.len() == 0 {
        Seq::empty()
    } else {
        let p = positions_of(recs.drop_last());
        if p.contains(recs.last().pos) {
            p
        } else {
            p.push(recs.last().pos)
        }
    }
}

/// The slot numbers `start` up to `end`, excluded.
pub open spec fn slot_range(start: usize, end: usize) -> Seq<usize> {
    Seq::new(if start < end { (end - start) as nat } else { 0 }, |i: int| (start + i) as usize)
}

impl CommandProcessor {
    pub open spec fn wf(&self) -> bool {
        &&& self.index.wf()
        &&& match self.phase {
            Phase::Indexing(t, n, _) => n < t.len(),
            Phase::Withdrawing(t, n, _) => n < t.len(),
            _ => true,
        }
    }

    /// The container being opened.
    pub open spec fn target(&self) -> BlockPos {
        match self.phase {
            Phase::Indexing(t, n, _) => t@[n as int],
            Phase::Withdrawing(t, n, _) => t@[n as int],
            _ => BlockPos { x: self.depot.storage_x, y: self.depot.storage_y, z: self.depot.storage_z },
        }
    }

    /// Where the actor stands to open the container being opened.
    pub open spec fn stand(&self) -> BlockPos {
        match self.phase {
            Phase::Indexing(_, _, _) => BlockPos { x: self.target().x, y: self.region.walking_level, z: self.target().z },
            Phase::Withdrawing(_, _, _) => BlockPos { x: self.target().x, y: self.region.walking_level, z: self.target().z },
            _ => BlockPos { x: self.depot.x, y: self.depot.y, z: self.depot.z },
        }
    }

    /// The outside work the processor waits for in its phase.
    pub open spec fn pending(&self) -> Effect {
        match self.phase {
            Phase::Idle => Effect::NextCommand,
            Phase::Scanning => Effect::Scan,
            Phase::Aborted => Effect::Halt,
            _ => Effect::Open(self.target(), self.stand()),
        }
    }

    /// A processor with this configuration and index, waiting for a command.
    pub fn new(region: Region, depot: Depot, index: InventoryIndex) -> (r: CommandProcessor)
        requires
            index.wf(),
        ensures
            r.wf(),
            r.region == region,
            r.depot == depot,
            r.index == index,
            r.phase is Idle,
    {
        CommandProcessor { region, depot, index, phase: Phase::Idle }
    }

    /// The outside work the processor waits for.
    pub fn pending_effect(&self) -> (e: Effect)
        requires
            self.wf(),
        ensures
            e == self.pending(),
    {
        match &self.phase {
            Phase::Idle => Effect::NextCommand,
            Phase::Scanning => Effect::Scan,
            Phase::Aborted => Effect::Halt,
            Phase::Indexing(t, n, _) => Effect::Open(t[*n], self.region.stand_position(t[*n])),
            Phase::Withdrawing(t, n, _) => Effect::Open(t[*n], self.region.stand_position(t[*n])),
            _ => Effect::Open(self.depot.storage(), self.depot.stand()),
        }
    }

    fn output(&self, notices: Vec<Notice>) -> (out: Output)
        requires
            self.wf(),
        ensures
            out.notices == notices,
            out.clicks@.len() == 0,
            out.touched is None,
            !out.cleared,
            out.effect == self.pending(),
    {
        Output { notices, clicks: Vec::new(), touched: None, cleared: false, effect: self.pending_effect() }
    }

    /// Leaves the container being opened and moves to the next one; the end of
    /// an `index` is reported.
    fn advance(&mut self, notices: &mut Vec<Notice>)
        requires
            old(self).wf(),
            retry_of(old(self).phase) is Some,
        ensures
            final(self).wf(),
            final(self).phase == advanced(old(self).phase),
            final(self).index == old(self).index,
            final(self).region == old(self).region,
            final(self).depot == old(self).depot,
            final(notices)@ == old(notices)@ + done_notices(old(self).phase),
    {
        let mut p = Phase::Idle;
        std::mem::swap(&mut self.phase, &mut p);
        let ghost start = notices@;
        match p {
            Phase::Indexing(t, n, _) => {
                if n + 1 < t.len() {
                    self.phase = Phase::Indexing(t, n + 1, OpenRetry::new());
                } else {
                    notices.push(Notice::Done);
                }
            },
            Phase::Withdrawing(t, n, _) => {
                if n + 1 < t.len() {
                    self.phase = Phase::Withdrawing(t, n + 1, OpenRetry::new());
                } else {
                    self.phase = Phase::DepotDeposit(OpenRetry::new());
                }
            },
            _ => {},
        }
        assert(notices@ =~= start + done_notices(old(self).phase));
    }

    /// Takes the next command line. Only a processor waiting for a command
    /// acts on it; otherwise nothing changes.
    pub fn on_command(&mut self, line: &str) -> (out: Output)
        requires
            old(self).wf(),
        ensures
            final(self).wf(),
            final(self).region == old(self).region,
            final(self).depot == old(self).depot,
            out.effect == final(self).pending(),
            out.clicks@.len() == 0,
            out.touched is None,
            out.cleared == (old(self).phase is Idle && command_of(split_fields(line@)) == Ok::<
                CommandView,
                ParseError,
            >(CommandView::ClearDb)),
            !out.cleared ==> final(self).index == old(self).index,
            !(old(self).phase is Idle) ==> final(self).phase == old(self).phase && out.notices@.len()
                == 0,
            old(self).phase is Idle ==> match command_of(split_fields(line@)) {
                Err(e) => final(self).phase is Idle && out.notices@ == seq![Notice::BadArguments(e)],
                Ok(CommandView::SayHi) => final(self).phase is Idle && out.notices@ == seq![Notice::Hi],
                Ok(CommandView::Index) => final(self).phase is Scanning && out.notices@ == seq![
                    Notice::Indexing,
                ],
                Ok(CommandView::ClearDb) => {
                    &&& final(self).phase is Idle
                    &&& out.notices@ == seq![Notice::ClearedDb]
                    &&& final(self).index.wf()
                    &&& final(self).index.chests@.len() == 0
                    &&& final(self).index.slots() == Map::<SlotKey, SlotValue>::empty()
                },
                Ok(CommandView::ViewChest(p)) => final(self).phase is Idle && exists|recs: Seq<SlotRecord>|
                    keys_unique(recs) && slot_map(recs) == slots_at(old(self).index.slots(), p)
                        && view_report(out.notices@, recs),
                Ok(CommandView::Find(q)) => final(self).phase is Idle && exists|recs: Seq<SlotRecord>|
                    keys_unique(recs) && slot_map(recs) == slots_holding(old(self).index.slots(), q)
                        && found_lines(out.notices@, recs, q),
                Ok(CommandView::Withdraw(q)) => exists|recs: Seq<SlotRecord>|
                    {
                        &&& keys_unique(recs)
                        &&& slot_map(recs) == slots_holding(old(self).index.slots(), q)
                        &&& found_lines(out.notices@, recs, q)
                        &&& recs.len() == 0 ==> final(self).phase == Phase::DepotDeposit(fresh())
                        &&& recs.len() > 0 ==> (final(self).phase matches Phase::Withdrawing(s, n, r) && s@
                            == positions_of(recs) && n == 0 && r == fresh())
                    },
                Ok(CommandView::Deposit) => final(self).phase == Phase::DepotInspect(fresh())
                    && out.notices@.len() == 0,
                Ok(CommandView::Unknown) => final(self).phase is Idle && out.notices@ == seq![
                    Notice::UnknownCommand,
                ],
            },
    {
        if !matches!(self.phase, Phase::Idle) {
            return self.output(Vec::new());
        }
        let mut notices: Vec<Notice> = Vec::new();
        let mut cleared = false;
        match parse_command(line) {
            Err(e) => {
                notices.push(Notice::BadArguments(e));
            },
            Ok(Command::SayHi) => {
                notices.push(Notice::Hi);
            },
            Ok(Command::Index) => {
                notices.push(Notice::Indexing);
                self.phase = Phase::Scanning;
            },
            Ok(Command::ClearDb) => {
                self.index.clear();
                cleared = true;
                notices.push(Notice::ClearedDb);
            },
            Ok(Command::ViewChest(p)) => {
                notices = view_chest(&self.index, p);
            },
            Ok(Command::Find(q)) => {
                notices = find(&self.index, q.as_str());
            },
            Ok(Command::Withdraw(q)) => {
                let recs = self.index.find_item(q.as_str());
                notices = found_notices(&recs, q.as_str());
                let sources = distinct_positions(&recs);
                if sources.len() == 0 {
                    self.phase = Phase::DepotDeposit(OpenRetry::new());
                } else {
                    self.phase = Phase::Withdrawing(sources, 0, OpenRetry::new());
                }
            },
            Ok(Command::Deposit) => {
                self.phase = Phase::DepotInspect(OpenRetry::new());
            },
            Ok(Command::Unknown) => {
                notices.push(Notice::UnknownCommand);
            },
        }
        let effect = self.pending_effect();
        Output { notices, clicks: Vec::new(), touched: None, cleared, effect }
    }

    /// Takes the containers found near the actor: those in the region are
    /// indexed one after the other.
    pub fn on_scanned(&mut self, found: &Vec<BlockPos>) -> (out: Output)
        requires
            old(self).wf(),
        ensures
            final(self).wf(),
            final(self).region == old(self).region,
            final(self).depot == old(self).depot,
            final(self).index == old(self).index,
            out.effect == final(self).pending(),
            out.clicks@.len() == 0,
            out.touched is None,
            !out.cleared,
            !(old(self).phase is Scanning) ==> final(self).phase == old(self).phase && out.notices@.len()
                == 0,
            old(self).phase is Scanning ==> {
                let t = in_region(found@, old(self).region);
                &&& out.notices@ == seq![Notice::IndexingCount(t.len() as usize)] + if t.len() == 0 {
                    seq![Notice::Done]
                } else {
                    Seq::empty()
                }
                &&& t.len() == 0 ==> final(self).phase is Idle
                &&& t.len() > 0 ==> (final(self).phase matches Phase::Indexing(v, n, r) && v@ == t && n
                    == 0 && r == fresh())
            },
    {
        if !matches!(self.phase, Phase::Scanning) {
            return self.output(Vec::new());
        }
        let targets = filter_region(found, &self.region);
        let mut notices: Vec<Notice> = Vec::new();
        notices.push(Notice::IndexingCount(targets.len()));
        if targets.len() == 0 {
            notices.push(Notice::Done);
            self.phase = Phase::Idle;
        } else {
            self.phase = Phase::Indexing(targets, 0, OpenRetry::new());
        }
        let effect = self.pending_effect();
        Output { notices, clicks: Vec::new(), touched: None, cleared: false, effect }
    }

    /// The container being opened could not be opened. While attempts are
    /// left it is tried again; after that it is reported and skipped.
    pub fn on_open_failed(&mut self) -> (out: Output)
        requires
            old(self).wf(),
        ensures
            final(self).wf(),
            final(self).region == old(self).region,
            final(self).depot == old(self).depot,
            final(self).index == old(self).index,
            out.effect == final(self).pending(),
            out.clicks@.len() == 0,
            out.touched is None,
            !out.cleared,
            retry_of(old(self).phase) is None ==> final(self).phase == old(self).phase
                && out.notices@.len() == 0,
            retry_of(old(self).phase) matches Some(r) ==> {
                &&& r.remaining > 0 ==> final(self).phase == with_retry(
                    old(self).phase,
                    OpenRetry { remaining: (r.remaining - 1) as u32, retried: true },
                ) && out.notices@ == r.failure_notices()
                &&& r.remaining == 0 ==> final(self).phase == advanced(old(self).phase) && out.notices@
                    == r.failure_notices() + seq![Notice::ContainerUnavailable(old(self).target())]
                    + done_notices(old(self).phase)
            },
    {
        let mut notices: Vec<Notice> = Vec::new();
        let target = self.target_exec();
        let again = match &mut self.phase {
            Phase::Indexing(_, _, r) => r.on_failure(&mut notices),
            Phase::Withdrawing(_, _, r) => r.on_failure(&mut notices),
            Phase::DepotDeposit(r) => r.on_failure(&mut notices),
            Phase::DepotInspect(r) => r.on_failure(&mut notices),
            _ => {
                return self.output(notices);
            },
        };
        if !again {
            notices.push(Notice::ContainerUnavailable(target));
            self.advance(&mut notices);
        }
        let effect = self.pending_effect();
        Output { notices, clicks: Vec::new(), touched: None, cleared: false, effect }
    }

    fn target_exec(&self) -> (p: BlockPos)
        requires
            self.wf(),
        ensures
            p == self.target(),
    {
        match &self.phase {
            Phase::Indexing(t, n, _) => t[*n],
            Phase::Withdrawing(t, n, _) => t[*n],
            _ => self.depot.storage(),
        }
    }

    /// The container being opened was opened; `contents` are its slots, `None`
    /// when they could not be read, and the actor's own slots in the window
    /// are those from `player_start` up to `player_end`, excluded.
    pub fn on_opened(&mut self, contents: Option<Vec<ItemSlot>>, player_start: usize, player_end: usize) -> (out: Output)
        requires
            old(self).wf(),
        ensures
            final(self).wf(),
            final(self).region == old(self).region,
            final(self).depot == old(self).depot,
            out.effect == final(self).pending(),
            !out.cleared,
            retry_of(old(self).phase) is None ==> final(self).phase == old(self).phase
                && out.notices@.len() == 0 && final(self).index == old(self).index
                && out.clicks@.len() == 0 && out.touched is None,
            retry_of(old(self).phase) matches Some(r) ==> final(self).phase == advanced(old(self).phase),
            old(self).phase is Indexing ==> {
                let pos = old(self).target();
                let r = retry_of(old(self).phase)->Some_0;
                &&& out.touched == Some(pos)
                &&& final(self).index.chests@ == with_chest(old(self).index.chests@, pos)
                &&& contents is None ==> {
                    &&& final(self).index.slots() == old(self).index.slots()
                    &&& out.clicks@.len() == 0
                    &&& out.notices@ == success_notices(r) + seq![Notice::ReadFailure(pos)] + done_notices(
                        old(self).phase,
                    )
                }
                &&& contents matches Some(slots) ==> {
                    &&& final(self).index.slots() == recorded(old(self).index.slots(), pos, slots@, slots.len() as int)
                    &&& out.clicks@ == clicked(slots@, slots.len() as int, true)
                    &&& exists|f: Seq<Notice>|
                        found_items(f, slots@, slots.len() as int) && out.notices@ == success_notices(r) + f
                            + done_notices(old(self).phase)
                }
            },
            old(self).phase is Withdrawing && contents is None ==> {
                &&& final(self).index == old(self).index
                &&& out.clicks@.len() == 0
                &&& out.touched is None
                &&& out.notices@ == success_notices(retry_of(old(self).phase)->Some_0) + seq![
                    Notice::ReadFailure(old(self).target()),
                ]
            },
            old(self).phase is Withdrawing ==> (contents matches Some(slots) ==> {
                let pos = old(self).target();
                &&& out.touched == Some(pos)
                &&& final(self).index.chests@ == with_chest(old(self).index.chests@, pos)
                &&& final(self).index.slots() == emptied(old(self).index.slots(), pos, slots.len() as int)
                &&& out.clicks@ == clicked(slots@, slots.len() as int, false)
                &&& exists|f: Seq<Notice>|
                    found_items(f, slots@, slots.len() as int) && out.notices@ == success_notices(
                        retry_of(old(self).phase)->Some_0,
                    ) + f
            }),
            old(self).phase is DepotDeposit ==> {
                &&& final(self).index == old(self).index
                &&& out.touched is None
                &&& out.clicks@ == slot_range(player_start, player_end)
                &&& out.notices@ == success_notices(retry_of(old(self).phase)->Some_0)
            },
            old(self).phase is DepotInspect ==> {
                &&& final(self).index == old(self).index
                &&& out.touched is None
                &&& out.clicks@.len() == 0
                &&& out.notices@ == success_notices(retry_of(old(self).phase)->Some_0) + if contents is None {
                    seq![Notice::ReadFailure(old(self).target())]
                } else {
                    Seq::empty()
                }
            },
    {
        let mut notices: Vec<Notice> = Vec::new();
        let pos = self.target_exec();
        let retry = match &self.phase {
            Phase::Indexing(_, _, r) => *r,
            Phase::Withdrawing(_, _, r) => *r,
            Phase::DepotDeposit(r) => *r,
            Phase::DepotInspect(r) => *r,
            _ => {
                return self.output(notices);
            },
        };
        retry.on_success(&mut notices);
        let ghost first = notices@;
        assert(first =~= success_notices(retry));
        let mut clicks: Vec<usize> = Vec::new();
        let mut touched: Option<BlockPos> = None;
        match &self.phase {
            Phase::Indexing(_, _, _) => {
                touched = Some(pos);
                match &contents {
                    Some(slots) => {
                        clicks = record_contents(&mut self.index, pos, slots, false, &mut notices);
                        assert(notices@ =~= first + notices@.subrange(first.len() as int, notices@.len() as int));
                    },
                    None => {
                        self.index.create_chest(pos);
                        notices.push(Notice::ReadFailure(pos));
                    },
                }
            },
            Phase::Withdrawing(_, _, _) => {
                match &contents {
                    Some(slots) => {
                        touched = Some(pos);
                        clicks = record_contents(&mut self.index, pos, slots, true, &mut notices);
                        assert(notices@ =~= first + notices@.subrange(first.len() as int, notices@.len() as int));
                    },
                    None => {
                        notices.push(Notice::ReadFailure(pos));
                    },
                }
            },
            Phase::DepotDeposit(_) => {
                let mut s: usize = player_start;
                while s < player_end
                    invariant
                        player_start <= s,
                        s <= player_end || player_start >= player_end,
                        player_start < player_end ==> clicks@ == slot_range(player_start, s),
                        player_start >= player_end ==> clicks@.len() == 0,
                    decreases player_end - s,
                {
                    clicks.push(s);
                    proof {
                        assert(clicks@ =~= slot_range(player_start, (s + 1) as usize));
                    }
                    s += 1;
                }
                assert(clicks@ =~= slot_range(player_start, player_end));
            },
            _ => {
                if contents.is_none() {
                    notices.push(Notice::ReadFailure(pos));
                }
            },
        }
        let ghost before_advance = notices@;
        self.advance(&mut notices);
        proof {
            assert(notices@ == before_advance + done_notices(old(self).phase));
            if !(old(self).phase is Indexing) {
                assert(notices@ =~= before_advance);
            }
            match contents {
                Some(slots) => {
                    let f = before_advance.subrange(first.len() as int, before_advance.len() as int);
                    if old(self).phase is Indexing || old(self).phase is Withdrawing {
                        assert(found_items(f, slots@, slots.len() as int));
                        assert(notices@ == success_notices(retry) + f + done_notices(old(self).phase));
                        if old(self).phase is Withdrawing {
                            assert(notices@ =~= success_notices(retry) + f);
                        }
                    }
                },
                None => {
                    if !(old(self).phase is DepotDeposit) {
                        assert(before_advance =~= success_notices(retry) + seq![Notice::ReadFailure(pos)]);
                    }
                },
            }
        }
        let effect = self.pending_effect();
        Output { notices, clicks, touched, cleared: false, effect }
    }

    /// The index could not be written: this is reported once, and the
    /// processor stops for good.
    pub fn on_persistence_failure(&mut self) -> (out: Output)
        requires
            old(self).wf(),
        ensures
            final(self).wf(),
            final(self).phase is Aborted,
            final(self).index == old(self).index,
            out.effect == Effect::Halt,
            out.clicks@.len() == 0,
            !out.cleared,
            out.touched is None,
            old(self).phase is Aborted ==> out.notices@.len() == 0,
            !(old(self).phase is Aborted) ==> out.notices@ == seq![Notice::QueueDied],
    {
        let mut notices: Vec<Notice> = Vec::new();
        if !matches!(self.phase, Phase::Aborted) {
            notices.push(Notice::QueueDied);
        }
        self.phase = Phase::Aborted;
        Output { notices, clicks: Vec::new(), touched: None, cleared: false, effect: Effect::Halt }
    }
}

/// The positions of the records, each once, in the order they first appear.
pub fn distinct_positions(recs: &Vec<SlotRecord>) -> (r: Vec<BlockPos>)
    ensures
        r@ == positions_of(recs@),
{
    let mut r: Vec<BlockPos> = Vec::new();
    let mut i: usize = 0;
    while i < recs.len()
        invariant
            i <= recs.len(),
            r@ == positions_of(recs@.take(i as int)),
        decreases recs.len() - i,
    {
        proof {
            let t = recs@.take(i + 1);
            assert(t.drop_last() == recs@.take(i as int));
        }
        let p = recs[i].pos;
        let mut seen = false;
        let mut j: usize = 0;
        while j < r.len()
            invariant
                j <= r.len(),
                seen == exists|k: int| 0 <= k < j && r@[k] == p,
            decreases r.len() - j,
        {
            if r[j] == p {
                seen = true;
            }
            j += 1;
        }
        if !seen {
            r.push(p);
        }
        i += 1;
    }
    assert(recs@.take(recs.len() as int) == recs@);
    r
}

} // verus!

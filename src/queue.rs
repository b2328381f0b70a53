use vstd::prelude::*;

use std::collections::VecDeque;

verus! {

/// The frame that keeps a relay connection alive; it carries no command.
pub const KEEPALIVE: &'static str = "PING";

/// The prefix that marks a chat message of the owner as a command.
pub const COMMAND_PREFIX: char = '$';

/// The chat message that asks for a scan of the containers nearby.
pub const SCAN_NEARBY: &'static str = "go";

/// Commands waiting to be run, oldest first.
#[derive(Debug)]
pub struct WebsocketQueue {
    pub queue: VecDeque<String>,
}

/// Whether two strings are equal.
pub fn same_text(a: &str, b: &str) -> (r: bool)
    ensures
        r == (a@ == b@),
{
    String::from_str(a) == String::from_str(b)
}

impl WebsocketQueue {
    /// The commands waiting, oldest first.
    pub open spec fn pending(&self) -> Seq<Seq<char>> {
        self.queue@.map_values(|s: String| s@)
    }

    /// An empty queue.
    pub fn new() -> (r: WebsocketQueue)
        ensures
            r.pending() == Seq::<Seq<char>>::empty(),
    {
        let r = WebsocketQueue { queue: VecDeque::new() };
        assert(r.pending() =~= Seq::<Seq<char>>::empty());
        r
    }

    /// Number of commands waiting.
    pub fn len(&self) -> (n: usize)
        ensures
            n == self.pending().len(),
    {
        self.queue.len()
    }

    /// Puts a command at the back.
    pub fn push_back(&mut self, command: String)
        ensures
            final(self).pending() == old(self).pending().push(command@),
    {
        self.queue.push_back(command);
        assert(self.pending() =~= old(self).pending().push(command@));
    }

    /// Takes the oldest command, if any.
    pub fn pop_front(&mut self) -> (r: Option<String>)
        ensures
            old(self).pending().len() == 0 ==> r is None && final(self).pending() == old(self).pending(),
            old(self).pending().len() > 0 ==> r is Some && r->Some_0@ == old(self).pending()[0]
                && final(self).pending() == old(self).pending().drop_first(),
    {
        let r = self.queue.pop_front();
        proof {
            if old(self).queue@.len() > 0 {
                assert(self.pending() =~= old(self).pending().drop_first());
            }
        }
        r
    }

    /// Takes an inbound relay frame: a keepalive or an empty frame is dropped,
    /// anything else is queued as it is. Returns whether it was queued.
    pub fn handle_frame(&mut self, text: &str) -> (queued: bool)
        ensures
            queued == (text@ != KEEPALIVE@ && text@.len() != 0),
            queued ==> final(self).pending() == old(self).pending().push(text@),
            !queued ==> final(self).pending() == old(self).pending(),
    {
        if same_text(text, KEEPALIVE) || text.unicode_len() == 0 {
            return false;
        }
        self.push_back(String::from_str(text));
        true
    }

    /// Takes a chat message. Messages of the actor itself are ignored. A
    /// message of the owner that starts with the command prefix is queued
    /// without the prefix. Returns whether the message asks for a scan of the
    /// containers nearby.
    pub fn handle_chat(&mut self, sender: Option<&str>, own_name: &str, owner: &str, content: &str) -> (scan: bool)
        ensures
            ({
                let from_self = sender matches Some(s) && s@ == own_name@;
                let from_owner = sender matches Some(s) && s@ == owner@;
                let command = !from_self && from_owner && content@.len() > 0 && content@[0]
                    == COMMAND_PREFIX;
                &&& command ==> final(self).pending() == old(self).pending().push(content@.drop_first())
                &&& !command ==> final(self).pending() == old(self).pending()
                &&& scan == (!from_self && content@ == SCAN_NEARBY@)
            }),
    {
        let from_self = match sender {
            Some(s) => same_text(s, own_name),
            None => false,
        };
        if from_self {
            return false;
        }
        let from_owner = match sender {
            Some(s) => same_text(s, owner),
            None => false,
        };
        let n = content.unicode_len();
        if from_owner && n > 0 && content.get_char(0) == COMMAND_PREFIX {
            let rest = content.substring_char(1, n);
            assert(rest@ == content@.drop_first());
            self.push_back(String::from_str(rest));
        }
        same_text(content, SCAN_NEARBY)
    }
}

/// What goes into the queue comes out in the same order: a queue holding
/// `pending` that receives `first` and then `second` gives out what it held,
/// then `first`, then `second`.
pub proof fn lemma_queue_keeps_order(pending: Seq<Seq<char>>, first: Seq<char>, second: Seq<char>)
    ensures
        pending.push(first).push(second) == pending + seq![first, second],
        pending.len() == 0 ==> pending.push(first).push(second)[0] == first
            && pending.push(first).push(second).drop_first()[0] == second,
{
    assert(pending.push(first).push(second) =~= pending + seq![first, second]);
}

} // verus!

use vstd::prelude::*;

use crate::notice::Notice;

verus! {

/// How many times opening a container is tried again after the first attempt.
pub const OPEN_RETRIES: u32 = 5;

/// The retry state of one attempt to open a container.
#[derive(Clone, Copy, Debug, PartialEq, Eq, Structural)]
pub struct OpenRetry {
    /// Attempts still allowed after the current one.
    pub remaining: u32,
    /// Whether the current attempt is a retry.
    pub retried: bool,
}

impl OpenRetry {
    /// The state before the first attempt.
    pub fn new() -> (r: OpenRetry)
        ensures
            r.remaining == OPEN_RETRIES,
            !r.retried,
    {
        OpenRetry { remaining: OPEN_RETRIES, retried: false }
    }

    /// The notices that a failed attempt gives, and whether to try again.
    pub open spec fn failure_notices(self) -> Seq<Notice> {
        (if self.retried {
            seq![Notice::RetryFailed(self.remaining)]
        } else {
            Seq::empty()
        }) + (if self.remaining > 0 {
            seq![Notice::Retrying]
        } else {
            Seq::empty()
        })
    }

    /// The state before the first attempt, with another bound on retries.
    pub fn with_retries(remaining: u32) -> (r: OpenRetry)
        ensures
            r.remaining == remaining,
            !r.retried,
    {
        OpenRetry { remaining, retried: false }
    }

    /// The current attempt failed. A failed retry is reported; then, while
    /// attempts are left, another one is announced and `true` returned.
    pub fn on_failure(&mut self, notices: &mut Vec<Notice>) -> (again: bool)
        ensures
            again == (old(self).remaining > 0),
            again ==> *final(self) == (OpenRetry { remaining: (old(self).remaining - 1) as u32, retried: true }),
            !again ==> *final(self) == *old(self),
            final(notices)@ == old(notices)@ + old(self).failure_notices(),
    {
        let ghost start = notices@;
        if self.retried {
            notices.push(Notice::RetryFailed(self.remaining));
        }
        if self.remaining > 0 {
            notices.push(Notice::Retrying);
            self.remaining = self.remaining - 1;
            self.retried = true;
            assert(notices@ =~= start + old(self).failure_notices());
            true
        } else {
            assert(notices@ =~= start + old(self).failure_notices());
            false
        }
    }

    /// The current attempt succeeded; a successful retry is reported.
    pub fn on_success(&self, notices: &mut Vec<Notice>)
        ensures
            final(notices)@ == old(notices)@ + (if self.retried {
                seq![Notice::RetrySuccessful]
            } else {
                Seq::empty()
            }),
    {
        let ghost start = notices@;
        if self.retried {
            notices.push(Notice::RetrySuccessful);
        }
        assert(notices@ =~= start + (if self.retried {
            seq![Notice::RetrySuccessful]
        } else {
            Seq::<Notice>::empty()
        }));
    }
}

} // verus!

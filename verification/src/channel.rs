//! The bounded hand-off queue between the subscriber and the render loop,
//! as a policy model: first-in-first-out, fixed capacity, and a push onto a
//! full queue changes nothing and reports failure, so the producer waits and
//! retries instead of dropping the message. The thread-crossing primitive
//! that realises this policy lives outside the crate.
use vstd::prelude::*;

use crate::message::MessageView;
use crate::message::PublishMessage;

verus! {

/// Capacity of the hand-off between subscriber and render loop.
pub const DEFAULT_CAPACITY: usize = 200;

/// The message views queued, oldest first.
pub open spec fn message_views(s: Seq<PublishMessage>) -> Seq<MessageView> {
    s.map_values(|m: PublishMessage| m@)
}

/// Bounded first-in-first-out queue of messages.
pub struct Channel {
    pub buf: Vec<PublishMessage>,
    pub cap: usize,
}

impl View for Channel {
    type V = Seq<MessageView>;

    open spec fn view(&self) -> Seq<MessageView> {
        message_views(self.buf@)
    }
}

impl Channel {
    /// Never more messages queued than the capacity.
    pub open spec fn wf(&self) -> bool {
        self@.len() <= self.cap as int
    }

    pub fn new(cap: usize) -> (r: Channel)
        ensures
            r@ == Seq::<MessageView>::empty(),
            r.cap == cap,
            r.wf(),
    {
        let r = Channel { buf: Vec::new(), cap };
        proof {
            assert(r@ =~= Seq::<MessageView>::empty());
        }
        r
    }

    pub fn len(&self) -> (n: usize)
        ensures
            n == self@.len(),
    {
        self.buf.len()
    }

    /// Backpressure: succeeds exactly when a slot is free; a push onto a full
    /// queue leaves the queue unchanged and reports failure, never dropping
    /// the message or an older one.
    pub fn try_push(&mut self, m: PublishMessage) -> (ok: bool)
        requires
            old(self).wf(),
        ensures
            final(self).wf(),
            final(self).cap == old(self).cap,
            ok == (old(self)@.len() < old(self).cap as int),
            ok ==> final(self)@ == old(self)@.push(m@),
            !ok ==> final(self)@ == old(self)@,
    {
        if self.buf.len() < self.cap {
            let ghost b0 = self.buf@;
            self.buf.push(m);
            proof {
                assert(message_views(self.buf@) =~= message_views(b0).push(m@)) by {
                    assert(forall|q: int|
                        0 <= q < self.buf@.len() ==> #[trigger] message_views(self.buf@)[q]
                            == self.buf@[q]@);
                    assert(forall|q: int|
                        0 <= q < b0.len() ==> #[trigger] message_views(b0)[q] == b0[q]@);
                }
            }
            true
        } else {
            false
        }
    }

    /// Ordered delivery: returns the oldest queued message, or nothing when
    /// the queue is empty. The blocking receive with a timeout reduces to
    /// this once the wait is over.
    pub fn try_pop(&mut self) -> (r: Option<PublishMessage>)
        requires
            old(self).wf(),
        ensures
            final(self).wf(),
            final(self).cap == old(self).cap,
            old(self)@.len() == 0 ==> r is None && final(self)@ == old(self)@,
            old(self)@.len() > 0 ==> r is Some && r.unwrap()@ == old(self)@[0] && final(self)@
                == old(self)@.skip(1),
    {
        if self.buf.len() == 0 {
            None
        } else {
            let ghost b0 = self.buf@;
            let m = self.buf.remove(0);
            proof {
                assert(self.buf@ =~= b0.skip(1));
                assert(message_views(self.buf@) =~= message_views(b0).skip(1)) by {
                    assert(forall|q: int|
                        0 <= q < self.buf@.len() ==> #[trigger] message_views(self.buf@)[q]
                            == self.buf@[q]@);
                    assert(forall|q: int|
                        0 <= q < b0.len() ==> #[trigger] message_views(b0)[q] == b0[q]@);
                    assert(forall|q: int|
                        0 <= q < message_views(b0).skip(1).len() ==> #[trigger] message_views(
                            b0,
                        ).skip(1)[q] == message_views(b0)[q + 1]);
                }
                assert(message_views(b0)[0] == b0[0]@);
            }
            Some(m)
        }
    }
}

} // verus!

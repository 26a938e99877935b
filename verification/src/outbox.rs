//! The per-client delivery queue feeding that client's writer task.

use vstd::prelude::*;
use crate::message::Message;
use crate::message::MessageModel;

verus! {

/// Mathematical view of an [`Outbox`]: the messages queued for the
/// client's writer task, oldest first, the queue's capacity, and
/// whether the queue was closed by session teardown.
pub ghost struct OutboxModel {
    pub queued: Seq<MessageModel>,
    pub capacity: nat,
    pub closed: bool,
}

impl OutboxModel {
    /// An outbox takes one more message only while it is open and
    /// below its capacity; delivery into a closed or full outbox is a
    /// soft, per-recipient failure that drops the message.
    pub open spec fn accepts(self) -> bool {
        !self.closed && self.queued.len() < self.capacity
    }

    /// Delivery of one message: queued at the back when the outbox
    /// accepts it, dropped otherwise.
    pub open spec fn deliver(self, m: MessageModel) -> OutboxModel {
        if self.accepts() {
            OutboxModel { queued: self.queued.push(m), capacity: self.capacity, closed: self.closed }
        } else {
            self
        }
    }

    /// The queue never holds more than its capacity.
    pub open spec fn wf(self) -> bool {
        self.queued.len() <= self.capacity
    }
}

/// The bounded queue of messages awaiting one client's writer task.
///
/// The broadcast loop is the only producer; the client's writer task
/// is the only consumer. Closing the outbox is how session teardown
/// tells the writer task to stop.
pub struct Outbox {
    queued: Vec<Message>,
    capacity: usize,
    closed: bool,
}

impl View for Outbox {
    type V = OutboxModel;

    closed spec fn view(&self) -> OutboxModel {
        OutboxModel {
            queued: self.queued@.map_values(|m: Message| m@),
            capacity: self.capacity as nat,
            closed: self.closed,
        }
    }
}

impl Outbox {
    /// An empty, open outbox that holds at most `capacity` messages.
    pub fn new(capacity: usize) -> (r: Outbox)
        ensures
            r@ == (OutboxModel { queued: Seq::<MessageModel>::empty(), capacity: capacity as nat, closed: false }),
            r@.wf(),
    {
        let r = Outbox { queued: Vec::new(), capacity, closed: false };
        proof {
            assert(r@.queued =~= Seq::<MessageModel>::empty());
        }
        r
    }

    /// Queues a copy of `m` when the outbox accepts it and reports
    /// whether it did; a full or closed outbox drops the message.
    pub fn deliver(&mut self, m: &Message) -> (delivered: bool)
        requires
            old(self)@.wf(),
        ensures
            final(self)@ == old(self)@.deliver(m@),
            delivered == old(self)@.accepts(),
            final(self)@.wf(),
    {
        if !self.closed && self.queued.len() < self.capacity {
            let copy = m.clone();
            self.queued.push(copy);
            proof {
                assert(self@.queued =~= old(self)@.queued.push(m@));
            }
            true
        } else {
            false
        }
    }

    /// Hands the oldest queued message to the writer task, if any.
    pub fn take_next(&mut self) -> (r: Option<Message>)
        ensures
            old(self)@.queued.len() == 0 ==> r is None && final(self)@ == old(self)@,
            old(self)@.queued.len() > 0 ==> {
                &&& r matches Some(m) && m@ == old(self)@.queued[0]
                &&& final(self)@.queued == old(self)@.queued.drop_first()
                &&& final(self)@.capacity == old(self)@.capacity
                &&& final(self)@.closed == old(self)@.closed
            },
            old(self)@.wf() ==> final(self)@.wf(),
    {
        if self.queued.len() == 0 {
            proof {
                assert(self@ == old(self)@);
            }
            None
        } else {
            let m = self.queued.remove(0);
            proof {
                assert(self@.queued =~= old(self)@.queued.drop_first());
            }
            Some(m)
        }
    }

    /// Closes the outbox; already-queued messages stay readable, but
    /// nothing further is accepted.
    pub fn close(&mut self)
        ensures
            final(self)@ == (OutboxModel {
                queued: old(self)@.queued,
                capacity: old(self)@.capacity,
                closed: true,
            }),
            old(self)@.wf() ==> final(self)@.wf(),
    {
        self.closed = true;
    }

    /// How many messages are queued.
    pub fn len(&self) -> (r: usize)
        ensures
            r == self@.queued.len(),
    {
        self.queued.len()
    }

    /// Whether the outbox was closed by teardown.
    pub fn is_closed(&self) -> (r: bool)
        ensures
            r == self@.closed,
    {
        self.closed
    }

    /// The bound the outbox was created with.
    pub fn capacity(&self) -> (r: usize)
        ensures
            r == self@.capacity,
    {
        self.capacity
    }
}

} // verus!

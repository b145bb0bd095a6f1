//! The bounded FIFO message queue backing each direction of a session.
//!
//! A queue accepts messages up to a fixed capacity, hands them out in arrival
//! order, and can be closed; once closed it accepts nothing further, and a
//! reader that drains it observes end-of-stream. The model keeps the full
//! arrival history, so the contracts pin down that the k-th message handed out
//! is exactly the k-th message accepted: no reordering, no duplication, no
//! silent loss.

use vstd::prelude::*;

verus! {

/// Mathematical model of one direction of a session's duplex channel.
pub ghost struct QueueModel {
    /// Every message ever accepted, in arrival order.
    pub arrived: Seq<Seq<char>>,
    /// Messages accepted but not yet handed out, in arrival order.
    pub pending: Seq<Seq<char>>,
    /// Fixed number of slots.
    pub capacity: nat,
    /// Whether the queue has been closed.
    pub closed: bool,
}

impl QueueModel {
    /// How many messages have been handed out so far.
    pub open spec fn delivered(self) -> int {
        self.arrived.len() - self.pending.len()
    }

    /// The pending messages are exactly the undelivered suffix of the arrivals.
    pub open spec fn wf(self) -> bool {
        &&& self.capacity >= 1
        &&& self.pending.len() <= self.capacity
        &&& self.pending.len() <= self.arrived.len()
        &&& self.pending == self.arrived.subrange(self.delivered(), self.arrived.len() as int)
    }
}

/// In a well-formed queue, the pending message at position `k` is the arrival
/// at position `delivered() + k`.
proof fn lemma_pending_is_suffix(q: QueueModel, k: int)
    requires
        q.wf(),
        0 <= k < q.pending.len(),
    ensures
        q.pending[k] == q.arrived[q.delivered() + k],
{
    assert(q.pending[k] == q.arrived.subrange(q.delivered(), q.arrived.len() as int)[k]);
}

/// What an attempted enqueue did.
#[derive(PartialEq, Eq, Structural)]
pub enum PushOutcome {
    /// The message was accepted onto the queue.
    Queued,
    /// The queue is at capacity; the caller must suspend and retry.
    Full,
    /// The queue is closed and accepts nothing further.
    Closed,
}

/// What an attempted dequeue yielded.
pub enum PopOutcome {
    /// The earliest undelivered message.
    Delivered(String),
    /// Nothing queued yet, but the queue is still open.
    Pending,
    /// The queue is closed and drained: end of stream.
    Ended,
}

/// The enqueue decision as a function of the queue state alone.
pub open spec fn push_decision(q: QueueModel) -> PushOutcome {
    if q.closed {
        PushOutcome::Closed
    } else if q.pending.len() >= q.capacity {
        PushOutcome::Full
    } else {
        PushOutcome::Queued
    }
}

/// A bounded FIFO queue of canonically encoded message payloads.
pub struct MessageQueue {
    items: Vec<String>,
    capacity: usize,
    closed: bool,
    arrived: Ghost<Seq<Seq<char>>>,
}

impl View for MessageQueue {
    type V = QueueModel;

    closed spec fn view(&self) -> QueueModel {
        QueueModel {
            arrived: self.arrived@,
            pending: self.items.deep_view(),
            capacity: self.capacity as nat,
            closed: self.closed,
        }
    }
}

impl MessageQueue {
    /// A fresh open queue with the given number of slots.
    pub fn new(capacity: usize) -> (r: MessageQueue)
        requires
            capacity >= 1,
        ensures
            r@.wf(),
            r@ == (QueueModel {
                arrived: Seq::<Seq<char>>::empty(),
                pending: Seq::<Seq<char>>::empty(),
                capacity: capacity as nat,
                closed: false,
            }),
    {
        let r = MessageQueue { items: Vec::new(), capacity, closed: false, arrived: Ghost(Seq::empty()) };
        proof {
            assert(r@.pending =~= Seq::<Seq<char>>::empty());
            assert(r@.pending =~= r@.arrived.subrange(r@.delivered(), r@.arrived.len() as int));
        }
        r
    }

    /// How many messages are queued and undelivered.
    pub fn len(&self) -> (r: usize)
        ensures
            r == self@.pending.len(),
    {
        self.items.len()
    }

    /// Whether the queue has been closed.
    pub fn is_closed(&self) -> (r: bool)
        ensures
            r == self@.closed,
    {
        self.closed
    }

    /// Enqueue a message: accepted exactly when the queue is open and below
    /// capacity; a full queue reports `Full` (the caller suspends rather than
    /// dropping the message) and a closed queue reports `Closed`.
    pub fn push(&mut self, message: String) -> (r: PushOutcome)
        requires
            old(self)@.wf(),
        ensures
            final(self)@.wf(),
            r == push_decision(old(self)@),
            r is Queued ==> final(self)@ == (QueueModel {
                arrived: old(self)@.arrived.push(message@),
                pending: old(self)@.pending.push(message@),
                capacity: old(self)@.capacity,
                closed: old(self)@.closed,
            }),
            !(r is Queued) ==> final(self)@ == old(self)@,
    {
        if self.closed {
            PushOutcome::Closed
        } else if self.items.len() >= self.capacity {
            PushOutcome::Full
        } else {
            let ghost msg_view = message@;
            self.arrived = Ghost(self.arrived@.push(msg_view));
            self.items.push(message);
            proof {
                assert forall|i: int| 0 <= i < old(self)@.pending.len() implies old(
                    self,
                )@.pending[i] == old(self)@.arrived[old(self)@.delivered() + i] by {
                    lemma_pending_is_suffix(old(self)@, i);
                }
                assert(self@.pending =~= old(self)@.pending.push(msg_view));
                assert(self@.pending =~= self@.arrived.subrange(
                    self@.delivered(),
                    self@.arrived.len() as int,
                ));
            }
            PushOutcome::Queued
        }
    }

    /// Dequeue the earliest undelivered message. The message handed out is
    /// always the arrival at position `delivered()`: deliveries follow the
    /// arrival order exactly.
    pub fn pop(&mut self) -> (r: PopOutcome)
        requires
            old(self)@.wf(),
        ensures
            final(self)@.wf(),
            old(self)@.pending.len() > 0 ==> {
                &&& r matches PopOutcome::Delivered(m)
                &&& (r matches PopOutcome::Delivered(m) ==> {
                    &&& m@ == old(self)@.pending[0]
                    &&& m@ == old(self)@.arrived[old(self)@.delivered()]
                })
                &&& final(self)@ == (QueueModel {
                    arrived: old(self)@.arrived,
                    pending: old(self)@.pending.drop_first(),
                    capacity: old(self)@.capacity,
                    closed: old(self)@.closed,
                })
            },
            old(self)@.pending.len() == 0 ==> {
                &&& final(self)@ == old(self)@
                &&& !(r matches PopOutcome::Delivered(_))
                &&& (old(self)@.closed ==> r is Ended)
                &&& (!old(self)@.closed ==> r is Pending)
            },
    {
        if self.items.len() > 0 {
            let message = self.items.remove(0);
            proof {
                assert forall|i: int| 0 <= i < old(self)@.pending.len() implies old(
                    self,
                )@.pending[i] == old(self)@.arrived[old(self)@.delivered() + i] by {
                    lemma_pending_is_suffix(old(self)@, i);
                }
                assert(self@.pending =~= old(self)@.pending.drop_first());
                assert(self@.pending =~= self@.arrived.subrange(
                    self@.delivered(),
                    self@.arrived.len() as int,
                ));
                assert(message@ == old(self)@.pending[0]);
            }
            PopOutcome::Delivered(message)
        } else if self.closed {
            PopOutcome::Ended
        } else {
            PopOutcome::Pending
        }
    }

    /// Close the queue: no further messages are accepted; already queued
    /// messages remain deliverable.
    pub fn close(&mut self)
        requires
            old(self)@.wf(),
        ensures
            final(self)@.wf(),
            final(self)@ == (QueueModel {
                arrived: old(self)@.arrived,
                pending: old(self)@.pending,
                capacity: old(self)@.capacity,
                closed: true,
            }),
    {
        self.closed = true;
    }
}

/// Deliveries happen in arrival order: in a well-formed queue the message at
/// pending position `k` is the arrival at position `delivered() + k`, so a
/// reader that drains the queue sees the arrivals in their original order.
pub proof fn lemma_delivery_in_arrival_order(q: QueueModel, k: int)
    requires
        q.wf(),
        0 <= k < q.pending.len(),
    ensures
        q.pending[k] == q.arrived[q.delivered() + k],
{
}

} // verus!

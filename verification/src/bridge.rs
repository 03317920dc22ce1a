//! Command and event bridge between the presentation loop and the network
//! engine.
//!
//! The two loops share nothing but a pair of bounded queues: an outbound
//! queue of [`NetworkCommand`] values (presentation loop to engine) fed by a
//! non-blocking enqueue that drops under backpressure, and an inbound queue
//! of [`NetworkEvent`] values (engine to presentation loop) drained to
//! exhaustion once per frame; on its sending side the engine awaits queue
//! space rather than drop an event, since a lost disconnection would leave a
//! stale peer forever — that suspension lives with the asynchronous front
//! end. [`BoundedQueue`] gives the queue semantics that
//! both directions rely on: bounded capacity, first-in first-out order, and
//! closure of the sending half as the shutdown signal.

use vstd::prelude::*;

verus! {

/// A remote peer's network-layer address, stripped of transport wrapping.
#[derive(Debug, Clone, Copy, PartialEq, Eq)]
pub enum IpAddress {
    V4(u8, u8, u8, u8),
    V6(u128),
}

/// A request issued by the presentation loop and executed by the engine.
#[derive(Debug, Clone, PartialEq, Eq)]
pub enum NetworkCommand {
    /// Begin listening on an address.
    Listen(String),
    /// Attempt an outbound connection.
    Dial(String),
    /// Ask the relay at this address to hold a circuit slot for this node.
    ReserveRelayCircuit(String),
    /// Broadcast a chat line on the shared topic.
    PublishChat { sender_id: String, text: String },
    /// Announce this node's reachable addresses to the mesh.
    BroadcastPresence { sender_id: String, listen_addrs: Vec<String> },
}

/// A notification emitted by the engine and drained by the presentation loop.
#[derive(Debug, Clone, PartialEq, Eq)]
pub enum NetworkEvent {
    Listening(String),
    PeerConnected(String, IpAddress),
    PeerDisconnected(String),
    MessageReceived { sender_id: String, text: String },
    /// A presence announcement decoded from the mesh: sender and one of its
    /// listen addresses.
    PeerDiscovered(String, String),
    /// A non-fatal operational failure, for display only.
    Error(String),
}

/// What a non-blocking enqueue did.
#[derive(Debug, Clone, Copy, PartialEq, Eq)]
pub enum SendOutcome {
    /// The item was appended at the back of the queue.
    Sent,
    /// The queue was at capacity; the item was dropped, the caller never
    /// blocked.
    Full,
    /// The sending half had been closed; the item was dropped.
    Closed,
}

/// What a non-blocking dequeue found.
#[derive(Debug, Clone, PartialEq, Eq)]
pub enum RecvOutcome<T> {
    /// The item at the front of the queue.
    Item(T),
    /// Nothing queued, but the sending half is still open.
    Empty,
    /// Nothing queued and the sending half is closed: the orderly shutdown
    /// signal.
    SenderDropped,
}

/// A bounded first-in first-out queue whose sending half can be closed.
pub struct BoundedQueue<T> {
    buf: Vec<T>,
    capacity: usize,
    sender_live: bool,
}

impl<T> BoundedQueue<T> {
    /// The queued items, front first.
    pub closed spec fn contents(&self) -> Seq<T> {
        self.buf@
    }

    /// The fixed capacity the queue was created with.
    pub closed spec fn cap(&self) -> int {
        self.capacity as int
    }

    /// Whether the sending half is still open.
    pub closed spec fn is_open(&self) -> bool {
        self.sender_live
    }

    /// The queue never holds more than its capacity.
    pub closed spec fn wf(&self) -> bool {
        self.buf@.len() <= self.capacity
    }

    /// An empty, open queue of the given capacity.
    pub fn new(capacity: usize) -> (r: Self)
        requires
            capacity >= 1,
        ensures
            r.wf(),
            r.contents() == Seq::<T>::empty(),
            r.cap() == capacity,
            r.is_open(),
    {
        BoundedQueue { buf: Vec::new(), capacity, sender_live: true }
    }

    /// Number of queued items.
    pub fn len(&self) -> (n: usize)
        ensures
            n == self.contents().len(),
    {
        self.buf.len()
    }

    /// Non-blocking enqueue: appends when there is room, and otherwise
    /// returns at once with the queue unchanged (drop under backpressure;
    /// an unresponsive consumer never stalls the caller).
    pub fn try_send(&mut self, t: T) -> (r: SendOutcome)
        requires
            old(self).wf(),
        ensures
            final(self).wf(),
            final(self).cap() == old(self).cap(),
            final(self).is_open() == old(self).is_open(),
            r is Sent <==> old(self).is_open() && old(self).contents().len() < old(self).cap(),
            r is Full <==> old(self).is_open() && old(self).contents().len() >= old(self).cap(),
            r is Closed <==> !old(self).is_open(),
            r is Sent ==> final(self).contents() == old(self).contents().push(t),
            !(r is Sent) ==> final(self).contents() == old(self).contents(),
    {
        if !self.sender_live {
            SendOutcome::Closed
        } else if self.buf.len() >= self.capacity {
            SendOutcome::Full
        } else {
            self.buf.push(t);
            SendOutcome::Sent
        }
    }

    /// Non-blocking dequeue: yields the item at the front, in the order the
    /// items were enqueued; an exhausted queue reports whether the sending
    /// half is still open.
    pub fn try_recv(&mut self) -> (r: RecvOutcome<T>)
        requires
            old(self).wf(),
        ensures
            final(self).wf(),
            final(self).cap() == old(self).cap(),
            final(self).is_open() == old(self).is_open(),
            old(self).contents().len() > 0 ==> (r matches RecvOutcome::Item(t)
                && t == old(self).contents()[0]
                && final(self).contents() == old(self).contents().drop_first()),
            old(self).contents().len() == 0 ==> final(self).contents() == old(self).contents()
                && (if old(self).is_open() {
                r is Empty
            } else {
                r is SenderDropped
            }),
    {
        if self.buf.len() > 0 {
            let t = self.buf.remove(0);
            RecvOutcome::Item(t)
        } else if self.sender_live {
            RecvOutcome::Empty
        } else {
            RecvOutcome::SenderDropped
        }
    }

    /// Drops the sending half: already queued items stay receivable, and a
    /// receiver that drains them then observes the shutdown signal.
    pub fn close(&mut self)
        requires
            old(self).wf(),
        ensures
            final(self).wf(),
            final(self).cap() == old(self).cap(),
            final(self).contents() == old(self).contents(),
            !final(self).is_open(),
    {
        self.sender_live = false;
    }
}

/// Event ordering law: items enqueued in order `a`, `b`, `c` are observed by
/// the consumer in order `a`, `b`, `c`. By the contracts of
/// [`BoundedQueue::try_send`] and [`BoundedQueue::try_recv`], three accepted
/// sends onto an empty queue leave the contents `[a, b, c]`, and each receive
/// yields the front and keeps the rest; this lemma states that those contents
/// hand back `a`, then `b`, then `c`.
pub proof fn lemma_event_order<T>(a: T, b: T, c: T)
    ensures
        ({
            let s1 = Seq::<T>::empty().push(a).push(b).push(c);
            let s2 = s1.drop_first();
            let s3 = s2.drop_first();
            s1[0] == a && s2[0] == b && s3[0] == c && s3.drop_first().len() == 0
        }),
{
}

/// The same ordering law, run through the queue itself: three items pass an
/// empty open queue with room for them and come out as they went in. The
/// result is pinned by the contracts of the two queue operations alone.
pub fn forward_in_order<T>(q: &mut BoundedQueue<T>, a: T, b: T, c: T) -> (r: (T, T, T))
    requires
        old(q).wf(),
        old(q).is_open(),
        old(q).contents().len() == 0,
        old(q).cap() >= 3,
    ensures
        r == (a, b, c),
        final(q).wf(),
        final(q).contents().len() == 0,
{
    let s1 = q.try_send(a);
    assert(s1 is Sent);
    let s2 = q.try_send(b);
    assert(s2 is Sent);
    let s3 = q.try_send(c);
    assert(s3 is Sent);
    let first = match q.try_recv() {
        RecvOutcome::Item(t) => t,
        _ => unreached(),
    };
    let second = match q.try_recv() {
        RecvOutcome::Item(t) => t,
        _ => unreached(),
    };
    let third = match q.try_recv() {
        RecvOutcome::Item(t) => t,
        _ => unreached(),
    };
    (first, second, third)
}

} // verus!

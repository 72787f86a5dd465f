//! Bounded byte pipe: a fixed-capacity FIFO queue of byte-chunk-or-error
//! items with one producing and one consuming end. The pipe is the only
//! crossing point between the transport side and the handler side; its
//! bounded occupancy is what gives the bridge backpressure.

use vstd::prelude::*;

verus! {

/// A unit of body data flowing through a pipe: either a chunk of raw bytes
/// or a terminal error marker carrying a message. End-of-stream is not an
/// item; it is signaled by closing the pipe.
pub enum ChunkItem {
    Data(Vec<u8>),
    Fail(String),
}

/// Mathematical model of a `ChunkItem`.
pub enum ItemModel {
    Bytes(Seq<u8>),
    Error(Seq<char>),
}

impl View for ChunkItem {
    type V = ItemModel;

    open spec fn view(&self) -> ItemModel {
        match self {
            ChunkItem::Data(b) => ItemModel::Bytes(b@),
            ChunkItem::Fail(m) => ItemModel::Error(m@),
        }
    }
}

/// Outcome of a non-blocking send attempt. `Full` hands the item back: the
/// producer must suspend and retry once the consumer has drained. `Refused`
/// hands the item back because the pipe was already closed (a send after
/// close is surfaced, never dropped).
pub enum SendOutcome {
    Sent,
    Full(ChunkItem),
    Refused(ChunkItem),
}

/// Outcome of a non-blocking receive attempt. `Pending` means the consumer
/// must suspend until the producer sends or closes; `EndOfStream` means the
/// pipe is closed and fully drained.
pub enum RecvOutcome {
    Item(ChunkItem),
    Pending,
    EndOfStream,
}

/// Fixed-capacity FIFO queue of `ChunkItem`s. The ghost logs `sent` and
/// `received` record every item ever accepted and every item ever delivered,
/// so that loss-freedom and ordering are part of the type's invariant.
pub struct Pipe {
    items: Vec<ChunkItem>,
    capacity: usize,
    closed: bool,
    sent: Ghost<Seq<ItemModel>>,
    received: Ghost<Seq<ItemModel>>,
}

impl Pipe {
    /// Items currently queued, oldest first.
    pub closed spec fn queued(&self) -> Seq<ItemModel> {
        self.items@.map_values(|i: ChunkItem| i@)
    }

    /// Every item the pipe ever accepted, in send order.
    pub closed spec fn log_sent(&self) -> Seq<ItemModel> {
        self.sent@
    }

    /// Every item the pipe ever delivered, in delivery order.
    pub closed spec fn log_received(&self) -> Seq<ItemModel> {
        self.received@
    }

    pub closed spec fn cap(&self) -> nat {
        self.capacity as nat
    }

    pub closed spec fn is_closed(&self) -> bool {
        self.closed
    }

    /// Well-formedness: occupancy is bounded by the capacity, and the send
    /// log is exactly the delivery log followed by what is still queued
    /// (no loss, no duplication, no reordering).
    pub closed spec fn wf(&self) -> bool {
        &&& self.capacity >= 1
        &&& self.items@.len() <= self.capacity
        &&& self.sent@ == self.received@ + self.queued()
    }

    /// A fresh open pipe of capacity `capacity` with nothing queued.
    pub fn new(capacity: usize) -> (p: Pipe)
        requires
            capacity >= 1,
        ensures
            p.wf(),
            p.cap() == capacity,
            !p.is_closed(),
            p.queued() == Seq::<ItemModel>::empty(),
            p.log_sent() == Seq::<ItemModel>::empty(),
            p.log_received() == Seq::<ItemModel>::empty(),
    {
        let p = Pipe {
            items: Vec::new(),
            capacity,
            closed: false,
            sent: Ghost(Seq::empty()),
            received: Ghost(Seq::empty()),
        };
        proof {
            assert(p.queued() =~= Seq::<ItemModel>::empty());
        }
        p
    }

    /// Number of items currently queued.
    pub fn len(&self) -> (n: usize)
        ensures
            n == self.queued().len(),
    {
        self.items.len()
    }

    /// Whether the producing end has closed the pipe.
    pub fn closed(&self) -> (c: bool)
        ensures
            c == self.is_closed(),
    {
        self.closed
    }

    /// The fixed capacity the pipe was created with.
    pub fn capacity(&self) -> (c: usize)
        ensures
            c == self.cap(),
    {
        self.capacity
    }

    /// Attempt to enqueue one item. Succeeds exactly when the pipe is open
    /// and below capacity; when full, nothing changes and the caller must
    /// suspend (backpressure); when closed, the attempt is refused and
    /// nothing changes.
    pub fn try_send(&mut self, item: ChunkItem) -> (r: SendOutcome)
        requires
            old(self).wf(),
        ensures
            final(self).wf(),
            final(self).cap() == old(self).cap(),
            final(self).is_closed() == old(self).is_closed(),
            final(self).log_received() == old(self).log_received(),
            (r is Sent <==> !old(self).is_closed() && old(self).queued().len() < old(self).cap()),
            (r is Full <==> !old(self).is_closed() && old(self).queued().len() == old(self).cap()),
            (r is Refused <==> old(self).is_closed()),
            r is Sent ==> final(self).queued() == old(self).queued().push(item@)
                && final(self).log_sent() == old(self).log_sent().push(item@),
            !(r is Sent) ==> final(self).queued() == old(self).queued()
                && final(self).log_sent() == old(self).log_sent(),
            r matches SendOutcome::Full(it) ==> it == item,
            r matches SendOutcome::Refused(it) ==> it == item,
    {
        if self.closed {
            SendOutcome::Refused(item)
        } else if self.items.len() == self.capacity {
            SendOutcome::Full(item)
        } else {
            let ghost m = item@;
            self.items.push(item);
            proof {
                self.sent@ = self.sent@.push(m);
                assert(self.queued() =~= old(self).queued().push(m));
                assert(self.sent@ =~= self.received@ + self.queued());
            }
            SendOutcome::Sent
        }
    }

    /// Attempt to dequeue one item. Delivers the oldest queued item; on an
    /// empty open pipe the consumer must suspend; on an empty closed pipe
    /// the stream has ended. Nothing is ever delivered twice or out of
    /// order.
    pub fn try_recv(&mut self) -> (r: RecvOutcome)
        requires
            old(self).wf(),
        ensures
            final(self).wf(),
            final(self).cap() == old(self).cap(),
            final(self).is_closed() == old(self).is_closed(),
            (r is Item <==> old(self).queued().len() > 0),
            (r is EndOfStream <==> old(self).queued().len() == 0 && old(self).is_closed()),
            (r is Pending <==> old(self).queued().len() == 0 && !old(self).is_closed()),
            r matches RecvOutcome::Item(it) ==> it@ == old(self).queued()[0]
                && final(self).queued() == old(self).queued().skip(1)
                && final(self).log_received() == old(self).log_received().push(it@)
                && final(self).log_sent() == old(self).log_sent(),
            !(r is Item) ==> final(self).queued() == old(self).queued()
                && final(self).log_received() == old(self).log_received()
                && final(self).log_sent() == old(self).log_sent(),
    {
        if self.items.len() > 0 {
            let it = self.items.remove(0);
            let ghost m = it@;
            proof {
                self.received@ = self.received@.push(m);
                assert(self.queued() =~= old(self).queued().skip(1));
                assert(self.sent@ =~= self.received@ + self.queued());
            }
            RecvOutcome::Item(it)
        } else if self.closed {
            RecvOutcome::EndOfStream
        } else {
            RecvOutcome::Pending
        }
    }

    /// Close the producing end. Idempotent; queued items stay deliverable,
    /// and once drained the consumer observes end-of-stream.
    pub fn close(&mut self)
        requires
            old(self).wf(),
        ensures
            final(self).wf(),
            final(self).cap() == old(self).cap(),
            final(self).is_closed(),
            final(self).queued() == old(self).queued(),
            final(self).log_sent() == old(self).log_sent(),
            final(self).log_received() == old(self).log_received(),
    {
        self.closed = true;
    }
}

/// Law: a pipe never loses, duplicates, or reorders items, and its memory
/// stays bounded by its capacity. What was ever delivered is exactly a
/// prefix of what was sent, in send order; the remainder of the send log is
/// exactly what is still queued; and no more than `cap` items are ever
/// queued at once, however much was sent in total.
pub proof fn lemma_pipe_conservation(p: &Pipe)
    requires
        p.wf(),
    ensures
        p.log_sent() == p.log_received() + p.queued(),
        p.log_received() == p.log_sent().take(p.log_received().len() as int),
        p.queued() == p.log_sent().skip(p.log_received().len() as int),
        p.queued().len() <= p.cap(),
        p.cap() >= 1,
{
    assert(p.log_received() =~= p.log_sent().take(p.log_received().len() as int));
    assert(p.queued() =~= p.log_sent().skip(p.log_received().len() as int));
}

} // verus!

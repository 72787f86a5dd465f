//! Body forwarder: one per request, reading successive body frames from the
//! incoming request and pushing them into the inbound pipe. A successful
//! frame forwards its raw bytes; a transport-level read error forwards a
//! terminal error item and the forwarder stops; the end of the body closes
//! the pipe. The forwarder never blocks the scheduler: when the pipe is
//! full it suspends and retries with the same frame.

use vstd::prelude::*;
use crate::pipe::{ChunkItem, ItemModel, Pipe, SendOutcome};

verus! {

/// One thing the transport produced while reading the request body.
pub enum FrameEvent {
    Payload(Vec<u8>),
    ReadFailure(String),
    EndOfBody,
}

/// The pipe item a frame event forwards, if any: raw bytes for a payload
/// frame, a terminal error item for a read failure, nothing for the end of
/// the body (which closes the pipe instead).
pub open spec fn event_item(ev: FrameEvent) -> Option<ItemModel> {
    match ev {
        FrameEvent::Payload(b) => Some(ItemModel::Bytes(b@)),
        FrameEvent::ReadFailure(m) => Some(ItemModel::Error(m@)),
        FrameEvent::EndOfBody => None,
    }
}

/// What one forwarding step came to. `Suspended` hands the event back: the
/// pipe was full and the forwarder must wait for the consumer to drain, then
/// retry. `ChannelClosed` surfaces a send after close — a logic defect that
/// is never silently dropped — and also hands the event back.
pub enum ForwardProgress {
    Accepted,
    BodyClosed,
    Suspended(FrameEvent),
    ChannelClosed(FrameEvent),
}

/// Turn a handed-back pipe item into the frame event it came from.
fn item_to_event(item: ChunkItem) -> (ev: FrameEvent)
    ensures
        event_item(ev) == Some(item@),
{
    match item {
        ChunkItem::Data(b) => FrameEvent::Payload(b),
        ChunkItem::Fail(m) => FrameEvent::ReadFailure(m),
    }
}

/// Forward one frame event into the inbound pipe: a payload or read-failure
/// event enqueues its item when the open pipe has room, suspends when it is
/// full, and surfaces a closed pipe; the end of the body closes the pipe.
pub fn forward_frame(ev: FrameEvent, pipe: &mut Pipe) -> (r: ForwardProgress)
    requires
        old(pipe).wf(),
    ensures
        final(pipe).wf(),
        final(pipe).cap() == old(pipe).cap(),
        final(pipe).log_received() == old(pipe).log_received(),
        event_item(ev) is None ==> r is BodyClosed && final(pipe).is_closed()
            && final(pipe).queued() == old(pipe).queued() && final(pipe).log_sent() == old(
            pipe,
        ).log_sent(),
        event_item(ev) matches Some(m) ==> {
            &&& (r is Accepted <==> !old(pipe).is_closed() && old(pipe).queued().len() < old(
                pipe,
            ).cap())
            &&& (r is Suspended <==> !old(pipe).is_closed() && old(pipe).queued().len() == old(
                pipe,
            ).cap())
            &&& (r is ChannelClosed <==> old(pipe).is_closed())
            &&& !(r is BodyClosed)
            &&& final(pipe).is_closed() == old(pipe).is_closed()
            &&& (r is Accepted ==> final(pipe).queued() == old(pipe).queued().push(m)
                && final(pipe).log_sent() == old(pipe).log_sent().push(m))
            &&& (r matches ForwardProgress::Suspended(e2) ==> event_item(e2) == Some(m))
            &&& (r matches ForwardProgress::ChannelClosed(e2) ==> event_item(e2) == Some(m))
            &&& (!(r is Accepted) ==> final(pipe).queued() == old(pipe).queued()
                && final(pipe).log_sent() == old(pipe).log_sent())
        },
{
    match ev {
        FrameEvent::EndOfBody => {
            pipe.close();
            ForwardProgress::BodyClosed
        },
        FrameEvent::Payload(b) => match pipe.try_send(ChunkItem::Data(b)) {
            SendOutcome::Sent => ForwardProgress::Accepted,
            SendOutcome::Full(item) => ForwardProgress::Suspended(item_to_event(item)),
            SendOutcome::Refused(item) => ForwardProgress::ChannelClosed(item_to_event(item)),
        },
        FrameEvent::ReadFailure(m) => match pipe.try_send(ChunkItem::Fail(m)) {
            SendOutcome::Sent => ForwardProgress::Accepted,
            SendOutcome::Full(item) => ForwardProgress::Suspended(item_to_event(item)),
            SendOutcome::Refused(item) => ForwardProgress::ChannelClosed(item_to_event(item)),
        },
    }
}

} // verus!

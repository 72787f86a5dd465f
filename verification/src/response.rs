//! Response stream adapter: drains the outbound pipe from the cooperative
//! side and yields each chunk as an outgoing transport frame, in arrival
//! order, until the pipe signals a clean end of stream or a terminal error
//! item aborts the response mid-stream.

use vstd::prelude::*;
use crate::pipe::{ChunkItem, ItemModel, Pipe, RecvOutcome};

verus! {

/// The next thing the transport should do with the response body.
pub enum ResponseStep {
    Frame(Vec<u8>),
    Finished,
    Aborted(String),
    Pending,
}

/// Take the next response chunk off the outbound pipe: the oldest queued
/// byte chunk becomes the next body frame; a terminal error item aborts the
/// response; a closed and drained pipe finishes it cleanly; an empty open
/// pipe leaves the adapter pending until the worker produces more.
pub fn response_next(pipe: &mut Pipe) -> (r: ResponseStep)
    requires
        old(pipe).wf(),
    ensures
        final(pipe).wf(),
        final(pipe).cap() == old(pipe).cap(),
        final(pipe).is_closed() == old(pipe).is_closed(),
        final(pipe).log_sent() == old(pipe).log_sent(),
        (r is Frame <==> old(pipe).queued().len() > 0 && old(pipe).queued()[0] is Bytes),
        (r is Aborted <==> old(pipe).queued().len() > 0 && old(pipe).queued()[0] is Error),
        (r is Finished <==> old(pipe).queued().len() == 0 && old(pipe).is_closed()),
        (r is Pending <==> old(pipe).queued().len() == 0 && !old(pipe).is_closed()),
        r matches ResponseStep::Frame(b) ==> old(pipe).queued()[0] == ItemModel::Bytes(b@)
            && final(pipe).queued() == old(pipe).queued().skip(1)
            && final(pipe).log_received() == old(pipe).log_received().push(
            old(pipe).queued()[0],
        ),
        r matches ResponseStep::Aborted(m) ==> old(pipe).queued()[0] == ItemModel::Error(m@)
            && final(pipe).queued() == old(pipe).queued().skip(1)
            && final(pipe).log_received() == old(pipe).log_received().push(
            old(pipe).queued()[0],
        ),
        (r is Finished || r is Pending) ==> final(pipe).queued() == old(pipe).queued()
            && final(pipe).log_received() == old(pipe).log_received(),
{
    match pipe.try_recv() {
        RecvOutcome::Item(item) => match item {
            ChunkItem::Data(b) => ResponseStep::Frame(b),
            ChunkItem::Fail(m) => ResponseStep::Aborted(m),
        },
        RecvOutcome::EndOfStream => ResponseStep::Finished,
        RecvOutcome::Pending => ResponseStep::Pending,
    }
}

} // verus!

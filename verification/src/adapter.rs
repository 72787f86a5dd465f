//! Pull stream adapter: wraps a pipe's consuming end as a pull-based byte
//! source for a blocking caller that does not participate in the cooperative
//! scheduler. Each pull appends the next available chunk to the caller's
//! buffer and says whether further data may follow; a terminal error item is
//! surfaced as a failure of the pull.

use vstd::prelude::*;
use crate::pipe::{ChunkItem, ItemModel, Pipe, RecvOutcome};

verus! {

/// What one pull attempt came to. `WouldBlock` means nothing is available
/// yet and the blocking caller must wait (the calling execution context
/// blocks, never the scheduler).
pub enum PullStatus {
    More,
    Done,
    Failed(String),
    WouldBlock,
}

/// Pull the next chunk from the pipe into `buffer`. Appends the oldest
/// queued byte chunk and reports `More`; surfaces a terminal error item as
/// `Failed`; reports `Done` on a closed and drained pipe, and `WouldBlock`
/// on an empty open one. Never drops, splits, merges, or reorders bytes.
pub fn pull(pipe: &mut Pipe, buffer: &mut Vec<u8>) -> (r: PullStatus)
    requires
        old(pipe).wf(),
    ensures
        final(pipe).wf(),
        final(pipe).cap() == old(pipe).cap(),
        final(pipe).is_closed() == old(pipe).is_closed(),
        final(pipe).log_sent() == old(pipe).log_sent(),
        (r is More <==> old(pipe).queued().len() > 0 && old(pipe).queued()[0] is Bytes),
        (r is Failed <==> old(pipe).queued().len() > 0 && old(pipe).queued()[0] is Error),
        (r is Done <==> old(pipe).queued().len() == 0 && old(pipe).is_closed()),
        (r is WouldBlock <==> old(pipe).queued().len() == 0 && !old(pipe).is_closed()),
        r is More ==> final(pipe).queued() == old(pipe).queued().skip(1)
            && final(pipe).log_received() == old(pipe).log_received().push(
            old(pipe).queued()[0],
        ) && (old(pipe).queued()[0] matches ItemModel::Bytes(b) && final(buffer)@ == old(
            buffer,
        )@ + b),
        r matches PullStatus::Failed(m) ==> old(pipe).queued()[0] == ItemModel::Error(m@)
            && final(pipe).queued() == old(pipe).queued().skip(1)
            && final(pipe).log_received() == old(pipe).log_received().push(
            old(pipe).queued()[0],
        ) && final(buffer)@ == old(buffer)@,
        (r is Done || r is WouldBlock) ==> final(pipe).queued() == old(pipe).queued()
            && final(pipe).log_received() == old(pipe).log_received() && final(buffer)@ == old(
            buffer,
        )@,
{
    match pipe.try_recv() {
        RecvOutcome::Item(item) => match item {
            ChunkItem::Data(mut d) => {
                buffer.append(&mut d);
                PullStatus::More
            },
            ChunkItem::Fail(m) => PullStatus::Failed(m),
        },
        RecvOutcome::EndOfStream => PullStatus::Done,
        RecvOutcome::Pending => PullStatus::WouldBlock,
    }
}

} // verus!

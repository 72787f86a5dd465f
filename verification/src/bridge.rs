//! End-to-end behavior of the streaming bridge for one request. The two
//! sides of each bounded pipe run concurrently in the server; here their
//! steps are interleaved into one verified run — the producer pushes and,
//! whenever the pipe is full, the consumer drains one item — which shows
//! that whatever interleaving the scheduler picks, the bytes that come out
//! are exactly the bytes that went in, in order, through a queue that never
//! holds more than its capacity.

use vstd::prelude::*;
use vstd::pervasive::unreached;
use crate::pipe::{lemma_pipe_conservation, ChunkItem, ItemModel, Pipe, SendOutcome};
use crate::adapter::{pull, PullStatus};
use crate::forwarder::{forward_frame, ForwardProgress, FrameEvent};
use crate::response::{response_next, ResponseStep};
use crate::worker::{classify, has_error, outcome_emission, sequence_emission, EvalOutcome, HandlerResult, HandlerValue};

verus! {

/// The bytes a pipe item carries: a byte chunk's contents; a terminal error
/// marker carries none.
pub open spec fn payload_of(it: ItemModel) -> Seq<u8> {
    match it {
        ItemModel::Bytes(b) => b,
        ItemModel::Error(_) => Seq::<u8>::empty(),
    }
}

/// The bytes carried by a sequence of pipe items, in order.
pub open spec fn data_bytes(items: Seq<ItemModel>) -> Seq<u8>
    decreases items.len(),
{
    if items.len() == 0 {
        Seq::<u8>::empty()
    } else {
        payload_of(items[0]) + data_bytes(items.skip(1))
    }
}

/// The concatenation of a sequence of byte chunks, in order.
pub open spec fn concat_of(frames: Seq<Seq<u8>>) -> Seq<u8>
    decreases frames.len(),
{
    if frames.len() == 0 {
        Seq::<u8>::empty()
    } else {
        frames[0] + concat_of(frames.skip(1))
    }
}

/// The views of a vector of byte-chunk frames.
pub open spec fn frame_views(fs: Seq<Vec<u8>>) -> Seq<Seq<u8>> {
    fs.map_values(|f: Vec<u8>| f@)
}

/// Byte chunks as pipe items.
pub open spec fn as_items(frames: Seq<Seq<u8>>) -> Seq<ItemModel> {
    frames.map_values(|f: Seq<u8>| ItemModel::Bytes(f))
}

/// The models of a vector of chunk items.
pub open spec fn chunk_models(cs: Seq<ChunkItem>) -> Seq<ItemModel> {
    cs.map_values(|c: ChunkItem| c@)
}

/// Every item is a byte chunk.
pub open spec fn all_bytes(items: Seq<ItemModel>) -> bool {
    forall|i: int| 0 <= i < items.len() ==> items[i] is Bytes
}

/// At most the last item is a terminal error marker.
pub open spec fn error_only_last(items: Seq<ItemModel>) -> bool {
    forall|i: int| 0 <= i < items.len() - 1 ==> items[i] is Bytes
}

proof fn lemma_data_bytes_push(items: Seq<ItemModel>, it: ItemModel)
    ensures
        data_bytes(items.push(it)) == data_bytes(items) + payload_of(it),
    decreases items.len(),
{
    if items.len() == 0 {
        assert(items.push(it)[0] == it);
        assert(items.push(it).skip(1) =~= Seq::<ItemModel>::empty());
        assert(data_bytes(Seq::<ItemModel>::empty()) == Seq::<u8>::empty());
        assert(data_bytes(items) == Seq::<u8>::empty());
        assert(data_bytes(items.push(it)) == payload_of(it) + Seq::<u8>::empty());
        assert(payload_of(it) + Seq::<u8>::empty() =~= Seq::<u8>::empty() + payload_of(it));
    } else {
        assert(items.push(it)[0] == items[0]);
        assert(items.push(it).skip(1) =~= items.skip(1).push(it));
        lemma_data_bytes_push(items.skip(1), it);
        assert(data_bytes(items.push(it)) =~= data_bytes(items) + payload_of(it));
    }
}

proof fn lemma_concat_bytes(frames: Seq<Seq<u8>>)
    ensures
        data_bytes(as_items(frames)) == concat_of(frames),
    decreases frames.len(),
{
    if frames.len() == 0 {
        assert(as_items(frames).len() == 0);
    } else {
        assert(as_items(frames)[0] == ItemModel::Bytes(frames[0]));
        assert(as_items(frames).skip(1) =~= as_items(frames.skip(1)));
        lemma_concat_bytes(frames.skip(1));
    }
}

/// Law: a request body delivered as frames f1..fn reaches the handler's
/// input stream as exactly the concatenation f1+..+fn, in that order. The
/// body forwarder pushes each frame into a bounded inbound pipe, suspending
/// whenever the pipe is full while the pull adapter drains; this function
/// runs that interleaving to completion and returns the handler's view of
/// the body.
pub fn deliver_body(frames: Vec<Vec<u8>>, capacity: usize) -> (body: Vec<u8>)
    requires
        capacity >= 1,
    ensures
        body@ == concat_of(frame_views(frames@)),
{
    let ghost all = frame_views(frames@);
    let total: usize = frames.len();
    let mut inbound = Pipe::new(capacity);
    let mut buffer: Vec<u8> = Vec::new();
    let mut rest = frames;
    proof {
        assert(frame_views(rest@) =~= all.skip(0));
        assert(inbound.log_sent() =~= as_items(all.take(0)));
        assert(data_bytes(inbound.log_received()) =~= buffer@);
    }
    let mut done: usize = 0;
    while rest.len() > 0
        invariant
            inbound.wf(),
            !inbound.is_closed(),
            inbound.cap() == capacity,
            capacity >= 1,
            done <= total,
            total == all.len(),
            done + rest@.len() == total,
            frame_views(rest@) == all.skip(done as int),
            inbound.log_sent() == as_items(all.take(done as int)),
            all_bytes(inbound.log_sent()),
            buffer@ == data_bytes(inbound.log_received()),
        decreases rest@.len(),
    {
        let ghost prior = rest@;
        let f = rest.remove(0);
        proof {
            assert(frame_views(prior)[0] == f@);
            assert(f@ == all[done as int]);
            assert forall|j: int| 0 <= j < rest@.len() implies frame_views(rest@)[j] == all.skip(
                done + 1 as int,
            )[j] by {
                assert(rest@[j] == prior[j + 1]);
                assert(frame_views(prior)[j + 1] == all.skip(done as int)[j + 1]);
            }
            assert(frame_views(rest@) =~= all.skip(done + 1 as int));
        }
        let ghost sent_before = inbound.log_sent();
        let mut pending: Option<FrameEvent> = Some(FrameEvent::Payload(f));
        while pending.is_some()
            invariant
                inbound.wf(),
                !inbound.is_closed(),
                inbound.cap() == capacity,
                all_bytes(inbound.log_sent()),
                buffer@ == data_bytes(inbound.log_received()),
                done < all.len(),
                pending matches Some(e) ==> inbound.log_sent() == sent_before
                    && crate::forwarder::event_item(e) == Some(ItemModel::Bytes(all[done as int])),
                pending is None ==> inbound.log_sent() == sent_before.push(
                    ItemModel::Bytes(all[done as int]),
                ),
            decreases (if pending is Some {
                inbound.queued().len() + 2
            } else {
                0
            }),
        {
            let ev = match pending {
                Some(e) => e,
                None => unreached(),
            };
            pending = None;
            match forward_frame(ev, &mut inbound) {
                ForwardProgress::Accepted => {},
                ForwardProgress::Suspended(e2) => {
                    proof {
                        lemma_pipe_conservation(&inbound);
                        assert(inbound.queued().len() > 0);
                        assert(inbound.queued()[0] == inbound.log_sent()[inbound.log_received().len() as int]);
                        assert(inbound.queued()[0] is Bytes);
                    }
                    let ghost lr = inbound.log_received();
                    match pull(&mut inbound, &mut buffer) {
                        PullStatus::More => {
                            proof {
                                lemma_data_bytes_push(lr, inbound.log_received().last());
                            }
                        },
                        PullStatus::Done => unreached(),
                        PullStatus::Failed(_) => unreached(),
                        PullStatus::WouldBlock => unreached(),
                    }
                    pending = Some(e2);
                },
                ForwardProgress::ChannelClosed(_) => unreached(),
                ForwardProgress::BodyClosed => unreached(),
            }
        }
        proof {
            assert(as_items(all.take(done + 1 as int)) =~= as_items(all.take(done as int)).push(
                ItemModel::Bytes(all[done as int]),
            ));
        }
        done = done + 1;
    }
    proof {
        assert(all.take(total as int) =~= all);
    }
    inbound.close();
    let mut finished = false;
    while !finished
        invariant
            inbound.wf(),
            inbound.is_closed(),
            all_bytes(inbound.log_sent()),
            inbound.log_sent() == as_items(all),
            buffer@ == data_bytes(inbound.log_received()),
            finished ==> inbound.queued().len() == 0,
        decreases (if finished {
            0
        } else {
            inbound.queued().len() + 1
        }),
    {
        proof {
            lemma_pipe_conservation(&inbound);
            if inbound.queued().len() > 0 {
                assert(inbound.queued()[0] == inbound.log_sent()[inbound.log_received().len() as int]);
                assert(inbound.queued()[0] is Bytes);
            }
        }
        let ghost lr = inbound.log_received();
        match pull(&mut inbound, &mut buffer) {
            PullStatus::More => {
                proof {
                    lemma_data_bytes_push(lr, inbound.log_received().last());
                }
            },
            PullStatus::Done => {
                finished = true;
            },
            PullStatus::Failed(_) => unreached(),
            PullStatus::WouldBlock => unreached(),
        }
    }
    proof {
        lemma_pipe_conservation(&inbound);
        assert(inbound.log_received() =~= inbound.log_sent());
        lemma_concat_bytes(all);
    }
    buffer
}

/// The bytes of one handler value: a byte chunk's contents; a value the
/// bridge does not accept carries none.
pub open spec fn value_payload(v: HandlerValue) -> Seq<u8> {
    match v {
        HandlerValue::Bytes(b) => b@,
        HandlerValue::Unsupported => Seq::<u8>::empty(),
    }
}

/// The byte chunks of a sequence of handler values, in order.
pub open spec fn value_payloads(vs: Seq<HandlerValue>) -> Seq<Seq<u8>> {
    vs.map_values(|v: HandlerValue| value_payload(v))
}

proof fn lemma_sequence_error_only_last(vs: Seq<HandlerValue>)
    ensures
        error_only_last(sequence_emission(vs)),
    decreases vs.len(),
{
    if vs.len() == 0 {
    } else {
        match vs[0] {
            HandlerValue::Bytes(b) => {
                lemma_sequence_error_only_last(vs.skip(1));
                let emitted = sequence_emission(vs);
                let rec = sequence_emission(vs.skip(1));
                assert(emitted == seq![ItemModel::Bytes(b@)] + rec);
                assert forall|i: int| 0 <= i < emitted.len() - 1 implies emitted[i]
                    is Bytes by {
                    if i > 0 {
                        assert(emitted[i] == rec[i - 1]);
                    }
                }
            },
            HandlerValue::Unsupported => {
                assert(sequence_emission(vs).len() == 1);
            },
        }
    }
}

/// Law: a handler invocation puts at most one terminal error marker on the
/// outbound pipe, and only as the last item: everything the client received
/// before an abort is valid response data.
pub proof fn lemma_emission_error_only_last(o: EvalOutcome)
    ensures
        error_only_last(outcome_emission(o)),
{
    match o {
        EvalOutcome::Raised(_) => {
            assert(outcome_emission(o).len() == 1);
        },
        EvalOutcome::Produced(r) => match r {
            HandlerResult::Sequence(vs) => {
                lemma_sequence_error_only_last(vs@);
            },
            _ => {
                assert(outcome_emission(o).len() <= 1);
            },
        },
    }
}

/// Law: a handler result that is an ordered sequence of byte chunks c1..cm
/// streams back as a response body equal to c1+..+cm concatenated in that
/// order, and the response is not aborted.
pub proof fn lemma_sequence_response_body(vs: Seq<HandlerValue>)
    requires
        forall|i: int| 0 <= i < vs.len() ==> vs[i] is Bytes,
    ensures
        !has_error(sequence_emission(vs)),
        data_bytes(sequence_emission(vs)) == concat_of(value_payloads(vs)),
    decreases vs.len(),
{
    if vs.len() == 0 {
        assert(value_payloads(vs).len() == 0);
        assert(sequence_emission(vs).len() == 0);
    } else {
        let emitted = sequence_emission(vs);
        let rec = sequence_emission(vs.skip(1));
        assert(vs[0] is Bytes);
        assert forall|i: int| 0 <= i < vs.skip(1).len() implies vs.skip(1)[i] is Bytes by {
            assert(vs.skip(1)[i] == vs[i + 1]);
        }
        lemma_sequence_response_body(vs.skip(1));
        match vs[0] {
            HandlerValue::Bytes(b) => {
                assert(emitted == seq![ItemModel::Bytes(b@)] + rec);
                assert(emitted[0] == ItemModel::Bytes(b@));
                assert(emitted.skip(1) =~= rec);
                assert(data_bytes(emitted) == b@ + data_bytes(rec));
                assert(value_payloads(vs)[0] == b@);
                assert(value_payloads(vs).skip(1) =~= value_payloads(vs.skip(1)));
                assert(concat_of(value_payloads(vs)) == b@ + concat_of(value_payloads(vs.skip(1))));
                assert forall|i: int| 0 <= i < emitted.len() implies emitted[i] is Bytes by {
                    if i > 0 {
                        assert(emitted[i] == rec[i - 1]);
                        assert(!(rec[i - 1] is Error));
                    }
                }
            },
            HandlerValue::Unsupported => {
                assert(false);
            },
        }
    }
}

/// Law: whatever result one handler invocation produced, the response body
/// streamed back to the client is exactly the bytes of that invocation's
/// emission, in order, and the response aborts exactly when the emission
/// ends in a terminal error marker. The worker pushes each chunk into a
/// bounded outbound pipe, suspending whenever it is full while the response
/// adapter drains; this function runs that interleaving to completion. Each
/// request has its own outbound pipe, so the body depends on this
/// invocation's outcome alone.
pub fn stream_response(outcome: EvalOutcome, capacity: usize) -> (out: (Vec<u8>, bool))
    requires
        capacity >= 1,
    ensures
        out.0@ == data_bytes(outcome_emission(outcome)),
        out.1 <==> !has_error(outcome_emission(outcome)),
{
    let ghost emitted = outcome_emission(outcome);
    proof {
        lemma_emission_error_only_last(outcome);
    }
    let chunks = classify(outcome);
    let total: usize = chunks.len();
    let mut outbound = Pipe::new(capacity);
    let mut body: Vec<u8> = Vec::new();
    let mut rest = chunks;
    proof {
        assert(chunk_models(rest@) =~= emitted.skip(0));
        assert(outbound.log_sent() =~= emitted.take(0));
        assert(data_bytes(outbound.log_received()) =~= body@);
    }
    let mut done: usize = 0;
    while rest.len() > 0
        invariant
            outbound.wf(),
            !outbound.is_closed(),
            outbound.cap() == capacity,
            capacity >= 1,
            done <= total,
            total == emitted.len(),
            done + rest@.len() == total,
            chunk_models(rest@) == emitted.skip(done as int),
            outbound.log_sent() == emitted.take(done as int),
            error_only_last(emitted),
            all_bytes(outbound.log_received()),
            body@ == data_bytes(outbound.log_received()),
        decreases rest@.len(),
    {
        let ghost prior = rest@;
        let c = rest.remove(0);
        proof {
            assert(chunk_models(prior)[0] == c@);
            assert(c@ == emitted[done as int]);
            assert forall|j: int| 0 <= j < rest@.len() implies chunk_models(rest@)[j]
                == emitted.skip(done + 1 as int)[j] by {
                assert(rest@[j] == prior[j + 1]);
                assert(chunk_models(prior)[j + 1] == emitted.skip(done as int)[j + 1]);
            }
            assert(chunk_models(rest@) =~= emitted.skip(done + 1 as int));
        }
        let ghost sent_before = outbound.log_sent();
        let mut pending: Option<ChunkItem> = Some(c);
        while pending.is_some()
            invariant
                outbound.wf(),
                !outbound.is_closed(),
                outbound.cap() == capacity,
                body@ == data_bytes(outbound.log_received()),
                all_bytes(outbound.log_received()),
                done < emitted.len(),
                error_only_last(emitted),
                outbound.log_sent() == emitted.take(done as int)
                    || outbound.log_sent() == emitted.take(done + 1 as int),
                pending matches Some(cc) ==> outbound.log_sent() == emitted.take(done as int)
                    && cc@ == emitted[done as int],
                pending is None ==> outbound.log_sent() == emitted.take(done + 1 as int),
            decreases (if pending is Some {
                outbound.queued().len() + 2
            } else {
                0
            }),
        {
            let c2 = match pending {
                Some(x) => x,
                None => unreached(),
            };
            pending = None;
            match outbound.try_send(c2) {
                SendOutcome::Sent => {
                    proof {
                        assert(emitted.take(done + 1 as int) =~= emitted.take(done as int).push(
                            emitted[done as int],
                        ));
                    }
                },
                SendOutcome::Full(back) => {
                    proof {
                        lemma_pipe_conservation(&outbound);
                        assert(outbound.queued().len() > 0);
                        let i = outbound.log_received().len() as int;
                        assert(outbound.queued()[0] == outbound.log_sent()[i]);
                        assert(outbound.log_sent()[i] == emitted[i]);
                        assert(i < done);
                        assert(emitted[i] is Bytes);
                    }
                    let ghost lr = outbound.log_received();
                    match response_next(&mut outbound) {
                        ResponseStep::Frame(mut b) => {
                            body.append(&mut b);
                            proof {
                                lemma_data_bytes_push(lr, outbound.log_received().last());
                                assert forall|i: int| 0 <= i < outbound.log_received().len()
                                    implies outbound.log_received()[i] is Bytes by {
                                    if i < lr.len() {
                                        assert(outbound.log_received()[i] == lr[i]);
                                    } else {
                                        assert(outbound.log_received()[i]
                                            == outbound.log_received().last());
                                    }
                                }
                            }
                        },
                        ResponseStep::Finished => unreached(),
                        ResponseStep::Aborted(_) => unreached(),
                        ResponseStep::Pending => unreached(),
                    }
                    pending = Some(back);
                },
                SendOutcome::Refused(_) => unreached(),
            }
        }
        done = done + 1;
    }
    proof {
        assert(emitted.take(total as int) =~= emitted);
    }
    outbound.close();
    let mut ok = true;
    let mut finished = false;
    while !finished
        invariant
            outbound.wf(),
            outbound.is_closed(),
            outbound.log_sent() == emitted,
            error_only_last(emitted),
            body@ == data_bytes(outbound.log_received()),
            !finished ==> ok && all_bytes(outbound.log_received()),
            finished ==> outbound.log_received() == emitted && (ok <==> !has_error(emitted)),
        decreases (if finished {
            0
        } else {
            outbound.queued().len() + 1
        }),
    {
        proof {
            lemma_pipe_conservation(&outbound);
        }
        let ghost lr = outbound.log_received();
        match response_next(&mut outbound) {
            ResponseStep::Frame(mut b) => {
                body.append(&mut b);
                proof {
                    lemma_data_bytes_push(lr, outbound.log_received().last());
                    assert forall|i: int| 0 <= i < outbound.log_received().len()
                        implies outbound.log_received()[i] is Bytes by {
                        if i < lr.len() {
                            assert(outbound.log_received()[i] == lr[i]);
                        } else {
                            assert(outbound.log_received()[i] == outbound.log_received().last());
                        }
                    }
                }
            },
            ResponseStep::Aborted(_) => {
                ok = false;
                finished = true;
                proof {
                    lemma_pipe_conservation(&outbound);
                    lemma_data_bytes_push(lr, outbound.log_received().last());
                    assert(body@ =~= data_bytes(outbound.log_received()));
                    assert(emitted[lr.len() as int] is Error);
                    assert(lr.len() == emitted.len() - 1);
                    assert(outbound.log_received().len() == emitted.len());
                    assert(outbound.log_received() =~= emitted);
                    assert(has_error(emitted));
                }
            },
            ResponseStep::Finished => {
                finished = true;
                proof {
                    assert(outbound.log_received() =~= emitted);
                    assert forall|i: int| 0 <= i < emitted.len() implies !(emitted[i]
                        is Error) by {
                        assert(emitted[i] == outbound.log_received()[i]);
                    }
                    assert(!has_error(emitted));
                }
            },
            ResponseStep::Pending => unreached(),
        }
    }
    (body, ok)
}


} // verus!

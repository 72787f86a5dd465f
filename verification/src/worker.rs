//! The evaluation worker's view of one handler invocation: the handler's
//! result is classified into exactly one of three accepted shapes — a single
//! byte-convertible value, a finite ordered sequence of byte-convertible
//! values, or an empty result — and turned into the ordered chunk items to
//! place on the outbound pipe. Any other shape is a contract violation,
//! fatal for the request only: it yields a terminal error marker so the
//! client is not left hanging. A handler that raises is caught at this
//! boundary and likewise yields a terminal error marker.

use vstd::prelude::*;
use crate::pipe::{ChunkItem, ItemModel};

verus! {

/// One value produced by the handler, as the bridge sees it: either bytes,
/// or a value of a shape the bridge does not accept.
pub enum HandlerValue {
    Bytes(Vec<u8>),
    Unsupported,
}

/// The handler's whole result: one value, a finite ordered sequence of
/// values, an empty result, or a result of a shape the bridge does not
/// accept at all.
pub enum HandlerResult {
    Single(HandlerValue),
    Sequence(Vec<HandlerValue>),
    Empty,
    UnsupportedShape,
}

/// What one handler invocation came to at the worker boundary: the handler
/// either produced a result, or raised and the failure was caught and
/// carried as a message.
pub enum EvalOutcome {
    Produced(HandlerResult),
    Raised(String),
}

/// The error marker placed on the outbound pipe when the handler's result
/// has a shape the bridge does not accept.
pub open spec fn shape_violation() -> ItemModel {
    ItemModel::Error("unsupported handler result shape"@)
}

/// The items a sequence-shaped result puts on the outbound pipe: one byte
/// chunk per value, in order, cut short by a terminal error marker at the
/// first value that is not byte-convertible.
pub open spec fn sequence_emission(vs: Seq<HandlerValue>) -> Seq<ItemModel>
    decreases vs.len(),
{
    if vs.len() == 0 {
        Seq::<ItemModel>::empty()
    } else {
        match vs[0] {
            HandlerValue::Bytes(b) => seq![ItemModel::Bytes(b@)] + sequence_emission(vs.skip(1)),
            HandlerValue::Unsupported => seq![shape_violation()],
        }
    }
}

/// The items a handler result puts on the outbound pipe, in order.
pub open spec fn emission(r: HandlerResult) -> Seq<ItemModel> {
    match r {
        HandlerResult::Single(HandlerValue::Bytes(b)) => seq![ItemModel::Bytes(b@)],
        HandlerResult::Single(HandlerValue::Unsupported) => seq![shape_violation()],
        HandlerResult::Sequence(vs) => sequence_emission(vs@),
        HandlerResult::Empty => Seq::<ItemModel>::empty(),
        HandlerResult::UnsupportedShape => seq![shape_violation()],
    }
}

/// The items one whole invocation puts on the outbound pipe: what the result
/// emits, or a single terminal error marker when the handler raised.
pub open spec fn outcome_emission(o: EvalOutcome) -> Seq<ItemModel> {
    match o {
        EvalOutcome::Produced(r) => emission(r),
        EvalOutcome::Raised(m) => seq![ItemModel::Error(m@)],
    }
}

/// Whether an emission carries a terminal error marker.
pub open spec fn has_error(items: Seq<ItemModel>) -> bool {
    exists|i: int| 0 <= i < items.len() && items[i] is Error
}

/// The error marker for a result shape the bridge does not accept.
fn violation_item() -> (c: ChunkItem)
    ensures
        c@ == shape_violation(),
{
    ChunkItem::Fail(String::from_str("unsupported handler result shape"))
}

/// Classify one handler invocation into the ordered chunk items to place on
/// the outbound pipe: byte chunks for each accepted value in order, cut
/// short by a terminal error marker at the first violation, and a terminal
/// error marker alone when the handler raised.
pub fn classify(outcome: EvalOutcome) -> (chunks: Vec<ChunkItem>)
    ensures
        chunks@.map_values(|c: ChunkItem| c@) == outcome_emission(outcome),
{
    match outcome {
        EvalOutcome::Raised(m) => {
            let mut out: Vec<ChunkItem> = Vec::new();
            let ghost mv = m@;
            out.push(ChunkItem::Fail(m));
            proof {
                assert(out@.map_values(|c: ChunkItem| c@) =~= seq![ItemModel::Error(mv)]);
            }
            out
        },
        EvalOutcome::Produced(r) => match r {
            HandlerResult::Single(HandlerValue::Bytes(b)) => {
                let mut out: Vec<ChunkItem> = Vec::new();
                let ghost bv = b@;
                out.push(ChunkItem::Data(b));
                proof {
                    assert(out@.map_values(|c: ChunkItem| c@) =~= seq![ItemModel::Bytes(bv)]);
                }
                out
            },
            HandlerResult::Single(HandlerValue::Unsupported) => {
                let mut out: Vec<ChunkItem> = Vec::new();
                out.push(violation_item());
                proof {
                    assert(out@.map_values(|c: ChunkItem| c@) =~= seq![shape_violation()]);
                }
                out
            },
            HandlerResult::Empty => {
                let out: Vec<ChunkItem> = Vec::new();
                proof {
                    assert(out@.map_values(|c: ChunkItem| c@) =~= Seq::<ItemModel>::empty());
                }
                out
            },
            HandlerResult::UnsupportedShape => {
                let mut out: Vec<ChunkItem> = Vec::new();
                out.push(violation_item());
                proof {
                    assert(out@.map_values(|c: ChunkItem| c@) =~= seq![shape_violation()]);
                }
                out
            },
            HandlerResult::Sequence(vs) => classify_sequence(vs),
        },
    }
}

/// Classify a sequence-shaped result: one byte chunk per value in order,
/// stopping with a terminal error marker at the first value that is not
/// byte-convertible.
fn classify_sequence(vs: Vec<HandlerValue>) -> (chunks: Vec<ChunkItem>)
    ensures
        chunks@.map_values(|c: ChunkItem| c@) == sequence_emission(vs@),
{
    let ghost orig = vs@;
    let mut rest = vs;
    let mut out: Vec<ChunkItem> = Vec::new();
    let mut violated = false;
    proof {
        assert(out@.map_values(|c: ChunkItem| c@) =~= Seq::<ItemModel>::empty());
        assert(out@.map_values(|c: ChunkItem| c@) + sequence_emission(rest@)
            =~= sequence_emission(orig));
    }
    while rest.len() > 0 && !violated
        invariant
            violated ==> out@.map_values(|c: ChunkItem| c@) == sequence_emission(orig),
            !violated ==> out@.map_values(|c: ChunkItem| c@) + sequence_emission(rest@)
                == sequence_emission(orig),
        decreases rest@.len(),
    {
        let ghost prior = rest@;
        let ghost out_prior = out@;
        let v = rest.remove(0);
        proof {
            assert(seq![v] + rest@ =~= prior);
            assert(prior[0] == v);
            assert(prior.skip(1) =~= rest@);
        }
        match v {
            HandlerValue::Bytes(b) => {
                let ghost bv = b@;
                out.push(ChunkItem::Data(b));
                proof {
                    assert(sequence_emission(prior) == seq![ItemModel::Bytes(bv)]
                        + sequence_emission(rest@));
                    assert(out@.map_values(|c: ChunkItem| c@) =~= out_prior.map_values(
                        |c: ChunkItem| c@,
                    ).push(ItemModel::Bytes(bv)));
                    assert(out@.map_values(|c: ChunkItem| c@) + sequence_emission(rest@)
                        =~= sequence_emission(orig));
                }
            },
            HandlerValue::Unsupported => {
                out.push(violation_item());
                violated = true;
                proof {
                    assert(sequence_emission(prior) == seq![shape_violation()]);
                    assert(out@.map_values(|c: ChunkItem| c@) =~= out_prior.map_values(
                        |c: ChunkItem| c@,
                    ).push(shape_violation()));
                    assert(out@.map_values(|c: ChunkItem| c@) =~= sequence_emission(orig));
                }
            },
        }
    }
    proof {
        if !violated {
            assert(rest@.len() == 0);
            assert(sequence_emission(rest@) =~= Seq::<ItemModel>::empty());
            assert(out@.map_values(|c: ChunkItem| c@) =~= sequence_emission(orig));
        }
    }
    out
}

} // verus!

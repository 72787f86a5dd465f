use http_serve::bridge::{deliver_body, stream_response};
use http_serve::worker::{classify, EvalOutcome, HandlerResult, HandlerValue};
use http_serve::pipe::ChunkItem;

#[test]
fn body_frames_arrive_concatenated_in_order() {
    let frames: Vec<Vec<u8>> = vec![b"he".to_vec(), b"llo ".to_vec(), b"world".to_vec()];
    // A capacity of 1 forces a suspension on every frame after the first.
    let body = deliver_body(frames, 1);
    assert_eq!(body, b"hello world".to_vec());
}

#[test]
fn empty_body_arrives_empty() {
    let body = deliver_body(vec![], 32);
    assert!(body.is_empty());
}

#[test]
fn large_body_through_small_pipe() {
    let frames: Vec<Vec<u8>> = (0u8..100).map(|i| vec![i, i, i]).collect();
    let expected: Vec<u8> = frames.concat();
    let body = deliver_body(frames, 2);
    assert_eq!(body, expected);
}

#[test]
fn response_is_ordered_concat_of_chunks() {
    let outcome = EvalOutcome::Produced(HandlerResult::Sequence(vec![
        HandlerValue::Bytes(b"one".to_vec()),
        HandlerValue::Bytes(b"-two".to_vec()),
        HandlerValue::Bytes(b"-three".to_vec()),
    ]));
    let (body, ok) = stream_response(outcome, 1);
    assert!(ok);
    assert_eq!(body, b"one-two-three".to_vec());
}

#[test]
fn single_value_response() {
    let outcome = EvalOutcome::Produced(HandlerResult::Single(HandlerValue::Bytes(
        b"peace".to_vec(),
    )));
    let (body, ok) = stream_response(outcome, 32);
    assert!(ok);
    assert_eq!(body, b"peace".to_vec());
}

#[test]
fn empty_result_closes_cleanly() {
    let (body, ok) = stream_response(EvalOutcome::Produced(HandlerResult::Empty), 32);
    assert!(ok);
    assert!(body.is_empty());
}

#[test]
fn shape_violation_aborts_after_accepted_prefix() {
    let outcome = EvalOutcome::Produced(HandlerResult::Sequence(vec![
        HandlerValue::Bytes(b"ok".to_vec()),
        HandlerValue::Unsupported,
        HandlerValue::Bytes(b"never".to_vec()),
    ]));
    let (body, ok) = stream_response(outcome, 4);
    assert!(!ok);
    assert_eq!(body, b"ok".to_vec());
}

#[test]
fn unsupported_shape_aborts_with_no_bytes() {
    let (body, ok) = stream_response(
        EvalOutcome::Produced(HandlerResult::UnsupportedShape),
        4,
    );
    assert!(!ok);
    assert!(body.is_empty());
}

#[test]
fn raised_handler_aborts_with_no_bytes() {
    let (body, ok) = stream_response(EvalOutcome::Raised(String::from("handler failed")), 4);
    assert!(!ok);
    assert!(body.is_empty());
}

#[test]
fn classification_keeps_order_and_cuts_at_violation() {
    let chunks = classify(EvalOutcome::Produced(HandlerResult::Sequence(vec![
        HandlerValue::Bytes(b"a".to_vec()),
        HandlerValue::Bytes(b"b".to_vec()),
        HandlerValue::Unsupported,
        HandlerValue::Bytes(b"c".to_vec()),
    ])));
    assert_eq!(chunks.len(), 3);
    assert!(matches!(&chunks[0], ChunkItem::Data(d) if d == b"a"));
    assert!(matches!(&chunks[1], ChunkItem::Data(d) if d == b"b"));
    assert!(matches!(&chunks[2], ChunkItem::Fail(_)));
}

#[test]
fn distinct_requests_keep_distinct_bodies() {
    // Two independent invocations: each response carries only
    // its own marker bytes.
    let a = EvalOutcome::Produced(HandlerResult::Single(HandlerValue::Bytes(
        b"marker-a".to_vec(),
    )));
    let b = EvalOutcome::Produced(HandlerResult::Single(HandlerValue::Bytes(
        b"marker-b".to_vec(),
    )));
    let (body_a, _) = stream_response(a, 2);
    let (body_b, _) = stream_response(b, 2);
    assert_eq!(body_a, b"marker-a".to_vec());
    assert_eq!(body_b, b"marker-b".to_vec());
}

use http_serve::pipe::{ChunkItem, Pipe, RecvOutcome, SendOutcome};

fn bytes_of(r: RecvOutcome) -> Vec<u8> {
    match r {
        RecvOutcome::Item(ChunkItem::Data(b)) => b,
        _ => panic!("expected a byte chunk"),
    }
}

#[test]
fn fifo_order_is_kept() {
    let mut p = Pipe::new(4);
    assert!(matches!(p.try_send(ChunkItem::Data(vec![1])), SendOutcome::Sent));
    assert!(matches!(p.try_send(ChunkItem::Data(vec![2, 3])), SendOutcome::Sent));
    assert!(matches!(p.try_send(ChunkItem::Data(vec![4])), SendOutcome::Sent));
    assert_eq!(bytes_of(p.try_recv()), vec![1]);
    assert_eq!(bytes_of(p.try_recv()), vec![2, 3]);
    assert_eq!(bytes_of(p.try_recv()), vec![4]);
    assert!(matches!(p.try_recv(), RecvOutcome::Pending));
}

#[test]
fn backpressure_suspends_at_capacity_and_loses_nothing() {
    let mut p = Pipe::new(2);
    assert!(matches!(p.try_send(ChunkItem::Data(vec![10])), SendOutcome::Sent));
    assert!(matches!(p.try_send(ChunkItem::Data(vec![20])), SendOutcome::Sent));
    assert_eq!(p.len(), 2);
    // At capacity: the producer is suspended and the item is handed back.
    let third = p.try_send(ChunkItem::Data(vec![30]));
    let held = match third {
        SendOutcome::Full(item) => item,
        _ => panic!("expected the pipe to be full"),
    };
    assert_eq!(p.len(), 2);
    // The consumer resumes: one item drained, the retry succeeds.
    assert_eq!(bytes_of(p.try_recv()), vec![10]);
    assert!(matches!(p.try_send(held), SendOutcome::Sent));
    // Nothing was dropped and order is kept.
    assert_eq!(bytes_of(p.try_recv()), vec![20]);
    assert_eq!(bytes_of(p.try_recv()), vec![30]);
}

#[test]
fn close_drains_then_ends_stream() {
    let mut p = Pipe::new(3);
    assert!(matches!(p.try_send(ChunkItem::Data(vec![7])), SendOutcome::Sent));
    p.close();
    p.close(); // idempotent
    assert!(p.closed());
    // A send after close is refused, never silently dropped.
    assert!(matches!(
        p.try_send(ChunkItem::Data(vec![8])),
        SendOutcome::Refused(ChunkItem::Data(_))
    ));
    // Items queued before the close are still delivered, then end-of-stream.
    assert_eq!(bytes_of(p.try_recv()), vec![7]);
    assert!(matches!(p.try_recv(), RecvOutcome::EndOfStream));
    assert!(matches!(p.try_recv(), RecvOutcome::EndOfStream));
}

#[test]
fn error_marker_travels_like_an_item() {
    let mut p = Pipe::new(2);
    assert!(matches!(
        p.try_send(ChunkItem::Fail(String::from("boom"))),
        SendOutcome::Sent
    ));
    match p.try_recv() {
        RecvOutcome::Item(ChunkItem::Fail(m)) => assert_eq!(m, "boom"),
        _ => panic!("expected the error marker"),
    }
}

#[test]
fn capacity_is_reported() {
    let p = Pipe::new(32);
    assert_eq!(p.capacity(), 32);
    assert_eq!(p.len(), 0);
    assert!(!p.closed());
}

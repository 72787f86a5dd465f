use http_serve::acceptor::{Acceptor, AcceptorAction, AcceptorEvent, AcceptorPhase};
use http_serve::adapter::{pull, PullStatus};
use http_serve::forwarder::{forward_frame, ForwardProgress, FrameEvent};
use http_serve::pipe::{ChunkItem, Pipe, SendOutcome};
use http_serve::plugin::{HTTPServe, HTTPServeCmd, HTTPServePlugin, PIPE_CAPACITY};
use http_serve::response::{response_next, ResponseStep};

#[test]
fn shutdown_refuses_new_connections_but_drains_old_ones() {
    let mut a = Acceptor::new();
    // A connection is accepted strictly before the signal.
    assert!(matches!(a.step(AcceptorEvent::AcceptOk), AcceptorAction::SpawnHandler));
    assert_eq!(a.inflight, 1);
    // The signal fires: stop accepting, but keep draining.
    assert!(matches!(a.step(AcceptorEvent::Shutdown), AcceptorAction::StopAccepting));
    assert!(matches!(a.phase, AcceptorPhase::Draining));
    // A new connection attempt is refused.
    assert!(matches!(a.step(AcceptorEvent::AcceptOk), AcceptorAction::RefuseConnection));
    assert_eq!(a.inflight, 1);
    // The in-flight connection completes normally; only then does the
    // acceptor stop.
    assert!(matches!(a.step(AcceptorEvent::ConnDone), AcceptorAction::NoAction));
    assert!(matches!(a.phase, AcceptorPhase::Stopped));
    assert_eq!(a.inflight, 0);
    assert!(matches!(a.step(AcceptorEvent::AcceptOk), AcceptorAction::RefuseConnection));
}

#[test]
fn accept_failure_is_logged_and_the_loop_continues() {
    let mut a = Acceptor::new();
    assert!(matches!(a.step(AcceptorEvent::AcceptFailed), AcceptorAction::LogAndContinue));
    assert!(matches!(a.phase, AcceptorPhase::Listening));
}

#[test]
fn shutdown_with_nothing_in_flight_stops_at_once() {
    let mut a = Acceptor::new();
    assert!(matches!(a.step(AcceptorEvent::Shutdown), AcceptorAction::StopAccepting));
    assert!(matches!(a.phase, AcceptorPhase::Stopped));
}

#[test]
fn forwarder_forwards_fails_and_closes() {
    let mut p = Pipe::new(2);
    assert!(matches!(
        forward_frame(FrameEvent::Payload(b"xy".to_vec()), &mut p),
        ForwardProgress::Accepted
    ));
    assert!(matches!(
        forward_frame(FrameEvent::ReadFailure(String::from("reset")), &mut p),
        ForwardProgress::Accepted
    ));
    // The pipe is now full: the next frame is handed back.
    match forward_frame(FrameEvent::Payload(b"z".to_vec()), &mut p) {
        ForwardProgress::Suspended(FrameEvent::Payload(b)) => assert_eq!(b, b"z".to_vec()),
        _ => panic!("expected suspension with the frame handed back"),
    }
    // End of body closes the pipe; a later send surfaces the defect.
    let mut q = Pipe::new(2);
    assert!(matches!(
        forward_frame(FrameEvent::EndOfBody, &mut q),
        ForwardProgress::BodyClosed
    ));
    assert!(matches!(
        forward_frame(FrameEvent::Payload(b"late".to_vec()), &mut q),
        ForwardProgress::ChannelClosed(_)
    ));
}

#[test]
fn pull_adapter_appends_and_reports() {
    let mut p = Pipe::new(4);
    let mut buffer: Vec<u8> = Vec::new();
    assert!(matches!(p.try_send(ChunkItem::Data(b"ab".to_vec())), SendOutcome::Sent));
    assert!(matches!(p.try_send(ChunkItem::Data(b"cd".to_vec())), SendOutcome::Sent));
    assert!(matches!(pull(&mut p, &mut buffer), PullStatus::More));
    assert!(matches!(pull(&mut p, &mut buffer), PullStatus::More));
    assert_eq!(buffer, b"abcd".to_vec());
    // Nothing available on an open pipe: the blocking caller would wait.
    assert!(matches!(pull(&mut p, &mut buffer), PullStatus::WouldBlock));
    p.close();
    assert!(matches!(pull(&mut p, &mut buffer), PullStatus::Done));
    // A terminal error item fails the pull and leaves the buffer alone.
    let mut q = Pipe::new(2);
    assert!(matches!(
        q.try_send(ChunkItem::Fail(String::from("read error"))),
        SendOutcome::Sent
    ));
    match pull(&mut q, &mut buffer) {
        PullStatus::Failed(m) => assert_eq!(m, "read error"),
        _ => panic!("expected the pull to fail"),
    }
    assert_eq!(buffer, b"abcd".to_vec());
}

#[test]
fn response_adapter_frames_finishes_and_aborts() {
    let mut p = Pipe::new(4);
    assert!(matches!(p.try_send(ChunkItem::Data(b"chunk".to_vec())), SendOutcome::Sent));
    match response_next(&mut p) {
        ResponseStep::Frame(b) => assert_eq!(b, b"chunk".to_vec()),
        _ => panic!("expected a frame"),
    }
    assert!(matches!(response_next(&mut p), ResponseStep::Pending));
    assert!(matches!(p.try_send(ChunkItem::Fail(String::from("late failure"))), SendOutcome::Sent));
    match response_next(&mut p) {
        ResponseStep::Aborted(m) => assert_eq!(m, "late failure"),
        _ => panic!("expected an abort"),
    }
    p.close();
    assert!(matches!(response_next(&mut p), ResponseStep::Finished));
}

#[test]
fn command_names_are_fixed() {
    let _plugin = HTTPServePlugin::new();
    let cmd = HTTPServeCmd;
    assert_eq!(cmd.name(), "http serve");
    assert_eq!(cmd.description(), "Serve HTTP requests");
    let old_cmd = HTTPServe;
    assert_eq!(old_cmd.name(), "h. serve");
    assert_eq!(old_cmd.usage(), "Service HTTP requests");
    assert_eq!(PIPE_CAPACITY, 32);
}

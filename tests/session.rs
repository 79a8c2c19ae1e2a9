use console_relay::framing::{
    encode_unit, Decoded, FrameError, Framing, IoFailure, ReadOutcome, Unit, UnitReader,
};
use console_relay::registry::{ConnectionId, PeerAddr, Registry};
use console_relay::session::{
    exit_status, merge, relay_action, Action, ConnectionError, Event, RelayAction, Session,
    StreamStep, FALLBACK_EXIT_CODE,
};

fn peer(port: u16) -> ConnectionId {
    ConnectionId::Network(PeerAddr::V4 { ip4: 0x0a00_0001, port })
}

fn session(id: ConnectionId) -> Session {
    let mut registry: Registry<u32> = Registry::new(false);
    Session::open(&mut registry, id, 0)
}

fn text(s: &str) -> Unit {
    Unit::Text(s.to_string())
}

#[test]
fn queue_comes_before_the_transport() {
    assert_eq!(merge(Some(text("out")), None), StreamStep::Event(Event::FromProcess(text("out"))));
    assert_eq!(
        merge(None, Some(Decoded::Unit(text("in")))),
        StreamStep::Event(Event::ToProcess(text("in")))
    );
    assert_eq!(merge(None, None), StreamStep::Pending);
    assert_eq!(merge(None, Some(Decoded::NeedMore)), StreamStep::Pending);
    assert_eq!(merge(None, Some(Decoded::End)), StreamStep::End);
    assert_eq!(
        merge(None, Some(Decoded::Failed(FrameError::InvalidUtf8))),
        StreamStep::Failed(FrameError::InvalidUtf8)
    );
}

#[test]
fn session_forwards_and_delivers() {
    let mut s = session(peer(5));
    assert_eq!(s.id(), peer(5));
    assert_eq!(s.step(StreamStep::Event(Event::ToProcess(text("a")))), Action::Forward(text("a")));
    assert_eq!(s.step(StreamStep::Event(Event::FromProcess(text("b")))), Action::Deliver(text("b")));
    assert_eq!(s.step(StreamStep::Pending), Action::Wait);
    assert!(s.is_open());
}

#[test]
fn session_finishes_at_end_of_stream() {
    let mut s = session(ConnectionId::Terminal);
    assert_eq!(s.step(StreamStep::End), Action::Finish);
    assert!(!s.is_open());
}

#[test]
fn decode_error_ends_only_that_connection() {
    let mut s = session(peer(1));
    assert_eq!(
        s.step(StreamStep::Failed(FrameError::LineTooLong)),
        Action::Fail(ConnectionError::Decode(FrameError::LineTooLong))
    );
    assert!(!s.is_open());
}

#[test]
fn disconnect_on_write_is_passed_over() {
    let mut s = session(peer(1));
    assert_eq!(s.write_failed(IoFailure::BrokenPipe), Action::Wait);
    assert_eq!(s.write_failed(IoFailure::ConnectionReset), Action::Wait);
    assert!(s.is_open());
    assert_eq!(s.write_failed(IoFailure::Other), Action::Fail(ConnectionError::Write(IoFailure::Other)));
    assert!(!s.is_open());
}

#[test]
fn relay_actions() {
    assert_eq!(relay_action(Decoded::Unit(text("x"))), RelayAction::Broadcast(text("x")));
    assert_eq!(relay_action(Decoded::NeedMore), RelayAction::ReadMore);
    assert_eq!(relay_action(Decoded::End), RelayAction::Stop);
    assert_eq!(
        relay_action(Decoded::Failed(FrameError::Io)),
        RelayAction::StopFailed(FrameError::Io)
    );
}

#[test]
fn ping_from_a_peer_reaches_the_process_as_a_line() {
    let mut reader = UnitReader::new(Framing::Line { max_length: usize::MAX });
    reader.feed(ReadOutcome::Data(b"ping\n".to_vec()));
    let mut s = session(peer(9));
    let step = merge(None, Some(reader.next_unit()));
    match s.step(step) {
        Action::Forward(u) => assert_eq!(encode_unit(&u), b"ping\n".to_vec()),
        other => panic!("expected a forward, got {:?}", other),
    }
}

#[test]
fn pong_from_the_process_goes_to_every_peer() {
    let mut registry: Registry<u32> = Registry::new(false);
    registry.register(ConnectionId::Terminal, 0);
    registry.register(peer(1), 1);
    registry.register(peer(2), 2);
    let mut out = UnitReader::new(Framing::Line { max_length: usize::MAX });
    out.feed(ReadOutcome::Data(b"pong\n".to_vec()));
    let unit = match relay_action(out.next_unit()) {
        RelayAction::Broadcast(u) => u,
        other => panic!("expected a broadcast, got {:?}", other),
    };
    assert_eq!(unit, text("pong"));
    let targets = registry.broadcast_targets();
    assert_eq!(targets.len(), 3);
    for i in targets {
        let mut s = session(registry.id_at(i));
        assert_eq!(s.step(merge(Some(unit.clone()), None)), Action::Deliver(text("pong")));
    }
}

#[test]
fn reset_peer_is_removed_and_skipped() {
    let mut registry: Registry<u32> = Registry::new(false);
    let mut s = Session::open(&mut registry, peer(1), 1);
    registry.register(peer(2), 2);
    let mut reader = UnitReader::new(Framing::Line { max_length: usize::MAX });
    reader.feed(ReadOutcome::Failed(IoFailure::ConnectionReset));
    assert_eq!(s.step(merge(None, Some(reader.next_unit()))), Action::Finish);
    assert!(s.close(&mut registry));
    assert!(!registry.contains(&peer(1)));
    let queues: Vec<u32> =
        registry.broadcast_targets().into_iter().map(|i| *registry.queue_at(i)).collect();
    assert_eq!(queues, vec![2]);
}

#[test]
fn binary_chunk_goes_to_all_peers_unchanged() {
    let chunk: Vec<u8> = (0..70000u32).map(|i| (i * 7) as u8).collect();
    let mut registry: Registry<u32> = Registry::new(false);
    registry.register(peer(1), 1);
    registry.register(peer(2), 2);
    let mut out = UnitReader::new(Framing::Binary);
    out.feed(ReadOutcome::Data(chunk.clone()));
    let unit = match relay_action(out.next_unit()) {
        RelayAction::Broadcast(u) => u,
        other => panic!("expected a broadcast, got {:?}", other),
    };
    assert_eq!(registry.broadcast_targets(), vec![0, 1]);
    assert_eq!(encode_unit(&unit), chunk);
}

#[test]
fn echo_skips_the_sender_in_a_session() {
    let mut registry: Registry<u32> = Registry::new(true);
    registry.register(peer(1), 1);
    registry.register(peer(2), 2);
    registry.register(peer(3), 3);
    let queues: Vec<u32> =
        registry.echo_targets(&peer(2), true).into_iter().map(|i| *registry.queue_at(i)).collect();
    assert_eq!(queues, vec![1, 3]);
}

#[test]
fn exit_status_follows_the_process() {
    assert_eq!(exit_status(Some(3)), 3);
    assert_eq!(exit_status(Some(0)), 0);
    assert_eq!(exit_status(None), 126);
    assert_eq!(FALLBACK_EXIT_CODE, 126);
}

#[test]
fn open_registers_and_close_deregisters() {
    let mut registry: Registry<u32> = Registry::new(true);
    let s = Session::open(&mut registry, ConnectionId::Terminal, 7);
    assert!(s.is_open());
    assert_eq!(s.id(), ConnectionId::Terminal);
    assert!(registry.contains(&ConnectionId::Terminal));
    assert_eq!(*registry.queue_at(0), 7);
    assert!(s.close(&mut registry));
    assert_eq!(registry.len(), 0);
    assert!(registry.echo());
}

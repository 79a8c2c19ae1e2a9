use console_relay::framing::{
    encode_unit, Decoded, FrameError, Framing, IoFailure, ReadOutcome, Unit, UnitReader,
};
use console_relay::lines::encode_line;

fn line_reader() -> UnitReader {
    UnitReader::new(Framing::Line { max_length: usize::MAX })
}

fn text(s: &str) -> Decoded {
    Decoded::Unit(Unit::Text(s.to_string()))
}

#[test]
fn ping_is_written_with_its_terminator() {
    assert_eq!(encode_unit(&Unit::Text("ping".to_string())), b"ping\n".to_vec());
    assert_eq!(encode_line("ping"), b"ping\n".to_vec());
}

#[test]
fn empty_line_is_only_the_terminator() {
    assert_eq!(encode_line(""), b"\n".to_vec());
}

#[test]
fn pong_from_the_process_is_one_unit() {
    let mut r = line_reader();
    r.feed(ReadOutcome::Data(b"pong\n".to_vec()));
    assert_eq!(r.next_unit(), text("pong"));
    assert_eq!(r.next_unit(), Decoded::NeedMore);
}

#[test]
fn line_round_trip_keeps_the_text() {
    let sent = "h\u{e9}llo w\u{f6}rld \u{1f600}";
    let wire = encode_line(sent);
    let mut r = UnitReader::new(Framing::Line { max_length: wire.len() - 1 });
    r.feed(ReadOutcome::Data(wire));
    assert_eq!(r.next_unit(), text(sent));
}

#[test]
fn line_over_the_limit_is_an_error() {
    let mut r = UnitReader::new(Framing::Line { max_length: 4 });
    r.feed(ReadOutcome::Data(b"hello\n".to_vec()));
    assert_eq!(r.next_unit(), Decoded::Failed(FrameError::LineTooLong));
}

#[test]
fn line_at_the_limit_is_accepted() {
    let mut r = UnitReader::new(Framing::Line { max_length: 4 });
    r.feed(ReadOutcome::Data(b"hell\n".to_vec()));
    assert_eq!(r.next_unit(), text("hell"));
}

#[test]
fn unterminated_line_past_the_limit_is_an_error() {
    let mut r = UnitReader::new(Framing::Line { max_length: 4 });
    r.feed(ReadOutcome::Data(b"hell".to_vec()));
    assert_eq!(r.next_unit(), Decoded::NeedMore);
    r.feed(ReadOutcome::Data(b"o".to_vec()));
    assert_eq!(r.next_unit(), Decoded::Failed(FrameError::LineTooLong));
}

#[test]
fn carriage_return_before_newline_is_dropped() {
    let mut r = line_reader();
    r.feed(ReadOutcome::Data(b"a\r\n".to_vec()));
    assert_eq!(r.next_unit(), text("a"));
}

#[test]
fn invalid_utf8_is_an_error() {
    let mut r = line_reader();
    r.feed(ReadOutcome::Data(vec![0xff, b'\n']));
    assert_eq!(r.next_unit(), Decoded::Failed(FrameError::InvalidUtf8));
}

#[test]
fn one_read_may_hold_several_lines() {
    let mut r = line_reader();
    r.feed(ReadOutcome::Data(b"a\nb\nc".to_vec()));
    assert_eq!(r.next_unit(), text("a"));
    assert_eq!(r.next_unit(), text("b"));
    assert_eq!(r.next_unit(), Decoded::NeedMore);
}

#[test]
fn a_line_may_span_several_reads() {
    let mut r = line_reader();
    r.feed(ReadOutcome::Data(b"pi".to_vec()));
    assert_eq!(r.next_unit(), Decoded::NeedMore);
    assert!(r.wants_input());
    r.feed(ReadOutcome::Data(b"ng\n".to_vec()));
    assert_eq!(r.next_unit(), text("ping"));
}

#[test]
fn last_line_without_terminator_comes_out_at_the_end() {
    let mut r = line_reader();
    r.feed(ReadOutcome::Data(b"tail\r".to_vec()));
    assert_eq!(r.next_unit(), Decoded::NeedMore);
    r.feed(ReadOutcome::Data(Vec::new()));
    assert!(!r.wants_input());
    assert_eq!(r.next_unit(), text("tail"));
    assert_eq!(r.next_unit(), Decoded::End);
}

#[test]
fn lone_carriage_return_at_the_end_is_no_line() {
    let mut r = line_reader();
    r.feed(ReadOutcome::Data(b"\r".to_vec()));
    assert_eq!(r.next_unit(), Decoded::NeedMore);
    r.feed(ReadOutcome::Data(Vec::new()));
    assert_eq!(r.next_unit(), Decoded::End);
}

#[test]
fn reset_and_broken_pipe_end_the_stream() {
    for kind in [IoFailure::ConnectionReset, IoFailure::BrokenPipe] {
        let mut r = line_reader();
        r.feed(ReadOutcome::Failed(kind));
        assert_eq!(r.next_unit(), Decoded::End);
        let mut b = UnitReader::new(Framing::Binary);
        b.feed(ReadOutcome::Failed(kind));
        assert_eq!(b.next_unit(), Decoded::End);
    }
}

#[test]
fn other_read_failures_are_errors() {
    let mut r = line_reader();
    r.feed(ReadOutcome::Failed(IoFailure::Other));
    assert_eq!(r.next_unit(), Decoded::Failed(FrameError::Io));
    let mut b = UnitReader::new(Framing::Binary);
    b.feed(ReadOutcome::Failed(IoFailure::Other));
    assert_eq!(b.next_unit(), Decoded::Failed(FrameError::Io));
}

#[test]
fn complete_lines_come_out_before_a_read_failure() {
    let mut r = line_reader();
    r.feed(ReadOutcome::Data(b"x\n".to_vec()));
    r.feed(ReadOutcome::Failed(IoFailure::Other));
    assert_eq!(r.next_unit(), text("x"));
    assert_eq!(r.next_unit(), Decoded::Failed(FrameError::Io));
}

#[test]
fn binary_chunk_of_70000_bytes_is_one_unit() {
    let chunk: Vec<u8> = (0..70000u32).map(|i| (i % 251) as u8).collect();
    let mut r = UnitReader::new(Framing::Binary);
    r.feed(ReadOutcome::Data(chunk.clone()));
    assert!(!r.wants_input());
    match r.next_unit() {
        Decoded::Unit(Unit::Bytes(b)) => {
            assert_eq!(b.len(), 70000);
            assert_eq!(b, chunk);
        }
        other => panic!("expected one chunk, got {:?}", other),
    }
    assert!(r.wants_input());
    assert_eq!(r.next_unit(), Decoded::NeedMore);
}

#[test]
fn binary_units_are_written_verbatim() {
    let bytes = vec![0u8, 10, 13, 255];
    assert_eq!(encode_unit(&Unit::Bytes(bytes.clone())), bytes);
}

#[test]
fn binary_empty_read_is_the_end() {
    let mut r = UnitReader::new(Framing::Binary);
    r.feed(ReadOutcome::Data(Vec::new()));
    assert_eq!(r.next_unit(), Decoded::End);
}

#[test]
fn disconnect_kinds() {
    assert!(IoFailure::BrokenPipe.is_disconnect());
    assert!(IoFailure::ConnectionReset.is_disconnect());
    assert!(!IoFailure::Other.is_disconnect());
}

use vstd::prelude::*;
use vstd::utf8::*;
use crate::lines::{
    codec_decode_last_line, codec_decode_line, encode_line, lemma_last_byte,
    lemma_newline_index_of_record, lemma_no_newline_bytes, line_step, line_step_at_end, line_wire,
    without_carriage_return,
};

verus! {

/// Why a byte stream could not be turned into units.
#[derive(Clone, Copy, Debug, PartialEq, Eq, Structural)]
pub enum FrameError {
    /// A line grew past the maximum length before its terminator came.
    LineTooLong,
    /// A line's bytes are not UTF-8.
    InvalidUtf8,
    /// The underlying stream failed for another reason than a disconnect.
    Io,
}

/// One unit of data: a line of text in line mode, a chunk of bytes in
/// binary mode.
#[derive(Clone, Debug, PartialEq, Eq)]
pub enum Unit {
    Text(String),
    Bytes(Vec<u8>),
}

/// A unit as a specification sees it.
pub enum UnitView {
    Text(Seq<char>),
    Bytes(Seq<u8>),
}

impl View for Unit {
    type V = UnitView;

    open spec fn view(&self) -> UnitView {
        match self {
            Unit::Text(s) => UnitView::Text(s@),
            Unit::Bytes(b) => UnitView::Bytes(b@),
        }
    }
}

/// The bytes written for a unit: a line and its terminator, or a chunk as it is.
pub open spec fn unit_wire(u: UnitView) -> Seq<u8> {
    match u {
        UnitView::Text(t) => line_wire(t),
        UnitView::Bytes(b) => b,
    }
}

/// Encodes a unit for a byte stream: line mode appends the terminator,
/// binary mode writes the bytes with no framing.
pub fn encode_unit(unit: &Unit) -> (r: Vec<u8>)
    ensures
        r@ == unit_wire(unit@),
{
    match unit {
        Unit::Text(s) => encode_line(s.as_str()),
        Unit::Bytes(b) => {
            let out = b.clone();
            proof {
                assert(out@ =~= b@);
            }
            out
        },
    }
}

/// How a byte stream is cut into units.
#[derive(Clone, Copy, Debug, PartialEq, Eq, Structural)]
pub enum Framing {
    /// Newline-delimited UTF-8 text, each line at most `max_length` bytes.
    Line { max_length: usize },
    /// Raw chunks, one unit per read.
    Binary,
}

/// The kind of an I/O failure, as far as framing cares.
#[derive(Clone, Copy, Debug, PartialEq, Eq, Structural)]
pub enum IoFailure {
    BrokenPipe,
    ConnectionReset,
    Other,
}

impl IoFailure {
    /// A broken pipe or a reset connection: the peer has gone away.
    pub open spec fn spec_is_disconnect(self) -> bool {
        self == IoFailure::BrokenPipe || self == IoFailure::ConnectionReset
    }

    /// Tells an ordinary disconnection from a failure worth reporting.
    #[verifier::when_used_as_spec(spec_is_disconnect)]
    pub fn is_disconnect(self) -> (r: bool)
        ensures
            r == self.spec_is_disconnect(),
    {
        match self {
            IoFailure::BrokenPipe => true,
            IoFailure::ConnectionReset => true,
            IoFailure::Other => false,
        }
    }
}

/// What one read on a byte stream gave: bytes (none at its end) or a failure.
#[derive(Clone, Debug, PartialEq, Eq)]
pub enum ReadOutcome {
    Data(Vec<u8>),
    Failed(IoFailure),
}

/// A read outcome as a specification sees it.
pub enum ReadView {
    Data(Seq<u8>),
    Failed(IoFailure),
}

impl View for ReadOutcome {
    type V = ReadView;

    open spec fn view(&self) -> ReadView {
        match self {
            ReadOutcome::Data(b) => ReadView::Data(b@),
            ReadOutcome::Failed(k) => ReadView::Failed(*k),
        }
    }
}

/// Where the byte stream under a reader stands.
#[derive(Clone, Copy, Debug, PartialEq, Eq, Structural)]
pub enum InputState {
    /// More bytes may come.
    Open,
    /// The stream ended, or the peer went away.
    Ended,
    /// The stream failed.
    Broken,
}

/// What a reader hands out next.
#[derive(Clone, Debug, PartialEq, Eq)]
pub enum Decoded {
    Unit(Unit),
    /// No unit yet: the reader wants the outcome of another read.
    NeedMore,
    /// The stream is over.
    End,
    Failed(FrameError),
}

/// A decoding result as a specification sees it.
pub enum DecodedView {
    Unit(UnitView),
    NeedMore,
    End,
    Failed(FrameError),
}

impl View for Decoded {
    type V = DecodedView;

    open spec fn view(&self) -> DecodedView {
        match self {
            Decoded::Unit(u) => DecodedView::Unit(u@),
            Decoded::NeedMore => DecodedView::NeedMore,
            Decoded::End => DecodedView::End,
            Decoded::Failed(e) => DecodedView::Failed(*e),
        }
    }
}

/// The state of a reader: its framing, the bytes read and not yet handed
/// out, and where its stream stands.
pub struct ReaderView {
    pub framing: Framing,
    pub pending: Seq<u8>,
    pub input: InputState,
}

/// The state after one read outcome has been taken in. An empty read is the
/// end of the stream; a disconnect is an end too, not a failure.
pub open spec fn after_read(v: ReaderView, outcome: ReadView) -> ReaderView {
    match outcome {
        ReadView::Data(b) => if b.len() == 0 {
            ReaderView { input: InputState::Ended, ..v }
        } else {
            ReaderView { pending: v.pending + b, ..v }
        },
        ReadView::Failed(k) => if k.spec_is_disconnect() {
            ReaderView { input: InputState::Ended, ..v }
        } else {
            ReaderView { input: InputState::Broken, ..v }
        },
    }
}

/// A line decoding result as a reader hands it out; `none` is what it
/// hands out where no line was found.
pub open spec fn line_frame(r: Result<Option<Seq<char>>, FrameError>, none: DecodedView) -> DecodedView {
    match r {
        Ok(Some(t)) => DecodedView::Unit(UnitView::Text(t)),
        Ok(None) => none,
        Err(e) => DecodedView::Failed(e),
    }
}

/// What a reader hands out next, and its state afterwards.
pub open spec fn next_frame(v: ReaderView) -> (DecodedView, ReaderView) {
    match v.framing {
        Framing::Line { max_length } => {
            if v.input == InputState::Ended {
                let (r, rest) = line_step_at_end(v.pending, max_length);
                (line_frame(r, DecodedView::End), ReaderView { pending: rest, ..v })
            } else {
                let (r, rest) = line_step(v.pending, max_length);
                let none = if v.input == InputState::Open {
                    DecodedView::NeedMore
                } else {
                    DecodedView::Failed(FrameError::Io)
                };
                (line_frame(r, none), ReaderView { pending: rest, ..v })
            }
        },
        Framing::Binary => {
            if v.pending.len() > 0 {
                (DecodedView::Unit(UnitView::Bytes(v.pending)), ReaderView { pending: Seq::empty(), ..v })
            } else {
                let frame = match v.input {
                    InputState::Open => DecodedView::NeedMore,
                    InputState::Ended => DecodedView::End,
                    InputState::Broken => DecodedView::Failed(FrameError::Io),
                };
                (frame, v)
            }
        },
    }
}

/// Turns the outcomes of reads on one byte stream into units.
pub struct UnitReader {
    framing: Framing,
    pending: Vec<u8>,
    input: InputState,
}

impl View for UnitReader {
    type V = ReaderView;

    closed spec fn view(&self) -> ReaderView {
        ReaderView { framing: self.framing, pending: self.pending@, input: self.input }
    }
}

impl UnitReader {
    /// A reader over a stream that has produced nothing yet.
    pub fn new(framing: Framing) -> (r: UnitReader)
        ensures
            r@ == (ReaderView { framing, pending: Seq::empty(), input: InputState::Open }),
    {
        UnitReader { framing, pending: Vec::new(), input: InputState::Open }
    }

    /// Whether the reader takes another read: its stream is open, and in
    /// binary mode the last chunk has been handed out, so that each read
    /// stays one unit.
    pub open spec fn spec_wants_input(v: ReaderView) -> bool {
        v.input == InputState::Open && (v.framing == Framing::Binary ==> v.pending.len() == 0)
    }

    /// Whether the reader takes another read.
    pub fn wants_input(&self) -> (r: bool)
        ensures
            r == Self::spec_wants_input(self@),
    {
        match self.input {
            InputState::Open => match self.framing {
                Framing::Binary => self.pending.len() == 0,
                Framing::Line { .. } => true,
            },
            _ => false,
        }
    }

    /// Takes in the outcome of one read on the stream.
    pub fn feed(&mut self, outcome: ReadOutcome)
        requires
            Self::spec_wants_input(old(self)@),
        ensures
            final(self)@ == after_read(old(self)@, outcome@),
    {
        match outcome {
            ReadOutcome::Data(mut b) => {
                if b.len() == 0 {
                    self.input = InputState::Ended;
                } else {
                    self.pending.append(&mut b);
                }
            },
            ReadOutcome::Failed(k) => {
                if k.is_disconnect() {
                    self.input = InputState::Ended;
                } else {
                    self.input = InputState::Broken;
                }
            },
        }
    }

    /// Hands out the next unit, or says why there is none.
    pub fn next_unit(&mut self) -> (r: Decoded)
        ensures
            (r@, final(self)@) == next_frame(old(self)@),
    {
        match self.framing {
            Framing::Line { max_length } => {
                let r = match self.input {
                    InputState::Ended => codec_decode_last_line(&mut self.pending, max_length),
                    _ => codec_decode_line(&mut self.pending, max_length),
                };
                match r {
                    Ok(Some(s)) => Decoded::Unit(Unit::Text(s)),
                    Ok(None) => match self.input {
                        InputState::Open => Decoded::NeedMore,
                        InputState::Ended => Decoded::End,
                        InputState::Broken => Decoded::Failed(FrameError::Io),
                    },
                    Err(e) => Decoded::Failed(e),
                }
            },
            Framing::Binary => {
                if self.pending.len() > 0 {
                    let mut chunk: Vec<u8> = Vec::new();
                    std::mem::swap(&mut chunk, &mut self.pending);
                    Decoded::Unit(Unit::Bytes(chunk))
                } else {
                    match self.input {
                        InputState::Open => Decoded::NeedMore,
                        InputState::Ended => Decoded::End,
                        InputState::Broken => Decoded::Failed(FrameError::Io),
                    }
                }
            },
        }
    }
}

/// Round trip in line mode: the record written for a text that holds no
/// newline, does not end in a carriage return and whose bytes fit the
/// maximum length decodes to that same text, and nothing of the record stays
/// behind; a reader fed the record hands the text out. A text whose bytes
/// are longer than the maximum gives `LineTooLong` and no line at all.
pub proof fn lemma_line_round_trip(text: Seq<char>, max_length: usize)
    requires
        forall|i: int| 0 <= i < text.len() ==> text[i] != '\n',
    ensures
        encode_utf8(text).len() <= max_length && (text.len() == 0 || text.last() != '\r') ==> {
            &&& line_step(line_wire(text), max_length) == (
                Ok::<Option<Seq<char>>, FrameError>(Some(text)),
                Seq::<u8>::empty(),
            )
            &&& next_frame(
                after_read(
                    ReaderView {
                        framing: Framing::Line { max_length },
                        pending: Seq::empty(),
                        input: InputState::Open,
                    },
                    ReadView::Data(line_wire(text)),
                ),
            ).0 == DecodedView::Unit(UnitView::Text(text))
        },
        encode_utf8(text).len() > max_length ==> line_step(line_wire(text), max_length) == (
            Err::<Option<Seq<char>>, FrameError>(FrameError::LineTooLong),
            line_wire(text),
        ),
{
    broadcast use encode_utf8_valid_utf8, encode_utf8_decode_utf8;

    let bytes = encode_utf8(text);
    let wire = line_wire(text);
    lemma_no_newline_bytes(text);
    lemma_newline_index_of_record(bytes);
    assert(wire.take(bytes.len() as int) =~= bytes);
    assert(wire.skip(bytes.len() + 1 as int) =~= Seq::<u8>::empty());
    if text.len() > 0 {
        lemma_last_byte(text);
    } else {
        assert(bytes =~= Seq::<u8>::empty());
    }
    if text.len() == 0 || text.last() != '\r' {
        assert(without_carriage_return(bytes) == bytes);
    }
    assert(Seq::<u8>::empty() + wire =~= wire);
}

} // verus!

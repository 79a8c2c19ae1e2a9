use vstd::prelude::*;
use vstd::utf8::*;
use bytes::BytesMut;
use tokio_util::codec::{Decoder, Encoder, LinesCodec, LinesCodecError};
use crate::framing::FrameError;

verus! {

/// The byte that ends a record in line mode.
pub const NEWLINE: u8 = 10;

/// The byte that an incoming line may carry just before its terminator.
pub const CARRIAGE_RETURN: u8 = 13;

/// The bytes written for one line of text: its UTF-8 encoding and the terminator.
pub open spec fn line_wire(text: Seq<char>) -> Seq<u8> {
    encode_utf8(text).push(NEWLINE)
}

/// Index of the first newline in `b`, or `b.len()` when it holds none.
pub open spec fn newline_index(b: Seq<u8>) -> int
    decreases b.len(),
{
    if b.len() == 0 {
        0
    } else if b[0] == NEWLINE {
        0
    } else {
        1 + newline_index(b.drop_first())
    }
}

/// A line's bytes without one trailing carriage return, if it has one.
pub open spec fn without_carriage_return(b: Seq<u8>) -> Seq<u8> {
    if b.len() > 0 && b.last() == CARRIAGE_RETURN {
        b.drop_last()
    } else {
        b
    }
}

/// The text of a line whose terminator has been taken off.
pub open spec fn line_text(b: Seq<u8>) -> Result<Option<Seq<char>>, FrameError> {
    let line = without_carriage_return(b);
    if valid_utf8(line) {
        Ok(Some(decode_utf8(line)))
    } else {
        Err(FrameError::InvalidUtf8)
    }
}

/// One decoding step on buffer `b` with the given maximum line length:
/// the line found, if any, and what stays in the buffer.
pub open spec fn line_step(b: Seq<u8>, max_length: usize) -> (
    Result<Option<Seq<char>>, FrameError>,
    Seq<u8>,
) {
    let i = newline_index(b);
    if i < b.len() && i <= max_length {
        (line_text(b.take(i)), b.skip(i + 1))
    } else if b.len() > max_length {
        (Err(FrameError::LineTooLong), b)
    } else {
        (Ok(None), b)
    }
}

/// A decoding step once the stream has ended: a last line without a
/// terminator is still a line, unless it is empty or a lone carriage return.
pub open spec fn line_step_at_end(b: Seq<u8>, max_length: usize) -> (
    Result<Option<Seq<char>>, FrameError>,
    Seq<u8>,
) {
    let (r, rest) = line_step(b, max_length);
    if r == Ok::<Option<Seq<char>>, FrameError>(None) && rest.len() != 0 && rest != seq![
        CARRIAGE_RETURN,
    ] {
        (line_text(rest), Seq::empty())
    } else {
        (r, rest)
    }
}

/// What a decoded line looks like to a specification.
pub open spec fn line_view(r: Result<Option<String>, FrameError>) -> Result<
    Option<Seq<char>>,
    FrameError,
> {
    match r {
        Ok(Some(s)) => Ok(Some(s@)),
        Ok(None) => Ok(None),
        Err(e) => Err(e),
    }
}

/// Relies on `LinesCodec::encode` of tokio-util: it appends the line's
/// bytes and one newline to the buffer, and never fails.
#[verifier::external_body]
fn codec_encode_line(line: &str) -> (r: Vec<u8>)
    ensures
        r@ == line_wire(line@),
{
    let mut buf = BytesMut::new();
    let _ = LinesCodec::new().encode(line, &mut buf);
    buf.to_vec()
}

/// Relies on `LinesCodec::decode` of tokio-util, on a codec fresh from
/// `LinesCodec::new_with_max_length`: it looks for a newline among the first
/// `max_length + 1` bytes, takes the line and its newline off the buffer, and
/// drops one carriage return before the newline; with no newline there it
/// fails once the buffer holds more than `max_length` bytes. A line that is
/// not UTF-8 is reported through its `Io` variant, the only cause of that
/// variant in `decode`.
#[verifier::external_body]
pub(crate) fn codec_decode_line(buf: &mut Vec<u8>, max_length: usize) -> (r: Result<Option<String>, FrameError>)
    ensures
        (line_view(r), final(buf)@) == line_step(old(buf)@, max_length),
{
    let mut bytes = BytesMut::from(&buf[..]);
    let r = LinesCodec::new_with_max_length(max_length).decode(&mut bytes);
    *buf = bytes.to_vec();
    match r {
        Ok(line) => Ok(line),
        Err(LinesCodecError::MaxLineLengthExceeded) => Err(FrameError::LineTooLong),
        Err(LinesCodecError::Io(_)) => Err(FrameError::InvalidUtf8),
    }
}

/// Relies on `LinesCodec::decode_eof` of tokio-util, on a codec fresh from
/// `LinesCodec::new_with_max_length`: it decodes as `decode` does, and where
/// that finds no line it takes the whole rest of the buffer as the last line,
/// unless the rest is empty or a single carriage return.
#[verifier::external_body]
pub(crate) fn codec_decode_last_line(buf: &mut Vec<u8>, max_length: usize) -> (r: Result<Option<String>, FrameError>)
    ensures
        (line_view(r), final(buf)@) == line_step_at_end(old(buf)@, max_length),
{
    let mut bytes = BytesMut::from(&buf[..]);
    let r = LinesCodec::new_with_max_length(max_length).decode_eof(&mut bytes);
    *buf = bytes.to_vec();
    match r {
        Ok(line) => Ok(line),
        Err(LinesCodecError::MaxLineLengthExceeded) => Err(FrameError::LineTooLong),
        Err(LinesCodecError::Io(_)) => Err(FrameError::InvalidUtf8),
    }
}

/// Encodes a line of text for the process's input or a peer.
pub fn encode_line(line: &str) -> (r: Vec<u8>)
    ensures
        r@ == line_wire(line@),
{
    codec_encode_line(line)
}

/// Setting bits over a byte whose top bit is set keeps it set.
proof fn lemma_high_bit_kept(x: u8, high: u8)
    requires
        high >= 0x80,
    ensures
        (high | x) >= 0x80,
{
    assert((high | x) >= 0x80) by (bit_vector)
        requires
            high >= 0x80,
    ;
}

/// The bytes of one character hold a newline only if it is a newline, and
/// end in a carriage return only if it is one.
proof fn lemma_char_bytes(c: char)
    ensures
        encode_scalar(c as u32).len() > 0,
        forall|k: int|
            0 <= k < encode_scalar(c as u32).len() && #[trigger] encode_scalar(c as u32)[k]
                == NEWLINE ==> c == '\n',
        encode_scalar(c as u32).last() == CARRIAGE_RETURN ==> c == '\r',
{
    let v = c as u32;
    if has_width_1_encoding(v) {
        assert((v & 0x7F) == v) by (bit_vector)
            requires
                v <= 0x7F,
        ;
    } else if has_width_2_encoding(v) {
        lemma_high_bit_kept(((v >> 6) & 0x1F) as u8, 0xC0);
        lemma_high_bit_kept((v & 0x3F) as u8, 0x80);
    } else if has_width_3_encoding(v) {
        lemma_high_bit_kept(((v >> 12) & 0x0F) as u8, 0xE0);
        lemma_high_bit_kept(((v >> 6) & 0x3F) as u8, 0x80);
        lemma_high_bit_kept((v & 0x3F) as u8, 0x80);
    } else {
        lemma_high_bit_kept(((v >> 18) & 0x7) as u8, 0xF0);
        lemma_high_bit_kept(((v >> 12) & 0x3F) as u8, 0x80);
        lemma_high_bit_kept(((v >> 6) & 0x3F) as u8, 0x80);
        lemma_high_bit_kept((v & 0x3F) as u8, 0x80);
    }
}

/// A text without newlines encodes to bytes without newlines.
pub(crate) proof fn lemma_no_newline_bytes(text: Seq<char>)
    requires
        forall|i: int| 0 <= i < text.len() ==> text[i] != '\n',
    ensures
        forall|k: int| 0 <= k < encode_utf8(text).len() ==> encode_utf8(text)[k] != NEWLINE,
    decreases text.len(),
{
    if text.len() > 0 {
        let head = encode_scalar(text[0] as u32);
        let rest = text.drop_first();
        lemma_char_bytes(text[0]);
        lemma_no_newline_bytes(rest);
        assert forall|k: int| 0 <= k < encode_utf8(text).len() implies encode_utf8(text)[k]
            != NEWLINE by {
            if k >= head.len() {
                assert(encode_utf8(text)[k] == encode_utf8(rest)[k - head.len()]);
            } else {
                assert(encode_utf8(text)[k] == head[k]);
            }
        }
    }
}

/// A non-empty text encodes to non-empty bytes, whose last byte is a
/// carriage return only if the text ends in one.
pub(crate) proof fn lemma_last_byte(text: Seq<char>)
    requires
        text.len() > 0,
    ensures
        encode_utf8(text).len() > 0,
        encode_utf8(text).last() == CARRIAGE_RETURN ==> text.last() == '\r',
    decreases text.len(),
{
    let head = encode_scalar(text[0] as u32);
    let rest = text.drop_first();
    lemma_char_bytes(text[0]);
    if rest.len() > 0 {
        lemma_last_byte(rest);
        assert(encode_utf8(text).last() == encode_utf8(rest).last());
        assert(rest.last() == text.last());
    } else {
        assert(encode_utf8(rest) =~= Seq::<u8>::empty());
        assert(encode_utf8(text) =~= head);
    }
}

/// The first newline of a record is its terminator.
pub(crate) proof fn lemma_newline_index_of_record(b: Seq<u8>)
    requires
        forall|k: int| 0 <= k < b.len() ==> b[k] != NEWLINE,
    ensures
        newline_index(b.push(NEWLINE)) == b.len(),
    decreases b.len(),
{
    if b.len() > 0 {
        assert(b.push(NEWLINE).drop_first() =~= b.drop_first().push(NEWLINE));
        lemma_newline_index_of_record(b.drop_first());
    }
}

} // verus!

//! The wire frame: a topic and a payload, each behind its own length prefix.
//!
//! ```text
//! u16 topic_length      (big-endian)
//! topic_length bytes    (UTF-8)
//! u32 payload_length    (big-endian)
//! payload_length bytes
//! ```

use vstd::prelude::*;
use vstd::string::StringSliceAdditionalSpecFns;
use vstd::utf8::*;

verus! {

/// Number of values a `u16` length prefix can tell apart.
pub const TOPIC_LENGTH_SPAN: u64 = 0x1_0000;

/// Number of values a `u32` length prefix can tell apart.
pub const PAYLOAD_LENGTH_SPAN: u64 = 0x1_0000_0000;

/// True when both lengths fit their prefixes, so that the frame tells them.
pub open spec fn fits(topic: Seq<u8>, payload: Seq<u8>) -> bool {
    topic.len() < TOPIC_LENGTH_SPAN && payload.len() < PAYLOAD_LENGTH_SPAN
}

/// The part of a frame that a short buffer fails to deliver.
#[derive(Debug, Clone, Copy, PartialEq, Eq, Structural)]
pub enum FramePart {
    /// The two bytes of the topic length.
    TopicLength,
    /// The topic bytes announced by the topic length.
    Topic,
    /// The four bytes of the payload length.
    PayloadLength,
    /// The payload bytes announced by the payload length.
    Payload,
}

/// Why a buffer is not a frame.
#[derive(Debug, Clone, Copy, PartialEq, Eq, Structural)]
pub enum FrameError {
    /// The buffer ends before `part` does: `expected` bytes are needed from
    /// the start of the buffer to the end of `part`, `got` are there.
    Malformed { part: FramePart, expected: u64, got: u64 },
    /// The topic bytes are all there but are not UTF-8.
    InvalidUtf8,
}

impl FrameError {
    /// How many bytes the buffer lacks; zero where the length is not the problem.
    pub open spec fn spec_missing(self) -> int {
        match self {
            FrameError::Malformed { expected, got, .. } => if expected >= got {
                expected - got
            } else {
                0
            },
            FrameError::InvalidUtf8 => 0,
        }
    }

    /// How many bytes the buffer lacks; zero where the length is not the problem.
    pub fn missing(&self) -> (n: u64)
        ensures
            n == self.spec_missing(),
    {
        match self {
            FrameError::Malformed { expected, got, .. } => if *expected >= *got {
                *expected - *got
            } else {
                0
            },
            FrameError::InvalidUtf8 => 0,
        }
    }
}

/// The two bytes that stand for `n`, most significant first. Only `n` modulo
/// 2^16 is kept.
pub open spec fn be16(n: int) -> Seq<u8> {
    seq![((n / 0x100) % 0x100) as u8, (n % 0x100) as u8]
}

/// The four bytes that stand for `n`, most significant first. Only `n` modulo
/// 2^32 is kept.
pub open spec fn be32(n: int) -> Seq<u8> {
    seq![
        ((n / 0x100_0000) % 0x100) as u8,
        ((n / 0x1_0000) % 0x100) as u8,
        ((n / 0x100) % 0x100) as u8,
        (n % 0x100) as u8,
    ]
}

/// The number that the two bytes at `at` stand for.
pub open spec fn read_be16(buf: Seq<u8>, at: int) -> int {
    buf[at] as int * 0x100 + buf[at + 1] as int
}

/// The number that the four bytes at `at` stand for.
pub open spec fn read_be32(buf: Seq<u8>, at: int) -> int {
    buf[at] as int * 0x100_0000 + buf[at + 1] as int * 0x1_0000 + buf[at + 2] as int * 0x100
        + buf[at + 3] as int
}

/// The frame of a topic, given by its UTF-8 bytes, and a payload.
///
/// A length prefix holds the length modulo its span: a topic of 2^16 bytes or
/// more, or a payload of 2^32 bytes or more, is written out in full behind a
/// prefix that no longer tells its length.
pub open spec fn frame_bytes(topic: Seq<u8>, payload: Seq<u8>) -> Seq<u8> {
    be16(topic.len() as int) + topic + be32(payload.len() as int) + payload
}

/// What a buffer decodes to: the topic and the payload, or the first
/// check that fails, in the order topic length, topic, topic encoding,
/// payload length, payload. Bytes behind the payload are not looked at.
pub open spec fn parse(buf: Seq<u8>) -> Result<(Seq<char>, Seq<u8>), FrameError> {
    let got = buf.len() as u64;
    if buf.len() < 2 {
        Err(FrameError::Malformed { part: FramePart::TopicLength, expected: 2, got })
    } else {
        let topic_end = 2 + read_be16(buf, 0);
        if buf.len() < topic_end {
            Err(FrameError::Malformed { part: FramePart::Topic, expected: topic_end as u64, got })
        } else if !valid_utf8(buf.subrange(2, topic_end)) {
            Err(FrameError::InvalidUtf8)
        } else if buf.len() < topic_end + 4 {
            Err(
                FrameError::Malformed {
                    part: FramePart::PayloadLength,
                    expected: (topic_end + 4) as u64,
                    got,
                },
            )
        } else {
            let payload_start = topic_end + 4;
            let payload_end = payload_start + read_be32(buf, topic_end);
            if buf.len() < payload_end {
                Err(
                    FrameError::Malformed {
                        part: FramePart::Payload,
                        expected: payload_end as u64,
                        got,
                    },
                )
            } else {
                Ok((decode_utf8(buf.subrange(2, topic_end)), buf.subrange(payload_start, payload_end)))
            }
        }
    }
}

/// Appends `bytes` to `out`.
fn push_all(out: &mut Vec<u8>, bytes: &[u8])
    ensures
        final(out)@ == old(out)@ + bytes@,
{
    let mut i: usize = 0;
    while i < bytes.len()
        invariant
            i <= bytes@.len(),
            out@ == old(out)@ + bytes@.subrange(0, i as int),
        decreases bytes@.len() - i,
    {
        out.push(bytes[i]);
        i += 1;
    }
    assert(bytes@.subrange(0, i as int) == bytes@);
}

/// Checks that `bytes` are UTF-8 and hands them back as text, through
/// `std::str::from_utf8`: the text is there exactly when the bytes are valid
/// UTF-8, and it is then made of those very bytes.
#[verifier::external_body]
fn text_of<'a>(bytes: &'a [u8]) -> (text: Option<&'a str>)
    ensures
        text is Some <==> valid_utf8(bytes@),
        text matches Some(s) ==> s.spec_bytes() == bytes@,
{
    match std::str::from_utf8(bytes) {
        Ok(text) => Some(text),
        Err(_) => None,
    }
}

/// Frames `topic` and `payload`.
pub fn encode(topic: &str, payload: &[u8]) -> (frame: Vec<u8>)
    ensures
        frame@ == frame_bytes(topic.spec_bytes(), payload@),
{
    let topic_bytes = topic.as_bytes();
    let topic_len: usize = topic_bytes.len();
    let payload_len: usize = payload.len();
    let mut frame: Vec<u8> = Vec::new();
    frame.push(((topic_len / 0x100) % 0x100) as u8);
    frame.push((topic_len % 0x100) as u8);
    push_all(&mut frame, topic_bytes);
    frame.push(((payload_len / 0x100_0000) % 0x100) as u8);
    frame.push(((payload_len / 0x1_0000) % 0x100) as u8);
    frame.push(((payload_len / 0x100) % 0x100) as u8);
    frame.push((payload_len % 0x100) as u8);
    push_all(&mut frame, payload);
    assert(frame@ =~= frame_bytes(topic.spec_bytes(), payload@));
    frame
}

/// Splits a buffer into topic and payload, or says which check failed first.
pub fn decode<'a>(buf: &'a [u8]) -> (frame: Result<(&'a str, &'a [u8]), FrameError>)
    ensures
        match (frame, parse(buf@)) {
            (Ok((topic, payload)), Ok((t, p))) => topic@ == t && payload@ == p,
            (Err(e), Err(f)) => e == f,
            _ => false,
        },
{
    let len: usize = buf.len();
    let got: u64 = len as u64;
    if len < 2 {
        return Err(FrameError::Malformed { part: FramePart::TopicLength, expected: 2, got });
    }
    let topic_len: usize = (buf[0] as usize) * 0x100 + (buf[1] as usize);
    if len - 2 < topic_len {
        return Err(
            FrameError::Malformed { part: FramePart::Topic, expected: 2 + topic_len as u64, got },
        );
    }
    let topic_end: usize = 2 + topic_len;
    let topic_bytes: &[u8] = &buf[2..topic_end];
    let topic = match text_of(topic_bytes) {
        Some(topic) => topic,
        None => {
            return Err(FrameError::InvalidUtf8);
        },
    };
    if len - topic_end < 4 {
        return Err(
            FrameError::Malformed {
                part: FramePart::PayloadLength,
                expected: topic_end as u64 + 4,
                got,
            },
        );
    }
    let payload_start: usize = topic_end + 4;
    let payload_len: u64 = (buf[topic_end] as u64) * 0x100_0000 + (buf[topic_end + 1] as u64)
        * 0x1_0000 + (buf[topic_end + 2] as u64) * 0x100 + (buf[topic_end + 3] as u64);
    if ((len - payload_start) as u64) < payload_len {
        return Err(
            FrameError::Malformed {
                part: FramePart::Payload,
                expected: payload_start as u64 + payload_len,
                got,
            },
        );
    }
    let payload_end: usize = payload_start + payload_len as usize;
    let payload: &[u8] = &buf[payload_start..payload_end];
    proof {
        decode_utf8_encode_utf8(topic_bytes@);
        encode_utf8_decode_utf8(topic@);
    }
    Ok((topic, payload))
}

/// The prefixes of a frame can be read back: the two bytes at the start give
/// the topic length, the four bytes behind the topic the payload length.
pub proof fn lemma_frame_layout(topic: Seq<u8>, payload: Seq<u8>)
    requires
        fits(topic, payload),
    ensures
        frame_bytes(topic, payload).len() == 2 + topic.len() + 4 + payload.len(),
        read_be16(frame_bytes(topic, payload), 0) == topic.len(),
        read_be32(frame_bytes(topic, payload), 2 + topic.len() as int) == payload.len(),
        frame_bytes(topic, payload).subrange(2, 2 + topic.len() as int) == topic,
        frame_bytes(topic, payload).subrange(
            2 + topic.len() as int + 4,
            2 + topic.len() as int + 4 + payload.len() as int,
        ) == payload,
{
    let frame = frame_bytes(topic, payload);
    let t = topic.len() as int;
    let p = payload.len() as int;
    assert(frame.len() == 2 + t + 4 + p);
    assert(frame[0] == ((t / 0x100) % 0x100) as u8);
    assert(frame[1] == (t % 0x100) as u8);
    assert(frame[2 + t] == ((p / 0x100_0000) % 0x100) as u8);
    assert(frame[2 + t + 1] == ((p / 0x1_0000) % 0x100) as u8);
    assert(frame[2 + t + 2] == ((p / 0x100) % 0x100) as u8);
    assert(frame[2 + t + 3] == (p % 0x100) as u8);
    assert(frame.subrange(2, 2 + t) =~= topic);
    assert(frame.subrange(2 + t + 4, 2 + t + 4 + p) =~= payload);
}

/// Round trip: a frame decodes to the topic and the payload it was made of,
/// whenever both lengths fit their prefixes.
pub proof fn lemma_decode_encode(topic: Seq<char>, payload: Seq<u8>)
    requires
        fits(encode_utf8(topic), payload),
    ensures
        parse(frame_bytes(encode_utf8(topic), payload)) == Ok::<_, FrameError>((topic, payload)),
{
    let bytes = encode_utf8(topic);
    lemma_frame_layout(bytes, payload);
    encode_utf8_valid_utf8(topic);
    encode_utf8_decode_utf8(topic);
}

/// Truncation safety: every proper prefix of a frame is refused as too short,
/// and the refusal names the first part that the cut reaches and the length
/// that the buffer would need to hold that part.
pub proof fn lemma_truncated_frame(topic: Seq<char>, payload: Seq<u8>, cut: int)
    requires
        fits(encode_utf8(topic), payload),
        0 <= cut < frame_bytes(encode_utf8(topic), payload).len(),
    ensures
        parse(frame_bytes(encode_utf8(topic), payload).subrange(0, cut)) == Err::<
            (Seq<char>, Seq<u8>),
            _,
        >(
            FrameError::Malformed {
                part: if cut < 2 {
                    FramePart::TopicLength
                } else if cut < 2 + encode_utf8(topic).len() {
                    FramePart::Topic
                } else if cut < 2 + encode_utf8(topic).len() + 4 {
                    FramePart::PayloadLength
                } else {
                    FramePart::Payload
                },
                expected: if cut < 2 {
                    2u64
                } else if cut < 2 + encode_utf8(topic).len() {
                    (2 + encode_utf8(topic).len()) as u64
                } else if cut < 2 + encode_utf8(topic).len() + 4 {
                    (2 + encode_utf8(topic).len() + 4) as u64
                } else {
                    (2 + encode_utf8(topic).len() + 4 + payload.len()) as u64
                },
                got: cut as u64,
            },
        ),
{
    let bytes = encode_utf8(topic);
    let frame = frame_bytes(bytes, payload);
    let head = frame.subrange(0, cut);
    let t = bytes.len() as int;
    lemma_frame_layout(bytes, payload);
    encode_utf8_valid_utf8(topic);
    if cut >= 2 {
        assert(read_be16(head, 0) == read_be16(frame, 0));
        if cut >= 2 + t {
            assert(head.subrange(2, 2 + t) =~= frame.subrange(2, 2 + t));
            if cut >= 2 + t + 4 {
                assert(read_be32(head, 2 + t) == read_be32(frame, 2 + t));
            }
        }
    }
}

} // verus!

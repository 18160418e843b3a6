//! Chunks: how a message is cut up on the wire, and how it is put together
//! again.

use super::RtmpError;
use crate::bytes::{
    be24, be24_bytes, be32, be32_bytes, concat_assoc, le32, le32_bytes, put, put_byte,
};
use std::collections::HashMap;
use vstd::prelude::*;
use vstd::std_specs::hash::group_hash_axioms;

verus! {

broadcast use {concat_assoc, group_hash_axioms};

/// Payload bytes per chunk until the peer says otherwise.
pub const DEFAULT_CHUNK_SIZE: usize = 128;

/// The largest chunk size that is adopted.
pub const MAX_CHUNK_SIZE: usize = 65_536;

/// Chunk stream of commands.
pub const CSID_COMMAND: u32 = 3;

/// Chunk stream of video.
pub const CSID_VIDEO: u32 = 4;

/// Chunk stream of audio.
pub const CSID_AUDIO: u32 = 5;

/// Message type: the sender's new chunk size.
pub const MSG_SET_CHUNK_SIZE: u8 = 0x01;

/// Message type: audio.
pub const MSG_AUDIO: u8 = 0x08;

/// Message type: video.
pub const MSG_VIDEO: u8 = 0x09;

/// Message type: a command.
pub const MSG_COMMAND: u8 = 0x14;

/// The bytes that open a chunk: its format and its chunk stream.
pub open spec fn basic_header(fmt: int, csid: int) -> Seq<u8> {
    if csid < 64 {
        seq![(fmt % 4 * 64 + csid) as u8]
    } else if csid < 320 {
        seq![(fmt % 4 * 64) as u8, (csid - 64) as u8]
    } else {
        seq![
            (fmt % 4 * 64 + 1) as u8,
            ((csid - 64) % 0x100) as u8,
            ((csid - 64) / 0x100 % 0x100) as u8,
        ]
    }
}

/// The bytes that open a chunk.
pub fn encode_basic_header(fmt: u8, csid: u32) -> (out: Vec<u8>)
    ensures
        out@ == basic_header(fmt as int, csid as int),
{
    let high: u8 = fmt % 4 * 64;
    let out: Vec<u8> = if csid < 64 {
        vec![high + csid as u8]
    } else if csid < 320 {
        vec![high, (csid - 64) as u8]
    } else {
        let v: u32 = csid - 64;
        vec![high + 1, (v % 0x100) as u8, (v / 0x100 % 0x100) as u8]
    };
    assert(out@ =~= basic_header(fmt as int, csid as int));
    out
}

/// A message and where it belongs.
pub struct Message {
    pub csid: int,
    pub timestamp: int,
    pub msg_type: u8,
    pub stream_id: int,
    pub payload: Seq<u8>,
}

/// The header of a message's first chunk. A timestamp that does not fit in 24
/// bits follows the header in full.
#[verifier::opaque]
pub open spec fn message_header(m: Message) -> Seq<u8> {
    basic_header(0, m.csid) + be24_bytes(
        if m.timestamp >= 0xFF_FFFF {
            0xFF_FFFF
        } else {
            m.timestamp
        },
    ) + be24_bytes(m.payload.len() as int) + seq![m.msg_type] + le32_bytes(m.stream_id) + (
    if m.timestamp >= 0xFF_FFFF {
        be32_bytes(m.timestamp)
    } else {
        Seq::empty()
    })
}

/// Where a chunk that starts at `from` ends.
pub open spec fn chunk_end(payload: Seq<u8>, from: int, size: int) -> int {
    if payload.len() - from < size {
        payload.len() as int
    } else {
        from + size
    }
}

/// The chunks after the first, from payload byte `from` on.
pub open spec fn continuations(csid: int, payload: Seq<u8>, from: int, size: int) -> Seq<u8>
    decreases payload.len() - from,
{
    if from >= payload.len() || size < 1 {
        Seq::empty()
    } else {
        basic_header(3, csid) + payload.subrange(from, chunk_end(payload, from, size))
            + continuations(csid, payload, chunk_end(payload, from, size), size)
    }
}

/// A message cut into chunks of at most `size` payload bytes.
pub open spec fn message_bytes(m: Message, size: int) -> Seq<u8> {
    message_header(m) + m.payload.subrange(0, chunk_end(m.payload, 0, size)) + continuations(
        m.csid,
        m.payload,
        chunk_end(m.payload, 0, size),
        size,
    )
}

fn put_message_header(
    out: &mut Vec<u8>,
    csid: u32,
    timestamp: u32,
    msg_type: u8,
    stream_id: u32,
    payload: &[u8],
)
    ensures
        final(out)@ == old(out)@ + message_header(
            (Message {
                csid: csid as int,
                timestamp: timestamp as int,
                msg_type,
                stream_id: stream_id as int,
                payload: payload@,
            }),
        ),
{
    proof {
        reveal(message_header);
    }
    let basic: Vec<u8> = encode_basic_header(0, csid);
    put(out, basic.as_slice());
    be24(
        out,
        if timestamp >= 0xFF_FFFF {
            0xFF_FFFF
        } else {
            timestamp
        },
    );
    proof {
        crate::bytes::lemma_be24_low(payload@.len() as int);
    }
    be24(out, (payload.len() as u64 % 0x100_0000) as u32);
    put_byte(out, msg_type);
    le32(out, stream_id);
    if timestamp >= 0xFF_FFFF {
        be32(out, timestamp);
    } else {
        assert(out@ =~= out@ + Seq::<u8>::empty());
    }
}

/// Cut a message into chunks: the first carries the whole header, the others
/// only their chunk stream. A chunk size of zero counts as one.
pub fn write_chunked(
    csid: u32,
    timestamp: u32,
    msg_type: u8,
    stream_id: u32,
    payload: &[u8],
    chunk_size: usize,
) -> (out: Vec<u8>)
    ensures
        out@ == message_bytes(
            (Message {
                csid: csid as int,
                timestamp: timestamp as int,
                msg_type,
                stream_id: stream_id as int,
                payload: payload@,
            }),
            if chunk_size == 0 {
                1
            } else {
                chunk_size as int
            },
        ),
{
    let size: usize = if chunk_size == 0 {
        1
    } else {
        chunk_size
    };
    let mut out: Vec<u8> = Vec::new();
    put_message_header(&mut out, csid, timestamp, msg_type, stream_id, payload);
    let ghost head = message_header(
        (Message {
            csid: csid as int,
            timestamp: timestamp as int,
            msg_type,
            stream_id: stream_id as int,
            payload: payload@,
        }),
    );
    assert(out@ =~= head);
    let len: usize = payload.len();
    let mut offset: usize = if len < size {
        len
    } else {
        size
    };
    put(&mut out, vstd::slice::slice_subrange(payload, 0, offset));
    let ghost goal = out@ + continuations(csid as int, payload@, offset as int, size as int);
    while offset < len
        invariant
            size >= 1,
            offset <= len == payload@.len(),
            out@ + continuations(csid as int, payload@, offset as int, size as int) == goal,
        decreases len - offset,
    {
        let end: usize = if len - offset < size {
            len
        } else {
            offset + size
        };
        let basic: Vec<u8> = encode_basic_header(3, csid);
        let ghost before = out@;
        put(&mut out, basic.as_slice());
        put(&mut out, vstd::slice::slice_subrange(payload, offset, end));
        proof {
            let rest = continuations(csid as int, payload@, end as int, size as int);
            assert(before + (basic@ + payload@.subrange(offset as int, end as int) + rest)
                =~= out@ + rest);
        }
        offset = end;
    }
    assert(out@ =~= goal);
    out
}

/// What is remembered of a chunk stream's last message.
#[derive(Debug, Clone, Copy, PartialEq, Eq)]
pub struct LastHeader {
    pub timestamp: u32,
    pub msg_len: usize,
    pub msg_type: u8,
    pub stream_id: u32,
}

/// A message that has arrived in full.
#[derive(Debug, PartialEq, Eq)]
pub struct InMessage {
    pub csid: u32,
    pub timestamp: u32,
    pub msg_type: u8,
    pub stream_id: u32,
    pub payload: Vec<u8>,
}

impl View for InMessage {
    type V = Message;

    open spec fn view(&self) -> Message {
        Message {
            csid: self.csid as int,
            timestamp: self.timestamp as int,
            msg_type: self.msg_type,
            stream_id: self.stream_id as int,
            payload: self.payload@,
        }
    }
}

/// Puts messages together from the chunks they arrive in.
pub struct ChunkReader {
    in_chunk_size: usize,
    last: HashMap<u32, LastHeader>,
    partial: HashMap<u32, (LastHeader, Vec<u8>)>,
}

/// What a reader remembers between two chunks.
pub struct ReaderState {
    pub chunk_size: int,
    pub last: Map<u32, LastHeader>,
    pub partial: Map<u32, (LastHeader, Seq<u8>)>,
}

impl View for ChunkReader {
    type V = ReaderState;

    closed spec fn view(&self) -> ReaderState {
        ReaderState {
            chunk_size: self.in_chunk_size as int,
            last: self.last@,
            partial: self.partial@.map_values(|p: (LastHeader, Vec<u8>)| (p.0, p.1@)),
        }
    }
}

/// What the bytes at hand allow.
pub enum ChunkParse {
    /// The chunk is not there in full yet.
    NeedMore,
    /// The peer breaks the protocol.
    Refused(Seq<char>),
    /// A chunk of `n` bytes, and the message it completes, if it does.
    Took { n: int, state: ReaderState, message: Option<Message> },
}

/// The format, the chunk stream and the length of the bytes that open a chunk.
pub open spec fn parse_basic(b: Seq<u8>) -> Option<(int, u32, int)> {
    if b.len() < 1 {
        None
    } else {
        let fmt = b[0] as int / 64;
        let low = b[0] as int % 64;
        if low == 0 {
            if b.len() < 2 {
                None
            } else {
                Some((fmt, (b[1] + 64) as u32, 2))
            }
        } else if low == 1 {
            if b.len() < 3 {
                None
            } else {
                Some((fmt, (b[1] + b[2] * 256 + 64) as u32, 3))
            }
        } else {
            Some((fmt, low as u32, 1))
        }
    }
}

/// The 24-bit number at `at`.
pub open spec fn u24_at(b: Seq<u8>, at: int) -> int {
    b[at] * 0x1_0000 + b[at + 1] * 0x100 + b[at + 2]
}

/// The 32-bit number at `at`, most significant byte first.
pub open spec fn u32_at(b: Seq<u8>, at: int) -> int {
    b[at] * 0x100_0000 + b[at + 1] * 0x1_0000 + b[at + 2] * 0x100 + b[at + 3]
}

/// The 32-bit number at `at`, least significant byte first.
pub open spec fn u32_le_at(b: Seq<u8>, at: int) -> int {
    b[at] + b[at + 1] * 0x100 + b[at + 2] * 0x1_0000 + b[at + 3] * 0x100_0000
}

/// A chunk's message header: what it says, and where the payload begins.
pub enum HeaderParse {
    NeedMore,
    Refused(Seq<char>),
    Header(LastHeader, int),
}

/// The time a delta of `field` at `at` leads to: the field added to the last
/// time, or the full time that follows the header when the field is all ones.
pub open spec fn delta_time(b: Seq<u8>, field: int, at: int, prev: LastHeader) -> Option<(u32, int)> {
    if field == 0xFF_FFFF {
        if b.len() < at + 4 {
            None
        } else {
            Some((u32_at(b, at) as u32, at + 4))
        }
    } else {
        Some((((prev.timestamp + field) % 0x1_0000_0000) as u32, at))
    }
}

/// Read the message header of format `fmt` at `at`. Formats 1 to 3 build on
/// the last message of the chunk stream.
pub open spec fn parse_header(b: Seq<u8>, fmt: int, at: int, prev: Option<LastHeader>) -> HeaderParse {
    if fmt == 0 {
        if b.len() < at + 11 {
            HeaderParse::NeedMore
        } else {
            let field = u24_at(b, at);
            let end = if field == 0xFF_FFFF {
                at + 15
            } else {
                at + 11
            };
            if b.len() < end {
                HeaderParse::NeedMore
            } else {
                HeaderParse::Header(
                    LastHeader {
                        timestamp: (if field == 0xFF_FFFF {
                            u32_at(b, at + 11)
                        } else {
                            field
                        }) as u32,
                        msg_len: u24_at(b, at + 3) as usize,
                        msg_type: b[at + 6],
                        stream_id: u32_le_at(b, at + 7) as u32,
                    },
                    end,
                )
            }
        }
    } else if fmt == 1 {
        if b.len() < at + 7 {
            HeaderParse::NeedMore
        } else {
            match prev {
                None => HeaderParse::Refused("fmt=1 with no history"@),
                Some(p) => match delta_time(b, u24_at(b, at), at + 7, p) {
                    None => HeaderParse::NeedMore,
                    Some((timestamp, end)) => HeaderParse::Header(
                        LastHeader {
                            timestamp,
                            msg_len: u24_at(b, at + 3) as usize,
                            msg_type: b[at + 6],
                            ..p
                        },
                        end,
                    ),
                },
            }
        }
    } else if fmt == 2 {
        if b.len() < at + 3 {
            HeaderParse::NeedMore
        } else {
            match prev {
                None => HeaderParse::Refused("fmt=2 with no history"@),
                Some(p) => match delta_time(b, u24_at(b, at), at + 3, p) {
                    None => HeaderParse::NeedMore,
                    Some((timestamp, end)) => HeaderParse::Header(
                        LastHeader { timestamp, ..p },
                        end,
                    ),
                },
            }
        }
    } else {
        match prev {
            None => HeaderParse::Refused("fmt=3 with no history"@),
            Some(p) => HeaderParse::Header(p, at),
        }
    }
}

/// What is remembered of `csid`.
pub open spec fn history(state: ReaderState, csid: u32) -> Option<LastHeader> {
    if state.last.dom().contains(csid) {
        Some(state.last[csid])
    } else {
        None
    }
}

/// The message that `csid` is in the middle of: how long it is, and what has
/// arrived.
pub open spec fn open_message(state: ReaderState, csid: u32, hdr: LastHeader) -> (
    LastHeader,
    Seq<u8>,
) {
    if state.partial.dom().contains(csid) {
        state.partial[csid]
    } else {
        (hdr, Seq::empty())
    }
}

/// The payload bytes that the next chunk of a message carries.
pub open spec fn chunk_take(want: int, have: int, chunk_size: int) -> int {
    let remaining = if want < have {
        0
    } else {
        want - have
    };
    if remaining < chunk_size {
        remaining
    } else {
        chunk_size
    }
}

/// The chunk size after a message that may announce a new one.
pub open spec fn announced_size(chunk_size: int, payload: Seq<u8>) -> int {
    let size = u32_at(payload, 0);
    if 1 <= size <= MAX_CHUNK_SIZE {
        size
    } else {
        chunk_size
    }
}

/// What a chunk whose header is known does: `n` is where its payload begins.
pub open spec fn parse_payload(
    state: ReaderState,
    b: Seq<u8>,
    csid: u32,
    hdr: LastHeader,
    n: int,
) -> ChunkParse {
    let last = state.last.insert(csid, hdr);
    let (base, buf) = open_message(state, csid, hdr);
    let take = chunk_take(base.msg_len as int, buf.len() as int, state.chunk_size);
    if b.len() < n + take {
        ChunkParse::NeedMore
    } else {
        let full = buf + b.subrange(n, n + take);
        if full.len() < base.msg_len {
            ChunkParse::Took {
                n: n + take,
                state: ReaderState {
                    last,
                    partial: state.partial.insert(csid, (base, full)),
                    ..state
                },
                message: None,
            }
        } else if hdr.msg_type == MSG_SET_CHUNK_SIZE && full.len() >= 4 {
            ChunkParse::Took {
                n: n + take,
                state: ReaderState {
                    chunk_size: announced_size(state.chunk_size, full),
                    last,
                    partial: state.partial.remove(csid),
                },
                message: None,
            }
        } else {
            ChunkParse::Took {
                n: n + take,
                state: ReaderState { last, partial: state.partial.remove(csid), ..state },
                message: Some(
                    Message {
                        csid: csid as int,
                        timestamp: hdr.timestamp as int,
                        msg_type: hdr.msg_type,
                        stream_id: hdr.stream_id as int,
                        payload: full,
                    },
                ),
            }
        }
    }
}

/// What the chunk at the head of `b` does.
pub open spec fn parse_chunk(state: ReaderState, b: Seq<u8>) -> ChunkParse {
    match parse_basic(b) {
        None => ChunkParse::NeedMore,
        Some((fmt, csid, at)) => match parse_header(b, fmt, at, history(state, csid)) {
            HeaderParse::NeedMore => ChunkParse::NeedMore,
            HeaderParse::Refused(why) => ChunkParse::Refused(why),
            HeaderParse::Header(hdr, n) => parse_payload(state, b, csid, hdr, n),
        },
    }
}

/// What one step of reading gives.
pub enum ReadStep {
    /// More bytes are needed.
    NeedMore,
    /// A chunk was taken: how many bytes it had, and the message it completed.
    Took(usize, Option<InMessage>),
}

/// What reading a message from `b` does: the bytes taken, the reader
/// afterwards, and the first message, if one is complete.
pub struct MessageParse {
    pub n: int,
    pub state: ReaderState,
    pub message: Option<Message>,
    pub refused: Option<Seq<char>>,
}

/// Take chunks from `b` until one completes a message, is not there in full,
/// or breaks the protocol.
pub open spec fn parse_message(state: ReaderState, b: Seq<u8>) -> MessageParse
    decreases b.len(),
{
    match parse_chunk(state, b) {
        ChunkParse::NeedMore => MessageParse { n: 0, state, message: None, refused: None },
        ChunkParse::Refused(why) => MessageParse { n: 0, state, message: None, refused: Some(why) },
        ChunkParse::Took { n, state: next, message: Some(m) } => MessageParse {
            n,
            state: next,
            message: Some(m),
            refused: None,
        },
        ChunkParse::Took { n, state: next, message: None } => {
            if n <= 0 || n > b.len() {
                MessageParse { n, state: next, message: None, refused: None }
            } else {
                let rest = parse_message(next, b.subrange(n, b.len() as int));
                MessageParse { n: n + rest.n, ..rest }
            }
        },
    }
}

/// A chunk that is taken is not empty and lies within the bytes.
pub proof fn lemma_chunk_within(state: ReaderState, b: Seq<u8>)
    requires
        state.chunk_size >= 0,
    ensures
        parse_chunk(state, b) matches ChunkParse::Took { n, state: next, .. } ==> 0 < n <= b.len()
            && next.chunk_size >= 0,
{
}

/// The bytes taken for a message lie within the bytes at hand.
pub proof fn law_reading_stays_within_the_bytes(state: ReaderState, b: Seq<u8>)
    requires
        state.chunk_size >= 0,
    ensures
        0 <= parse_message(state, b).n <= b.len(),
    decreases b.len(),
{
    lemma_chunk_within(state, b);
    match parse_chunk(state, b) {
        ChunkParse::Took { n, state: next, message: None } => {
            law_reading_stays_within_the_bytes(next, b.subrange(n, b.len() as int));
        },
        _ => {},
    }
}

fn read_u24(b: &[u8], at: usize) -> (v: u32)
    requires
        at + 3 <= b@.len(),
    ensures
        v == u24_at(b@, at as int),
        v <= 0xFF_FFFF,
{
    let len: usize = b.len();
    assert(at + 3 <= len);
    b[at] as u32 * 0x1_0000 + b[at + 1] as u32 * 0x100 + b[at + 2] as u32
}

fn read_u32_be(b: &[u8], at: usize) -> (v: u32)
    requires
        at + 4 <= b@.len(),
    ensures
        v == u32_at(b@, at as int),
{
    let len: usize = b.len();
    assert(at + 4 <= len);
    b[at] as u32 * 0x100_0000 + b[at + 1] as u32 * 0x1_0000 + b[at + 2] as u32 * 0x100 + b[at
        + 3] as u32
}

fn read_u32_le(b: &[u8], at: usize) -> (v: u32)
    requires
        at + 4 <= b@.len(),
    ensures
        v == u32_le_at(b@, at as int),
{
    let len: usize = b.len();
    assert(at + 4 <= len);
    b[at] as u32 + b[at + 1] as u32 * 0x100 + b[at + 2] as u32 * 0x1_0000 + b[at + 3] as u32
        * 0x100_0000
}

fn read_basic(b: &[u8]) -> (r: Option<(u8, u32, usize)>)
    ensures
        match r {
            None => parse_basic(b@) is None,
            Some(x) => parse_basic(b@) == Some((x.0 as int, x.1, x.2 as int)) && x.0 < 4 && x.2
                <= 3 && x.2 <= b@.len(),
        },
{
    if b.len() < 1 {
        return None;
    }
    let fmt: u8 = b[0] / 64;
    let low: u8 = b[0] % 64;
    if low == 0 {
        if b.len() < 2 {
            return None;
        }
        Some((fmt, b[1] as u32 + 64, 2))
    } else if low == 1 {
        if b.len() < 3 {
            return None;
        }
        Some((fmt, b[1] as u32 + b[2] as u32 * 256 + 64, 3))
    } else {
        Some((fmt, low as u32, 1))
    }
}

/// A message header that has been read, or why there is none.
enum HeaderStep {
    NeedMore,
    Refused(&'static str),
    Header(LastHeader, usize),
}

spec fn header_matches(r: HeaderStep, want: HeaderParse) -> bool {
    match (r, want) {
        (HeaderStep::NeedMore, HeaderParse::NeedMore) => true,
        (HeaderStep::Refused(s), HeaderParse::Refused(why)) => s@ == why,
        (HeaderStep::Header(h, n), HeaderParse::Header(hdr, end)) => h == hdr && n == end,
        _ => false,
    }
}

fn read_delta_time(b: &[u8], field: u32, at: usize, prev: LastHeader) -> (r: Option<(u32, usize)>)
    requires
        at <= b@.len(),
        at <= 16,
        field <= 0xFF_FFFF,
    ensures
        match r {
            None => delta_time(b@, field as int, at as int, prev) is None,
            Some(x) => delta_time(b@, field as int, at as int, prev) == Some((x.0, x.1 as int))
                && x.1 <= b@.len(),
        },
{
    if field == 0xFF_FFFF {
        if b.len() < at + 4 {
            None
        } else {
            Some((read_u32_be(b, at), at + 4))
        }
    } else {
        Some((((prev.timestamp as u64 + field as u64) % 0x1_0000_0000) as u32, at))
    }
}

fn read_header(b: &[u8], fmt: u8, at: usize, prev: Option<LastHeader>) -> (r: HeaderStep)
    requires
        at <= 3,
        at <= b@.len(),
        fmt < 4,
    ensures
        header_matches(r, parse_header(b@, fmt as int, at as int, prev)),
        r matches HeaderStep::Header(h, n) ==> n <= b@.len(),
{
    if fmt == 0 {
        if b.len() < at + 11 {
            return HeaderStep::NeedMore;
        }
        let field: u32 = read_u24(b, at);
        let end: usize = if field == 0xFF_FFFF {
            at + 15
        } else {
            at + 11
        };
        if b.len() < end {
            return HeaderStep::NeedMore;
        }
        let timestamp: u32 = if field == 0xFF_FFFF {
            read_u32_be(b, at + 11)
        } else {
            field
        };
        HeaderStep::Header(
            LastHeader {
                timestamp,
                msg_len: read_u24(b, at + 3) as usize,
                msg_type: b[at + 6],
                stream_id: read_u32_le(b, at + 7),
            },
            end,
        )
    } else if fmt == 1 {
        if b.len() < at + 7 {
            return HeaderStep::NeedMore;
        }
        match prev {
            None => HeaderStep::Refused("fmt=1 with no history"),
            Some(p) => match read_delta_time(b, read_u24(b, at), at + 7, p) {
                None => HeaderStep::NeedMore,
                Some((timestamp, end)) => HeaderStep::Header(
                    LastHeader {
                        timestamp,
                        msg_len: read_u24(b, at + 3) as usize,
                        msg_type: b[at + 6],
                        stream_id: p.stream_id,
                    },
                    end,
                ),
            },
        }
    } else if fmt == 2 {
        if b.len() < at + 3 {
            return HeaderStep::NeedMore;
        }
        match prev {
            None => HeaderStep::Refused("fmt=2 with no history"),
            Some(p) => match read_delta_time(b, read_u24(b, at), at + 3, p) {
                None => HeaderStep::NeedMore,
                Some((timestamp, end)) => HeaderStep::Header(
                    LastHeader {
                        timestamp,
                        msg_len: p.msg_len,
                        msg_type: p.msg_type,
                        stream_id: p.stream_id,
                    },
                    end,
                ),
            },
        }
    } else {
        match prev {
            None => HeaderStep::Refused("fmt=3 with no history"),
            Some(p) => HeaderStep::Header(p, at),
        }
    }
}

impl ChunkReader {
    /// A reader that has seen nothing.
    pub fn new() -> (r: ChunkReader)
        ensures
            r@ == (ReaderState {
                chunk_size: DEFAULT_CHUNK_SIZE as int,
                last: Map::empty(),
                partial: Map::empty(),
            }),
    {
        let r: ChunkReader = ChunkReader {
            in_chunk_size: DEFAULT_CHUNK_SIZE,
            last: HashMap::new(),
            partial: HashMap::new(),
        };
        assert(r@.partial =~= Map::empty());
        r
    }

    /// The chunk size the peer last announced.
    pub fn chunk_size(&self) -> (n: usize)
        ensures
            n == self@.chunk_size,
    {
        self.in_chunk_size
    }

    /// The chunk size to send with: the peer's, held between the default and
    /// the largest.
    pub fn out_chunk_size(&self) -> (n: usize)
        ensures
            n == (if self@.chunk_size < DEFAULT_CHUNK_SIZE {
                DEFAULT_CHUNK_SIZE as int
            } else if self@.chunk_size > MAX_CHUNK_SIZE {
                MAX_CHUNK_SIZE as int
            } else {
                self@.chunk_size
            }),
    {
        if self.in_chunk_size < DEFAULT_CHUNK_SIZE {
            DEFAULT_CHUNK_SIZE
        } else if self.in_chunk_size > MAX_CHUNK_SIZE {
            MAX_CHUNK_SIZE
        } else {
            self.in_chunk_size
        }
    }

    /// Take the payload of a chunk whose header has been read.
    fn take_payload(&mut self, b: &[u8], csid: u32, hdr: LastHeader, n: usize) -> (r: ReadStep)
        requires
            n <= b@.len(),
        ensures
            match (r, parse_payload(old(self)@, b@, csid, hdr, n as int)) {
                (ReadStep::NeedMore, ChunkParse::NeedMore) => final(self)@ == old(self)@,
                (ReadStep::Took(k, None), ChunkParse::Took { n: m, state, message: None }) => k == m
                    && final(self)@ == state,
                (
                    ReadStep::Took(k, Some(got)),
                    ChunkParse::Took { n: m, state, message: Some(want) },
                ) => k == m && final(self)@ == state && got@ == want,
                _ => false,
            },
    {
        let ghost s = self@;
        let size: usize = self.in_chunk_size;
        let (want, have): (usize, usize) = match self.partial.get(&csid) {
            Some(p) => (p.0.msg_len, p.1.len()),
            None => (hdr.msg_len, 0),
        };
        let remaining: usize = if want < have {
            0
        } else {
            want - have
        };
        let take: usize = if remaining < size {
            remaining
        } else {
            size
        };
        if b.len() - n < take {
            return ReadStep::NeedMore;
        }
        let ghost (sbase, sbuf) = open_message(s, csid, hdr);
        let (base, mut buf): (LastHeader, Vec<u8>) = match self.partial.remove(&csid) {
            Some(p) => p,
            None => (hdr, Vec::new()),
        };
        assert(buf@ =~= sbuf);
        put(&mut buf, vstd::slice::slice_subrange(b, n, n + take));
        self.last.insert(csid, hdr);
        assert(self@.partial =~= s.partial.remove(csid));
        if buf.len() < want {
            self.partial.insert(csid, (base, buf));
            assert(self@.partial =~= s.partial.insert(csid, (base, buf@)));
            return ReadStep::Took(n + take, None);
        }
        if hdr.msg_type == MSG_SET_CHUNK_SIZE && buf.len() >= 4 {
            let announced: u32 = read_u32_be(buf.as_slice(), 0);
            if 1 <= announced && announced <= 65_536 {
                self.in_chunk_size = announced as usize;
            }
            return ReadStep::Took(n + take, None);
        }
        ReadStep::Took(
            n + take,
            Some(
                InMessage {
                    csid,
                    timestamp: hdr.timestamp,
                    msg_type: hdr.msg_type,
                    stream_id: hdr.stream_id,
                    payload: buf,
                },
            ),
        )
    }

    /// Take one chunk from the head of `b`, if it is there in full.
    pub fn read_chunk(&mut self, b: &[u8]) -> (r: Result<ReadStep, RtmpError>)
        ensures
            match (r, parse_chunk(old(self)@, b@)) {
                (Ok(ReadStep::NeedMore), ChunkParse::NeedMore) => final(self)@ == old(self)@,
                (Err(RtmpError::Protocol(e)), ChunkParse::Refused(why)) => e@ == why && final(
                    self)@ == old(self)@,
                (Ok(ReadStep::Took(k, None)), ChunkParse::Took { n, state, message: None }) => k
                    == n && final(self)@ == state,
                (
                    Ok(ReadStep::Took(k, Some(got))),
                    ChunkParse::Took { n, state, message: Some(want) },
                ) => k == n && final(self)@ == state && got@ == want,
                _ => false,
            },
    {
        let (fmt, csid, at): (u8, u32, usize) = match read_basic(b) {
            None => return Ok(ReadStep::NeedMore),
            Some(x) => x,
        };
        let prev: Option<LastHeader> = match self.last.get(&csid) {
            Some(h) => Some(*h),
            None => None,
        };
        match read_header(b, fmt, at, prev) {
            HeaderStep::NeedMore => Ok(ReadStep::NeedMore),
            HeaderStep::Refused(why) => Err(RtmpError::Protocol(why.to_owned())),
            HeaderStep::Header(hdr, n) => Ok(self.take_payload(b, csid, hdr, n)),
        }
    }

    /// Take chunks from `b` until a message is complete or the bytes run out.
    /// Returns how many bytes were taken, and the message.
    pub fn next_message(&mut self, b: &[u8]) -> (r: Result<(usize, Option<InMessage>), RtmpError>)
        ensures
            ({
                let p = parse_message(old(self)@, b@);
                &&& final(self)@ == p.state
                &&& match r {
                    Ok((n, got)) => p.refused is None && n == p.n && match (got, p.message) {
                        (None, None) => true,
                        (Some(m), Some(want)) => m@ == want,
                        _ => false,
                    },
                    Err(RtmpError::Protocol(e)) => p.refused == Some(e@),
                    Err(_) => false,
                }
            }),
    {
        let ghost start = self@;
        let len: usize = b.len();
        let mut at: usize = 0;
        assert(b@.subrange(0, len as int) =~= b@);
        loop
            invariant
                at <= len == b@.len(),
                start == old(self)@,
                ({
                    let whole = parse_message(start, b@);
                    let rest = parse_message(self@, b@.subrange(at as int, len as int));
                    &&& whole.state == rest.state
                    &&& whole.message == rest.message
                    &&& whole.refused == rest.refused
                    &&& whole.n == at + rest.n
                }),
            decreases len - at,
        {
            let rest: &[u8] = vstd::slice::slice_subrange(b, at, len);
            proof {
                lemma_chunk_within(self@, rest@);
            }
            match self.read_chunk(rest) {
                Err(e) => return Err(e),
                Ok(ReadStep::NeedMore) => return Ok((at, None)),
                Ok(ReadStep::Took(n, Some(m))) => return Ok((at + n, Some(m))),
                Ok(ReadStep::Took(n, None)) => {
                    assert(rest@.subrange(n as int, rest@.len() as int) =~= b@.subrange(
                        at + n,
                        len as int,
                    ));
                    at = at + n;
                },
            }
        }
    }
}

} // verus!

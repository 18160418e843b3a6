//! What is cut into chunks comes back whole.

use super::chunk::{
    basic_header, chunk_end, continuations, history, message_bytes, message_header, open_message,
    parse_basic, parse_chunk, parse_header, parse_message, parse_payload, u24_at, u32_at, u32_le_at,
    ChunkParse, HeaderParse, LastHeader, Message, MessageParse, ReaderState, MAX_CHUNK_SIZE,
    MSG_SET_CHUNK_SIZE,
};
use crate::bytes::{be24_bytes, be32_bytes, le32_bytes};
use vstd::prelude::*;

verus! {

/// The bytes that open a chunk read back.
proof fn lemma_basic_reads_back(fmt: int, csid: int, tail: Seq<u8>)
    requires
        0 <= fmt < 4,
        2 <= csid < 65_600,
    ensures
        1 <= basic_header(fmt, csid).len() <= 3,
        parse_basic(basic_header(fmt, csid) + tail) == Some(
            (fmt, csid as u32, basic_header(fmt, csid).len() as int),
        ),
{
    let b = basic_header(fmt, csid) + tail;
    assert(b[0] == basic_header(fmt, csid)[0]);
    if csid >= 64 {
        assert(b[1] == basic_header(fmt, csid)[1]);
        if csid >= 320 {
            assert(b[2] == basic_header(fmt, csid)[2]);
            assert((csid - 64) / 0x100 < 0x100);
        }
    }
}

/// A message that a sender can put on the wire in full.
pub open spec fn sendable(m: Message) -> bool {
    &&& 2 <= m.csid < 65_600
    &&& 0 <= m.timestamp < 0x1_0000_0000
    &&& 0 <= m.stream_id < 0x1_0000_0000
    &&& m.payload.len() < 0x100_0000
}

/// What a reader remembers of a message's header.
pub open spec fn header_of(m: Message) -> LastHeader {
    LastHeader {
        timestamp: m.timestamp as u32,
        msg_len: m.payload.len() as usize,
        msg_type: m.msg_type,
        stream_id: m.stream_id as u32,
    }
}

/// A first chunk's header reads back.
proof fn lemma_header_reads_back(m: Message, tail: Seq<u8>, prev: Option<LastHeader>)
    requires
        sendable(m),
    ensures
        ({
            let b = message_header(m) + tail;
            let at = basic_header(0, m.csid).len() as int;
            &&& parse_basic(b) == Some((0int, m.csid as u32, at))
            &&& parse_header(b, 0, at, prev) == HeaderParse::Header(
                header_of(m),
                message_header(m).len() as int,
            )
            &&& message_header(m).len() > 0
        }),
{
    reveal(message_header);
    let head = message_header(m);
    let b = head + tail;
    let basic = basic_header(0, m.csid);
    let at = basic.len() as int;
    let field = if m.timestamp >= 0xFF_FFFF {
        0xFF_FFFF
    } else {
        m.timestamp
    };
    let ext = if m.timestamp >= 0xFF_FFFF {
        be32_bytes(m.timestamp)
    } else {
        Seq::<u8>::empty()
    };
    let len = m.payload.len() as int;
    let after = be24_bytes(field) + be24_bytes(len) + seq![m.msg_type] + le32_bytes(m.stream_id)
        + ext;
    assert(head =~= basic + after);
    assert(b =~= basic + (after + tail));
    lemma_basic_reads_back(0, m.csid, after + tail);
    assert(after.len() == 11 + ext.len());
    assert forall|i: int| 0 <= i < after.len() implies b[at + i] == after[i] by {
        assert(b[at + i] == (after + tail)[i]);
    }
    assert(after[0] == be24_bytes(field)[0] && after[1] == be24_bytes(field)[1] && after[2]
        == be24_bytes(field)[2]);
    assert(after[3] == be24_bytes(len)[0] && after[4] == be24_bytes(len)[1] && after[5]
        == be24_bytes(len)[2]);
    assert(after[6] == m.msg_type);
    let le = le32_bytes(m.stream_id);
    assert(after[7] == le[0] && after[8] == le[1] && after[9] == le[2] && after[10] == le[3]);
    if m.timestamp >= 0xFF_FFFF {
        assert(after[11] == ext[0] && after[12] == ext[1] && after[13] == ext[2] && after[14]
            == ext[3]);
        lemma_u32_digits(m.timestamp);
    }
    lemma_u24_digits(field);
    lemma_u24_digits(len);
    lemma_u32_digits(m.stream_id);
    assert(b[at] == after[0] && b[at + 1] == after[1] && b[at + 2] == after[2]);
    assert(u24_at(b, at) == field);
    assert(b[at + 3] == after[3] && b[at + 4] == after[4] && b[at + 5] == after[5]);
    assert(u24_at(b, at + 3) == len);
    assert(b[at + 7] == after[7] && b[at + 8] == after[8] && b[at + 9] == after[9] && b[at + 10]
        == after[10]);
    assert(u32_le_at(b, at + 7) == m.stream_id);
}

proof fn lemma_u24_digits(n: int)
    requires
        0 <= n < 0x100_0000,
    ensures
        n == (n / 0x1_0000 % 0x100) * 0x1_0000 + (n / 0x100 % 0x100) * 0x100 + n % 0x100,
{
}

proof fn lemma_u32_digits(n: int)
    requires
        0 <= n < 0x1_0000_0000,
    ensures
        n == (n / 0x100_0000 % 0x100) * 0x100_0000 + (n / 0x1_0000 % 0x100) * 0x1_0000 + (n / 0x100
            % 0x100) * 0x100 + n % 0x100,
{
}

/// The payload of one chunk: `have` bytes had arrived, `piece` comes now.
proof fn lemma_payload_step(
    state: ReaderState,
    b: Seq<u8>,
    m: Message,
    have: int,
    end: int,
    n: int,
)
    requires
        sendable(m),
        m.msg_type != MSG_SET_CHUNK_SIZE,
        state.chunk_size >= 1,
        0 <= have <= end,
        end == chunk_end(m.payload, have, state.chunk_size),
        have <= m.payload.len(),
        open_message(state, m.csid as u32, header_of(m)) == (
            header_of(m),
            m.payload.subrange(0, have),
        ),
        0 <= n,
        n + (end - have) <= b.len(),
        b.subrange(n, n + (end - have)) == m.payload.subrange(have, end),
    ensures
        end < m.payload.len() ==> parse_payload(state, b, m.csid as u32, header_of(m), n)
            == (ChunkParse::Took {
            n: n + (end - have),
            state: ReaderState {
                last: state.last.insert(m.csid as u32, header_of(m)),
                partial: state.partial.insert(
                    m.csid as u32,
                    (header_of(m), m.payload.subrange(0, end)),
                ),
                ..state
            },
            message: None,
        }),
        end == m.payload.len() ==> parse_payload(state, b, m.csid as u32, header_of(m), n)
            == (ChunkParse::Took {
            n: n + (end - have),
            state: ReaderState {
                last: state.last.insert(m.csid as u32, header_of(m)),
                partial: state.partial.remove(m.csid as u32),
                ..state
            },
            message: Some(m),
        }),
{
    assert(m.payload.subrange(0, have) + m.payload.subrange(have, end) =~= m.payload.subrange(
        0,
        end,
    ));
    assert(m.payload.subrange(0, m.payload.len() as int) =~= m.payload);
}

/// Reading goes on behind a chunk that completes nothing.
proof fn lemma_message_goes_on(state: ReaderState, b: Seq<u8>, n: int, next: ReaderState)
    requires
        parse_chunk(state, b) == (ChunkParse::Took { n, state: next, message: None }),
        0 < n <= b.len(),
    ensures
        ({
            let rest = parse_message(next, b.subrange(n, b.len() as int));
            parse_message(state, b) == (MessageParse { n: n + rest.n, ..rest })
        }),
{
}

/// A reader that is in the middle of sending `m`: `from` bytes have arrived.
spec fn in_the_middle(state: ReaderState, m: Message, from: int, size: int) -> bool {
    &&& sendable(m)
    &&& m.msg_type != MSG_SET_CHUNK_SIZE
    &&& state.chunk_size == size >= 1
    &&& 0 < from < m.payload.len()
    &&& state.last.dom().contains(m.csid as u32)
    &&& state.last[m.csid as u32] == header_of(m)
    &&& state.partial.dom().contains(m.csid as u32)
    &&& state.partial[m.csid as u32] == (header_of(m), m.payload.subrange(0, from))
}

/// What the next chunk does to such a reader.
proof fn lemma_continuation_chunk(
    state: ReaderState,
    m: Message,
    from: int,
    size: int,
    rest: Seq<u8>,
) -> (taken: int)
    requires
        in_the_middle(state, m, from, size),
    ensures
        ({
            let csid = m.csid as u32;
            let end = chunk_end(m.payload, from, size);
            let wire = continuations(m.csid, m.payload, from, size);
            let next = continuations(m.csid, m.payload, end, size);
            let b = wire + rest;
            &&& 0 < taken <= b.len()
            &&& taken + next.len() == wire.len()
            &&& b.subrange(taken, b.len() as int) == next + rest
            &&& end < m.payload.len() ==> parse_chunk(state, b) == (ChunkParse::Took {
                n: taken,
                state: ReaderState {
                    partial: state.partial.insert(
                        csid,
                        (header_of(m), m.payload.subrange(0, end)),
                    ),
                    ..state
                },
                message: None,
            })
            &&& end == m.payload.len() ==> parse_chunk(state, b) == (ChunkParse::Took {
                n: taken,
                state: ReaderState { partial: state.partial.remove(csid), ..state },
                message: Some(m),
            })
        }),
{
    let csid = m.csid as u32;
    let end = chunk_end(m.payload, from, size);
    let basic = basic_header(3, m.csid);
    let piece = m.payload.subrange(from, end);
    let next = continuations(m.csid, m.payload, end, size);
    let wire = continuations(m.csid, m.payload, from, size);
    let b = wire + rest;
    let at = basic.len() as int;
    let hdr = header_of(m);
    let taken = at + piece.len();
    assert(b =~= basic + (piece + (next + rest)));
    lemma_basic_reads_back(3, m.csid, piece + (next + rest));
    assert(b.subrange(at, taken) =~= piece);
    assert(b.subrange(taken, b.len() as int) =~= next + rest);
    assert(parse_chunk(state, b) == parse_payload(state, b, csid, hdr, at)) by {
        assert(parse_header(b, 3, at, history(state, csid)) == HeaderParse::Header(hdr, at));
    }
    lemma_payload_step(state, b, m, from, end, at);
    assert(state.last.insert(csid, hdr) =~= state.last);
    taken
}

/// A reader in the middle of a message takes the rest of it.
proof fn lemma_continuations_read_back(
    state: ReaderState,
    m: Message,
    from: int,
    size: int,
    rest: Seq<u8>,
)
    requires
        in_the_middle(state, m, from, size),
    ensures
        ({
            let wire = continuations(m.csid, m.payload, from, size);
            let p = parse_message(state, wire + rest);
            &&& p.message == Some(m)
            &&& p.refused is None
            &&& p.n == wire.len()
            &&& p.state.chunk_size == size
            &&& p.state.partial == state.partial.remove(m.csid as u32)
        }),
    decreases m.payload.len() - from,
{
    let csid = m.csid as u32;
    let end = chunk_end(m.payload, from, size);
    let b = continuations(m.csid, m.payload, from, size) + rest;
    let taken = lemma_continuation_chunk(state, m, from, size, rest);
    if end < m.payload.len() {
        let after = ReaderState {
            partial: state.partial.insert(csid, (header_of(m), m.payload.subrange(0, end))),
            ..state
        };
        lemma_message_goes_on(state, b, taken, after);
        lemma_continuations_read_back(after, m, end, size, rest);
        assert(after.partial.remove(csid) =~= state.partial.remove(csid));
    }
}

/// A message that is cut into chunks and read by a reader with the same chunk
/// size comes back whole, whatever follows it on the wire, and leaves the
/// reader ready for the next. Only an announcement of a new chunk size is
/// consumed by the reader itself.
pub proof fn law_message_reads_back(state: ReaderState, m: Message, size: int, rest: Seq<u8>)
    requires
        sendable(m),
        m.msg_type != MSG_SET_CHUNK_SIZE,
        state.chunk_size == size >= 1,
        !state.partial.dom().contains(m.csid as u32),
    ensures
        ({
            let p = parse_message(state, message_bytes(m, size) + rest);
            &&& p.message == Some(m)
            &&& p.refused is None
            &&& p.n == message_bytes(m, size).len()
            &&& p.state.chunk_size == size
            &&& p.state.partial == state.partial
        }),
{
    let csid = m.csid as u32;
    let end = chunk_end(m.payload, 0, size);
    let head = message_header(m);
    let piece = m.payload.subrange(0, end);
    let next = continuations(m.csid, m.payload, end, size);
    let wire = message_bytes(m, size);
    let b = wire + rest;
    let hdr = header_of(m);
    let n = head.len() as int;
    let taken = n + piece.len();
    assert(b =~= head + (piece + (next + rest)));
    lemma_header_reads_back(m, piece + (next + rest), history(state, csid));
    assert(b.subrange(n, taken) =~= piece);
    assert(b.subrange(taken, b.len() as int) =~= next + rest);
    assert(m.payload.subrange(0, 0) =~= Seq::<u8>::empty());
    lemma_payload_step(state, b, m, 0, end, n);
    assert(parse_chunk(state, b) == parse_payload(state, b, csid, hdr, n));
    assert(state.partial.remove(csid) =~= state.partial);
    if end == m.payload.len() {
        assert(next =~= Seq::empty());
    } else {
        let after = ReaderState {
            last: state.last.insert(csid, hdr),
            partial: state.partial.insert(csid, (hdr, piece)),
            ..state
        };
        lemma_message_goes_on(state, b, taken, after);
        lemma_continuations_read_back(after, m, end, size, rest);
        assert(after.partial.remove(csid) =~= state.partial);
    }
}

/// An announcement of a chunk size in range is adopted and not handed on.
pub proof fn law_announced_size_is_adopted(state: ReaderState, b: Seq<u8>, csid: u32, hdr: LastHeader, n: int)
    requires
        parse_payload(state, b, csid, hdr, n) matches ChunkParse::Took { message, .. }
            && message is None,
        hdr.msg_type == MSG_SET_CHUNK_SIZE,
        hdr.msg_len == 4,
        state.chunk_size >= 4,
        !state.partial.dom().contains(csid),
        1 <= u32_at(b, n) <= MAX_CHUNK_SIZE,
        0 <= n,
    ensures
        parse_payload(state, b, csid, hdr, n) matches ChunkParse::Took { state: after, .. }
            && after.chunk_size == u32_at(b, n),
{
    let full = Seq::<u8>::empty() + b.subrange(n, n + 4);
    assert(full[0] == b[n] && full[1] == b[n + 1] && full[2] == b[n + 2] && full[3] == b[n + 3]);
}

} // verus!

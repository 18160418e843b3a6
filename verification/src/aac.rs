//! AAC-LC audio: what goes into the encoder, and what comes out of it.

use crate::bytes::{be32, be32_bytes, put};
use crate::text::{decimal, decimal_string, signed_decimal, signed_string};
use vstd::prelude::*;
use vstd::string::*;

verus! {

/// One AAC-LC packet: the raw payload of 1024 sample frames.
#[derive(Debug, Clone, PartialEq, Eq)]
pub struct AacFrame {
    pub data: Vec<u8>,
}

/// Samples per second of the master mix.
pub const INPUT_SAMPLE_RATE: u32 = 48_000;

/// Channels of the master mix.
pub const INPUT_CHANNELS: u32 = 2;

/// Sample frames in one packet.
pub const FRAMES_PER_PACKET: usize = 1024;

/// The bitrate the encoder is asked for.
pub const ENCODE_BIT_RATE: u32 = 192_000;

/// The status by which the encoder hears that its input is used up for now.
pub const INPUT_DRAINED: i32 = 1;

/// Why audio cannot be encoded: there is nothing to fall back to.
#[derive(Debug, PartialEq, Eq)]
pub enum AacError {
    Unavailable(String),
}

impl AacError {
    /// The message an operator sees.
    pub open spec fn text(self) -> Seq<char> {
        match self {
            AacError::Unavailable(s) => "E_AAC_UNAVAILABLE: "@ + s@,
        }
    }

    /// What went wrong.
    pub open spec fn detail(self) -> Seq<char> {
        match self {
            AacError::Unavailable(s) => s@,
        }
    }

    /// The stable token of an error.
    pub fn kind_token(&self) -> (s: &'static str)
        ensures
            s@ == "E_AAC_UNAVAILABLE"@,
    {
        "E_AAC_UNAVAILABLE"
    }

    /// The message an operator sees.
    pub fn message(&self) -> (s: String)
        ensures
            s@ == self.text(),
    {
        match self {
            AacError::Unavailable(s) => "E_AAC_UNAVAILABLE: ".to_owned().concat(s.as_str()),
        }
    }
}

/// A length in base 128, highest digit first. Every byte but the last is
/// flagged.
pub open spec fn length_digits(n: nat, flag: int) -> Seq<u8>
    decreases n,
{
    if n < 128 {
        seq![(n + flag) as u8]
    } else {
        length_digits(n / 128, 128).push((n % 128 + flag) as u8)
    }
}

/// The length of a descriptor, as a file holds it.
pub open spec fn descriptor_length(n: nat) -> Seq<u8> {
    length_digits(n, 0)
}

/// The length that bytes hold.
pub open spec fn length_value(b: Seq<u8>) -> int
    decreases b.len(),
{
    if b.len() == 0 {
        0
    } else {
        length_value(b.drop_last()) * 128 + b.last() % 128
    }
}

fn push_digits(buf: &mut Vec<u8>, n: usize, flag: u8)
    requires
        flag == 0 || flag == 128,
    ensures
        final(buf)@ == old(buf)@ + length_digits(n as nat, flag as int),
    decreases n,
{
    if n >= 128 {
        push_digits(buf, n / 128, 128);
    }
    let ghost mid = buf@;
    buf.push((n % 128) as u8 + flag);
    assert(buf@ =~= old(buf)@ + length_digits(n as nat, flag as int));
}

/// Append the length of a descriptor.
pub fn push_desc_len(buf: &mut Vec<u8>, len: usize)
    ensures
        final(buf)@ == old(buf)@ + descriptor_length(len as nat),
{
    push_digits(buf, len, 0);
}

proof fn lemma_length_digits(n: nat, flag: int)
    requires
        flag == 0 || flag == 128,
    ensures
        length_digits(n, flag).len() > 0,
        length_value(length_digits(n, flag)) == n,
        length_digits(n, flag).last() >= 128 <==> flag == 128,
        forall|i: int|
            0 <= i < length_digits(n, flag).len() - 1 ==> #[trigger] length_digits(n, flag)[i]
                >= 128,
    decreases n,
{
    let d = length_digits(n, flag);
    if n < 128 {
        assert(d.drop_last() =~= Seq::<u8>::empty());
        assert(length_value(d.drop_last()) == 0);
        assert(d.last() as int == n + flag);
        assert((n + flag) % 128 == n);
    } else {
        lemma_length_digits(n / 128, 128);
        let rest = length_digits(n / 128, 128);
        assert(d.drop_last() =~= rest);
        assert(d.last() as int == n % 128 + flag);
        assert((n % 128 + flag) % 128 == n % 128);
        assert forall|i: int| 0 <= i < d.len() - 1 implies #[trigger] d[i] >= 128 by {
            assert(d[i] == rest[i]);
            if i == rest.len() - 1 {
                assert(rest.last() >= 128);
            }
        }
    }
}

/// A descriptor's length reads back as it was written, and the bytes say
/// themselves where they end.
pub proof fn law_descriptor_lengths_read_back(n: nat)
    ensures
        length_value(descriptor_length(n)) == n,
        descriptor_length(n).last() < 128,
        forall|i: int|
            0 <= i < descriptor_length(n).len() - 1 ==> #[trigger] descriptor_length(n)[i] >= 128,
{
    lemma_length_digits(n, 0);
}

/// A descriptor: its tag, its length and its content.
pub open spec fn descriptor(tag: u8, content: Seq<u8>) -> Seq<u8> {
    seq![tag] + descriptor_length(content.len()) + content
}

/// The configuration of the decoder, around a bare audio configuration.
pub open spec fn decoder_config(asc: Seq<u8>) -> Seq<u8> {
    seq![0x40u8, 0x15u8, 0u8, 0u8, 0u8] + be32_bytes(ENCODE_BIT_RATE as int) + be32_bytes(
        ENCODE_BIT_RATE as int,
    )
        + descriptor(0x05, asc) + descriptor(0x06, seq![0x02u8])
}

/// The descriptors of an audio track: the encoder's own where it gives them,
/// else the least that hold its configuration.
pub open spec fn esds_of(cookie: Seq<u8>) -> Seq<u8> {
    if cookie.len() > 0 && cookie[0] == 0x03 {
        cookie
    } else {
        descriptor(0x03, seq![0u8, 2u8, 0u8] + descriptor(0x04, decoder_config(cookie)))
    }
}

fn push_descriptor(buf: &mut Vec<u8>, tag: u8, content: &[u8])
    ensures
        final(buf)@ == old(buf)@ + descriptor(tag, content@),
{
    buf.push(tag);
    push_desc_len(buf, content.len());
    put(buf, content);
    assert(buf@ =~= old(buf)@ + descriptor(tag, content@));
}

/// A descriptor's length that starts at `i`, where `acc` has been read before
/// it: the length, and where the bytes after it start. A length beyond the
/// bytes is none.
pub open spec fn read_length(b: Seq<u8>, i: int, acc: int) -> Option<(int, int)>
    decreases b.len() - i,
{
    if i < 0 || i >= b.len() || acc * 128 + b[i] % 128 > b.len() {
        None
    } else if b[i] >= 128 {
        read_length(b, i + 1, acc * 128 + b[i] % 128)
    } else {
        Some((acc * 128 + b[i], i + 1))
    }
}

/// The content of the descriptor that starts at `i`, if one with this tag does:
/// where it starts and where it ends.
pub open spec fn content_at(b: Seq<u8>, i: int, tag: u8) -> Option<(int, int)> {
    if i < 0 || i >= b.len() || b[i] != tag {
        None
    } else {
        match read_length(b, i + 1, 0) {
            Some((n, start)) if start + n <= b.len() => Some((start, start + n)),
            _ => None,
        }
    }
}

/// The bare audio configuration that an encoder's configuration holds: all of
/// it, or what its descriptors carry. An empty one is none.
pub open spec fn bare_config(cookie: Seq<u8>) -> Option<Seq<u8>> {
    if cookie.len() == 0 {
        None
    } else if cookie[0] != 0x03 {
        Some(cookie)
    } else {
        match content_at(cookie, 0, 0x03) {
            Some((es, _)) => match content_at(cookie, es + 3, 0x04) {
                Some((config, _)) => match content_at(cookie, config + 13, 0x05) {
                    Some((start, end)) if start < end => Some(cookie.subrange(start, end)),
                    _ => None,
                },
                None => None,
            },
            None => None,
        }
    }
}

proof fn lemma_read_digits(b: Seq<u8>, i: int, n: nat, flag: int)
    requires
        flag == 0 || flag == 128,
        n <= b.len(),
        0 <= i,
        i + length_digits(n, flag).len() <= b.len(),
        b.subrange(i, i + length_digits(n, flag).len()) == length_digits(n, flag),
    ensures
        flag == 0 ==> read_length(b, i, 0) == Some(
            (n as int, i + length_digits(n, flag).len()),
        ),
        flag == 128 ==> read_length(b, i, 0) == read_length(
            b,
            i + length_digits(n, flag).len(),
            n as int,
        ),
    decreases n,
{
    let d = length_digits(n, flag);
    let l = d.len() as int;
    lemma_length_digits(n, flag);
    assert(b[i + l - 1] == b.subrange(i, i + l)[l - 1]);
    assert(b[i + l - 1] == d.last());
    if n < 128 {
        assert(l == 1);
        assert((n + flag) % 128 == n);
    } else {
        let rest = length_digits(n / 128, 128);
        lemma_length_digits(n / 128, 128);
        assert(d.drop_last() =~= rest);
        assert(b.subrange(i, i + rest.len()) =~= rest) by {
            assert forall|k: int| 0 <= k < rest.len() implies b[i + k] == rest[k] by {
                assert(b[i + k] == b.subrange(i, i + l)[k]);
                assert(d[k] == d.drop_last()[k]);
            }
        }
        lemma_read_digits(b, i, n / 128, 128);
        assert((n % 128 + flag) % 128 == n % 128);
        assert((n / 128) * 128 + n % 128 == n);
    }
}

proof fn lemma_content_at(b: Seq<u8>, i: int, tag: u8, content: Seq<u8>)
    requires
        0 <= i,
        i + descriptor(tag, content).len() <= b.len(),
        b.subrange(i, i + descriptor(tag, content).len()) == descriptor(tag, content),
    ensures
        ({
            let start = i + 1 + descriptor_length(content.len()).len();
            &&& content_at(b, i, tag) == Some((start, start + content.len()))
            &&& b.subrange(start, start + content.len()) == content
        }),
{
    let d = descriptor(tag, content);
    let digits = descriptor_length(content.len());
    let start = i + 1 + digits.len();
    let part = b.subrange(i, i + d.len());
    assert(b[i] == part[0]);
    assert(b.subrange(i + 1, start) =~= digits) by {
        assert forall|k: int| 0 <= k < digits.len() implies b[i + 1 + k] == digits[k] by {
            assert(b[i + 1 + k] == part[1 + k]);
        }
    }
    assert(b.subrange(start, start + content.len()) =~= content) by {
        assert forall|k: int| 0 <= k < content.len() implies b[start + k] == content[k] by {
            assert(b[start + k] == part[1 + digits.len() + k]);
        }
    }
    lemma_read_digits(b, i + 1, content.len(), 0);
}

/// A bare configuration is found again in the descriptors that are written
/// around it.
pub proof fn law_a_bare_configuration_reads_back(asc: Seq<u8>)
    requires
        asc.len() > 0,
        asc[0] != 0x03,
    ensures
        bare_config(esds_of(asc)) == Some(asc),
{
    let b = esds_of(asc);
    let config = decoder_config(asc);
    let es = seq![0u8, 2u8, 0u8] + descriptor(0x04, config);
    assert(b =~= descriptor(0x03, es));
    assert(b.subrange(0, b.len() as int) =~= b);
    lemma_content_at(b, 0, 0x03, es);
    let at_es: int = 1 + descriptor_length(es.len()).len() as int;
    let inner = descriptor(0x04, config);
    assert(b.subrange(at_es + 3, at_es + 3 + inner.len()) =~= inner) by {
        assert forall|k: int| 0 <= k < inner.len() implies b[at_es + 3 + k] == inner[k] by {
            assert(b[at_es + 3 + k] == b.subrange(at_es, at_es + es.len())[3 + k]);
        }
    }
    lemma_content_at(b, at_es + 3, 0x04, config);
    let at_config: int = at_es + 3 + 1 + descriptor_length(config.len()).len() as int;
    let bare = descriptor(0x05, asc);
    assert(b.subrange(at_config + 13, at_config + 13 + bare.len()) =~= bare) by {
        assert forall|k: int| 0 <= k < bare.len() implies b[at_config + 13 + k] == bare[k] by {
            assert(b[at_config + 13 + k] == b.subrange(at_config, at_config + config.len())[13 + k]);
        }
    }
    lemma_content_at(b, at_config + 13, 0x05, asc);
}

fn find_content(b: &[u8], i: usize, tag: u8) -> (r: Option<(usize, usize)>)
    ensures
        match (r, content_at(b@, i as int, tag)) {
            (Some(found), Some(c)) => found.0 == c.0 && found.1 == c.1 && c.0 <= c.1 <= b@.len(),
            (None, None) => true,
            _ => false,
        },
{
    let len: usize = b.len();
    if i >= len || b[i] != tag {
        return None;
    }
    let mut at: usize = i + 1;
    let mut n: usize = 0;
    while at < len
        invariant
            i < at <= len == b@.len(),
            b@[i as int] == tag,
            n <= len,
            read_length(b@, i + 1, 0) == read_length(b@, at as int, n as int),
        decreases len - at,
    {
        let digit: u8 = b[at] % 128;
        if n as u128 * 128 + digit as u128 > len as u128 {
            return None;
        }
        n = (n as u128 * 128 + digit as u128) as usize;
        if b[at] < 128 {
            at = at + 1;
            if n <= len - at {
                return Some((at, at + n));
            }
            return None;
        }
        at = at + 1;
    }
    None
}

/// The audio encoder: its configuration, and what it has been fed.
#[derive(Debug)]
pub struct AacEncoder {
    pub cookie: Vec<u8>,
    pub fed_frames: u64,
}

/// What the encoder said of one call.
pub struct Filled {
    /// The bytes it wrote.
    pub out: Vec<u8>,
    /// Where each packet starts in them, and how long it is.
    pub packets: Vec<(u64, u32)>,
    pub status: i32,
}

/// What follows one call of the encoder.
#[derive(Debug, Clone, Copy, PartialEq, Eq, Structural)]
pub enum FillStep {
    More,
    Done,
}

/// Whether the packets among the first `n` lie in the bytes; the first that
/// does not.
pub open spec fn stray(packets: Seq<(u64, u32)>, total: int, i: int) -> int
    decreases packets.len() - i,
{
    if i < 0 || i >= packets.len() || packets[i].0 + packets[i].1 > total {
        i
    } else {
        stray(packets, total, i + 1)
    }
}

/// The packets of a call.
pub open spec fn packet_data(out: Seq<u8>, packets: Seq<(u64, u32)>) -> Seq<Seq<u8>> {
    Seq::new(
        packets.len(),
        |i: int| out.subrange(packets[i].0 as int, packets[i].0 + packets[i].1),
    )
}

/// The payloads of packets.
pub open spec fn payloads(v: Seq<AacFrame>) -> Seq<Seq<u8>> {
    Seq::new(v.len(), |i: int| v[i].data@)
}

/// What is said of a packet that runs past the encoder's bytes.
pub open spec fn stray_text(p: (u64, u32), total: int) -> Seq<char> {
    "AAC packet ["@ + decimal(p.0 as nat) + ".."@ + decimal(p.0 as nat) + "+"@ + decimal(p.1 as nat)
        + "] runs past the "@ + decimal(total as nat) + " output bytes"@
}

fn unavailable(detail: String) -> (e: AacError)
    ensures
        e.detail() == detail@,
{
    AacError::Unavailable(detail)
}

impl AacEncoder {
    /// An encoder with the configuration it gave; one that gave none is refused,
    /// since its packets could not be described.
    pub fn open(cookie: Vec<u8>) -> (r: Result<AacEncoder, AacError>)
        ensures
            match r {
                Ok(e) => cookie@.len() > 0 && e.cookie == cookie && e.fed_frames == 0,
                Err(e) => cookie@.len() == 0 && e.detail()
                    == "AAC magic cookie came back empty; refusing to write a headerless stream"@,
            },
    {
        if cookie.len() == 0 {
            return Err(
                unavailable(
                    "AAC magic cookie came back empty; refusing to write a headerless stream".to_owned(),
                ),
            );
        }
        Ok(AacEncoder { cookie, fed_frames: 0 })
    }

    /// The configuration, as the encoder gave it.
    pub fn audio_specific_config(&self) -> (b: &[u8])
        ensures
            b@ == self.cookie@,
    {
        self.cookie.as_slice()
    }

    /// The descriptors of the audio track.
    pub fn esds_content(&self) -> (b: Vec<u8>)
        requires
            self.cookie@.len() <= 0xffff_ffff,
        ensures
            b@ == esds_of(self.cookie@),
    {
        if self.cookie.len() > 0 && self.cookie[0] == 0x03 {
            let mut b: Vec<u8> = Vec::new();
            put(&mut b, self.cookie.as_slice());
            assert(b@ =~= self.cookie@);
            return b;
        }
        let mut config: Vec<u8> = Vec::new();
        config.push(0x40);
        config.push(0x15);
        config.push(0);
        config.push(0);
        config.push(0);
        assert(config@ =~= seq![0x40u8, 0x15u8, 0u8, 0u8, 0u8]);
        be32(&mut config, ENCODE_BIT_RATE);
        be32(&mut config, ENCODE_BIT_RATE);
        push_descriptor(&mut config, 0x05, self.cookie.as_slice());
        let last: [u8; 1] = [0x02];
        assert(last@ =~= seq![0x02u8]);
        push_descriptor(&mut config, 0x06, last.as_slice());
        assert(config@ =~= decoder_config(self.cookie@));
        let mut es: Vec<u8> = Vec::new();
        es.push(0);
        es.push(2);
        es.push(0);
        assert(es@ =~= seq![0u8, 2u8, 0u8]);
        push_descriptor(&mut es, 0x04, config.as_slice());
        let mut b: Vec<u8> = Vec::new();
        push_descriptor(&mut b, 0x03, es.as_slice());
        assert(b@ =~= esds_of(self.cookie@));
        b
    }

    /// The bare configuration that a stream announces, if the encoder's holds
    /// one.
    pub fn bare_audio_specific_config(&self) -> (r: Option<Vec<u8>>)
        ensures
            match (r, bare_config(self.cookie@)) {
                (Some(b), Some(c)) => b@ == c,
                (None, None) => true,
                _ => false,
            },
    {
        let b: &[u8] = self.cookie.as_slice();
        let len: usize = b.len();
        if len == 0 {
            return None;
        }
        let mut start: usize = 0;
        let mut end: usize = len;
        if b[0] == 0x03 {
            let es: usize = match find_content(b, 0, 0x03) {
                Some(c) => c.0,
                None => return None,
            };
            if len < 3 || es > len - 3 {
                return None;
            }
            let config: usize = match find_content(b, es + 3, 0x04) {
                Some(c) => c.0,
                None => return None,
            };
            if len < 13 || config > len - 13 {
                return None;
            }
            match find_content(b, config + 13, 0x05) {
                Some(c) => {
                    start = c.0;
                    end = c.1;
                },
                None => return None,
            }
            if start >= end {
                return None;
            }
        }
        let mut out: Vec<u8> = Vec::new();
        let mut i: usize = start;
        while i < end
            invariant
                start <= i <= end <= b@.len(),
                out@ == b@.subrange(start as int, i as int),
            decreases end - i,
        {
            out.push(b[i]);
            i = i + 1;
            assert(out@ =~= b@.subrange(start as int, i as int));
        }
        assert(b@.subrange(0, len as int) =~= b@);
        Some(out)
    }

    /// Whether so many samples are whole sample frames; how many those are.
    pub fn accept(&self, samples: usize) -> (r: Result<usize, AacError>)
        ensures
            match r {
                Ok(frames) => samples % 2 == 0 && frames == samples / 2,
                Err(e) => samples % 2 != 0 && e.detail() == "refusing "@ + decimal(samples as nat)
                    + " samples: not whole stereo frames"@,
            },
    {
        if samples % 2 != 0 {
            return Err(
                unavailable(
                    "refusing ".to_owned().concat(decimal_string(samples as u64).as_str()).concat(
                        " samples: not whole stereo frames",
                    ),
                ),
            );
        }
        Ok(samples / 2)
    }

    /// The encoder has taken so many sample frames.
    pub fn fed(&mut self, frames: usize)
        ensures
            final(self).fed_frames == old(self).fed_frames.wrapping_add(frames as u64),
            final(self).cookie == old(self).cookie,
    {
        self.fed_frames = self.fed_frames.wrapping_add(frames as u64);
    }

    /// Sample frames fed so far.
    pub fn fed_frames(&self) -> (n: u64)
        ensures
            n == self.fed_frames,
    {
        self.fed_frames
    }
}

/// How many sample frames the encoder gets of those it wants, and the status it
/// hears. Out of input is the end only where there is no more to come: said too
/// early it would end the stream.
pub fn feed(want: usize, left: usize, eos: bool) -> (r: (usize, i32))
    ensures
        r.0 == if want < left {
            want
        } else {
            left
        },
        r.1 == if left == 0 && !eos {
            INPUT_DRAINED as int
        } else {
            0
        },
{
    if left == 0 {
        return (
            0,
            if eos {
                0
            } else {
                INPUT_DRAINED
            },
        );
    }
    if want < left {
        (want, 0)
    } else {
        (left, 0)
    }
}

/// Collect what one call of the encoder gave, and decide whether to call again.
/// What it wrote counts even where it stopped for want of input.
pub fn fill(frames_out: &mut Vec<AacFrame>, f: &Filled) -> (r: Result<FillStep, AacError>)
    ensures
        match r {
            Ok(step) => {
                &&& stray(f.packets@, f.out@.len() as int, 0) >= f.packets@.len()
                &&& f.status == INPUT_DRAINED || f.status == 0
                &&& step is Done <==> f.status == INPUT_DRAINED || f.packets@.len() == 0
                &&& payloads(final(frames_out)@) == payloads(old(frames_out)@) + packet_data(
                    f.out@,
                    f.packets@,
                )
            },
            Err(e) => {
                let i = stray(f.packets@, f.out@.len() as int, 0);
                if i < f.packets@.len() {
                    e.detail() == stray_text(f.packets@[i], f.out@.len() as int)
                } else {
                    f.status != INPUT_DRAINED && f.status != 0 && e.detail()
                        == "AAC conversion failed (OSStatus "@ + signed_decimal(f.status as int)
                        + ")"@
                }
            },
        },
{
    let total: usize = f.out.len();
    let n: usize = f.packets.len();
    let ghost start = payloads(frames_out@);
    let ghost all = packet_data(f.out@, f.packets@);
    let mut i: usize = 0;
    assert(payloads(frames_out@) =~= start + all.take(0));
    while i < n
        invariant
            i <= n == f.packets@.len(),
            total == f.out@.len(),
            all == packet_data(f.out@, f.packets@),
            stray(f.packets@, total as int, 0) == stray(f.packets@, total as int, i as int),
            payloads(frames_out@) == start + all.take(i as int),
        decreases n - i,
    {
        let p: (u64, u32) = f.packets[i];
        let end: u128 = p.0 as u128 + p.1 as u128;
        if end > total as u128 {
            let s: String = "AAC packet [".to_owned().concat(decimal_string(p.0).as_str()).concat(
                "..",
            ).concat(decimal_string(p.0).as_str()).concat("+").concat(
                decimal_string(p.1 as u64).as_str(),
            ).concat("] runs past the ").concat(decimal_string(total as u64).as_str()).concat(
                " output bytes",
            );
            return Err(unavailable(s));
        }
        let mut data: Vec<u8> = Vec::new();
        let from: usize = p.0 as usize;
        let len: usize = p.1 as usize;
        let mut k: usize = 0;
        while k < len
            invariant
                k <= len,
                from + len <= total == f.out@.len(),
                data@ == f.out@.subrange(from as int, from + k),
            decreases len - k,
        {
            data.push(f.out[from + k]);
            k = k + 1;
            assert(f.out@.subrange(from as int, from + k) =~= f.out@.subrange(
                from as int,
                from + k - 1,
            ).push(f.out@[from + k - 1]));
        }
        let ghost was = payloads(frames_out@);
        frames_out.push(AacFrame { data });
        i = i + 1;
        proof {
            assert(payloads(frames_out@) =~= was.push(data@));
            assert(all.take(i as int) =~= all.take(i - 1).push(all[i - 1]));
            assert(payloads(frames_out@) =~= start + all.take(i as int));
        }
    }
    assert(all.take(i as int) =~= all);
    if f.status == INPUT_DRAINED {
        return Ok(FillStep::Done);
    }
    if f.status != 0 {
        return Err(
            unavailable(
                "AAC conversion failed (OSStatus ".to_owned().concat(
                    signed_string(f.status).as_str(),
                ).concat(")"),
            ),
        );
    }
    if n == 0 {
        Ok(FillStep::Done)
    } else {
        Ok(FillStep::More)
    }
}

/// Whether the encoder is there: it has a configuration, and what it made of a
/// packet of silence is packets that hold something.
pub fn is_available(cookie: &[u8], probe: &Vec<AacFrame>) -> (r: bool)
    ensures
        r == (cookie@.len() > 0 && probe@.len() > 0 && forall|i: int|
            0 <= i < probe@.len() ==> (#[trigger] probe@[i]).data@.len() > 0),
{
    if cookie.len() == 0 || probe.len() == 0 {
        return false;
    }
    let n: usize = probe.len();
    let mut i: usize = 0;
    while i < n
        invariant
            i <= n == probe@.len(),
            forall|k: int| 0 <= k < i ==> (#[trigger] probe@[k]).data@.len() > 0,
        decreases n - i,
    {
        if probe[i].data.len() == 0 {
            assert(probe@[i as int].data@.len() == 0);
            return false;
        }
        i = i + 1;
    }
    true
}

} // verus!

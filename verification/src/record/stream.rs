//! Streaming: what is encoded and at which time, how a stream is opened and
//! how it ends.

use super::audio_tap::CHANNELS;
use super::rtmp::chunk::{MSG_AUDIO, MSG_VIDEO};
use super::rtmp::publisher::{
    sequence_header, sequence_header_bytes, Held, MediaFrame, PublisherHandle, PublisherState,
    AUDIO_BITRATE_BPS, VIDEO_BITRATE_BPS,
};
use super::rtmp::url::{parse_rtmp_url, target_of};
use super::tap_path::Selection;
use super::writer::AAC_PRIMING_TRIM_PACKETS;
use crate::aac::AacFrame;
use crate::bytes::put;
use crate::encode::{media_ts_ms, round_div, EncodedUnit, Pts};
use crate::manifest::StreamOutput;
use crate::text::{decimal, has_prefix, push_decimal};
use vstd::prelude::*;
use vstd::string::*;

verus! {

/// Frames that may wait for the stream thread.
pub const STREAM_CHANNEL_BOUND: usize = 2;

/// How long a stop waits for the stream thread, in milliseconds.
pub const STREAM_THREAD_STOP_TIMEOUT_MS: u64 = 500;

/// Why a stream could not be opened or closed.
#[derive(Debug, PartialEq, Eq)]
pub enum StreamError {
    /// The machine has no shared surfaces.
    NoChain(String),
    /// The stream's end was not confirmed.
    Teardown(String),
}

impl StreamError {
    /// The message an operator sees.
    pub open spec fn text(self) -> Seq<char> {
        match self {
            StreamError::NoChain(s) => "E_NO_ZEROCOPY: "@ + s@,
            StreamError::Teardown(s) => "E_NETWORK: "@ + s@,
        }
    }

    /// The message an operator sees: a stable token, then what went wrong.
    pub fn message(&self) -> (s: String)
        ensures
            s@ == self.text(),
    {
        match self {
            StreamError::NoChain(s) => "E_NO_ZEROCOPY: ".to_owned().concat(s.as_str()),
            StreamError::Teardown(s) => "E_NETWORK: ".to_owned().concat(s.as_str()),
        }
    }
}

/// What a stream is encoded at.
#[derive(Debug, Clone, Copy, PartialEq, Eq, Structural)]
pub struct StreamParams {
    pub width: u32,
    pub height: u32,
    /// The show's frame rate.
    pub fps: u32,
    pub video_bitrate_bps: u32,
    pub audio_bitrate_bps: u32,
}

/// Kilobits as bits, held at the largest 32-bit value.
pub open spec fn kbps_to_bps(kbps: u32) -> u32 {
    if kbps * 1000 > u32::MAX {
        u32::MAX
    } else {
        (kbps * 1000) as u32
    }
}

fn to_bps(kbps: u32) -> (bps: u32)
    ensures
        bps == kbps_to_bps(kbps),
{
    if kbps > u32::MAX / 1000 {
        u32::MAX
    } else {
        kbps * 1000
    }
}

impl StreamParams {
    /// The defaults at a geometry and a rate; a rate of zero counts as one.
    pub fn new(width: u32, height: u32, fps: u32) -> (p: StreamParams)
        ensures
            p == (StreamParams {
                width,
                height,
                fps: if fps == 0 {
                    1
                } else {
                    fps
                },
                video_bitrate_bps: 8_000_000,
                audio_bitrate_bps: 192_000,
            }),
    {
        StreamParams {
            width,
            height,
            fps: if fps == 0 {
                1
            } else {
                fps
            },
            video_bitrate_bps: VIDEO_BITRATE_BPS as u32,
            audio_bitrate_bps: AUDIO_BITRATE_BPS as u32,
        }
    }

    /// The parameters with the bitrates a package declares.
    pub fn with_output(self, output: Option<&StreamOutput>) -> (p: StreamParams)
        ensures
            p == (match output {
                None => self,
                Some(o) => StreamParams {
                    video_bitrate_bps: match o.video_bitrate_kbps {
                        Some(kbps) => kbps_to_bps(kbps),
                        None => self.video_bitrate_bps,
                    },
                    audio_bitrate_bps: match o.audio_bitrate_kbps {
                        Some(kbps) => kbps_to_bps(kbps),
                        None => self.audio_bitrate_bps,
                    },
                    ..self
                },
            }),
    {
        let mut p: StreamParams = self;
        match output {
            Some(o) => {
                match o.video_bitrate_kbps {
                    Some(kbps) => {
                        p.video_bitrate_bps = to_bps(kbps);
                    },
                    None => {},
                }
                match o.audio_bitrate_kbps {
                    Some(kbps) => {
                        p.audio_bitrate_bps = to_bps(kbps);
                    },
                    None => {},
                }
            },
            None => {},
        }
        p
    }

    /// Bits per second of video and audio together.
    pub fn envelope_bps(&self) -> (n: u64)
        ensures
            n == self.video_bitrate_bps + self.audio_bitrate_bps,
    {
        self.video_bitrate_bps as u64 + self.audio_bitrate_bps as u64
    }
}

/// The media time of the `n`th retained packet, in whole milliseconds, held in
/// 32 bits.
pub open spec fn packet_time(n: int) -> int {
    (n * 1024 * 1000 / 48_000) % 0x1_0000_0000
}

/// The transport timestamp of the `n`th retained packet.
pub fn audio_ts_ms(n: u64) -> (ms: u32)
    ensures
        ms == packet_time(n as int),
{
    ((n as u128 * 1024 * 1000 / 48_000) % 0x1_0000_0000) as u32
}

/// A video tag: whether it is a keyframe, that it holds NAL units, no
/// composition offset, then the unit.
pub open spec fn video_tag_bytes(data: Seq<u8>, keyframe: bool) -> Seq<u8> {
    seq![
        if keyframe {
            0x17u8
        } else {
            0x27u8
        },
        1u8,
        0u8,
        0u8,
        0u8,
    ] + data
}

/// The video tag of an access unit.
pub fn flv_video_tag(unit: &EncodedUnit) -> (out: Vec<u8>)
    ensures
        out@ == video_tag_bytes(unit.data@, unit.is_keyframe),
{
    let mut out: Vec<u8> = Vec::new();
    out.push(
        if unit.is_keyframe {
            0x17
        } else {
            0x27
        },
    );
    out.push(1);
    out.push(0);
    out.push(0);
    out.push(0);
    put(&mut out, unit.data.as_slice());
    assert(out@ =~= video_tag_bytes(unit.data@, unit.is_keyframe));
    out
}

/// An audio tag: AAC, raw, then the packet.
pub open spec fn audio_tag_bytes(data: Seq<u8>) -> Seq<u8> {
    seq![0xAFu8, 0x01] + data
}

/// The audio tag of a packet.
pub fn flv_audio_tag(data: &[u8]) -> (out: Vec<u8>)
    ensures
        out@ == audio_tag_bytes(data@),
{
    let mut out: Vec<u8> = vec![0xAF, 0x01];
    put(&mut out, data);
    assert(out@ =~= audio_tag_bytes(data@));
    out
}

/// An audio sequence header: AAC, configuration, then the codec's own.
pub open spec fn aac_header(config: Seq<u8>) -> Seq<u8> {
    seq![0xAFu8, 0x00] + config
}

/// The audio sequence header around the codec's own configuration.
pub fn aac_sequence_header(config: &[u8]) -> (out: Vec<u8>)
    ensures
        out@ == aac_header(config@),
{
    let mut out: Vec<u8> = vec![0xAF, 0x00];
    put(&mut out, config);
    assert(out@ =~= seq![0xAFu8, 0x00] + config@);
    out
}

/// Whether two parameter sets can announce a stream: long enough, of the right
/// NAL types, and with the forbidden bit clear.
pub open spec fn announceable(sps: Seq<u8>, pps: Seq<u8>) -> bool {
    &&& sps.len() >= 4
    &&& pps.len() > 0
    &&& sps[0] < 0x80
    &&& sps[0] % 32 == 7
    &&& pps[0] < 0x80
    &&& pps[0] % 32 == 8
}

/// The video sequence header of an encoder's parameter sets; none for sets
/// that cannot announce a stream.
pub fn avc_sequence_header(sps: &[u8], pps: &[u8]) -> (r: Option<Vec<u8>>)
    ensures
        r is Some <==> announceable(sps@, pps@),
        r matches Some(b) ==> b@ == avc_header(sps@, pps@),
{
    if sps.len() < 4 || pps.len() == 0 {
        return None;
    }
    if sps[0] >= 0x80 || sps[0] % 32 != 7 {
        return None;
    }
    if pps[0] >= 0x80 || pps[0] % 32 != 8 {
        return None;
    }
    Some(sequence_header(sps[1], sps[2], sps[3], sps, pps))
}

/// What a stream thread has done.
#[derive(Debug, Clone, Copy, PartialEq, Eq, Structural)]
pub struct StreamStats {
    pub encoder_ready: bool,
    pub encoder_open_us: u64,
    pub aac_ready: bool,
    pub aac_bit_rate: u64,
    pub video_frames_encoded: u64,
    pub encode_us_total: u64,
    pub video_units_published: u64,
    pub audio_packets_published: u64,
}

/// Ways to make a stream fail on demand.
#[derive(Debug, Clone, Copy, PartialEq, Eq, Structural)]
pub struct StreamSeams {
    pub no_chain: bool,
    pub close_error: bool,
}

impl StreamSeams {
    /// Whether there are surfaces to share, where some were built or not.
    pub open spec fn chain(self, built: bool) -> bool {
        !self.no_chain && built
    }

    /// Nothing is forced.
    pub fn new() -> (s: StreamSeams)
        ensures
            s == (StreamSeams { no_chain: false, close_error: false }),
    {
        StreamSeams { no_chain: false, close_error: false }
    }

    /// Act as if the machine had no shared surfaces, or stop doing so.
    pub fn set_force_no_chain(&mut self, force: bool)
        ensures
            *final(self) == (StreamSeams { no_chain: force, ..*old(self) }),
    {
        self.no_chain = force;
    }

    /// Whether the machine is made to have no shared surfaces.
    pub fn force_no_chain(&self) -> (r: bool)
        ensures
            r == self.no_chain,
    {
        self.no_chain
    }

    /// Make closing fail, or stop doing so.
    pub fn set_force_close_error(&mut self, force: bool)
        ensures
            *final(self) == (StreamSeams { close_error: force, ..*old(self) }),
    {
        self.close_error = force;
    }

    /// Whether there are shared surfaces: `built` says that a pool of them
    /// could be built.
    pub fn chain_available(&self, built: bool) -> (r: bool)
        ensures
            r == self.chain(built),
    {
        !self.no_chain && built
    }
}

/// A live stream, as the engine sees it.
pub struct StreamSession {
    pub endpoint: String,
    pub selection: Selection,
    pub params: StreamParams,
    pub closed: bool,
    /// There is a publisher, and a thread that feeds it.
    pub publishing: bool,
    /// The stream has surfaces of its own.
    pub pooled: bool,
}

/// Whether a session publishes to an endpoint.
pub open spec fn publishes(endpoint: Seq<char>, runtime: bool) -> bool {
    runtime && target_of(endpoint) is Ok
}

/// Whether `r` is what closing a session gives.
pub open spec fn close_is(
    seams: StreamSeams,
    thread_exited: bool,
    transport_closed: bool,
    r: Result<(), StreamError>,
) -> bool {
    if seams.close_error {
        r matches Err(StreamError::Teardown(e)) && e@
            == "stream teardown failed (injected): transport did not confirm shutdown"@
    } else if !thread_exited {
        r matches Err(StreamError::Teardown(e)) && e@ == "stream thread did not exit within "@
            + decimal(500) + " ms"@
    } else if !transport_closed {
        r matches Err(StreamError::Teardown(e)) && e@
            == "stream teardown timed out: transport did not confirm shutdown"@
    } else {
        r is Ok
    }
}

impl StreamSession {
    /// The session once it is over.
    pub open spec fn over(self) -> StreamSession {
        StreamSession { closed: true, publishing: false, pooled: false, ..self }
    }

    /// Whether media is flowing, where the publisher is in this state.
    pub open spec fn state_with(self, state: PublisherState) -> PublisherState {
        if self.publishing {
            state
        } else {
            PublisherState::Closed
        }
    }

    /// Open a session. It publishes when the engine has a runtime to publish
    /// with and the endpoint is a publish target.
    pub fn open(endpoint: String, selection: Selection, params: StreamParams, runtime: bool) -> (s:
        StreamSession)
        ensures
            s == (StreamSession {
                endpoint,
                selection,
                params,
                closed: false,
                publishing: publishes(endpoint@, runtime),
                pooled: false,
            }),
    {
        let publishing: bool = runtime && match parse_rtmp_url(endpoint.as_str()) {
            Ok(_) => true,
            Err(_) => false,
        };
        StreamSession { endpoint, selection, params, closed: false, publishing, pooled: false }
    }

    /// Whether there is a publisher.
    pub fn has_publisher(&self) -> (r: bool)
        ensures
            r == self.publishing,
    {
        self.publishing
    }

    /// Whether there is a thread that frames are sent to: the publisher's own.
    pub fn has_frame_sender(&self) -> (r: bool)
        ensures
            r == self.publishing,
    {
        self.publishing
    }

    /// Whether the engine closed the session.
    pub fn is_closed(&self) -> (r: bool)
        ensures
            r == self.closed,
    {
        self.closed
    }

    /// Whether media is flowing: a session without a publisher is closed.
    pub fn publisher_state(&self, publisher: &PublisherHandle) -> (s: PublisherState)
        ensures
            s == self.state_with(publisher@.state),
    {
        if self.publishing {
            publisher.publisher_state()
        } else {
            PublisherState::Closed
        }
    }

    /// Close the session. `thread_exited` and `transport_closed` say what the
    /// waits gave; either one missing withholds success, but the session is
    /// closed. With the forced failure nothing is closed.
    pub fn stop_and_close(
        &mut self,
        seams: &StreamSeams,
        thread_exited: bool,
        transport_closed: bool,
    ) -> (r: Result<(), StreamError>)
        ensures
            *final(self) == if seams.close_error {
                *old(self)
            } else {
                old(self).over()
            },
            close_is(*seams, thread_exited, transport_closed, r),
    {
        if seams.close_error {
            return Err(
                StreamError::Teardown(
                    "stream teardown failed (injected): transport did not confirm shutdown".to_owned(),
                ),
            );
        }
        self.closed = true;
        self.publishing = false;
        self.pooled = false;
        if !thread_exited {
            let mut s: String = "stream thread did not exit within ".to_owned();
            push_decimal(&mut s, STREAM_THREAD_STOP_TIMEOUT_MS);
            s.append(" ms");
            return Err(StreamError::Teardown(s));
        }
        if !transport_closed {
            return Err(
                StreamError::Teardown(
                    "stream teardown timed out: transport did not confirm shutdown".to_owned(),
                ),
            );
        }
        Ok(())
    }

    /// Let the session go without waiting for anything.
    pub fn abandon(&mut self)
        ensures
            *final(self) == old(self).over(),
    {
        self.publishing = false;
        self.pooled = false;
        self.closed = true;
    }
}

/// The publisher after these frames were offered, one after the other.
pub open spec fn offered_all(h: Held, frames: Seq<MediaFrame>) -> Held
    decreases frames.len(),
{
    if frames.len() == 0 {
        h
    } else {
        offered_all(h, frames.drop_last()).offered(frames.last()).0
    }
}

/// How many of these frames the publisher took.
pub open spec fn taken_of(h: Held, frames: Seq<MediaFrame>) -> int
    decreases frames.len(),
{
    if frames.len() == 0 {
        0
    } else {
        taken_of(h, frames.drop_last()) + (if offered_all(h, frames.drop_last()).offered(
            frames.last(),
        ).1 {
            1int
        } else {
            0
        })
    }
}

/// Payload bytes of these frames together.
pub open spec fn frames_bytes(frames: Seq<MediaFrame>) -> int
    decreases frames.len(),
{
    if frames.len() == 0 {
        0
    } else {
        frames_bytes(frames.drop_last()) + frames.last().payload.len()
    }
}

/// A publisher grows by no more than what it is offered.
proof fn lemma_offered_bounds(h: Held, frames: Seq<MediaFrame>)
    requires
        h.exact(),
    ensures
        h.buffered <= offered_all(h, frames).buffered <= h.buffered + frames_bytes(frames),
        h.shed <= offered_all(h, frames).shed <= h.shed + frames.len(),
        0 <= taken_of(h, frames) <= frames.len(),
        offered_all(h, frames).exact(),
    decreases frames.len(),
{
    if frames.len() > 0 {
        lemma_offered_bounds(h, frames.drop_last());
        super::rtmp::publisher::law_buffered_bytes_are_exact(
            offered_all(h, frames.drop_last()),
            frames.last(),
        );
    }
}

/// The transport timestamp of a presentation time.
pub open spec fn pts_ms(pts: Pts) -> u32 {
    let t = round_div(1000 * pts.index, pts.effective_rate());
    if t > u32::MAX {
        u32::MAX
    } else {
        t as u32
    }
}

/// The messages of encoded units.
pub open spec fn unit_frames(units: Seq<EncodedUnit>) -> Seq<MediaFrame> {
    Seq::new(
        units.len(),
        |i: int|
            MediaFrame {
                kind: MSG_VIDEO,
                timestamp: pts_ms(units[i].pts),
                payload: video_tag_bytes(units[i].data@, units[i].is_keyframe),
            },
    )
}

/// The sequence header of an encoder's parameter sets.
pub open spec fn avc_header(sps: Seq<u8>, pps: Seq<u8>) -> Seq<u8> {
    sequence_header_bytes(sps[1], sps[2], sps[3], sps, pps)
}

/// The message that announces video: the sequence header, at the time of the first
/// unit behind it.
pub open spec fn head_frame(units: Seq<EncodedUnit>, sps: Seq<u8>, pps: Seq<u8>) -> MediaFrame {
    MediaFrame {
        kind: MSG_VIDEO,
        timestamp: pts_ms(units[0].pts),
        payload: avc_header(sps, pps),
    }
}

/// The messages of retained packets, of which `n` came before.
pub open spec fn packet_frames(packets: Seq<AacFrame>, n: int) -> Seq<MediaFrame> {
    Seq::new(
        packets.len(),
        |i: int|
            MediaFrame {
                kind: MSG_AUDIO,
                timestamp: packet_time(n + i) as u32,
                payload: audio_tag_bytes(packets[i].data@),
            },
    )
}

/// What became of a picture that was offered to the stream thread.
#[derive(Debug, Clone, Copy, PartialEq, Eq, Structural)]
pub enum Offered {
    Taken,
    /// The thread is behind.
    Full,
    /// The thread has ended.
    Gone,
}

/// A count of pictures that a busy thread could not take, after one more was offered.
pub open spec fn skips_with(skipped: u64, offered: Offered) -> u64 {
    if offered is Full {
        skipped.wrapping_add(1)
    } else {
        skipped
    }
}

/// A picture was offered to the stream thread, which is never waited for. One
/// that a busy thread could not take is counted; true says that it was taken.
pub fn hand_off_stream_surface(offered: Offered, skipped: &mut u64) -> (taken: bool)
    ensures
        taken == (offered is Taken),
        *final(skipped) == skips_with(*old(skipped), offered),
{
    match offered {
        Offered::Taken => true,
        Offered::Full => {
            *skipped = (*skipped).wrapping_add(1);
            false
        },
        Offered::Gone => false,
    }
}

/// What the stream thread remembers.
pub struct StreamThread {
    /// The show's frame at the stream's first picture.
    pub base_frame: Option<u64>,
    /// The video sequence header has been offered.
    pub seq_sent: bool,
    /// Priming packets still to be dropped.
    pub priming_to_skip: u64,
    /// Packets retained so far.
    pub audio_packets: u64,
    /// A sample that waits for its pair.
    pub carry: Option<u32>,
}

/// The show's frame at a stream's first picture, once a picture of this frame came.
pub open spec fn base_of(base: Option<u64>, frame: u64) -> u64 {
    match base {
        Some(b) => b,
        None => frame,
    }
}

/// The place of a picture on a stream's timeline.
pub open spec fn place_of(base: Option<u64>, frame: u64) -> Option<u64> {
    let first = base_of(base, frame);
    if frame >= first {
        Some((frame - first) as u64)
    } else {
        None
    }
}

/// The samples at hand: the one that waited, then those that were drained.
pub open spec fn at_hand(carry: Option<u32>, drained: Seq<u32>) -> Seq<u32> {
    (match carry {
        Some(c) => seq![c],
        None => Seq::empty(),
    }) + drained
}

/// The samples that have their pair.
pub open spec fn paired(carry: Option<u32>, drained: Seq<u32>) -> Seq<u32> {
    let all = at_hand(carry, drained);
    all.subrange(0, all.len() - all.len() % CHANNELS as nat)
}

/// The sample that waits for its pair.
pub open spec fn left_over(carry: Option<u32>, drained: Seq<u32>) -> Option<u32> {
    let all = at_hand(carry, drained);
    let whole = all.len() - all.len() % CHANNELS as nat;
    if whole < all.len() {
        Some(all[whole])
    } else {
        None
    }
}

/// How many of `n` packets are priming that is still to be dropped.
pub open spec fn skipped_of(priming: u64, n: int) -> int {
    if n < priming {
        n
    } else {
        priming as int
    }
}

/// What publishing did.
#[derive(Debug, Clone, Copy, PartialEq, Eq, Structural)]
pub struct PublishReport {
    /// Messages the publisher took.
    pub published: u64,
    /// Frames that were lost.
    pub dropped: u64,
}

impl StreamThread {
    /// A thread that has seen nothing.
    pub fn new() -> (t: StreamThread)
        ensures
            t == (StreamThread {
                base_frame: None,
                seq_sent: false,
                priming_to_skip: AAC_PRIMING_TRIM_PACKETS,
                audio_packets: 0,
                carry: None,
            }),
    {
        StreamThread {
            base_frame: None,
            seq_sent: false,
            priming_to_skip: AAC_PRIMING_TRIM_PACKETS,
            audio_packets: 0,
            carry: None,
        }
    }

    /// The place of a picture on the stream's timeline: its distance from the
    /// first one. A picture from before the first has none.
    pub fn pts_index(&mut self, frame: u64) -> (r: Option<u64>)
        ensures
            *final(self) == (StreamThread {
                base_frame: Some(base_of(old(self).base_frame, frame)),
                ..*old(self)
            }),
            r == place_of(old(self).base_frame, frame),
    {
        let base: u64 = match self.base_frame {
            Some(b) => b,
            None => frame,
        };
        self.base_frame = Some(base);
        if frame >= base {
            Some(frame - base)
        } else {
            None
        }
    }

    /// Offer the units of one picture to the publisher. The first time, the
    /// sequence header goes before them; without one nothing is offered.
    pub fn publish_units(
        &mut self,
        publisher: &mut PublisherHandle,
        units: &Vec<EncodedUnit>,
        sets: Option<(&[u8], &[u8])>,
    ) -> (r: PublishReport)
        requires
            old(publisher)@.exact(),
            units@.len() < 0xffff_ffff,
            old(publisher)@.shed + units@.len() + 1 <= u64::MAX,
            old(publisher)@.buffered + frames_bytes(unit_frames(units@)) + (match sets {
                Some(s) => s.0@.len() + s.1@.len() + 16,
                None => 0,
            }) <= usize::MAX,
        ensures
            final(publisher)@.exact(),
            units@.len() == 0 ==> *final(self) == *old(self) && final(publisher)@ == old(
                publisher)@ && r == (PublishReport { published: 0, dropped: 0 }),
            units@.len() > 0 && old(self).seq_sent ==> *final(self) == *old(self) && final(
                publisher)@ == offered_all(old(publisher)@, unit_frames(units@)) && r.published
                == taken_of(old(publisher)@, unit_frames(units@)) && r.dropped == units@.len()
                - r.published,
            units@.len() > 0 && !old(self).seq_sent ==> match sets {
                Some(s) if announceable(s.0@, s.1@) => {
                    let first = old(publisher)@.offered(head_frame(units@, s.0@, s.1@));
                    &&& *final(self) == (StreamThread { seq_sent: true, ..*old(self) })
                    &&& final(publisher)@ == offered_all(first.0, unit_frames(units@))
                    &&& r.published == taken_of(first.0, unit_frames(units@))
                    &&& r.dropped == units@.len() - r.published + (if first.1 {
                        0int
                    } else {
                        1
                    })
                },
                _ => *final(self) == *old(self) && final(publisher)@ == old(publisher)@ && r == (
                PublishReport { published: 0, dropped: units@.len() as u64 }),
            },
    {
        if units.len() == 0 {
            return PublishReport { published: 0, dropped: 0 };
        }
        let mut dropped: u64 = 0;
        let ghost start = publisher@;
        let ghost tags = unit_frames(units@);
        if !self.seq_sent {
            let header: Option<Vec<u8>> = match sets {
                Some((sps, pps)) => avc_sequence_header(sps, pps),
                None => None,
            };
            match header {
                None => {
                    return PublishReport { published: 0, dropped: units.len() as u64 };
                },
                Some(bytes) => {
                    proof {
                        let s = sets->0;
                        assert(bytes@.len() == s.0@.len() + s.1@.len() + 16);
                        lemma_frames_bytes_nonneg(tags);
                    }
                    let ts: u32 = media_ts_ms(units[0].pts);
                    if !publisher.try_publish_video(bytes, ts) {
                        dropped = 1;
                    }
                    self.seq_sent = true;
                },
            }
        }
        let ghost first = publisher@;
        let ghost lost = dropped;
        let mut published: u64 = 0;
        let mut i: usize = 0;
        while i < units.len()
            invariant
                i <= units@.len(),
                units@.len() < 0xffff_ffff,
                tags == unit_frames(units@),
                first.exact(),
                first.shed + units@.len() <= u64::MAX,
                first.buffered + frames_bytes(tags) <= usize::MAX,
                publisher@ == offered_all(first, tags.take(i as int)),
                publisher@.exact(),
                published == taken_of(first, tags.take(i as int)),
                published <= i,
                lost <= 1,
                dropped == lost + i - published,
            decreases units@.len() - i,
        {
            proof {
                let t = tags.take(i + 1);
                assert(t.drop_last() =~= tags.take(i as int));
                assert(t.last() == tags[i as int]);
                lemma_offered_bounds(first, tags.take(i as int));
                lemma_frames_bytes_prefix(tags, i + 1);
            }
            let tag: Vec<u8> = flv_video_tag(&units[i]);
            let ts: u32 = media_ts_ms(units[i].pts);
            if publisher.try_publish_video(tag, ts) {
                published = published + 1;
            } else {
                dropped = dropped + 1;
            }
            i = i + 1;
        }
        assert(tags.take(i as int) =~= tags);
        PublishReport { published, dropped }
    }

    /// Pair up drained samples: one that is left over waits for the next.
    pub fn pair_up(&mut self, drained: &[u32]) -> (pcm: Vec<u32>)
        ensures
            pcm@ == paired(old(self).carry, drained@),
            *final(self) == (StreamThread {
                carry: left_over(old(self).carry, drained@),
                ..*old(self)
            }),
    {
        let ghost all = (match self.carry {
            Some(c) => seq![c],
            None => Seq::empty(),
        }) + drained@;
        let mut pcm: Vec<u32> = Vec::new();
        match self.carry {
            Some(c) => pcm.push(c),
            None => {},
        }
        self.carry = None;
        let mut i: usize = 0;
        let ghost head = pcm@;
        while i < drained.len()
            invariant
                i <= drained@.len(),
                pcm@ == head + drained@.take(i as int),
            decreases drained@.len() - i,
        {
            pcm.push(drained[i]);
            i = i + 1;
            assert(pcm@ =~= head + drained@.take(i as int));
        }
        assert(drained@.take(i as int) =~= drained@);
        assert(pcm@ =~= all);
        if pcm.len() % 2 == 1 {
            self.carry = pcm.pop();
        }
        assert(pcm@ =~= all.subrange(0, all.len() - all.len() % 2));
        pcm
    }

    /// Offer encoded packets to the publisher. Priming packets are dropped;
    /// the others are numbered, and their number is their time.
    pub fn publish_packets(&mut self, publisher: &mut PublisherHandle, packets: &Vec<AacFrame>) -> (
    published: u64)
        requires
            old(publisher)@.exact(),
            packets@.len() < 0xffff_ffff,
            old(self).audio_packets + packets@.len() <= u64::MAX,
            old(publisher)@.shed + packets@.len() <= u64::MAX,
            old(publisher)@.buffered + frames_bytes(
                packet_frames(packets@, old(self).audio_packets as int),
            ) <= usize::MAX,
        ensures
            final(publisher)@.exact(),
            ({
                let skip = skipped_of(old(self).priming_to_skip, packets@.len() as int);
                let tags = packet_frames(
                    packets@.subrange(skip, packets@.len() as int),
                    old(self).audio_packets as int,
                );
                &&& final(publisher)@ == offered_all(old(publisher)@, tags)
                &&& published == taken_of(old(publisher)@, tags)
                &&& *final(self) == (StreamThread {
                    priming_to_skip: (old(self).priming_to_skip - skip) as u64,
                    audio_packets: (old(self).audio_packets + tags.len()) as u64,
                    ..*old(self)
                })
            }),
    {
        let n: usize = packets.len();
        let skip: usize = if (n as u64) < self.priming_to_skip {
            n
        } else {
            self.priming_to_skip as usize
        };
        let ghost first = publisher@;
        let ghost from = self.audio_packets as int;
        let ghost kept = packets@.subrange(skip as int, n as int);
        let ghost tags = packet_frames(kept, from);
        proof {
            lemma_packet_bytes(packets@, skip as int, from);
            assert(tags.take(0) =~= Seq::empty());
        }
        self.priming_to_skip = self.priming_to_skip - skip as u64;
        let mut published: u64 = 0;
        let mut i: usize = skip;
        while i < n
            invariant
                skip <= i <= n == packets@.len(),
                n < 0xffff_ffff,
                kept == packets@.subrange(skip as int, n as int),
                tags == packet_frames(kept, from),
                first.exact(),
                first.shed + n <= u64::MAX,
                first.buffered + frames_bytes(tags) <= usize::MAX,
                from + n <= u64::MAX,
                publisher@ == offered_all(first, tags.take(i - skip)),
                publisher@.exact(),
                published == taken_of(first, tags.take(i - skip)),
                published <= i - skip,
                self.audio_packets == from + (i - skip),
                *self == (StreamThread { audio_packets: self.audio_packets, ..*self }),
                self.priming_to_skip == old(self).priming_to_skip - skip,
                self.base_frame == old(self).base_frame,
                self.seq_sent == old(self).seq_sent,
                self.carry == old(self).carry,
            decreases n - i,
        {
            proof {
                let k = i - skip;
                let t = tags.take(k + 1);
                assert(t.drop_last() =~= tags.take(k));
                assert(t.last() == tags[k]);
                assert(kept[k] == packets@[i as int]);
                lemma_offered_bounds(first, tags.take(k));
                lemma_frames_bytes_prefix(tags, k + 1);
            }
            let ts: u32 = audio_ts_ms(self.audio_packets);
            self.audio_packets = self.audio_packets + 1;
            let tag: Vec<u8> = flv_audio_tag(packets[i].data.as_slice());
            if publisher.try_publish_audio(tag, ts) {
                published = published + 1;
            }
            i = i + 1;
        }
        assert(tags.take(i - skip) =~= tags);
        published
    }
}

proof fn lemma_frames_bytes_nonneg(frames: Seq<MediaFrame>)
    ensures
        frames_bytes(frames) >= 0,
    decreases frames.len(),
{
    if frames.len() > 0 {
        lemma_frames_bytes_nonneg(frames.drop_last());
    }
}

/// The first frames take no more bytes than all of them.
proof fn lemma_frames_bytes_prefix(frames: Seq<MediaFrame>, k: int)
    requires
        0 <= k <= frames.len(),
    ensures
        frames_bytes(frames.take(k)) <= frames_bytes(frames),
        k > 0 ==> frames_bytes(frames.take(k)) == frames_bytes(frames.take(k - 1)) + frames[k
            - 1].payload.len(),
    decreases frames.len(),
{
    if k > 0 {
        assert(frames.take(k).drop_last() =~= frames.take(k - 1));
    }
    if k == frames.len() {
        assert(frames.take(k) =~= frames);
    } else {
        lemma_frames_bytes_prefix(frames.drop_last(), k);
        assert(frames.drop_last().take(k) =~= frames.take(k));
    }
}

/// Dropping priming packets only shrinks what is offered.
proof fn lemma_packet_bytes(packets: Seq<AacFrame>, skip: int, from: int)
    requires
        0 <= skip <= packets.len(),
    ensures
        frames_bytes(packet_frames(packets.subrange(skip, packets.len() as int), from))
            <= frames_bytes(packet_frames(packets, from)),
    decreases packets.len(),
{
    let kept = packets.subrange(skip, packets.len() as int);
    if skip == packets.len() {
        lemma_frames_bytes_nonneg(packet_frames(packets, from));
        assert(kept =~= Seq::empty());
        assert(packet_frames(kept, from) =~= Seq::empty());
    } else {
        lemma_packet_bytes(packets.drop_last(), skip, from);
        assert(packets.drop_last().subrange(skip, packets.len() - 1) =~= kept.drop_last());
        assert(packet_frames(kept, from).drop_last() =~= packet_frames(kept.drop_last(), from));
        assert(packet_frames(packets, from).drop_last() =~= packet_frames(
            packets.drop_last(),
            from,
        ));
        assert(kept.last() == packets.last());
    }
}

/// Audio time never runs backwards while it fits in 32 bits.
pub proof fn law_audio_time_moves_forward(a: int, b: int)
    requires
        0 <= a <= b,
        b * 1024 * 1000 / 48_000 < 0x1_0000_0000,
    ensures
        packet_time(a) <= packet_time(b),
{
}

/// Whatever is drained, samples stay paired: what is handed on holds whole
/// frames, and nothing is lost between two drains.
pub proof fn law_pairs_never_split(carry: Option<u32>, a: Seq<u32>, b: Seq<u32>)
    ensures
        ({
            let head = match carry {
                Some(c) => seq![c],
                None => Seq::empty(),
            };
            let one = head + a;
            let w1 = one.len() - one.len() % 2;
            let two = one.subrange(w1, one.len() as int) + b;
            let w2 = two.len() - two.len() % 2;
            &&& w1 % 2 == 0
            &&& w2 % 2 == 0
            &&& one.subrange(0, w1) + two == head + a + b
        }),
{
    let head = match carry {
        Some(c) => seq![c],
        None => Seq::empty(),
    };
    let one = head + a;
    let w1 = one.len() - one.len() % 2;
    let two = one.subrange(w1, one.len() as int) + b;
    assert(one.subrange(0, w1) + two =~= head + a + b);
}

/// A close succeeds just where nothing is forced, the thread has ended and the transport
/// is closed; every failure is one of the teardown.
pub proof fn law_a_close_needs_both_ends(
    seams: StreamSeams,
    thread_exited: bool,
    transport_closed: bool,
    r: Result<(), StreamError>,
)
    requires
        close_is(seams, thread_exited, transport_closed, r),
    ensures
        r is Ok <==> !seams.close_error && thread_exited && transport_closed,
        r matches Err(e) ==> e is Teardown,
{
}

/// A session that is over is closed and holds neither a publisher nor surfaces; its
/// endpoint, its path and its rates stay. Nothing flows from it.
pub proof fn law_a_session_that_is_over_holds_nothing(s: StreamSession, state: PublisherState)
    ensures
        s.over().closed && !s.over().publishing && !s.over().pooled,
        s.over().endpoint == s.endpoint && s.over().selection == s.selection && s.over().params
            == s.params,
        s.over().state_with(state) is Closed,
        s.over().over() == s.over(),
        s.publishing ==> s.state_with(state) == state,
        !s.publishing ==> s.state_with(state) is Closed,
{
}

/// A session publishes where it can be run and its endpoint can be reached.
pub proof fn law_a_session_publishes_to_a_target(endpoint: Seq<char>, runtime: bool)
    ensures
        publishes(endpoint, runtime) ==> runtime && target_of(endpoint) is Ok,
        runtime && target_of(endpoint) is Ok ==> publishes(endpoint, runtime),
        !publishes(endpoint, false),
{
}

/// Only a picture that a busy thread could not take is counted; a thread that has ended
/// counts nothing.
pub proof fn law_only_a_busy_thread_counts(skipped: u64, offered: Offered)
    requires
        skipped < u64::MAX,
    ensures
        skips_with(skipped, offered) == skipped + 1 <==> offered is Full,
        skips_with(skipped, offered) == skipped <==> offered is Taken || offered is Gone,
{
}

/// Surfaces are shared where they were built, unless that is forced off.
pub proof fn law_a_chain_can_only_be_forced_off(s: StreamSeams, built: bool)
    ensures
        s.chain(built) ==> built,
        s.no_chain ==> !s.chain(built),
        !s.no_chain ==> s.chain(built) == built,
{
}

/// A stream's failure is told under its token: one for surfaces that cannot be shared, one
/// for a transport that did not close.
pub proof fn law_a_stream_error_is_told_under_its_token(s: String)
    ensures
        has_prefix(StreamError::NoChain(s).text(), "E_NO_ZEROCOPY: "@),
        has_prefix(StreamError::Teardown(s).text(), "E_NETWORK: "@),
        StreamError::NoChain(s).text().skip("E_NO_ZEROCOPY: "@.len() as int) == s@,
        StreamError::Teardown(s).text().skip("E_NETWORK: "@.len() as int) == s@,
{
    let a = StreamError::NoChain(s).text();
    let b = StreamError::Teardown(s).text();
    assert(a.subrange(0, "E_NO_ZEROCOPY: "@.len() as int) =~= "E_NO_ZEROCOPY: "@);
    assert(b.subrange(0, "E_NETWORK: "@.len() as int) =~= "E_NETWORK: "@);
    assert(a.skip("E_NO_ZEROCOPY: "@.len() as int) =~= s@);
    assert(b.skip("E_NETWORK: "@.len() as int) =~= s@);
}

} // verus!

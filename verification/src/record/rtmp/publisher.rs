//! The publisher: what waits to be sent, how much of it there is, and when to
//! dial again.
//!
//! A feeder never waits: a full queue sheds the new frame and counts it. What
//! has been admitted but not written is counted exactly.

use super::chunk::{
    message_bytes, u32_at, write_chunked, Message, CSID_AUDIO, CSID_VIDEO, MAX_CHUNK_SIZE,
    MSG_AUDIO, MSG_SET_CHUNK_SIZE, MSG_VIDEO,
};
use crate::bytes::{be16, be16_bytes, concat_assoc, put, put_byte};
use vstd::prelude::*;

verus! {

broadcast use concat_assoc;

/// Default video bits per second.
pub const VIDEO_BITRATE_BPS: u64 = 8_000_000;

/// Default audio bits per second.
pub const AUDIO_BITRATE_BPS: u64 = 192_000;

/// Default bits per second of the whole stream.
pub const ENVELOPE_BITRATE_BPS: u64 = 8_192_000;

/// Frames that may wait to be sent.
pub const PUBLISH_CHANNEL_BOUND: usize = 64;

/// First pause before dialing again, in milliseconds.
pub const INITIAL_RECONNECT_PAUSE_MS: u64 = 100;

/// Longest pause before dialing again, in milliseconds.
pub const MAX_RECONNECT_PAUSE_MS: u64 = 1_000;

/// How long one attempt to connect may take, in milliseconds.
pub const CONNECT_TIMEOUT_MS: u64 = 3_000;

/// How long a stop waits for the connection to close, in milliseconds.
pub const PUBLISH_STOP_TIMEOUT_MS: u64 = 800;

/// The parameter sets that announce video when no encoder has spoken yet.
pub open spec fn standby_sps() -> Seq<u8> {
    seq![
        0x67u8, 0xF4, 0x00, 0x28, 0x91, 0x96, 0x80, 0x78, 0x02, 0x27, 0xE2, 0x70, 0x11, 0x00, 0x00,
        0x03, 0x00, 0x01, 0x00, 0x00, 0x03, 0x00, 0x3C, 0x8F, 0x18, 0x32, 0xA0,
    ]
}

/// The picture parameter set that goes with them.
pub open spec fn standby_pps() -> Seq<u8> {
    seq![0x68u8, 0xCE, 0x0F, 0x19, 0x20]
}

/// A video sequence header: a keyframe tag, then the decoder configuration
/// with the given profile, compatibility and level.
pub open spec fn sequence_header_bytes(
    profile: u8,
    compat: u8,
    level: u8,
    sps: Seq<u8>,
    pps: Seq<u8>,
) -> Seq<u8> {
    seq![0x17u8, 0, 0, 0, 0, 1, profile, compat, level, 0xFF, 0xE1] + be16_bytes(sps.len() as int)
        + sps + seq![1u8] + be16_bytes(pps.len() as int) + pps
}

/// Build a video sequence header.
pub(crate) fn sequence_header(profile: u8, compat: u8, level: u8, sps: &[u8], pps: &[u8]) -> (out:
    Vec<u8>)
    ensures
        out@ == sequence_header_bytes(profile, compat, level, sps@, pps@),
{
    let mut out: Vec<u8> = Vec::new();
    put(&mut out, &[0x17, 0, 0, 0, 0, 1, profile, compat, level, 0xFF, 0xE1]);
    proof {
        crate::bytes::lemma_be16_low(sps@.len() as int);
        crate::bytes::lemma_be16_low(pps@.len() as int);
    }
    be16(&mut out, (sps.len() as u64 % 0x1_0000) as u16);
    put(&mut out, sps);
    put_byte(&mut out, 1);
    be16(&mut out, (pps.len() as u64 % 0x1_0000) as u16);
    put(&mut out, pps);
    assert(out@ =~= sequence_header_bytes(profile, compat, level, sps@, pps@));
    out
}

/// The video sequence header that stands in until an encoder supplies its own:
/// High profile, level 4.0, 1080p.
pub fn video_sequence_header() -> (out: Vec<u8>)
    ensures
        out@ == sequence_header_bytes(0x64, 0x00, 0x28, standby_sps(), standby_pps()),
{
    let sps: [u8; 27] = [
        0x67, 0xF4, 0x00, 0x28, 0x91, 0x96, 0x80, 0x78, 0x02, 0x27, 0xE2, 0x70, 0x11, 0x00, 0x00,
        0x03, 0x00, 0x01, 0x00, 0x00, 0x03, 0x00, 0x3C, 0x8F, 0x18, 0x32, 0xA0,
    ];
    let pps: [u8; 5] = [0x68, 0xCE, 0x0F, 0x19, 0x20];
    assert(sps@ =~= standby_sps());
    assert(pps@ =~= standby_pps());
    sequence_header(0x64, 0x00, 0x28, &sps, &pps)
}

/// The audio sequence header: AAC-LC, 48 kHz, stereo.
pub fn audio_sequence_header() -> (out: Vec<u8>)
    ensures
        out@ == seq![0xAFu8, 0x00, 0x11, 0x90],
{
    let out: Vec<u8> = vec![0xAF, 0x00, 0x11, 0x90];
    assert(out@ =~= seq![0xAFu8, 0x00, 0x11, 0x90]);
    out
}

/// Whether media is flowing.
#[derive(Debug, Clone, Copy, PartialEq, Eq, Structural)]
pub enum PublisherState {
    /// The dialog is done, media flows.
    Live,
    /// Dialing, or about to.
    Reconnecting,
    /// Shut down.
    Closed,
}

/// One media message that waits to be sent.
#[derive(Debug, PartialEq, Eq)]
pub struct PublishFrame {
    /// Message type: audio or video.
    pub kind: u8,
    /// Media time in milliseconds.
    pub timestamp: u32,
    pub payload: Vec<u8>,
}

/// A media message, as contracts speak of it.
pub struct MediaFrame {
    pub kind: u8,
    pub timestamp: u32,
    pub payload: Seq<u8>,
}

impl View for PublishFrame {
    type V = MediaFrame;

    open spec fn view(&self) -> MediaFrame {
        MediaFrame { kind: self.kind, timestamp: self.timestamp, payload: self.payload@ }
    }
}

/// A video message.
pub fn video_frame(payload: Vec<u8>, timestamp: u32) -> (f: PublishFrame)
    ensures
        f@ == (MediaFrame { kind: MSG_VIDEO, timestamp, payload: payload@ }),
{
    PublishFrame { kind: MSG_VIDEO, timestamp, payload }
}

/// An audio message.
pub fn audio_frame(payload: Vec<u8>, timestamp: u32) -> (f: PublishFrame)
    ensures
        f@ == (MediaFrame { kind: MSG_AUDIO, timestamp, payload: payload@ }),
{
    PublishFrame { kind: MSG_AUDIO, timestamp, payload }
}

/// The chunk stream a kind of media travels on.
pub open spec fn media_csid(kind: u8) -> u32 {
    if kind == MSG_VIDEO {
        CSID_VIDEO
    } else {
        CSID_AUDIO
    }
}

/// A media message as the wire carries it.
pub fn write_media(frame: &PublishFrame, stream_id: u32, chunk_size: usize) -> (out: Vec<u8>)
    requires
        chunk_size >= 1,
    ensures
        out@ == message_bytes(
            (Message {
                csid: media_csid(frame.kind) as int,
                timestamp: frame.timestamp as int,
                msg_type: frame.kind,
                stream_id: stream_id as int,
                payload: frame.payload@,
            }),
            chunk_size as int,
        ),
{
    let csid: u32 = if frame.kind == MSG_VIDEO {
        CSID_VIDEO
    } else {
        CSID_AUDIO
    };
    write_chunked(
        csid,
        frame.timestamp,
        frame.kind,
        stream_id,
        frame.payload.as_slice(),
        chunk_size,
    )
}

/// Payload bytes of all frames together.
pub open spec fn queued_bytes(frames: Seq<MediaFrame>) -> int
    decreases frames.len(),
{
    if frames.len() == 0 {
        0
    } else {
        queued_bytes(frames.drop_last()) + frames.last().payload.len()
    }
}

/// What a publisher holds.
pub struct Held {
    /// Frames that wait, oldest first.
    pub queue: Seq<MediaFrame>,
    /// Payload bytes of the frame that is being written.
    pub writing: int,
    /// Payload bytes admitted and not yet written.
    pub buffered: int,
    /// Frames that were shed.
    pub shed: int,
    pub state: PublisherState,
    /// The first video message: the codec's announcement.
    pub video_seq: Option<Seq<u8>>,
    /// The first audio message: the codec's announcement.
    pub audio_seq: Option<Seq<u8>>,
}

/// The feeder's side of a publisher and its queue.
pub struct PublisherHandle {
    queue: Vec<PublishFrame>,
    writing: usize,
    buffered: usize,
    shed: u64,
    state: PublisherState,
    video_seq: Option<Vec<u8>>,
    audio_seq: Option<Vec<u8>>,
}

/// The frames of a queue.
pub open spec fn frames_of(queue: Seq<PublishFrame>) -> Seq<MediaFrame> {
    Seq::new(queue.len(), |i: int| queue[i]@)
}

/// The bytes of an optional payload.
pub open spec fn payload_of(p: Option<Vec<u8>>) -> Option<Seq<u8>> {
    match p {
        Some(v) => Some(v@),
        None => None,
    }
}

impl View for PublisherHandle {
    type V = Held;

    closed spec fn view(&self) -> Held {
        Held {
            queue: frames_of(self.queue@),
            writing: self.writing as int,
            buffered: self.buffered as int,
            shed: self.shed as int,
            state: self.state,
            video_seq: payload_of(self.video_seq),
            audio_seq: payload_of(self.audio_seq),
        }
    }
}

impl Held {
    /// The counter is exact: it counts the queue and the frame being written.
    pub open spec fn exact(self) -> bool {
        &&& self.buffered == queued_bytes(self.queue) + self.writing
        &&& self.queue.len() <= PUBLISH_CHANNEL_BOUND
        &&& self.writing >= 0
    }

    /// The codec announcements once `f` has been offered: the first message of
    /// each kind is kept, even when the frame itself is shed.
    pub open spec fn announced(self, f: MediaFrame) -> Held {
        if f.kind == MSG_VIDEO && self.video_seq is None {
            Held { video_seq: Some(f.payload), ..self }
        } else if f.kind == MSG_AUDIO && self.audio_seq is None {
            Held { audio_seq: Some(f.payload), ..self }
        } else {
            self
        }
    }

    /// What offering a frame does: shut publishers take nothing, full queues
    /// shed it, and otherwise it waits and counts.
    pub open spec fn offered(self, f: MediaFrame) -> (Held, bool) {
        let known = self.announced(f);
        if self.state == PublisherState::Closed {
            (known, false)
        } else if self.queue.len() >= PUBLISH_CHANNEL_BOUND {
            (Held { shed: self.shed + 1, ..known }, false)
        } else {
            (
                Held {
                    queue: self.queue.push(f),
                    buffered: self.buffered + f.payload.len(),
                    ..known
                },
                true,
            )
        }
    }
}

fn copy_of(data: &Vec<u8>) -> (v: Vec<u8>)
    ensures
        v@ == data@,
{
    let mut v: Vec<u8> = Vec::new();
    put(&mut v, data.as_slice());
    assert(v@ =~= data@);
    v
}

/// A frame at the end of a queue adds its bytes.
proof fn lemma_queued_push(frames: Seq<MediaFrame>, f: MediaFrame)
    ensures
        queued_bytes(frames.push(f)) == queued_bytes(frames) + f.payload.len(),
{
    assert(frames.push(f).drop_last() =~= frames);
}

/// A frame at the head of a queue takes its bytes with it.
proof fn lemma_queued_first(frames: Seq<MediaFrame>)
    requires
        frames.len() > 0,
    ensures
        queued_bytes(frames) == frames[0].payload.len() + queued_bytes(
            frames.subrange(1, frames.len() as int),
        ),
    decreases frames.len(),
{
    let rest = frames.subrange(1, frames.len() as int);
    if frames.len() > 1 {
        lemma_queued_first(frames.drop_last());
        assert(frames.drop_last().subrange(1, frames.len() - 1) =~= rest.drop_last());
        assert(rest.last() == frames.last());
    } else {
        assert(frames.drop_last() =~= Seq::empty());
        assert(rest =~= Seq::empty());
    }
}

/// A queue's bytes are not negative.
proof fn lemma_queued_nonneg(frames: Seq<MediaFrame>)
    ensures
        queued_bytes(frames) >= 0,
    decreases frames.len(),
{
    if frames.len() > 0 {
        lemma_queued_nonneg(frames.drop_last());
    }
}

impl PublisherHandle {
    /// A publisher that has not connected yet.
    pub fn new() -> (h: PublisherHandle)
        ensures
            h@ == (Held {
                queue: Seq::empty(),
                writing: 0,
                buffered: 0,
                shed: 0,
                state: PublisherState::Reconnecting,
                video_seq: None,
                audio_seq: None,
            }),
            h@.exact(),
    {
        let h: PublisherHandle = PublisherHandle {
            queue: Vec::new(),
            writing: 0,
            buffered: 0,
            shed: 0,
            state: PublisherState::Reconnecting,
            video_seq: None,
            audio_seq: None,
        };
        assert(h@.queue =~= Seq::empty());
        h
    }

    /// Offer a frame. Never waits; false means it was not taken.
    fn send(&mut self, frame: PublishFrame) -> (taken: bool)
        requires
            old(self)@.exact(),
            old(self)@.buffered + frame.payload@.len() <= usize::MAX,
            old(self)@.shed < u64::MAX,
        ensures
            final(self)@ == old(self)@.offered(frame@).0,
            taken == old(self)@.offered(frame@).1,
            final(self)@.exact(),
    {
        let ghost before = self@;
        if frame.kind == MSG_VIDEO && self.video_seq.is_none() {
            self.video_seq = Some(copy_of(&frame.payload));
        }
        if frame.kind == MSG_AUDIO && self.audio_seq.is_none() {
            self.audio_seq = Some(copy_of(&frame.payload));
        }
        if matches!(self.state, PublisherState::Closed) {
            return false;
        }
        if self.queue.len() >= PUBLISH_CHANNEL_BOUND {
            self.shed = self.shed + 1;
            return false;
        }
        self.buffered = self.buffered + frame.payload.len();
        proof {
            lemma_queued_push(before.queue, frame@);
        }
        self.queue.push(frame);
        assert(self@.queue =~= before.queue.push(frame@));
        true
    }

    /// Offer video bytes. Never waits; false means they were shed or the
    /// publisher is shut.
    pub fn try_publish_video(&mut self, payload: Vec<u8>, timestamp: u32) -> (taken: bool)
        requires
            old(self)@.exact(),
            old(self)@.buffered + payload@.len() <= usize::MAX,
            old(self)@.shed < u64::MAX,
        ensures
            ({
                let f = MediaFrame { kind: MSG_VIDEO, timestamp, payload: payload@ };
                final(self)@ == old(self)@.offered(f).0 && taken == old(self)@.offered(f).1
            }),
            final(self)@.exact(),
    {
        self.send(video_frame(payload, timestamp))
    }

    /// Offer audio bytes. Never waits; false means they were shed or the
    /// publisher is shut.
    pub fn try_publish_audio(&mut self, payload: Vec<u8>, timestamp: u32) -> (taken: bool)
        requires
            old(self)@.exact(),
            old(self)@.buffered + payload@.len() <= usize::MAX,
            old(self)@.shed < u64::MAX,
        ensures
            ({
                let f = MediaFrame { kind: MSG_AUDIO, timestamp, payload: payload@ };
                final(self)@ == old(self)@.offered(f).0 && taken == old(self)@.offered(f).1
            }),
            final(self)@.exact(),
    {
        self.send(audio_frame(payload, timestamp))
    }

    /// Take the oldest waiting frame to write it. Its bytes still count.
    pub fn begin_write(&mut self) -> (frame: Option<PublishFrame>)
        requires
            old(self)@.exact(),
            old(self)@.writing == 0,
        ensures
            final(self)@.exact(),
            frame is None <==> old(self)@.queue.len() == 0,
            frame is None ==> final(self)@ == old(self)@,
            frame matches Some(f) ==> f@ == old(self)@.queue[0] && final(self)@ == (Held {
                queue: old(self)@.queue.subrange(1, old(self)@.queue.len() as int),
                writing: f.payload@.len() as int,
                ..old(self)@
            }),
    {
        if self.queue.len() == 0 {
            return None;
        }
        let ghost before = self@;
        proof {
            lemma_queued_first(before.queue);
        }
        let frame: PublishFrame = self.queue.remove(0);
        self.writing = frame.payload.len();
        assert(self@.queue =~= before.queue.subrange(1, before.queue.len() as int));
        Some(frame)
    }

    /// The frame being written has left: written, failed or given up, its
    /// bytes no longer count.
    pub fn end_write(&mut self)
        requires
            old(self)@.exact(),
        ensures
            final(self)@ == (Held {
                writing: 0,
                buffered: old(self)@.buffered - old(self)@.writing,
                ..old(self)@
            }),
            final(self)@.exact(),
    {
        proof {
            lemma_queued_nonneg(self@.queue);
        }
        self.buffered = self.buffered - self.writing;
        self.writing = 0;
    }

    /// Drop everything that queued up during an outage: it is shed, and its
    /// bytes no longer count.
    pub fn drain_stale(&mut self)
        requires
            old(self)@.exact(),
            old(self)@.shed + PUBLISH_CHANNEL_BOUND <= u64::MAX,
        ensures
            final(self)@ == (Held {
                queue: Seq::empty(),
                buffered: old(self)@.writing,
                shed: old(self)@.shed + old(self)@.queue.len(),
                ..old(self)@
            }),
            final(self)@.exact(),
    {
        self.shed = self.shed + self.queue.len() as u64;
        self.queue.clear();
        self.buffered = self.writing;
        assert(self@.queue =~= Seq::empty());
    }

    /// Payload bytes admitted and not yet written.
    pub fn buffered_bytes(&self) -> (n: usize)
        ensures
            n == self@.buffered,
    {
        self.buffered
    }

    /// Frames that were shed.
    pub fn shed_frames(&self) -> (n: u64)
        ensures
            n == self@.shed,
    {
        self.shed
    }

    /// Whether media is flowing.
    pub fn publisher_state(&self) -> (s: PublisherState)
        ensures
            s == self@.state,
    {
        self.state
    }

    /// Note whether media is flowing.
    pub fn set_state(&mut self, state: PublisherState)
        ensures
            final(self)@ == (Held { state, ..old(self)@ }),
    {
        self.state = state;
    }

    /// The stream is being closed: no media flows any more.
    pub fn shutdown_signal(&mut self)
        ensures
            final(self)@ == (Held { state: PublisherState::Closed, ..old(self)@ }),
    {
        self.state = PublisherState::Closed;
    }

    /// The codec announcements to repeat on a new connection, video first.
    pub fn announcements(&self) -> (v: Vec<PublishFrame>)
        ensures
            frames_of(v@) == announcement_frames(self@),
    {
        let mut v: Vec<PublishFrame> = Vec::new();
        match &self.video_seq {
            Some(p) => {
                v.push(video_frame(copy_of(p), 0));
            },
            None => {},
        }
        match &self.audio_seq {
            Some(p) => {
                v.push(audio_frame(copy_of(p), 0));
            },
            None => {},
        }
        assert(frames_of(v@) =~= announcement_frames(self@));
        v
    }
}

/// The codec announcements to repeat on a new connection, video first.
pub open spec fn announcement_frames(h: Held) -> Seq<MediaFrame> {
    (match h.video_seq {
        Some(payload) => seq![MediaFrame { kind: MSG_VIDEO, timestamp: 0, payload }],
        None => Seq::empty(),
    }) + (match h.audio_seq {
        Some(payload) => seq![MediaFrame { kind: MSG_AUDIO, timestamp: 0, payload }],
        None => Seq::empty(),
    })
}

/// The chunk size to send with after these bytes arrived on a live connection:
/// a well-formed announcement of a size in range is adopted, anything else is
/// control that changes nothing.
pub open spec fn adopted_size(bytes: Seq<u8>, current: usize) -> int {
    if bytes.len() >= 16 && bytes[0] == 2 && bytes[7] == MSG_SET_CHUNK_SIZE && 128 <= u32_at(
        bytes,
        12,
    ) <= MAX_CHUNK_SIZE {
        u32_at(bytes, 12)
    } else {
        current as int
    }
}

/// The chunk size to send with after these bytes arrived on a live connection.
pub fn adopt_chunk_size(bytes: &[u8], current: usize) -> (n: usize)
    ensures
        n == adopted_size(bytes@, current),
{
    if bytes.len() >= 16 && bytes[0] == 2 && bytes[7] == MSG_SET_CHUNK_SIZE {
        let size: u32 = bytes[12] as u32 * 0x100_0000 + bytes[13] as u32 * 0x1_0000 + bytes[14]
            as u32 * 0x100 + bytes[15] as u32;
        if 128 <= size && size <= 65_536 {
            return size as usize;
        }
    }
    current
}

/// What happened to a publisher.
#[derive(Debug, Clone, Copy, PartialEq, Eq, Structural)]
pub enum PublisherEvent {
    /// The task begins.
    Started,
    /// The connection stands.
    Connected,
    /// The connection could not be made.
    ConnectFailed,
    /// The dialog ended live.
    DialogLive,
    /// The dialog failed.
    DialogFailed,
    /// The codecs have been announced.
    Announced,
    /// Announcing the codecs failed.
    AnnounceFailed,
    /// The connection was lost while live.
    TransportLost,
    /// The live loop ended because of a shutdown.
    LoopShutdown,
    /// The pause is over.
    PauseOver,
}

/// What a publisher does next.
#[derive(Debug, Clone, Copy, PartialEq, Eq, Structural)]
pub enum PublisherAction {
    /// Connect.
    Dial,
    /// Shake hands and open the stream.
    Talk,
    /// Drop what is stale, then announce the codecs.
    Announce,
    /// Send what waits.
    Pump,
    /// Pause for so many milliseconds.
    Pause(u64),
    /// End.
    Exit,
}

/// The life of a publisher: its state and how long the next pause is.
#[derive(Debug, Clone, Copy, PartialEq, Eq, Structural)]
pub struct PublisherLoop {
    pub state: PublisherState,
    pub pause_ms: u64,
}

/// Twice the pause, up to the longest.
pub open spec fn doubled_pause(ms: u64) -> u64 {
    if 2 * ms > MAX_RECONNECT_PAUSE_MS {
        MAX_RECONNECT_PAUSE_MS
    } else {
        (2 * ms) as u64
    }
}

impl PublisherLoop {
    /// A publisher that has not dialed yet.
    pub fn new() -> (l: PublisherLoop)
        ensures
            l.state == PublisherState::Reconnecting,
            l.pause_ms == INITIAL_RECONNECT_PAUSE_MS,
    {
        PublisherLoop {
            state: PublisherState::Reconnecting,
            pause_ms: INITIAL_RECONNECT_PAUSE_MS,
        }
    }

    /// What an event leads to. `closed` says that a shutdown was asked for: it
    /// ends the task before every dial. Success resets the pause, failure
    /// pauses and then doubles it.
    pub open spec fn step(self, event: PublisherEvent, closed: bool) -> (
        PublisherLoop,
        PublisherAction,
    ) {
        let ended = PublisherLoop { state: PublisherState::Closed, ..self };
        match event {
            PublisherEvent::Started => if closed {
                (ended, PublisherAction::Exit)
            } else {
                (
                    PublisherLoop { state: PublisherState::Reconnecting, ..self },
                    PublisherAction::Dial,
                )
            },
            PublisherEvent::Connected => (self, PublisherAction::Talk),
            PublisherEvent::DialogLive => (
                PublisherLoop { pause_ms: INITIAL_RECONNECT_PAUSE_MS, ..self },
                PublisherAction::Announce,
            ),
            PublisherEvent::Announced => (
                PublisherLoop { state: PublisherState::Live, ..self },
                PublisherAction::Pump,
            ),
            PublisherEvent::LoopShutdown => (ended, PublisherAction::Exit),
            PublisherEvent::ConnectFailed | PublisherEvent::DialogFailed
            | PublisherEvent::AnnounceFailed | PublisherEvent::TransportLost => (
                self,
                PublisherAction::Pause(self.pause_ms),
            ),
            PublisherEvent::PauseOver => if closed {
                (ended, PublisherAction::Exit)
            } else {
                (
                    PublisherLoop {
                        state: PublisherState::Reconnecting,
                        pause_ms: doubled_pause(self.pause_ms),
                    },
                    PublisherAction::Dial,
                )
            },
        }
    }

    /// Decide on an event.
    pub fn on_event(&mut self, event: PublisherEvent, closed: bool) -> (a: PublisherAction)
        ensures
            *final(self) == old(self).step(event, closed).0,
            a == old(self).step(event, closed).1,
    {
        match event {
            PublisherEvent::Started => {
                if closed {
                    self.state = PublisherState::Closed;
                    return PublisherAction::Exit;
                }
                self.state = PublisherState::Reconnecting;
                PublisherAction::Dial
            },
            PublisherEvent::Connected => PublisherAction::Talk,
            PublisherEvent::DialogLive => {
                self.pause_ms = INITIAL_RECONNECT_PAUSE_MS;
                PublisherAction::Announce
            },
            PublisherEvent::Announced => {
                self.state = PublisherState::Live;
                PublisherAction::Pump
            },
            PublisherEvent::LoopShutdown => {
                self.state = PublisherState::Closed;
                PublisherAction::Exit
            },
            PublisherEvent::ConnectFailed | PublisherEvent::DialogFailed
            | PublisherEvent::AnnounceFailed | PublisherEvent::TransportLost => {
                PublisherAction::Pause(self.pause_ms)
            },
            PublisherEvent::PauseOver => {
                if closed {
                    self.state = PublisherState::Closed;
                    return PublisherAction::Exit;
                }
                self.state = PublisherState::Reconnecting;
                self.pause_ms = if self.pause_ms > MAX_RECONNECT_PAUSE_MS / 2 {
                    MAX_RECONNECT_PAUSE_MS
                } else {
                    2 * self.pause_ms
                };
                PublisherAction::Dial
            },
        }
    }
}

/// Why the live loop ended.
#[derive(Debug, Clone, Copy, PartialEq, Eq, Structural)]
pub enum LoopEnd {
    /// The connection is gone.
    Transport,
    /// A shutdown was asked for.
    Shutdown,
}

/// What happened in the live loop.
#[derive(Debug, Clone, Copy, PartialEq, Eq, Structural)]
pub enum LiveEvent {
    /// A shutdown was signalled.
    ShutdownSignal,
    /// The feeder is gone.
    FeederGone,
    /// A frame was written.
    Written,
    /// Writing a frame failed.
    WriteFailed,
    /// A shutdown interrupted a write.
    WriteAbandoned,
    /// Something was read, or nothing was there.
    Read,
    /// The connection's end was read.
    Eof,
    /// Time passed.
    Tick,
}

/// Whether the live loop ends on an event, and why. `closed` says that a
/// shutdown was asked for; it counts whenever the loop looks, except that the
/// fate of a write comes first.
pub open spec fn live_end(event: LiveEvent, closed: bool) -> Option<LoopEnd> {
    match event {
        LiveEvent::ShutdownSignal | LiveEvent::FeederGone | LiveEvent::WriteAbandoned => Some(
            LoopEnd::Shutdown,
        ),
        LiveEvent::WriteFailed => Some(LoopEnd::Transport),
        LiveEvent::Eof => if closed {
            Some(LoopEnd::Shutdown)
        } else {
            Some(LoopEnd::Transport)
        },
        LiveEvent::Written | LiveEvent::Read | LiveEvent::Tick => if closed {
            Some(LoopEnd::Shutdown)
        } else {
            None
        },
    }
}

/// Whether the live loop ends on an event, and why.
pub fn live_step(event: LiveEvent, closed: bool) -> (r: Option<LoopEnd>)
    ensures
        r == live_end(event, closed),
{
    match event {
        LiveEvent::ShutdownSignal | LiveEvent::FeederGone | LiveEvent::WriteAbandoned => Some(
            LoopEnd::Shutdown,
        ),
        LiveEvent::WriteFailed => Some(LoopEnd::Transport),
        LiveEvent::Eof => if closed {
            Some(LoopEnd::Shutdown)
        } else {
            Some(LoopEnd::Transport)
        },
        LiveEvent::Written | LiveEvent::Read | LiveEvent::Tick => if closed {
            Some(LoopEnd::Shutdown)
        } else {
            None
        },
    }
}

/// Whatever happens, the pause before dialing again stays between the first
/// and the longest.
pub proof fn law_pause_is_capped(l: PublisherLoop, event: PublisherEvent, closed: bool)
    requires
        INITIAL_RECONNECT_PAUSE_MS <= l.pause_ms <= MAX_RECONNECT_PAUSE_MS,
    ensures
        INITIAL_RECONNECT_PAUSE_MS <= l.step(event, closed).0.pause_ms <= MAX_RECONNECT_PAUSE_MS,
{
}

/// A publisher is live only from the announcement of its codecs until it
/// pauses and dials again or ends.
pub proof fn law_live_means_announced(l: PublisherLoop, event: PublisherEvent, closed: bool)
    requires
        l.state != PublisherState::Live,
        l.step(event, closed).0.state == PublisherState::Live,
    ensures
        event == PublisherEvent::Announced,
        l.step(event, closed).1 == PublisherAction::Pump,
{
}

/// A frame that is refused leaves the counter of held bytes as it was, and
/// one that is taken adds exactly its payload.
pub proof fn law_buffered_bytes_are_exact(h: Held, f: MediaFrame)
    requires
        h.exact(),
    ensures
        h.offered(f).0.exact(),
        h.offered(f).0.buffered == h.buffered + (if h.offered(f).1 {
            f.payload.len() as int
        } else {
            0
        }),
{
    lemma_queued_push(h.queue, f);
}

/// The codec announcement outlives shedding: once a message of a kind has
/// been offered, its payload is repeated on every new connection.
pub proof fn law_announcements_survive_shedding(h: Held, f: MediaFrame, g: MediaFrame)
    requires
        f.kind == MSG_VIDEO,
        h.video_seq is None,
    ensures
        h.offered(f).0.offered(g).0.video_seq == Some(f.payload),
        announcement_frames(h.offered(f).0.offered(g).0)[0] == (MediaFrame {
            kind: MSG_VIDEO,
            timestamp: 0,
            payload: f.payload,
        }),
{
}

} // verus!

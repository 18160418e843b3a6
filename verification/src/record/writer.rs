//! The recording writer: which samples go into which fragment, and when.
//!
//! The header goes out before any sample, and every fragment is handed out
//! the moment it is complete, so what has been written is always a readable
//! file. Nothing is left for the end but the tail and the durations.
//!
//! A fragment holds the video samples of one second, and the audio packets
//! that start before that video ends. Recording opens at the first keyframe.
//! The first packets of the audio encoder are its priming delay and are
//! dropped.

use super::boxes::{
    ftyp_box, moov_box, no_durations, valid_parameter_sets, validate_parameter_sets,
    DurationPatches, Durations, MovieShape, AUDIO_TRACK_ID, VIDEO_TIMESCALE, VIDEO_TRACK_ID,
};
use super::fragment::{fragment_bytes, write_fragment, FragTrack, OutSample, TrackPart};
use super::{RecordError, RecordParams};
use crate::aac::{AacFrame, FRAMES_PER_PACKET};
use crate::bytes::{concat_assoc, put};
use crate::encode::{EncodedUnit, Pts};
use crate::text::{decimal, push_decimal};
use vstd::prelude::*;
use vstd::string::*;

verus! {

/// Packets dropped at the head of the audio to cover the encoder's priming.
pub const AAC_PRIMING_TRIM_PACKETS: u64 = 2;

/// Encoder priming delay, in samples.
pub const AAC_PRIMING_TRIM_SAMPLES: u64 = 2112;

/// Length of a fragment window, in video ticks: one second.
pub const FRAGMENT_TICKS: u64 = 90_000;

/// Units waiting for a first keyframe; more than this is a broken stream.
pub const MAX_PRE_IDR_UNITS: usize = 600;

/// Video samples held between windows; the oldest go first beyond it.
pub const MAX_BUFFERED_VIDEO_FRAMES: usize = 180;

/// Audio packets held between windows; the oldest go first beyond it.
pub const MAX_BUFFERED_AUDIO_PACKETS: usize = 280;

/// Audio bytes held between windows; the oldest packets go first beyond it.
pub const MAX_BUFFERED_AUDIO_BYTES: usize = 4_194_304;

/// Packets in a fragment that carries only leftover audio: just under a second.
pub const TAIL_PACKETS: usize = 46;

/// Video ticks in one audio packet.
pub const PACKET_TICKS: u64 = 1920;

/// A video sample waiting for its fragment.
pub struct BufferedVideo {
    pub data: Vec<u8>,
    /// Ticks since the recording began.
    pub start_ticks: u64,
    /// Known once the next unit has arrived.
    pub duration_ticks: Option<u32>,
    pub keyframe: bool,
}

/// A video sample, as the fragments see it.
pub struct Sample {
    pub data: Seq<u8>,
    pub start: int,
    pub duration: Option<u32>,
    pub keyframe: bool,
}

impl View for BufferedVideo {
    type V = Sample;

    open spec fn view(&self) -> Sample {
        Sample {
            data: self.data@,
            start: self.start_ticks as int,
            duration: self.duration_ticks,
            keyframe: self.keyframe,
        }
    }
}

/// What has been buffered and what has been handed out.
pub struct Pending {
    pub video: Seq<Sample>,
    pub packets: Seq<Seq<u8>>,
    /// Video ticks handed out.
    pub ticks: int,
    /// Audio packets handed out.
    pub packets_out: int,
    /// Number of the next fragment.
    pub seq: int,
}

/// The ticks a sample lasts.
pub open spec fn duration_of(s: Sample) -> int {
    match s.duration {
        Some(d) => d as int,
        None => 0,
    }
}

/// The ticks the first `m` samples last.
pub open spec fn span(video: Seq<Sample>, m: int) -> int
    decreases m,
{
    if m <= 0 {
        0
    } else {
        span(video, m - 1) + duration_of(video[m - 1])
    }
}

/// From sample `k` on, the first that does not start before `end` or is not
/// among the first `fixed`.
pub open spec fn leading(video: Seq<Sample>, k: int, fixed: int, end: int) -> int
    decreases fixed - k,
{
    if k < fixed && video[k].start < end {
        leading(video, k + 1, fixed, end)
    } else {
        k
    }
}

/// How many of `n` packets start before video tick `t`, when `packets_out`
/// packets came before them.
pub open spec fn packets_before(t: int, packets_out: int, n: int) -> int {
    let reached = (t + PACKET_TICKS - 1) / PACKET_TICKS as int - packets_out;
    if reached < 0 {
        0
    } else if reached < n {
        reached
    } else {
        n
    }
}

/// What a fragment says of one video sample.
pub open spec fn video_entry(s: Sample) -> OutSample {
    OutSample {
        duration: duration_of(s) as u32,
        size: (s.data.len() % 0x1_0000_0000) as u32,
        flags: if s.keyframe {
            0x0200_0000
        } else {
            0x0101_0000
        },
    }
}

/// What a fragment says of one audio packet.
pub open spec fn audio_entry(packet: Seq<u8>) -> OutSample {
    OutSample {
        duration: 1024,
        size: (packet.len() % 0x1_0000_0000) as u32,
        flags: 0x0200_0000,
    }
}

/// The bytes of the first `n` samples, one after the other.
pub open spec fn video_data(video: Seq<Sample>, n: int) -> Seq<u8>
    decreases n,
{
    if n <= 0 {
        Seq::empty()
    } else {
        video_data(video, n - 1) + video[n - 1].data
    }
}

/// The bytes of the first `n` packets, one after the other.
pub open spec fn packet_data(packets: Seq<Seq<u8>>, n: int) -> Seq<u8>
    decreases n,
{
    if n <= 0 {
        Seq::empty()
    } else {
        packet_data(packets, n - 1) + packets[n - 1]
    }
}

impl Pending {
    /// Samples whose duration is settled: all of them at the end, all but the
    /// newest before.
    pub open spec fn fixed(self, finishing: bool) -> int {
        if finishing || self.video.len() == 0 {
            self.video.len() as int
        } else {
            self.video.len() - 1
        }
    }

    /// The numbers of samples and packets of the next fragment, if one is due.
    ///
    /// While recording, a fragment is due when the settled samples that start
    /// in the window cover it and the audio has caught up with them. At the
    /// end, whatever is left is due, one window at a time; audio with no video
    /// left goes out in runs of just under a second.
    pub open spec fn next_fragment(self, finishing: bool) -> Option<(int, int)> {
        let end = self.ticks + FRAGMENT_TICKS;
        let m = leading(self.video, 0, self.fixed(finishing), end);
        let n = self.packets.len() as int;
        if m == 0 {
            if finishing && n > 0 {
                Some((0int, if n < TAIL_PACKETS {
                    n
                } else {
                    TAIL_PACKETS as int
                }))
            } else {
                None
            }
        } else {
            let t = self.ticks + span(self.video, m);
            let want = packets_before(t, self.packets_out, n);
            if !finishing && (t < end || (self.packets_out + want) * PACKET_TICKS < t) {
                None
            } else {
                Some((m, want))
            }
        }
    }

    /// The fragment of the first `m` samples and `n` packets.
    pub open spec fn fragment(self, m: int, n: int) -> Seq<u8> {
        fragment_bytes(
            self.seq,
            TrackPart {
                id: VIDEO_TRACK_ID,
                base_ticks: self.ticks,
                samples: Seq::new(m as nat, |i: int| video_entry(self.video[i])),
                data: video_data(self.video, m),
            },
            TrackPart {
                id: AUDIO_TRACK_ID,
                base_ticks: self.packets_out * 1024,
                samples: Seq::new(n as nat, |i: int| audio_entry(self.packets[i])),
                data: packet_data(self.packets, n),
            },
        )
    }

    /// What is left once that fragment has been handed out.
    pub open spec fn after(self, m: int, n: int) -> Pending {
        Pending {
            video: self.video.subrange(m, self.video.len() as int),
            packets: self.packets.subrange(n, self.packets.len() as int),
            ticks: self.ticks + span(self.video, m),
            packets_out: self.packets_out + n,
            seq: (self.seq + 1) % 0x1_0000_0000,
        }
    }

    /// The fragments that are due, one after the other, and what is left.
    pub open spec fn emitted(self, finishing: bool) -> (Pending, Seq<u8>)
        decreases self.video.len() + self.packets.len(),
        via Pending::emitted_decreases
    {
        match self.next_fragment(finishing) {
            None => (self, Seq::empty()),
            Some((m, n)) => {
                let rest = self.after(m, n).emitted(finishing);
                (rest.0, self.fragment(m, n) + rest.1)
            },
        }
    }

    #[via_fn]
    proof fn emitted_decreases(self, finishing: bool) {
        lemma_leading(self.video, 0, self.fixed(finishing), self.ticks + FRAGMENT_TICKS);
    }

    /// A fragment that is due holds something, and no more than is there.
    pub proof fn lemma_next_fragment(self, finishing: bool)
        ensures
            self.next_fragment(finishing) matches Some(f) ==> 0 <= f.0 <= self.fixed(finishing)
                && 0 <= f.1 <= self.packets.len() && f.0 + f.1 > 0,
    {
        lemma_leading(self.video, 0, self.fixed(finishing), self.ticks + FRAGMENT_TICKS);
    }
}

/// Where [`leading`] stops: every sample before it starts before `end`.
pub proof fn lemma_leading(video: Seq<Sample>, k: int, fixed: int, end: int)
    requires
        0 <= k <= fixed <= video.len(),
    ensures
        k <= leading(video, k, fixed, end) <= fixed,
        forall|i: int| k <= i < leading(video, k, fixed, end) ==> video[i].start < end,
        leading(video, k, fixed, end) < fixed ==> video[leading(video, k, fixed, end)].start >= end,
    decreases fixed - k,
{
    if k < fixed && video[k].start < end {
        lemma_leading(video, k + 1, fixed, end);
    }
}

/// Everything a take remembers between two pushes.
pub struct TakeState {
    pub sps: Seq<u8>,
    pub pps: Seq<u8>,
    /// The audio codec's descriptors.
    pub asc: Seq<u8>,
    pub width: u32,
    pub height: u32,
    pub fps: u32,
    /// The header has been handed out.
    pub header: bool,
    pub patches: DurationPatches,
    /// Units that came before the first keyframe.
    pub pre_idr: int,
    /// Time of the first recorded unit.
    pub base: Option<Pts>,
    /// Time of the newest recorded unit.
    pub prev: Option<Pts>,
    pub pending: Pending,
    /// Priming packets still to be dropped.
    pub priming: int,
    pub dropped_video: int,
    pub dropped_packets: int,
}

/// The recording of one take. What a push returns is to be appended to the
/// file, in order, and flushed.
pub struct RecordingWriter {
    params: RecordParams,
    asc: Vec<u8>,
    header_written: bool,
    patches: DurationPatches,
    pre_idr: usize,
    video: Vec<BufferedVideo>,
    pts_base: Option<Pts>,
    prev_pts: Option<Pts>,
    packets: Vec<Vec<u8>>,
    video_ticks_emitted: u64,
    audio_packets_emitted: u64,
    dropped_video: u64,
    dropped_audio_packets: u64,
    priming_to_skip: u64,
    seq: u32,
}

/// The samples of a vector of buffered samples.
pub open spec fn samples_of(video: Seq<BufferedVideo>) -> Seq<Sample> {
    Seq::new(video.len(), |i: int| video[i]@)
}

/// The payloads of a vector of packets.
pub open spec fn payloads_of(packets: Seq<Vec<u8>>) -> Seq<Seq<u8>> {
    Seq::new(packets.len(), |i: int| packets[i]@)
}

impl View for RecordingWriter {
    type V = TakeState;

    closed spec fn view(&self) -> TakeState {
        TakeState {
            sps: self.params.sps@,
            pps: self.params.pps@,
            asc: self.asc@,
            width: self.params.width,
            height: self.params.height,
            fps: self.params.fps,
            header: self.header_written,
            patches: self.patches,
            pre_idr: self.pre_idr as int,
            base: self.pts_base,
            prev: self.prev_pts,
            pending: Pending {
                video: samples_of(self.video@),
                packets: payloads_of(self.packets@),
                ticks: self.video_ticks_emitted as int,
                packets_out: self.audio_packets_emitted as int,
                seq: self.seq as int,
            },
            priming: self.priming_to_skip as int,
            dropped_video: self.dropped_video as int,
            dropped_packets: self.dropped_audio_packets as int,
        }
    }
}

/// No sample lasts longer than its field can say.
pub proof fn lemma_span_bound(video: Seq<Sample>, m: int)
    requires
        0 <= m <= video.len(),
    ensures
        0 <= span(video, m) <= m * 0xffff_ffff,
    decreases m,
{
    if m > 0 {
        lemma_span_bound(video, m - 1);
    }
}

/// Spans add up.
pub proof fn lemma_span_split(video: Seq<Sample>, m: int, k: int)
    requires
        0 <= m,
        0 <= k,
        m + k <= video.len(),
    ensures
        span(video.subrange(m, video.len() as int), k) + span(video, m) == span(video, m + k),
    decreases k,
{
    if k > 0 {
        lemma_span_split(video, m, k - 1);
        assert(video.subrange(m, video.len() as int)[k - 1] == video[m + k - 1]);
    }
}

impl RecordingWriter {
    /// The first `m` samples, as the fragment's header and as its bytes.
    fn video_part(video: &Vec<BufferedVideo>) -> (r: (Vec<OutSample>, Vec<u8>, u64))
        requires
            video@.len() <= 0xffff,
        ensures
            r.0@ == Seq::new(video@.len(), |i: int| video_entry(video@[i]@)),
            r.1@ == video_data(samples_of(video@), video@.len() as int),
            r.2 == span(samples_of(video@), video@.len() as int),
    {
        let ghost all = samples_of(video@);
        let mut samples: Vec<OutSample> = Vec::new();
        let mut data: Vec<u8> = Vec::new();
        let mut ticks: u64 = 0;
        let mut i: usize = 0;
        while i < video.len()
            invariant
                i <= video@.len() <= 0xffff,
                all == samples_of(video@),
                samples@ == Seq::new(i as nat, |k: int| video_entry(video@[k]@)),
                data@ == video_data(all, i as int),
                ticks == span(all, i as int),
                ticks <= i * 0xffff_ffff,
            decreases video@.len() - i,
        {
            let d: u32 = match video[i].duration_ticks {
                Some(d) => d,
                None => 0,
            };
            let len: usize = video[i].data.len();
            samples.push(
                OutSample {
                    duration: d,
                    size: (len as u64 % 0x1_0000_0000) as u32,
                    flags: if video[i].keyframe {
                        0x0200_0000
                    } else {
                        0x0101_0000
                    },
                },
            );
            put(&mut data, video[i].data.as_slice());
            ticks = ticks + d as u64;
            i = i + 1;
            assert(samples@ =~= Seq::new(i as nat, |k: int| video_entry(video@[k]@)));
        }
        (samples, data, ticks)
    }

    /// The packets, as the fragment's header and as its bytes.
    fn audio_part(packets: &Vec<Vec<u8>>) -> (r: (Vec<OutSample>, Vec<u8>))
        ensures
            r.0@ == Seq::new(packets@.len(), |i: int| audio_entry(packets@[i]@)),
            r.1@ == packet_data(payloads_of(packets@), packets@.len() as int),
    {
        let ghost all = payloads_of(packets@);
        let mut samples: Vec<OutSample> = Vec::new();
        let mut data: Vec<u8> = Vec::new();
        let mut i: usize = 0;
        while i < packets.len()
            invariant
                i <= packets@.len(),
                all == payloads_of(packets@),
                samples@ == Seq::new(i as nat, |k: int| audio_entry(packets@[k]@)),
                data@ == packet_data(all, i as int),
            decreases packets@.len() - i,
        {
            let len: usize = packets[i].len();
            samples.push(
                OutSample {
                    duration: FRAMES_PER_PACKET as u32,
                    size: (len as u64 % 0x1_0000_0000) as u32,
                    flags: 0x0200_0000,
                },
            );
            put(&mut data, packets[i].as_slice());
            i = i + 1;
            assert(samples@ =~= Seq::new(i as nat, |k: int| audio_entry(packets@[k]@)));
        }
        (samples, data)
    }

    /// Hand out the fragment of the first `n_video` samples and `n_audio`
    /// packets.
    fn emit_fragment(&mut self, n_video: usize, n_audio: usize) -> (out: Vec<u8>)
        requires
            n_video <= old(self)@.pending.video.len() <= 0xffff,
            n_audio <= old(self)@.pending.packets.len(),
            old(self)@.pending.ticks + span(old(self)@.pending.video, n_video as int) <= u64::MAX,
            (old(self)@.pending.packets_out + n_audio) * 1024 <= u64::MAX,
        ensures
            out@ == old(self)@.pending.fragment(n_video as int, n_audio as int),
            final(self)@ == (TakeState {
                pending: old(self)@.pending.after(n_video as int, n_audio as int),
                ..old(self)@
            }),
    {
        let ghost p = self@.pending;
        let ghost video0 = self.video@;
        let ghost packets0 = self.packets@;
        let rest: Vec<BufferedVideo> = self.video.split_off(n_video);
        let (vsamples, vdata, consumed): (Vec<OutSample>, Vec<u8>, u64) = Self::video_part(
            &self.video,
        );
        let left: Vec<Vec<u8>> = self.packets.split_off(n_audio);
        let (asamples, adata): (Vec<OutSample>, Vec<u8>) = Self::audio_part(&self.packets);
        proof {
            let head = samples_of(self.video@);
            assert(head =~= p.video.subrange(0, n_video as int));
            lemma_data_prefix(p.video, n_video as int, n_video as int);
            lemma_span_prefix(p.video, n_video as int, n_video as int);
            assert(vsamples@ =~= Seq::new(n_video as nat, |i: int| video_entry(p.video[i])));
            let packets = payloads_of(self.packets@);
            assert(packets =~= p.packets.subrange(0, n_audio as int));
            lemma_packets_prefix(p.packets, n_audio as int, n_audio as int);
            assert(asamples@ =~= Seq::new(n_audio as nat, |i: int| audio_entry(p.packets[i])));
            lemma_span_bound(p.video, n_video as int);
            assert(p.packets_out * 1024 <= (p.packets_out + n_audio) * 1024);
            assert(FRAMES_PER_PACKET as u64 == 1024);
        }
        let video: FragTrack = FragTrack {
            id: VIDEO_TRACK_ID,
            base_ticks: self.video_ticks_emitted,
            samples: vsamples.as_slice(),
            data: vdata.as_slice(),
        };
        let audio: FragTrack = FragTrack {
            id: AUDIO_TRACK_ID,
            base_ticks: self.audio_packets_emitted * FRAMES_PER_PACKET as u64,
            samples: asamples.as_slice(),
            data: adata.as_slice(),
        };
        let out: Vec<u8> = write_fragment(self.seq, &video, &audio);
        self.video = rest;
        self.packets = left;
        self.seq = if self.seq == u32::MAX {
            0
        } else {
            self.seq + 1
        };
        self.video_ticks_emitted = self.video_ticks_emitted + consumed;
        self.audio_packets_emitted = self.audio_packets_emitted + n_audio as u64;
        proof {
            assert(self@.pending.video =~= p.after(n_video as int, n_audio as int).video);
            assert(self@.pending.packets =~= p.after(n_video as int, n_audio as int).packets);
        }
        out
    }
}

impl Pending {
    /// How far this can run: what is buffered, added to what was handed out,
    /// fits the counters.
    spec fn fits(self) -> bool {
        &&& self.video.len() <= 0xffff
        &&& self.ticks >= 0
        &&& self.ticks + span(self.video, self.video.len() as int) <= 0x7fff_ffff_ffff_ffff
        &&& self.packets_out >= 0
        &&& self.packets_out + self.packets.len() <= 0x1f_ffff_ffff_ffff
    }

    /// Handing out a fragment keeps it so.
    proof fn lemma_fits_after(self, m: int, n: int)
        requires
            self.fits(),
            0 <= m <= self.video.len(),
            0 <= n <= self.packets.len(),
        ensures
            self.after(m, n).fits(),
            self.ticks + span(self.video, m) <= 0x7fff_ffff_ffff_ffff,
    {
        let k = self.video.len() - m;
        lemma_span_split(self.video, m, k);
        lemma_span_bound(self.video, m);
        lemma_span_bound(self.video.subrange(m, self.video.len() as int), k);
    }
}

impl RecordingWriter {
    /// How many settled samples start in the window that ends at `end`, and
    /// where the last of them ends.
    fn window(&self, fixed: usize, end: u64) -> (r: (usize, u64))
        requires
            self@.pending.fits(),
            fixed <= self@.pending.video.len(),
        ensures
            r.0 == leading(self@.pending.video, 0, fixed as int, end as int),
            r.1 == self@.pending.ticks + span(self@.pending.video, r.0 as int),
    {
        let ghost p = self@.pending;
        let mut m: usize = 0;
        let mut t: u64 = self.video_ticks_emitted;
        while m < fixed && self.video[m].start_ticks < end
            invariant
                p == self@.pending,
                p.fits(),
                m <= fixed <= self.video@.len(),
                p.video.len() == self.video@.len(),
                leading(p.video, 0, fixed as int, end as int) == leading(
                    p.video,
                    m as int,
                    fixed as int,
                    end as int,
                ),
                t == p.ticks + span(p.video, m as int),
            decreases fixed - m,
        {
            let d: u32 = match self.video[m].duration_ticks {
                Some(d) => d,
                None => 0,
            };
            proof {
                assert(p.video[m as int] == self.video@[m as int]@);
                lemma_span_split(p.video, m + 1, p.video.len() - m - 1);
                lemma_span_bound(
                    p.video.subrange(m + 1, p.video.len() as int),
                    p.video.len() - m - 1,
                );
            }
            t = t + d as u64;
            m = m + 1;
        }
        proof {
            if m < fixed {
                assert(p.video[m as int] == self.video@[m as int]@);
            }
        }
        (m, t)
    }

    /// The numbers of samples and packets of the next fragment, if one is due.
    fn due(&self, finishing: bool) -> (r: Option<(usize, usize)>)
        requires
            self@.pending.fits(),
        ensures
            match r {
                None => self@.pending.next_fragment(finishing) is None,
                Some(f) => self@.pending.next_fragment(finishing) == Some(
                    (f.0 as int, f.1 as int),
                ),
            },
    {
        let ghost p = self@.pending;
        let fixed: usize = if finishing || self.video.len() == 0 {
            self.video.len()
        } else {
            self.video.len() - 1
        };
        proof {
            lemma_span_bound(p.video, p.video.len() as int);
        }
        let end: u64 = self.video_ticks_emitted + FRAGMENT_TICKS;
        let (m, t): (usize, u64) = self.window(fixed, end);
        let n: usize = self.packets.len();
        if m == 0 {
            if finishing && n > 0 {
                let take: usize = if n < TAIL_PACKETS {
                    n
                } else {
                    TAIL_PACKETS
                };
                return Some((0, take));
            }
            return None;
        }
        proof {
            lemma_leading(p.video, 0, fixed as int, end as int);
            lemma_span_split(p.video, m as int, p.video.len() - m);
            lemma_span_bound(p.video.subrange(m as int, p.video.len() as int), p.video.len() - m);
            lemma_span_bound(p.video, m as int);
        }
        let reached: u64 = (t + PACKET_TICKS - 1) / PACKET_TICKS;
        let want: usize = if reached <= self.audio_packets_emitted {
            0
        } else if reached - self.audio_packets_emitted < n as u64 {
            (reached - self.audio_packets_emitted) as usize
        } else {
            n
        };
        if !finishing {
            let heard: u64 = self.audio_packets_emitted + want as u64;
            if t < end || heard * PACKET_TICKS < t {
                return None;
            }
        }
        Some((m, want))
    }

    /// Hand out every fragment that is due.
    fn try_emit(&mut self, finishing: bool) -> (out: Vec<u8>)
        requires
            old(self)@.pending.fits(),
        ensures
            out@ == old(self)@.pending.emitted(finishing).1,
            final(self)@ == old(self)@.drained(finishing),
            final(self)@.pending.fits(),
    {
        let ghost start = self@;
        let mut out: Vec<u8> = Vec::new();
        let mut next: Option<(usize, usize)> = self.due(finishing);
        assert(start.pending.emitted(finishing).1 =~= out@ + start.pending.emitted(finishing).1);
        while next.is_some()
            invariant
                self@.pending.fits(),
                self@ == (TakeState { pending: self@.pending, ..start }),
                start.pending.emitted(finishing).0 == self@.pending.emitted(finishing).0,
                start.pending.emitted(finishing).1 == out@ + self@.pending.emitted(finishing).1,
                match next {
                    None => self@.pending.next_fragment(finishing) is None,
                    Some(f) => self@.pending.next_fragment(finishing) == Some(
                        (f.0 as int, f.1 as int),
                    ),
                },
            decreases self@.pending.video.len() + self@.pending.packets.len(),
        {
            let ghost p = self@.pending;
            let (m, n): (usize, usize) = next.unwrap();
            proof {
                p.lemma_next_fragment(finishing);
                p.lemma_fits_after(m as int, n as int);
            }
            let fragment: Vec<u8> = self.emit_fragment(m, n);
            proof {
                concat_assoc(out@, fragment@, self@.pending.emitted(finishing).1);
            }
            put(&mut out, fragment.as_slice());
            next = self.due(finishing);
        }
        proof {
            assert(self@.pending.emitted(finishing).1 =~= Seq::<u8>::empty());
            assert(out@ + self@.pending.emitted(finishing).1 =~= out@);
        }
        out
    }
}

/// Bytes of all packets together.
pub open spec fn total_bytes(packets: Seq<Seq<u8>>) -> int
    decreases packets.len(),
{
    if packets.len() == 0 {
        0
    } else {
        packets[0].len() + total_bytes(packets.subrange(1, packets.len() as int))
    }
}

/// The packets that stay within the bounds: the oldest leave first.
pub open spec fn shed_packets(packets: Seq<Seq<u8>>) -> Seq<Seq<u8>>
    decreases packets.len(),
{
    if packets.len() > 0 && (packets.len() > MAX_BUFFERED_AUDIO_PACKETS || total_bytes(packets)
        > MAX_BUFFERED_AUDIO_BYTES) {
        shed_packets(packets.subrange(1, packets.len() as int))
    } else {
        packets
    }
}

/// The samples that stay within the bound: the oldest leave first.
pub open spec fn shed_video(video: Seq<Sample>) -> Seq<Sample> {
    if video.len() > MAX_BUFFERED_VIDEO_FRAMES {
        video.subrange(video.len() - MAX_BUFFERED_VIDEO_FRAMES, video.len() as int)
    } else {
        video
    }
}

/// The ticks a sample at `prev` lasts when the next comes at `next`: at least
/// one, held in 32 bits.
pub open spec fn sample_duration(prev: Pts, next: Pts) -> u32 {
    let d = prev.ticks_to(next, VIDEO_TIMESCALE as int);
    if d < 1 {
        1
    } else if d > i64::MAX {
        0xffff_ffff
    } else {
        (d % 0x1_0000_0000) as u32
    }
}

/// Ticks from the recording's first unit to `pts`, never negative.
pub open spec fn start_of(base: Pts, pts: Pts) -> int {
    let t = base.ticks_to(pts, VIDEO_TIMESCALE as int);
    if t < 0 {
        0
    } else if t > u64::MAX {
        u64::MAX as int
    } else {
        t
    }
}

impl TakeState {
    /// The file header this take writes.
    pub open spec fn shape(self) -> MovieShape {
        MovieShape {
            sps: self.sps,
            pps: self.pps,
            descriptors: self.asc,
            width: super::boxes::dimension(self.width),
            height: super::boxes::dimension(self.height),
        }
    }

    /// The take with one more video unit: the unit before it gets its
    /// duration.
    pub open spec fn accepted(self, data: Seq<u8>, pts: Pts, keyframe: bool) -> TakeState {
        let base = match self.base {
            Some(b) => b,
            None => pts,
        };
        let n = self.pending.video.len();
        let settled = match self.prev {
            Some(prev) if n > 0 => self.pending.video.update(
                n - 1,
                (Sample { duration: Some(sample_duration(prev, pts)), ..self.pending.video[n - 1] }),
            ),
            _ => self.pending.video,
        };
        TakeState {
            base: Some(base),
            prev: Some(pts),
            pending: Pending {
                video: settled.push(
                    (Sample { data, start: start_of(base, pts), duration: None, keyframe }),
                ),
                ..self.pending
            },
            ..self
        }
    }

    /// The take with more audio packets: the first ones are priming.
    pub open spec fn heard(self, packets: Seq<Seq<u8>>) -> TakeState {
        let skip = if packets.len() < self.priming {
            packets.len() as int
        } else {
            self.priming
        };
        TakeState {
            priming: self.priming - skip,
            pending: Pending {
                packets: self.pending.packets + packets.subrange(skip, packets.len() as int),
                ..self.pending
            },
            ..self
        }
    }

    /// The take once the bounds on what is buffered have been enforced.
    pub open spec fn capped(self) -> TakeState {
        let video = shed_video(self.pending.video);
        let packets = shed_packets(self.pending.packets);
        TakeState {
            pending: Pending { video, packets, ..self.pending },
            dropped_video: self.dropped_video + self.pending.video.len() - video.len(),
            dropped_packets: self.dropped_packets + self.pending.packets.len() - packets.len(),
            ..self
        }
    }

    /// The take once the fragments that are due have been handed out.
    pub open spec fn drained(self, finishing: bool) -> TakeState {
        TakeState { pending: self.pending.emitted(finishing).0, ..self }
    }

    /// The counters are far from their limits.
    pub open spec fn has_room(self) -> bool {
        &&& self.pending.ticks <= 0x3fff_ffff_ffff_ffff
        &&& self.pending.packets_out <= 0xf_ffff_ffff_ffff
        &&& self.pending.packets.len() <= 0xffff_ffff
        &&& self.dropped_video <= 0x3fff_ffff_ffff_ffff
        &&& self.dropped_packets <= 0x3fff_ffff_ffff_ffff
    }
}

impl TakeState {
    /// What pushing one video unit does: the take afterwards, and the bytes to
    /// append or the refusal.
    ///
    /// Before the first keyframe units are only counted, and too many of them
    /// are refused. The first keyframe opens the file, unless the parameter
    /// sets are unusable.
    pub open spec fn video_pushed(self, data: Seq<u8>, pts: Pts, keyframe: bool) -> (
        TakeState,
        Result<Seq<u8>, Seq<char>>,
    ) {
        if !self.header && !keyframe {
            if self.pre_idr >= MAX_PRE_IDR_UNITS {
                (self, Err(decimal(self.pre_idr as nat) + PRE_IDR_REFUSAL@))
            } else {
                (TakeState { pre_idr: self.pre_idr + 1, ..self }, Ok(Seq::empty()))
            }
        } else if !self.header && !valid_parameter_sets(self.sps, self.pps) {
            (
                TakeState { pre_idr: 0, ..self },
                Err(super::boxes::parameter_set_refusal(self.sps, self.pps)),
            )
        } else {
            let opened = if self.header {
                self
            } else {
                TakeState {
                    header: true,
                    pre_idr: 0,
                    patches: self.shape().duration_offsets(),
                    ..self
                }
            };
            let head = if self.header {
                Seq::empty()
            } else {
                self.shape().init_segment(no_durations())
            };
            let full = opened.accepted(data, pts, keyframe);
            (full.drained(false).capped(), Ok(head + full.pending.emitted(false).1))
        }
    }

    /// What pushing audio packets does.
    pub open spec fn audio_pushed(self, packets: Seq<Seq<u8>>) -> (TakeState, Seq<u8>) {
        let full = self.heard(packets);
        (full.drained(false).capped(), full.pending.emitted(false).1)
    }

    /// The take with a duration for its newest sample: that of the sample
    /// before it, or one frame, at least one tick.
    pub open spec fn tail_settled(self) -> TakeState {
        let n = self.pending.video.len();
        if n > 0 && self.pending.video[n - 1].duration is None {
            let nominal: u32 = (VIDEO_TIMESCALE / (if self.fps == 0 {
                1
            } else {
                self.fps
            })) as u32;
            let d: u32 = if n > 1 && self.pending.video[n - 2].duration is Some {
                self.pending.video[n - 2].duration->0
            } else {
                nominal
            };
            let last = Sample {
                duration: Some(
                    if d == 0 {
                        1
                    } else {
                        d
                    },
                ),
                ..self.pending.video[n - 1]
            };
            TakeState {
                pending: Pending { video: self.pending.video.update(n - 1, last), ..self.pending },
                ..self
            }
        } else {
            self
        }
    }

    /// The take with the encoder's last packets, ready for its last fragments.
    pub open spec fn closing(self, packets: Seq<Seq<u8>>) -> TakeState {
        self.tail_settled().heard(packets)
    }
}

/// The end of the message that refuses a stream without a keyframe.
pub const PRE_IDR_REFUSAL: &'static str =
    " pre-IDR units with no keyframe; refusing broken stream";

/// The durations of a take that handed out so many ticks and packets.
pub open spec fn durations_of(ticks: int, packets_out: int) -> Durations {
    let video_ms = ((ticks * 1000 / 90_000) % 0x1_0000_0000) as u32;
    let audio_ms = ((packets_out * 1024 * 1000 / 48_000) % 0x1_0000_0000) as u32;
    Durations {
        mvhd: if video_ms > audio_ms {
            video_ms
        } else {
            audio_ms
        },
        tkhd_video: video_ms,
        tkhd_audio: audio_ms,
        mdhd_video: if ticks > u32::MAX {
            u32::MAX
        } else {
            ticks as u32
        },
        mdhd_audio: if packets_out * 1024 > u32::MAX {
            u32::MAX
        } else {
            (packets_out * 1024) as u32
        },
    }
}

/// The four-byte writes that put the durations into the header.
pub open spec fn patch_list(at: DurationPatches, d: Durations) -> Seq<(usize, u32)> {
    seq![
        (at.mvhd, d.mvhd),
        (at.tkhd_video, d.tkhd_video),
        (at.tkhd_audio, d.tkhd_audio),
        (at.mdhd_video, d.mdhd_video),
        (at.mdhd_audio, d.mdhd_audio),
    ]
}

/// Shedding keeps the newest packets, within both bounds.
pub proof fn lemma_shed_packets(packets: Seq<Seq<u8>>)
    ensures
        shed_packets(packets).len() <= packets.len(),
        shed_packets(packets).len() <= MAX_BUFFERED_AUDIO_PACKETS,
        total_bytes(shed_packets(packets)) <= MAX_BUFFERED_AUDIO_BYTES,
        shed_packets(packets) == packets.subrange(
            packets.len() - shed_packets(packets).len(),
            packets.len() as int,
        ),
    decreases packets.len(),
{
    if packets.len() > 0 && (packets.len() > MAX_BUFFERED_AUDIO_PACKETS || total_bytes(packets)
        > MAX_BUFFERED_AUDIO_BYTES) {
        let rest = packets.subrange(1, packets.len() as int);
        lemma_shed_packets(rest);
        assert(shed_packets(packets) =~= packets.subrange(
            packets.len() - shed_packets(packets).len(),
            packets.len() as int,
        ));
    } else {
        assert(packets =~= packets.subrange(0, packets.len() as int));
    }
}

/// A take that has recorded nothing.
pub open spec fn empty_take(params: RecordParams, asc: Seq<u8>) -> TakeState {
    TakeState {
        sps: params.sps@,
        pps: params.pps@,
        asc,
        width: params.width,
        height: params.height,
        fps: params.fps,
        header: false,
        patches: DurationPatches {
            mvhd: 0,
            tkhd_video: 0,
            tkhd_audio: 0,
            mdhd_video: 0,
            mdhd_audio: 0,
        },
        pre_idr: 0,
        base: None,
        prev: None,
        pending: Pending {
            video: Seq::empty(),
            packets: Seq::empty(),
            ticks: 0,
            packets_out: 0,
            seq: 1,
        },
        priming: AAC_PRIMING_TRIM_PACKETS as int,
        dropped_video: 0,
        dropped_packets: 0,
    }
}

/// The payloads of a vector of audio frames.
pub open spec fn frame_payloads(frames: Seq<AacFrame>) -> Seq<Seq<u8>> {
    Seq::new(frames.len(), |i: int| frames[i].data@)
}

fn copy_of(data: &Vec<u8>) -> (v: Vec<u8>)
    ensures
        v@ == data@,
{
    let mut v: Vec<u8> = Vec::new();
    put(&mut v, data.as_slice());
    assert(v@ =~= data@);
    v
}

/// How a finished take closes its file: bytes to append, then four-byte
/// big-endian values to write over the header.
pub struct FinishedTake {
    pub tail: Vec<u8>,
    pub patches: Vec<(usize, u32)>,
}

impl RecordingWriter {
    /// What every push needs and keeps: all samples but the newest have a
    /// duration, no more is buffered than the bounds allow, and the header's
    /// size can be counted.
    pub closed spec fn wf(self) -> bool {
        &&& self.video@.len() <= MAX_BUFFERED_VIDEO_FRAMES
        &&& forall|i: int|
            0 <= i < self.video@.len() - 1 ==> (#[trigger] self.video@[i]).duration_ticks is Some
        &&& self.video@.len() > 0 ==> self.prev_pts is Some
        &&& self.pre_idr <= MAX_PRE_IDR_UNITS
        &&& self.params.sps@.len() + self.params.pps@.len() + self.asc@.len() + 4096 <= usize::MAX
    }

    /// A take that has recorded nothing. `asc` is the audio codec's
    /// descriptors.
    pub fn create(params: RecordParams, asc: Vec<u8>) -> (w: RecordingWriter)
        requires
            params.sps@.len() + params.pps@.len() + asc@.len() + 4096 <= usize::MAX,
        ensures
            w.wf(),
            w@ == empty_take(params, asc@),
    {
        let w: RecordingWriter = RecordingWriter {
            params,
            asc,
            header_written: false,
            patches: DurationPatches {
                mvhd: 0,
                tkhd_video: 0,
                tkhd_audio: 0,
                mdhd_video: 0,
                mdhd_audio: 0,
            },
            pre_idr: 0,
            video: Vec::new(),
            pts_base: None,
            prev_pts: None,
            packets: Vec::new(),
            video_ticks_emitted: 0,
            audio_packets_emitted: 0,
            dropped_video: 0,
            dropped_audio_packets: 0,
            priming_to_skip: AAC_PRIMING_TRIM_PACKETS,
            seq: 1,
        };
        assert(w@.pending.video =~= Seq::empty());
        assert(w@.pending.packets =~= Seq::empty());
        w
    }

    /// Samples waiting for their fragment.
    pub fn buffered_video_len(&self) -> (n: usize)
        ensures
            n == self@.pending.video.len(),
    {
        self.video.len()
    }

    /// Packets waiting for their fragment.
    pub fn buffered_audio_packets(&self) -> (n: usize)
        ensures
            n == self@.pending.packets.len(),
    {
        self.packets.len()
    }

    /// Samples dropped to stay within the bound.
    pub fn dropped_video(&self) -> (n: u64)
        ensures
            n == self@.dropped_video,
    {
        self.dropped_video
    }

    /// Packets dropped to stay within the bounds.
    pub fn dropped_audio_packets(&self) -> (n: u64)
        ensures
            n == self@.dropped_packets,
    {
        self.dropped_audio_packets
    }

    /// Whether the counters are far from their limits.
    pub fn has_room(&self) -> (r: bool)
        ensures
            r == self@.has_room(),
    {
        self.video_ticks_emitted <= 0x3fff_ffff_ffff_ffff && self.audio_packets_emitted
            <= 0xf_ffff_ffff_ffff && self.packets.len() as u64 <= 0xffff_ffff && self.dropped_video
            <= 0x3fff_ffff_ffff_ffff && self.dropped_audio_packets <= 0x3fff_ffff_ffff_ffff
    }

    /// Install the stream's parameter sets. Refused once the header is out.
    pub fn set_parameter_sets(&mut self, sps: Vec<u8>, pps: Vec<u8>) -> (r: Result<(), RecordError>)
        requires
            old(self).wf(),
            sps@.len() + pps@.len() + old(self)@.asc.len() + 4096 <= usize::MAX,
        ensures
            final(self).wf(),
            r is Ok <==> !old(self)@.header,
            r is Ok ==> final(self)@ == (TakeState { sps: sps@, pps: pps@, ..old(self)@ }),
            r matches Err(e) ==> final(self)@ == old(self)@ && e is Input && e->Input_0@
                == "parameter sets arrived after the header was written"@,
    {
        if self.header_written {
            return Err(
                RecordError::Input(
                    "parameter sets arrived after the header was written".to_owned(),
                ),
            );
        }
        self.params.sps = sps;
        self.params.pps = pps;
        Ok(())
    }

    /// Drop the oldest samples and packets beyond the bounds, and count them.
    fn enforce_buffer_caps(&mut self)
        requires
            old(self)@.dropped_video + old(self)@.pending.video.len() <= u64::MAX,
            old(self)@.dropped_packets + old(self)@.pending.packets.len() <= u64::MAX,
        ensures
            final(self)@ == old(self)@.capped(),
            final(self).video@.len() <= MAX_BUFFERED_VIDEO_FRAMES,
            final(self).video@ == old(self).video@.subrange(
                old(self).video@.len() - final(self).video@.len(),
                old(self).video@.len() as int,
            ),
            final(self).params == old(self).params,
            final(self).asc == old(self).asc,
    {
        let ghost before = self@;
        let ghost video0 = self.video@;
        if self.video.len() > MAX_BUFFERED_VIDEO_FRAMES {
            let excess: usize = self.video.len() - MAX_BUFFERED_VIDEO_FRAMES;
            let kept: Vec<BufferedVideo> = self.video.split_off(excess);
            self.video = kept;
            self.dropped_video = self.dropped_video + excess as u64;
        }
        assert(self@.pending.video =~= shed_video(before.pending.video));
        assert(self.video@ =~= video0.subrange(
            video0.len() - self.video@.len(),
            video0.len() as int,
        ));
        self.shed_audio();
        assert(self@ == before.capped());
    }

    /// Drop the oldest packets beyond the bounds, and count them.
    fn shed_audio(&mut self)
        requires
            old(self)@.dropped_packets + old(self)@.pending.packets.len() <= u64::MAX,
        ensures
            final(self)@ == (TakeState {
                pending: Pending {
                    packets: shed_packets(old(self)@.pending.packets),
                    ..old(self)@.pending
                },
                dropped_packets: old(self)@.dropped_packets + old(self)@.pending.packets.len()
                    - shed_packets(old(self)@.pending.packets).len(),
                ..old(self)@
            }),
            final(self).video == old(self).video,
            final(self).params == old(self).params,
            final(self).asc == old(self).asc,
    {
        let ghost all = self@.pending.packets;
        // From the newest backwards, the packets that fit.
        let n: usize = self.packets.len();
        let mut keep: usize = 0;
        let mut bytes: u64 = 0;
        while keep < n && keep < MAX_BUFFERED_AUDIO_PACKETS && self.packets[n - 1 - keep].len()
            as u64 <= MAX_BUFFERED_AUDIO_BYTES as u64 - bytes
            invariant
                n == self.packets@.len(),
                all == payloads_of(self.packets@),
                keep <= n,
                keep <= MAX_BUFFERED_AUDIO_PACKETS,
                bytes == total_bytes(all.subrange(n - keep, n as int)),
                bytes <= MAX_BUFFERED_AUDIO_BYTES,
            decreases n - keep,
        {
            bytes = bytes + self.packets[n - 1 - keep].len() as u64;
            keep = keep + 1;
            proof {
                let t = all.subrange(n - keep, n as int);
                assert(t[0] == self.packets@[n - keep]@);
                assert(t.subrange(1, t.len() as int) =~= all.subrange(n - keep + 1, n as int));
            }
        }
        proof {
            let t = all.subrange(n - keep, n as int);
            if keep < n {
                let u = all.subrange(n - keep - 1, n as int);
                assert(u[0] == self.packets@[n - keep - 1]@);
                assert(u.subrange(1, u.len() as int) =~= t);
            }
            lemma_shed_to(all, keep as int);
        }
        let kept: Vec<Vec<u8>> = self.packets.split_off(n - keep);
        self.dropped_audio_packets = self.dropped_audio_packets + (n - keep) as u64;
        self.packets = kept;
        assert(self@.pending.packets =~= shed_packets(all));
    }
}

/// Whether a block of interleaved samples can be encoded: whole stereo frames
/// only. An empty block is fine and encodes to nothing.
pub fn check_audio_block(samples: usize) -> (r: Result<(), RecordError>)
    ensures
        r is Ok <==> samples % 2 == 0,
        r matches Err(e) ==> e is Input && e->Input_0@ == "audio must be whole stereo frames"@,
{
    if samples % 2 == 0 {
        Ok(())
    } else {
        Err(RecordError::Input("audio must be whole stereo frames".to_owned()))
    }
}

impl RecordingWriter {
    /// Take one more unit into the buffer; the unit before it gets its
    /// duration.
    fn accept(&mut self, unit: &EncodedUnit)
        requires
            old(self).wf(),
        ensures
            final(self)@ == old(self)@.accepted(unit.data@, unit.pts, unit.is_keyframe),
            final(self).video@.len() == old(self).video@.len() + 1,
            forall|i: int|
                0 <= i < final(self).video@.len() - 1 ==> (#[trigger] final(self).video@[i]).duration_ticks is Some,
            final(self).prev_pts is Some,
            final(self).params == old(self).params,
            final(self).asc == old(self).asc,
            final(self).pre_idr == old(self).pre_idr,
    {
        let ghost s = self@;
        let base: Pts = match self.pts_base {
            Some(b) => b,
            None => unit.pts,
        };
        self.pts_base = Some(base);
        let rel: i128 = base.ticks_between(unit.pts, VIDEO_TIMESCALE);
        let start_ticks: u64 = if rel < 0 {
            0
        } else if rel > u64::MAX as i128 {
            u64::MAX
        } else {
            rel as u64
        };
        let n: usize = self.video.len();
        match self.prev_pts {
            Some(prev) => {
                if n > 0 {
                    let d: i128 = prev.ticks_between(unit.pts, VIDEO_TIMESCALE);
                    let ticks: u32 = if d < 1 {
                        1
                    } else if d > i64::MAX as i128 {
                        0xffff_ffff
                    } else {
                        (d as u64 % 0x1_0000_0000) as u32
                    };
                    let mut last: BufferedVideo = match self.video.pop() {
                        Some(v) => v,
                        None => return,
                    };
                    last.duration_ticks = Some(ticks);
                    self.video.push(last);
                }
            },
            None => {},
        }
        self.prev_pts = Some(unit.pts);
        self.video.push(
            BufferedVideo {
                data: copy_of(&unit.data),
                start_ticks,
                duration_ticks: None,
                keyframe: unit.is_keyframe,
            },
        );
        assert(self@.pending.video =~= s.accepted(
            unit.data@,
            unit.pts,
            unit.is_keyframe,
        ).pending.video);
    }

    /// Push one video unit: what it returns is to be appended to the file.
    pub fn push_video(&mut self, unit: &EncodedUnit) -> (r: Result<Vec<u8>, RecordError>)
        requires
            old(self).wf(),
            old(self)@.has_room(),
        ensures
            final(self).wf(),
            ({
                let pushed = old(self)@.video_pushed(unit.data@, unit.pts, unit.is_keyframe);
                &&& final(self)@ == pushed.0
                &&& match (r, pushed.1) {
                    (Ok(bytes), Ok(b)) => bytes@ == b,
                    (Err(RecordError::Input(e)), Err(why)) => e@ == why,
                    _ => false,
                }
            }),
    {
        let mut out: Vec<u8> = Vec::new();
        if !self.header_written {
            if !unit.is_keyframe {
                if self.pre_idr >= MAX_PRE_IDR_UNITS {
                    let mut why: String = String::new();
                    push_decimal(&mut why, self.pre_idr as u64);
                    why.append(PRE_IDR_REFUSAL);
                    assert(why@ =~= decimal(self.pre_idr as nat) + PRE_IDR_REFUSAL@);
                    return Err(RecordError::Input(why));
                }
                self.pre_idr = self.pre_idr + 1;
                return Ok(out);
            }
            self.pre_idr = 0;
            match validate_parameter_sets(self.params.sps.as_slice(), self.params.pps.as_slice()) {
                Ok(()) => {},
                Err(e) => return Err(e),
            }
            let head: Vec<u8> = ftyp_box();
            match moov_box(
                self.params.sps.as_slice(),
                self.params.pps.as_slice(),
                self.asc.as_slice(),
                &self.params,
            ) {
                Ok((moov, patches)) => {
                    out = head;
                    put(&mut out, moov.as_slice());
                    self.patches = patches;
                },
                Err(e) => return Err(e),
            }
            self.header_written = true;
        }
        let ghost opened = self@;
        self.accept(unit);
        let ghost full = self@;
        proof {
            lemma_span_bound(full.pending.video, full.pending.video.len() as int);
        }
        let bytes: Vec<u8> = self.emit_and_cap();
        let ghost head = out@;
        put(&mut out, bytes.as_slice());
        assert(out@ == head + full.pending.emitted(false).1);
        Ok(out)
    }

    /// Hand out what is due, then enforce the bounds.
    fn emit_and_cap(&mut self) -> (out: Vec<u8>)
        requires
            old(self)@.pending.fits(),
            old(self)@.dropped_video <= 0x3fff_ffff_ffff_ffff,
            old(self)@.dropped_packets <= 0x3fff_ffff_ffff_ffff,
            forall|i: int|
                0 <= i < old(self).video@.len() - 1 ==> (#[trigger] old(self).video@[i]).duration_ticks is Some,
            old(self).video@.len() > 0 ==> old(self).prev_pts is Some,
            old(self).pre_idr <= MAX_PRE_IDR_UNITS,
            old(self).params.sps@.len() + old(self).params.pps@.len() + old(self).asc@.len() + 4096
                <= usize::MAX,
        ensures
            out@ == old(self)@.pending.emitted(false).1,
            final(self)@ == old(self)@.drained(false).capped(),
            final(self).wf(),
    {
        let ghost full = self@;
        let ghost video0 = self.video@;
        let out: Vec<u8> = self.try_emit(false);
        proof {
            full.pending.lemma_emitted_suffix(false);
            let k = full.pending.video.len() - self@.pending.video.len();
            assert forall|i: int| 0 <= i < self.video@.len() - 1 implies (
            #[trigger] self.video@[i]).duration_ticks is Some by {
                assert(self@.pending.video[i] == self.video@[i]@);
                assert(self@.pending.video[i] == full.pending.video[k + i]);
                assert(full.pending.video[k + i] == video0[k + i]@);
            }
        }
        let ghost video1 = self.video@;
        self.enforce_buffer_caps();
        proof {
            let k = video1.len() - self.video@.len();
            assert forall|i: int| 0 <= i < self.video@.len() - 1 implies (
            #[trigger] self.video@[i]).duration_ticks is Some by {
                assert(self.video@[i] == video1[k + i]);
            }
        }
        out
    }

    /// Keep the packets that are not priming.
    fn ingest(&mut self, frames: Vec<AacFrame>)
        ensures
            final(self)@ == old(self)@.heard(frame_payloads(frames@)),
            final(self).video == old(self).video,
            final(self).prev_pts == old(self).prev_pts,
            final(self).pre_idr == old(self).pre_idr,
            final(self).params == old(self).params,
            final(self).asc == old(self).asc,
    {
        let ghost s = self@;
        let ghost all = frame_payloads(frames@);
        let mut i: usize = 0;
        assert(s.heard(all.take(0)).pending.packets =~= s.pending.packets);
        while i < frames.len()
            invariant
                i <= frames@.len(),
                all == frame_payloads(frames@),
                s == old(self)@,
                self@ == s.heard(all.take(i as int)),
                self.video == old(self).video,
                self.prev_pts == old(self).prev_pts,
                self.pre_idr == old(self).pre_idr,
                self.params == old(self).params,
                self.asc == old(self).asc,
            decreases frames@.len() - i,
        {
            let ghost before = self@;
            if self.priming_to_skip > 0 {
                self.priming_to_skip = self.priming_to_skip - 1;
            } else {
                self.packets.push(copy_of(&frames[i].data));
            }
            i = i + 1;
            proof {
                let now = all.take(i as int);
                let past = all.take(i - 1);
                if before.priming > 0 {
                    assert(now.subrange(i as int, i as int) =~= past.subrange(i - 1, i - 1));
                } else {
                    let skip = s.priming;
                    assert(now.subrange(skip, i as int) =~= past.subrange(skip, i - 1).push(
                        all[i - 1],
                    ));
                    assert(self@.pending.packets =~= before.pending.packets.push(all[i - 1]));
                }
                assert(self@.pending.packets =~= s.heard(now).pending.packets);
            }
        }
        assert(all.take(i as int) =~= all);
    }

    /// Push audio packets: what it returns is to be appended to the file.
    pub fn push_audio(&mut self, frames: Vec<AacFrame>) -> (out: Vec<u8>)
        requires
            old(self).wf(),
            old(self)@.has_room(),
            frames@.len() <= 0xffff_ffff,
        ensures
            final(self).wf(),
            final(self)@ == old(self)@.audio_pushed(frame_payloads(frames@)).0,
            out@ == old(self)@.audio_pushed(frame_payloads(frames@)).1,
    {
        self.ingest(frames);
        proof {
            lemma_span_bound(self@.pending.video, self@.pending.video.len() as int);
        }
        self.emit_and_cap()
    }

    /// Settle the newest sample's duration.
    fn settle_tail(&mut self)
        requires
            old(self).wf(),
        ensures
            final(self)@ == old(self)@.tail_settled(),
            final(self).video@.len() == old(self).video@.len(),
    {
        let ghost s = self@;
        let n: usize = self.video.len();
        if n == 0 {
            return;
        }
        let nominal: u32 = VIDEO_TIMESCALE / (if self.params.fps == 0 {
            1
        } else {
            self.params.fps
        });
        let mut d: u32 = nominal;
        if n > 1 {
            match self.video[n - 2].duration_ticks {
                Some(x) => {
                    d = x;
                },
                None => {},
            }
        }
        if d == 0 {
            d = 1;
        }
        proof {
            assert(s.pending.video[n - 1] == self.video@[n - 1]@);
            if n > 1 {
                assert(s.pending.video[n - 2] == self.video@[n - 2]@);
            }
        }
        let mut last: BufferedVideo = match self.video.pop() {
            Some(v) => v,
            None => return,
        };
        if last.duration_ticks.is_none() {
            last.duration_ticks = Some(d);
        }
        self.video.push(last);
        assert(self@.pending.video =~= s.tail_settled().pending.video);
    }

    /// End the take: `tail` is what the audio encoder had left.
    pub fn finish(self, tail: Vec<AacFrame>) -> (done: FinishedTake)
        requires
            self.wf(),
            self@.has_room(),
            tail@.len() <= 0xffff_ffff,
        ensures
            ({
                let last = self@.closing(frame_payloads(tail@)).pending.emitted(true);
                &&& done.tail@ == last.1
                &&& done.patches@ == patch_list(
                    self@.patches,
                    durations_of(last.0.ticks, last.0.packets_out),
                )
            }),
    {
        let mut w: RecordingWriter = self;
        w.settle_tail();
        w.ingest(tail);
        proof {
            lemma_span_bound(w@.pending.video, w@.pending.video.len() as int);
        }
        let bytes: Vec<u8> = w.try_emit(true);
        let patches: Vec<(usize, u32)> = w.duration_patches();
        FinishedTake { tail: bytes, patches }
    }

    /// The durations of what has been handed out, and where they go.
    fn duration_patches(&self) -> (patches: Vec<(usize, u32)>)
        requires
            self@.pending.fits(),
        ensures
            patches@ == patch_list(
                self@.patches,
                durations_of(self@.pending.ticks, self@.pending.packets_out),
            ),
    {
        let video_ticks: u128 = self.video_ticks_emitted as u128;
        let audio_ticks: u128 = self.audio_packets_emitted as u128 * 1024;
        let video_ms: u32 = ((video_ticks * 1000 / 90_000) % 0x1_0000_0000) as u32;
        let audio_ms: u32 = ((audio_ticks * 1000 / 48_000) % 0x1_0000_0000) as u32;
        let mut patches: Vec<(usize, u32)> = Vec::new();
        patches.push(
            (
                self.patches.mvhd,
                if video_ms > audio_ms {
                    video_ms
                } else {
                    audio_ms
                },
            ),
        );
        patches.push((self.patches.tkhd_video, video_ms));
        patches.push((self.patches.tkhd_audio, audio_ms));
        patches.push(
            (
                self.patches.mdhd_video,
                if video_ticks > u32::MAX as u128 {
                    u32::MAX
                } else {
                    video_ticks as u32
                },
            ),
        );
        patches.push(
            (
                self.patches.mdhd_audio,
                if audio_ticks > u32::MAX as u128 {
                    u32::MAX
                } else {
                    audio_ticks as u32
                },
            ),
        );
        assert(patches@ =~= patch_list(
            self@.patches,
            durations_of(self@.pending.ticks, self@.pending.packets_out),
        ));
        patches
    }
}

impl Pending {
    /// What is left after handing out is the newest of what was there.
    pub proof fn lemma_emitted_suffix(self, finishing: bool)
        ensures
            ({
                let left = self.emitted(finishing).0;
                &&& left.video.len() <= self.video.len()
                &&& left.video == self.video.subrange(
                    self.video.len() - left.video.len(),
                    self.video.len() as int,
                )
                &&& left.packets.len() <= self.packets.len()
                &&& left.packets == self.packets.subrange(
                    self.packets.len() - left.packets.len(),
                    self.packets.len() as int,
                )
            }),
        decreases self.video.len() + self.packets.len(),
    {
        self.lemma_next_fragment(finishing);
        let left = self.emitted(finishing).0;
        match self.next_fragment(finishing) {
            None => {
                assert(self.video =~= self.video.subrange(0, self.video.len() as int));
                assert(self.packets =~= self.packets.subrange(0, self.packets.len() as int));
            },
            Some((m, n)) => {
                self.after(m, n).lemma_emitted_suffix(finishing);
                assert(left.video =~= self.video.subrange(
                    self.video.len() - left.video.len(),
                    self.video.len() as int,
                ));
                assert(left.packets =~= self.packets.subrange(
                    self.packets.len() - left.packets.len(),
                    self.packets.len() as int,
                ));
            },
        }
    }
}

/// Dropping packets from a run only shrinks its bytes.
proof fn lemma_total_grows(packets: Seq<Seq<u8>>, from: int)
    requires
        0 <= from <= packets.len(),
    ensures
        total_bytes(packets.subrange(from, packets.len() as int)) <= total_bytes(packets),
    decreases packets.len(),
{
    let n = packets.len() as int;
    if from == 0 {
        assert(packets.subrange(0, n) =~= packets);
    } else {
        let rest = packets.subrange(1, n);
        lemma_total_grows(rest, from - 1);
        assert(rest.subrange(from - 1, n - 1) =~= packets.subrange(from, n));
    }
}

/// The newest `keep` packets are what shedding leaves when they fit and one
/// more would not.
proof fn lemma_shed_to(packets: Seq<Seq<u8>>, keep: int)
    requires
        0 <= keep <= packets.len(),
        keep <= MAX_BUFFERED_AUDIO_PACKETS,
        total_bytes(packets.subrange(packets.len() - keep, packets.len() as int))
            <= MAX_BUFFERED_AUDIO_BYTES,
        keep < packets.len() ==> keep + 1 > MAX_BUFFERED_AUDIO_PACKETS || total_bytes(
            packets.subrange(packets.len() - keep - 1, packets.len() as int),
        ) > MAX_BUFFERED_AUDIO_BYTES,
    ensures
        shed_packets(packets) == packets.subrange(packets.len() - keep, packets.len() as int),
    decreases packets.len(),
{
    let n = packets.len() as int;
    if keep == n {
        assert(packets.subrange(0, n) =~= packets);
    } else {
        let rest = packets.subrange(1, n);
        lemma_total_grows(packets, n - keep - 1);
        assert(rest.subrange(n - 1 - keep, n - 1) =~= packets.subrange(n - keep, n));
        if keep < n - 1 {
            assert(rest.subrange(n - 2 - keep, n - 1) =~= packets.subrange(n - keep - 1, n));
        }
        lemma_shed_to(rest, keep);
    }
}

/// The first samples' bytes depend on those samples alone.
proof fn lemma_data_prefix(video: Seq<Sample>, m: int, k: int)
    requires
        0 <= k <= m <= video.len(),
    ensures
        video_data(video.subrange(0, m), k) == video_data(video, k),
    decreases k,
{
    if k > 0 {
        lemma_data_prefix(video, m, k - 1);
    }
}

/// The first packets' bytes depend on those packets alone.
proof fn lemma_packets_prefix(packets: Seq<Seq<u8>>, m: int, k: int)
    requires
        0 <= k <= m <= packets.len(),
    ensures
        packet_data(packets.subrange(0, m), k) == packet_data(packets, k),
    decreases k,
{
    if k > 0 {
        lemma_packets_prefix(packets, m, k - 1);
    }
}

/// The first samples' span depends on those samples alone.
proof fn lemma_span_prefix(video: Seq<Sample>, m: int, k: int)
    requires
        0 <= k <= m <= video.len(),
    ensures
        span(video.subrange(0, m), k) == span(video, k),
    decreases k,
{
    if k > 0 {
        lemma_span_prefix(video, m, k - 1);
    }
}

} // verus!

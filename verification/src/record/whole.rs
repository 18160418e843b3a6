//! A recording that is written at once.

use super::boxes::valid_parameter_sets;
use super::writer::{
    durations_of, duration_of, empty_take, frame_payloads, lemma_shed_packets, lemma_span_bound,
    lemma_span_split, patch_list, sample_duration, span, FinishedTake, Pending, RecordingWriter,
    Sample, TakeState, MAX_BUFFERED_VIDEO_FRAMES,
};
use super::{RecordError, RecordParams};
use crate::aac::AacFrame;
use crate::bytes::put;
use crate::encode::{EncodedUnit, Pts};
use vstd::prelude::*;
use vstd::string::*;

verus! {

/// A take after the first `n` units, and what is in its file by then, or why
/// one of them was refused.
pub open spec fn units_pushed(s: TakeState, units: Seq<EncodedUnit>, n: int) -> (
    TakeState,
    Result<Seq<u8>, Seq<char>>,
)
    decreases n,
{
    if n <= 0 {
        (s, Ok(Seq::empty()))
    } else {
        let before = units_pushed(s, units, n - 1);
        match before.1 {
            Err(_) => before,
            Ok(bytes) => {
                let u = units[n - 1];
                let pushed = before.0.video_pushed(u.data@, u.pts, u.is_keyframe);
                match pushed.1 {
                    Ok(b) => (pushed.0, Ok(bytes + b)),
                    Err(why) => (pushed.0, Err(why)),
                }
            },
        }
    }
}

/// A take after the first `n` blocks of audio, and what they add to its file.
pub open spec fn blocks_pushed(s: TakeState, blocks: Seq<Vec<AacFrame>>, n: int) -> (
    TakeState,
    Seq<u8>,
)
    decreases n,
{
    if n <= 0 {
        (s, Seq::empty())
    } else {
        let before = blocks_pushed(s, blocks, n - 1);
        let pushed = before.0.audio_pushed(frame_payloads(blocks[n - 1]@));
        (pushed.0, before.1 + pushed.1)
    }
}

/// Packets in the first `n` blocks.
pub open spec fn total_packets(blocks: Seq<Vec<AacFrame>>, n: int) -> int
    decreases n,
{
    if n <= 0 {
        0
    } else {
        total_packets(blocks, n - 1) + blocks[n - 1]@.len()
    }
}

/// The counters of a take are within what `units` units and `packets` packets
/// can make of them.
spec fn bounded(s: TakeState, units: int, packets: int) -> bool {
    let p = s.pending;
    &&& 0 <= p.ticks
    &&& p.ticks + span(p.video, p.video.len() as int) <= units * 0xffff_ffff
    &&& 0 <= p.packets_out
    &&& 0 <= s.dropped_packets
    &&& p.packets_out + p.packets.len() + s.dropped_packets <= packets
    &&& 0 <= s.dropped_video
    &&& p.video.len() + s.dropped_video <= units
    &&& 0 <= s.priming
}

proof fn lemma_total_packets(blocks: Seq<Vec<AacFrame>>, k: int, n: int)
    requires
        0 <= k <= n,
    ensures
        0 <= total_packets(blocks, k) <= total_packets(blocks, n),
    decreases n,
{
    if k < n {
        lemma_total_packets(blocks, k, n - 1);
    } else if n > 0 {
        lemma_total_packets(blocks, n - 1, n - 1);
    }
}

proof fn lemma_bounded_has_room(s: TakeState, units: int, packets: int)
    requires
        bounded(s, units, packets),
        units <= 0x3fff_ffff,
        packets <= 0xffff_ffff,
    ensures
        s.has_room(),
{
    lemma_span_bound(s.pending.video, s.pending.video.len() as int);
}

/// Handing out moves ticks and packets; it makes and loses none.
proof fn lemma_emitted_conserves(p: Pending, finishing: bool)
    requires
        0 <= p.ticks,
    ensures
        ({
            let left = p.emitted(finishing).0;
            &&& p.ticks <= left.ticks
            &&& left.ticks + span(left.video, left.video.len() as int) == p.ticks + span(
                p.video,
                p.video.len() as int,
            )
            &&& p.packets_out <= left.packets_out
            &&& left.packets_out + left.packets.len() == p.packets_out + p.packets.len()
            &&& left.video.len() <= p.video.len()
        }),
    decreases p.video.len() + p.packets.len(),
{
    p.lemma_next_fragment(finishing);
    match p.next_fragment(finishing) {
        None => {},
        Some((m, n)) => {
            lemma_span_bound(p.video, m);
            lemma_span_split(p.video, m, p.video.len() - m);
            lemma_emitted_conserves(p.after(m, n), finishing);
        },
    }
}

/// Enforcing the bounds takes nothing but what is counted as dropped.
proof fn lemma_capped_bounded(s: TakeState, units: int, packets: int)
    requires
        bounded(s, units, packets),
    ensures
        bounded(s.capped(), units, packets),
{
    let video = s.pending.video;
    lemma_shed_packets(s.pending.packets);
    if video.len() > MAX_BUFFERED_VIDEO_FRAMES {
        let cut = video.len() - MAX_BUFFERED_VIDEO_FRAMES;
        lemma_span_bound(video, cut);
        lemma_span_split(video, cut, MAX_BUFFERED_VIDEO_FRAMES as int);
    }
}

proof fn lemma_span_update(video: Seq<Sample>, i: int, s: Sample, m: int)
    requires
        0 <= i < video.len(),
        0 <= m <= video.len(),
    ensures
        span(video.update(i, s), m) == span(video, m) + (if i < m {
            duration_of(s) - duration_of(video[i])
        } else {
            0
        }),
    decreases m,
{
    if m > 0 {
        lemma_span_update(video, i, s, m - 1);
    }
}

proof fn lemma_span_push(video: Seq<Sample>, s: Sample, m: int)
    requires
        0 <= m <= video.len(),
    ensures
        span(video.push(s), m) == span(video, m),
    decreases m,
{
    if m > 0 {
        lemma_span_push(video, s, m - 1);
    }
}

proof fn lemma_accepted_bounded(
    s: TakeState,
    data: Seq<u8>,
    pts: Pts,
    keyframe: bool,
    units: int,
    packets: int,
)
    requires
        bounded(s, units, packets),
    ensures
        bounded(s.accepted(data, pts, keyframe), units + 1, packets),
{
    let video = s.pending.video;
    let n = video.len() as int;
    let full = s.accepted(data, pts, keyframe);
    let settled = full.pending.video.drop_last();
    let fresh = full.pending.video.last();
    assert(settled.push(fresh) =~= full.pending.video);
    lemma_span_push(settled, fresh, n);
    match s.prev {
        Some(prev) if n > 0 => {
            let last = Sample { duration: Some(sample_duration(prev, pts)), ..video[n - 1] };
            assert(settled =~= video.update(n - 1, last));
            lemma_span_update(video, n - 1, last, n);
        },
        _ => {
            assert(settled =~= video);
        },
    }
}

proof fn lemma_units_bounded(s: TakeState, units: Seq<EncodedUnit>, n: int)
    requires
        0 <= n <= units.len(),
        bounded(s, 0, 0),
    ensures
        bounded(units_pushed(s, units, n).0, n, 0),
    decreases n,
{
    if n > 0 {
        lemma_units_bounded(s, units, n - 1);
        let before = units_pushed(s, units, n - 1);
        if before.1 is Ok {
            let u = units[n - 1];
            let b = before.0;
            if !(!b.header && !u.is_keyframe) && (b.header || valid_parameter_sets(b.sps, b.pps)) {
                let opened = if b.header {
                    b
                } else {
                    TakeState {
                        header: true,
                        pre_idr: 0,
                        patches: b.shape().duration_offsets(),
                        ..b
                    }
                };
                lemma_accepted_bounded(opened, u.data@, u.pts, u.is_keyframe, n - 1, 0);
                let full = opened.accepted(u.data@, u.pts, u.is_keyframe);
                lemma_emitted_conserves(full.pending, false);
                lemma_capped_bounded(full.drained(false), n, 0);
            }
        }
    }
}

proof fn lemma_blocks_bounded(s: TakeState, blocks: Seq<Vec<AacFrame>>, units: int, n: int)
    requires
        0 <= n <= blocks.len(),
        bounded(s, units, 0),
    ensures
        bounded(blocks_pushed(s, blocks, n).0, units, total_packets(blocks, n)),
    decreases n,
{
    if n > 0 {
        lemma_blocks_bounded(s, blocks, units, n - 1);
        let before = blocks_pushed(s, blocks, n - 1).0;
        let full = before.heard(frame_payloads(blocks[n - 1]@));
        lemma_emitted_conserves(full.pending, false);
        lemma_capped_bounded(full.drained(false), units, total_packets(blocks, n));
    }
}

/// Write a whole take at once: its units, then its audio as the encoder gave
/// it block by block, then what the encoder held back. The bytes are the file;
/// the durations go into them where the list says.
pub fn write_recording(
    units: &Vec<EncodedUnit>,
    blocks: Vec<Vec<AacFrame>>,
    tail: Vec<AacFrame>,
    params: RecordParams,
    asc: Vec<u8>,
) -> (r: Result<FinishedTake, RecordError>)
    requires
        params.sps@.len() + params.pps@.len() + asc@.len() + 4096 <= usize::MAX,
        units@.len() <= 0x3fff_ffff,
        total_packets(blocks@, blocks@.len() as int) <= 0xffff_ffff,
        tail@.len() <= 0xffff_ffff,
    ensures
        ({
            let video = units_pushed(empty_take(params, asc@), units@, units@.len() as int);
            let audio = blocks_pushed(video.0, blocks@, blocks@.len() as int);
            let last = audio.0.closing(frame_payloads(tail@)).pending.emitted(true);
            match r {
                Ok(done) => {
                    &&& units@.len() > 0
                    &&& video.1 matches Ok(head) && done.tail@ == head + audio.1 + last.1
                    &&& done.patches@ == patch_list(
                        audio.0.patches,
                        durations_of(last.0.ticks, last.0.packets_out),
                    )
                },
                Err(RecordError::Input(e)) => if units@.len() == 0 {
                    e@ == "no video units"@
                } else {
                    video.1 matches Err(why) && e@ == why
                },
                Err(_) => false,
            }
        }),
{
    if units.len() == 0 {
        return Err(RecordError::Input("no video units".to_owned()));
    }
    let ghost start = empty_take(params, asc@);
    let mut w: RecordingWriter = RecordingWriter::create(params, asc);
    let mut file: Vec<u8> = Vec::new();
    let count: usize = units.len();
    let mut i: usize = 0;
    assert(file@ =~= Seq::<u8>::empty());
    while i < count
        invariant
            i <= count == units@.len(),
            start == empty_take(params, asc@),
            w.wf(),
            w@ == units_pushed(start, units@, i as int).0,
            units_pushed(start, units@, i as int).1 == Ok::<Seq<u8>, Seq<char>>(file@),
            units@.len() <= 0x3fff_ffff,
        decreases count - i,
    {
        proof {
            lemma_units_bounded(start, units@, i as int);
            lemma_bounded_has_room(w@, i as int, 0);
        }
        match w.push_video(&units[i]) {
            Ok(bytes) => {
                put(&mut file, bytes.as_slice());
            },
            Err(e) => {
                proof {
                    lemma_refusal_stays(start, units@, i + 1, count as int);
                }
                return Err(e);
            },
        }
        i = i + 1;
    }
    let ghost video = w@;
    let ghost head = file@;
    let len: usize = blocks.len();
    let mut k: usize = 0;
    let mut rest: Vec<Vec<AacFrame>> = blocks;
    proof {
        lemma_units_bounded(start, units@, count as int);
        assert(head + Seq::<u8>::empty() =~= head);
    }
    while k < len
        invariant
            k <= len == blocks@.len() == rest@.len(),
            w.wf(),
            w@ == blocks_pushed(video, blocks@, k as int).0,
            file@ == head + blocks_pushed(video, blocks@, k as int).1,
            forall|n: int| k <= n < len ==> rest@[n] == blocks@[n],
            count <= 0x3fff_ffff,
            bounded(video, count as int, 0),
            total_packets(blocks@, len as int) <= 0xffff_ffff,
        decreases len - k,
    {
        proof {
            lemma_blocks_bounded(video, blocks@, count as int, k as int);
            lemma_total_packets(blocks@, k as int, len as int);
            lemma_total_packets(blocks@, k + 1, len as int);
            lemma_bounded_has_room(w@, count as int, total_packets(blocks@, k as int));
        }
        assert(rest@[k as int] == blocks@[k as int]);
        let mut block: Vec<AacFrame> = Vec::new();
        std::mem::swap(&mut block, &mut rest[k]);
        let bytes: Vec<u8> = w.push_audio(block);
        put(&mut file, bytes.as_slice());
        k = k + 1;
        assert(file@ =~= head + blocks_pushed(video, blocks@, k as int).1);
    }
    proof {
        lemma_blocks_bounded(video, blocks@, count as int, len as int);
        lemma_bounded_has_room(w@, count as int, total_packets(blocks@, len as int));
    }
    let done: FinishedTake = w.finish(tail);
    put(&mut file, done.tail.as_slice());
    Ok(FinishedTake { tail: file, patches: done.patches })
}

proof fn lemma_refusal_stays(s: TakeState, units: Seq<EncodedUnit>, i: int, n: int)
    requires
        0 <= i <= n,
        units_pushed(s, units, i).1 is Err,
    ensures
        units_pushed(s, units, n).1 == units_pushed(s, units, i).1,
    decreases n - i,
{
    if i < n {
        lemma_refusal_stays(s, units, i, n - 1);
    }
}

} // verus!

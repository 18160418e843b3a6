//! What holds of every recording file.

use super::boxes::{
    fourcc, ftyp_bytes, header_head, lemma_box_len, lemma_mdhd_len, lemma_moov_len, lemma_mvhd_len,
    lemma_tkhd_len, lemma_trak_len, mdhd_bytes, mdia_bytes, minf_bytes, mp4_box, mp4a_bytes,
    mvex_bytes, mvhd_bytes, mvhd_tail, no_durations, overwritten, tkhd_bytes, tkhd_head, tkhd_tail,
    track_handler, track_id, track_timescale, trak_bytes, Durations, MovieShape, FTYP_LEN, TKHD_LEN,
};
use super::fragment::{fragment_bytes, lemma_moof_len, moof_bytes, moof_len, TrackPart};
use super::writer::{
    lemma_leading, lemma_shed_packets, patch_list, total_bytes, Pending, TakeState, FRAGMENT_TICKS,
    MAX_BUFFERED_AUDIO_BYTES, MAX_BUFFERED_AUDIO_PACKETS, MAX_BUFFERED_VIDEO_FRAMES,
};
use crate::bytes::{be32_bytes, be_value, lemma_be32_value};
use crate::encode::Pts;
use vstd::prelude::*;

verus! {

/// The boxes at the top level of a file, as a reader finds them: each length
/// says where the next box begins. Reading stops at a box that is cut short.
pub open spec fn boxes_in(file: Seq<u8>) -> Seq<(Seq<u8>, Seq<u8>)>
    decreases file.len(),
{
    if file.len() < 8 {
        Seq::empty()
    } else {
        let size = be_value(file.subrange(0, 4)) as int;
        if size < 8 || size > file.len() {
            Seq::empty()
        } else {
            seq![(file.subrange(4, 8), file.subrange(8, size))] + boxes_in(
                file.subrange(size, file.len() as int),
            )
        }
    }
}

/// A run of boxes as bytes.
pub open spec fn boxes_bytes(boxes: Seq<(Seq<u8>, Seq<u8>)>) -> Seq<u8>
    decreases boxes.len(),
{
    if boxes.len() == 0 {
        Seq::empty()
    } else {
        mp4_box(boxes[0].0, boxes[0].1) + boxes_bytes(boxes.subrange(1, boxes.len() as int))
    }
}

/// Boxes whose length field can hold their length.
pub open spec fn representable(boxes: Seq<(Seq<u8>, Seq<u8>)>) -> bool {
    forall|i: int|
        0 <= i < boxes.len() ==> (#[trigger] boxes[i]).0.len() == 4 && boxes[i].1.len()
            < 0xffff_fff8
}

/// A box at the head of a file is read back, and reading goes on behind it.
pub proof fn law_box_reads_back(typ: Seq<u8>, content: Seq<u8>, rest: Seq<u8>)
    requires
        typ.len() == 4,
        content.len() < 0xffff_fff8,
    ensures
        boxes_in(mp4_box(typ, content) + rest) == seq![(typ, content)] + boxes_in(rest),
{
    reveal(mp4_box);
    let file = mp4_box(typ, content) + rest;
    let size = 8 + content.len() as int;
    lemma_be32_value(size);
    assert(file.subrange(0, 4) =~= be32_bytes(size));
    assert(file.subrange(4, 8) =~= typ);
    assert(file.subrange(8, size) =~= content);
    assert(file.subrange(size, file.len() as int) =~= rest);
}

/// Whatever follows whole boxes, complete or not, the boxes before it read
/// back: a file that is cut at any point loses at most the box it was cut in.
pub proof fn law_whole_boxes_survive(boxes: Seq<(Seq<u8>, Seq<u8>)>, rest: Seq<u8>)
    requires
        representable(boxes),
    ensures
        boxes_in(boxes_bytes(boxes) + rest) == boxes + boxes_in(rest),
    decreases boxes.len(),
{
    if boxes.len() == 0 {
        assert(boxes_bytes(boxes) + rest =~= rest);
        assert(boxes + boxes_in(rest) =~= boxes_in(rest));
    } else {
        let tail = boxes.subrange(1, boxes.len() as int);
        assert(representable(tail)) by {
            assert forall|i: int| 0 <= i < tail.len() implies (#[trigger] tail[i]).0.len() == 4
                && tail[i].1.len() < 0xffff_fff8 by {
                assert(tail[i] == boxes[i + 1]);
            }
        }
        law_whole_boxes_survive(tail, rest);
        law_box_reads_back(boxes[0].0, boxes[0].1, boxes_bytes(tail) + rest);
        assert(boxes_bytes(boxes) + rest =~= mp4_box(boxes[0].0, boxes[0].1) + (boxes_bytes(tail)
            + rest));
        assert(boxes + boxes_in(rest) =~= seq![boxes[0]] + (tail + boxes_in(rest)));
    }
}

/// A box that is cut short is not read at all.
pub proof fn law_cut_box_is_dropped(typ: Seq<u8>, content: Seq<u8>, k: int)
    requires
        typ.len() == 4,
        content.len() < 0xffff_fff8,
        0 <= k < 8 + content.len(),
    ensures
        boxes_in(mp4_box(typ, content).subrange(0, k)) == Seq::<(Seq<u8>, Seq<u8>)>::empty(),
{
    lemma_box_len(typ, content);
    if k >= 8 {
        reveal(mp4_box);
        let cut = mp4_box(typ, content).subrange(0, k);
        lemma_be32_value(8 + content.len() as int);
        assert(cut.subrange(0, 4) =~= be32_bytes(8 + content.len() as int));
    }
}

/// A fragment reads back as its header and its media.
pub proof fn law_fragment_reads_back(
    seq: int,
    video: TrackPart,
    audio: TrackPart,
    rest: Seq<u8>,
) -> (moof: Seq<u8>)
    requires
        video.data.len() + audio.data.len() < 0xffff_fff8,
        moof_len(video.samples.len(), audio.samples.len()) < 0xffff_ffff,
    ensures
        boxes_in(fragment_bytes(seq, video, audio) + rest) == seq![
            (fourcc('m', 'o', 'o', 'f'), moof),
            (fourcc('m', 'd', 'a', 't'), video.data + audio.data),
        ] + boxes_in(rest),
{
    lemma_moof_len(seq, video, audio);
    reveal(moof_bytes);
    let v_off = moof_len(video.samples.len(), audio.samples.len()) + 8;
    let moof = super::fragment::mfhd_bytes(seq) + super::fragment::traf_bytes(
        video.id as int,
        video.base_ticks,
        video.samples,
        v_off,
    ) + super::fragment::traf_bytes(
        audio.id as int,
        audio.base_ticks,
        audio.samples,
        v_off + video.data.len(),
    );
    lemma_box_len(fourcc('m', 'o', 'o', 'f'), moof);
    let boxes = seq![
        (fourcc('m', 'o', 'o', 'f'), moof),
        (fourcc('m', 'd', 'a', 't'), video.data + audio.data),
    ];
    reveal_with_fuel(boxes_bytes, 3);
    assert(boxes.subrange(1, 2) =~= seq![boxes[1]]);
    assert(seq![boxes[1]].subrange(1, 1) =~= Seq::empty());
    assert(boxes_bytes(boxes) =~= fragment_bytes(seq, video, audio));
    law_whole_boxes_survive(boxes, rest);
    moof
}

/// The offsets in a fragment's header point at the samples: video first, then
/// audio, counted from the start of the fragment.
pub proof fn law_offsets_point_at_the_data(seq: int, video: TrackPart, audio: TrackPart)
    ensures
        ({
            let file = fragment_bytes(seq, video, audio);
            let v = moof_len(video.samples.len(), audio.samples.len()) + 8;
            let a = v + video.data.len();
            &&& file.subrange(v, a) == video.data
            &&& file.subrange(a, a + audio.data.len()) == audio.data
            &&& file.len() == a + audio.data.len()
        }),
{
    lemma_moof_len(seq, video, audio);
    reveal(mp4_box);
    let file = fragment_bytes(seq, video, audio);
    let v = moof_len(video.samples.len(), audio.samples.len()) + 8;
    let a = v + video.data.len();
    assert(file.subrange(v, a) =~= video.data);
    assert(file.subrange(a, a + audio.data.len()) =~= audio.data);
}

/// The init segment reads back as its two boxes.
pub proof fn law_init_segment_reads_back(shape: MovieShape, d: Durations, rest: Seq<u8>) -> (r: (
    Seq<u8>,
    Seq<u8>,
))
    requires
        shape.sps.len() + shape.pps.len() + shape.descriptors.len() < 0xffff_0000,
    ensures
        boxes_in(shape.init_segment(d) + rest) == seq![
            (fourcc('f', 't', 'y', 'p'), r.0),
            (fourcc('m', 'o', 'o', 'v'), r.1),
        ] + boxes_in(rest),
{
    lemma_moov_len(shape, d);
    reveal(ftyp_bytes);
    let brands = fourcc('i', 's', 'o', 'm') + be32_bytes(0x200) + fourcc('i', 's', 'o', 'm')
        + fourcc('i', 's', 'o', '2') + fourcc('a', 'v', 'c', '1') + fourcc('m', 'p', '4', '1');
    let movie = mvhd_bytes(d.mvhd as int) + shape.video_trak(d) + shape.audio_trak(d)
        + mvex_bytes();
    lemma_box_len(fourcc('m', 'o', 'o', 'v'), movie);
    let boxes = seq![(fourcc('f', 't', 'y', 'p'), brands), (fourcc('m', 'o', 'o', 'v'), movie)];
    reveal_with_fuel(boxes_bytes, 3);
    assert(boxes.subrange(1, 2) =~= seq![boxes[1]]);
    assert(seq![boxes[1]].subrange(1, 1) =~= Seq::empty());
    assert(boxes_bytes(boxes) =~= shape.init_segment(d));
    law_whole_boxes_survive(boxes, rest);
    (brands, movie)
}

/// No more than a second goes into a fragment: each of its samples starts
/// inside the window that begins where the last fragment ended.
pub proof fn law_fragment_stays_in_its_window(p: Pending, finishing: bool, i: int)
    requires
        p.next_fragment(finishing) is Some,
        p.next_fragment(finishing) matches Some(f) && 0 <= i < f.0,
    ensures
        p.video[i].start < p.ticks + FRAGMENT_TICKS,
{
    lemma_leading(p.video, 0, p.fixed(finishing), p.ticks + FRAGMENT_TICKS);
}

/// At the end of a take no audio stays behind.
pub proof fn law_finish_leaves_no_audio(p: Pending)
    ensures
        p.emitted(true).0.packets.len() == 0,
    decreases p.video.len() + p.packets.len(),
{
    p.lemma_next_fragment(true);
    match p.next_fragment(true) {
        None => {},
        Some((m, n)) => {
            law_finish_leaves_no_audio(p.after(m, n));
        },
    }
}

/// However far emission falls behind, what is buffered stays within the
/// bounds after a video push.
pub proof fn law_video_push_stays_bounded(s: TakeState, data: Seq<u8>, pts: Pts, keyframe: bool)
    requires
        s.pending.video.len() <= MAX_BUFFERED_VIDEO_FRAMES,
        s.pending.packets.len() <= MAX_BUFFERED_AUDIO_PACKETS,
        total_bytes(s.pending.packets) <= MAX_BUFFERED_AUDIO_BYTES,
    ensures
        ({
            let left = s.video_pushed(data, pts, keyframe).0.pending;
            &&& left.video.len() <= MAX_BUFFERED_VIDEO_FRAMES
            &&& left.packets.len() <= MAX_BUFFERED_AUDIO_PACKETS
            &&& total_bytes(left.packets) <= MAX_BUFFERED_AUDIO_BYTES
        }),
{
    let opened = if s.header {
        s
    } else {
        TakeState {
            header: true,
            pre_idr: 0,
            patches: s.shape().duration_offsets(),
            ..s
        }
    };
    lemma_shed_packets(opened.accepted(data, pts, keyframe).drained(false).pending.packets);
}

/// What is buffered stays within the bounds after an audio push.
pub proof fn law_audio_push_stays_bounded(s: TakeState, packets: Seq<Seq<u8>>)
    ensures
        ({
            let left = s.audio_pushed(packets).0.pending;
            &&& left.video.len() <= MAX_BUFFERED_VIDEO_FRAMES
            &&& left.packets.len() <= MAX_BUFFERED_AUDIO_PACKETS
            &&& total_bytes(left.packets) <= MAX_BUFFERED_AUDIO_BYTES
        }),
{
    lemma_shed_packets(s.heard(packets).drained(false).pending.packets);
}

/// The encoder's priming packets never reach a fragment, and every packet
/// after them does, in order.
pub proof fn law_priming_is_trimmed(s: TakeState, packets: Seq<Seq<u8>>)
    requires
        s.priming == 2,
        s.pending.packets.len() == 0,
        packets.len() >= 2,
    ensures
        s.heard(packets).pending.packets == packets.subrange(2, packets.len() as int),
        s.heard(packets).priming == 0,
{
    assert(s.heard(packets).pending.packets =~= packets.subrange(2, packets.len() as int));
}

/// Hearing packets in two goes is hearing them in one.
pub proof fn law_audio_may_come_in_pieces(s: TakeState, a: Seq<Seq<u8>>, b: Seq<Seq<u8>>)
    requires
        s.priming >= 0,
    ensures
        s.heard(a).heard(b) == s.heard(a + b),
{
    assert(s.heard(a).heard(b).pending.packets =~= s.heard(a + b).pending.packets);
}

/// Writing inside one part of a file leaves the parts around it alone.
proof fn lemma_overwrite_inside(pre: Seq<u8>, x: Seq<u8>, post: Seq<u8>, k: int, v: int)
    requires
        0 <= k,
        k + 4 <= x.len(),
    ensures
        overwritten(pre + x + post, pre.len() + k, v) == pre + overwritten(x, k, v) + post,
        overwritten(x, k, v).len() == x.len(),
{
    assert(overwritten(pre + x + post, pre.len() + k, v) =~= pre + overwritten(x, k, v) + post);
}

/// Writing over a field gives the field its new value.
proof fn lemma_overwrite_field(pre: Seq<u8>, x: int, post: Seq<u8>, v: int)
    ensures
        overwritten(pre + be32_bytes(x) + post, pre.len() as int, v) == pre + be32_bytes(v) + post,
{
    assert(overwritten(pre + be32_bytes(x) + post, pre.len() as int, v) =~= pre + be32_bytes(v)
        + post);
}

/// Writing inside a box's content gives the box with that content.
proof fn lemma_overwrite_box(typ: Seq<u8>, content: Seq<u8>, k: int, v: int)
    requires
        typ.len() == 4,
        0 <= k,
        k + 4 <= content.len(),
    ensures
        overwritten(mp4_box(typ, content), 8 + k, v) == mp4_box(typ, overwritten(content, k, v)),
{
    reveal(mp4_box);
    let head = be32_bytes(8 + content.len() as int) + typ;
    lemma_overwrite_inside(head, content, Seq::empty(), k, v);
    assert(head + content + Seq::<u8>::empty() =~= head + content);
    assert(head + overwritten(content, k, v) + Seq::<u8>::empty() =~= head + overwritten(
        content,
        k,
        v,
    ));
}

proof fn lemma_patch_mvhd(x: int, v: int)
    ensures
        overwritten(mvhd_bytes(x), 24, v) == mvhd_bytes(v),
{
    lemma_mvhd_len(x);
    let head = header_head(1000);
    reveal(mvhd_bytes);
    lemma_overwrite_field(head, x, mvhd_tail(), v);
    lemma_overwrite_box(
        fourcc('m', 'v', 'h', 'd'),
        head + be32_bytes(x) + mvhd_tail(),
        16,
        v,
    );
}

proof fn lemma_patch_tkhd(id: int, is_video: bool, w: int, h: int, x: int, v: int)
    ensures
        overwritten(tkhd_bytes(id, is_video, w, h, x), 28, v) == tkhd_bytes(id, is_video, w, h, v),
{
    lemma_tkhd_len(id, is_video, w, h, x);
    reveal(tkhd_bytes);
    lemma_overwrite_field(tkhd_head(id), x, tkhd_tail(is_video, w, h), v);
    lemma_overwrite_box(
        fourcc('t', 'k', 'h', 'd'),
        tkhd_head(id) + be32_bytes(x) + tkhd_tail(is_video, w, h),
        20,
        v,
    );
}

proof fn lemma_patch_mdhd(timescale: int, x: int, v: int)
    ensures
        overwritten(mdhd_bytes(timescale, x), 24, v) == mdhd_bytes(timescale, v),
{
    lemma_mdhd_len(timescale, x);
    reveal(mdhd_bytes);
    let tail = crate::bytes::be16_bytes(0x55C4) + crate::bytes::be16_bytes(0);
    lemma_overwrite_field(header_head(timescale), x, tail, v);
    lemma_overwrite_box(
        fourcc('m', 'd', 'h', 'd'),
        header_head(timescale) + be32_bytes(x) + tail,
        16,
        v,
    );
}

proof fn lemma_patch_mdia(is_video: bool, entry: Seq<u8>, x: int, v: int)
    ensures
        overwritten(mdia_bytes(is_video, entry, x), 32, v) == mdia_bytes(is_video, entry, v),
{
    let ts = track_timescale(is_video);
    let tail = track_handler(is_video) + minf_bytes(is_video, entry);
    lemma_mdhd_len(ts, x);
    lemma_patch_mdhd(ts, x, v);
    lemma_overwrite_inside(Seq::empty(), mdhd_bytes(ts, x), tail, 24, v);
    reveal(mdia_bytes);
    let before = mdhd_bytes(ts, x) + track_handler(is_video) + minf_bytes(is_video, entry);
    let after = mdhd_bytes(ts, v) + track_handler(is_video) + minf_bytes(is_video, entry);
    assert(before =~= Seq::<u8>::empty() + mdhd_bytes(ts, x) + tail);
    assert(after =~= Seq::<u8>::empty() + mdhd_bytes(ts, v) + tail);
    lemma_overwrite_box(fourcc('m', 'd', 'i', 'a'), before, 24, v);
}

proof fn lemma_patch_trak(is_video: bool, w: int, h: int, entry: Seq<u8>, a: int, b: int, v: int)
    ensures
        overwritten(trak_bytes(is_video, w, h, entry, a, b), 36, v) == trak_bytes(
            is_video,
            w,
            h,
            entry,
            v,
            b,
        ),
        overwritten(trak_bytes(is_video, w, h, entry, a, b), 8 + TKHD_LEN + 32, v) == trak_bytes(
            is_video,
            w,
            h,
            entry,
            a,
            v,
        ),
{
    let id = track_id(is_video);
    let head = tkhd_bytes(id, is_video, w, h, a);
    let media = mdia_bytes(is_video, entry, b);
    let none = Seq::<u8>::empty();
    lemma_tkhd_len(id, is_video, w, h, a);
    lemma_trak_len(is_video, w, h, entry, a, b);
    assert(media.len() >= 36) by {
        reveal(mdia_bytes);
        lemma_mdhd_len(track_timescale(is_video), b);
        lemma_box_len(
            fourcc('m', 'd', 'i', 'a'),
            mdhd_bytes(track_timescale(is_video), b) + track_handler(is_video) + minf_bytes(
                is_video,
                entry,
            ),
        );
    }
    lemma_patch_tkhd(id, is_video, w, h, a, v);
    lemma_patch_mdia(is_video, entry, b, v);
    reveal(trak_bytes);
    lemma_overwrite_inside(none, head, media, 28, v);
    assert(none + head + media =~= head + media);
    assert(none + tkhd_bytes(id, is_video, w, h, v) + media =~= tkhd_bytes(id, is_video, w, h, v)
        + media);
    lemma_overwrite_box(fourcc('t', 'r', 'a', 'k'), head + media, 28, v);
    lemma_overwrite_inside(head, media, none, 32, v);
    assert(head + media + none =~= head + media);
    assert(head + mdia_bytes(is_video, entry, v) + none =~= head + mdia_bytes(is_video, entry, v));
    lemma_overwrite_box(fourcc('t', 'r', 'a', 'k'), head + media, TKHD_LEN + 32, v);
}

/// What the parts of the movie box measure.
proof fn lemma_movie_lens(shape: MovieShape, d: Durations)
    ensures
        ftyp_bytes().len() == FTYP_LEN,
        mvhd_bytes(d.mvhd as int).len() == 108,
        shape.video_trak(d).len() == shape.video_trak(no_durations()).len(),
        shape.video_trak(d).len() >= 341,
        shape.audio_trak(d).len() >= 337,
        shape.moov(d).len() == shape.sps.len() + shape.pps.len() + shape.descriptors.len() + 1019,
        shape.video_trak(d).len() <= shape.moov(d).len() - 445,
{
    assert(ftyp_bytes().len() == FTYP_LEN) by {
        reveal(ftyp_bytes);
        reveal(mp4_box);
    }
    lemma_mvhd_len(d.mvhd as int);
    lemma_moov_len(shape, d);
    let content = mvhd_bytes(d.mvhd as int) + shape.video_trak(d) + shape.audio_trak(d)
        + mvex_bytes();
    lemma_box_len(fourcc('m', 'o', 'o', 'v'), content);
    let (w, h) = (shape.width, shape.height);
    let ve = shape.video_entry();
    let ae = mp4a_bytes(shape.descriptors);
    lemma_trak_len(true, w, h, ve, d.tkhd_video as int, d.mdhd_video as int);
    lemma_trak_len(true, w, h, ve, 0, 0);
    lemma_trak_len(false, w, h, ae, d.tkhd_audio as int, d.mdhd_audio as int);
}

/// The movie header's duration is where it is said to be.
proof fn lemma_patch_movie_header(shape: MovieShape, d: Durations, v: u32, rest: Seq<u8>)
    ensures
        overwritten(
            shape.init_segment(d) + rest,
            shape.duration_offsets().mvhd as int,
            v as int,
        ) == shape.init_segment((Durations { mvhd: v, ..d })) + rest,
{
    let none = Seq::<u8>::empty();
    let mvhd = mvhd_bytes(d.mvhd as int);
    let post = shape.video_trak(d) + shape.audio_trak(d) + mvex_bytes();
    lemma_movie_lens(shape, d);
    lemma_patch_mvhd(d.mvhd as int, v as int);
    assert(mvhd + shape.video_trak(d) + shape.audio_trak(d) + mvex_bytes() =~= none + mvhd + post);
    lemma_patch_part(shape, d, none, mvhd, post, 24, v, rest);
    assert(none + mvhd_bytes(v as int) + post =~= mvhd_bytes(v as int) + shape.video_trak(d)
        + shape.audio_trak(d) + mvex_bytes());
}

/// The video track's durations are where they are said to be.
proof fn lemma_patch_video(shape: MovieShape, d: Durations, v: u32, rest: Seq<u8>)
    requires
        shape.sps.len() + shape.pps.len() + shape.descriptors.len() + 4096 <= usize::MAX,
    ensures
        ({
            let at = shape.duration_offsets();
            let file = shape.init_segment(d) + rest;
            &&& overwritten(file, at.tkhd_video as int, v as int) == shape.init_segment(
                (Durations { tkhd_video: v, ..d }),
            ) + rest
            &&& overwritten(file, at.mdhd_video as int, v as int) == shape.init_segment(
                (Durations { mdhd_video: v, ..d }),
            ) + rest
        }),
{
    let mvhd = mvhd_bytes(d.mvhd as int);
    let video = shape.video_trak(d);
    let post = shape.audio_trak(d) + mvex_bytes();
    lemma_movie_lens(shape, d);
    lemma_patch_trak(
        true,
        shape.width,
        shape.height,
        shape.video_entry(),
        d.tkhd_video as int,
        d.mdhd_video as int,
        v as int,
    );
    assert(mvhd + video + shape.audio_trak(d) + mvex_bytes() =~= mvhd + video + post);
    lemma_patch_part(shape, d, mvhd, video, post, 36, v, rest);
    lemma_patch_part(shape, d, mvhd, video, post, 8 + TKHD_LEN + 32, v, rest);
    let a = shape.video_trak((Durations { tkhd_video: v, ..d }));
    let b = shape.video_trak((Durations { mdhd_video: v, ..d }));
    assert(mvhd + a + post =~= mvhd + a + shape.audio_trak(d) + mvex_bytes());
    assert(mvhd + b + post =~= mvhd + b + shape.audio_trak(d) + mvex_bytes());
}

/// The audio track's durations are where they are said to be.
proof fn lemma_patch_audio(shape: MovieShape, d: Durations, v: u32, rest: Seq<u8>)
    requires
        shape.sps.len() + shape.pps.len() + shape.descriptors.len() + 4096 <= usize::MAX,
    ensures
        ({
            let at = shape.duration_offsets();
            let file = shape.init_segment(d) + rest;
            &&& overwritten(file, at.tkhd_audio as int, v as int) == shape.init_segment(
                (Durations { tkhd_audio: v, ..d }),
            ) + rest
            &&& overwritten(file, at.mdhd_audio as int, v as int) == shape.init_segment(
                (Durations { mdhd_audio: v, ..d }),
            ) + rest
        }),
{
    let pre = mvhd_bytes(d.mvhd as int) + shape.video_trak(d);
    let audio = shape.audio_trak(d);
    lemma_movie_lens(shape, d);
    lemma_patch_trak(
        false,
        shape.width,
        shape.height,
        mp4a_bytes(shape.descriptors),
        d.tkhd_audio as int,
        d.mdhd_audio as int,
        v as int,
    );
    lemma_patch_part(shape, d, pre, audio, mvex_bytes(), 36, v, rest);
    lemma_patch_part(shape, d, pre, audio, mvex_bytes(), 8 + TKHD_LEN + 32, v, rest);
}

/// Patching one part of the movie box's content patches the file there.
proof fn lemma_patch_part(
    shape: MovieShape,
    d: Durations,
    pre: Seq<u8>,
    x: Seq<u8>,
    post: Seq<u8>,
    k: int,
    v: u32,
    rest: Seq<u8>,
)
    requires
        mvhd_bytes(d.mvhd as int) + shape.video_trak(d) + shape.audio_trak(d) + mvex_bytes() == pre
            + x + post,
        0 <= k,
        k + 4 <= x.len(),
        ftyp_bytes().len() == FTYP_LEN,
    ensures
        overwritten(
            shape.init_segment(d) + rest,
            FTYP_LEN + 8 + pre.len() + k,
            v as int,
        ) == ftyp_bytes() + mp4_box(
            fourcc('m', 'o', 'o', 'v'),
            pre + overwritten(x, k, v as int) + post,
        ) + rest,
{
    let moov = fourcc('m', 'o', 'o', 'v');
    let content = pre + x + post;
    lemma_overwrite_inside(pre, x, post, k, v as int);
    lemma_overwrite_box(moov, content, pre.len() + k, v as int);
    lemma_box_len(moov, content);
    lemma_overwrite_inside(
        ftyp_bytes(),
        mp4_box(moov, content),
        rest,
        8 + pre.len() + k,
        v as int,
    );
}

/// The file once the durations have been written into its header.
pub open spec fn patched(file: Seq<u8>, patches: Seq<(usize, u32)>) -> Seq<u8>
    decreases patches.len(),
{
    if patches.len() == 0 {
        file
    } else {
        patched(
            overwritten(file, patches[0].0 as int, patches[0].1 as int),
            patches.subrange(1, patches.len() as int),
        )
    }
}

/// Finishing a take changes nothing in its file but the five duration fields:
/// the header then declares the durations, and every byte behind it stays.
pub proof fn law_finish_only_sets_durations(shape: MovieShape, d: Durations, rest: Seq<u8>)
    requires
        shape.sps.len() + shape.pps.len() + shape.descriptors.len() + 4096 <= usize::MAX,
    ensures
        patched(
            shape.init_segment(no_durations()) + rest,
            patch_list(shape.duration_offsets(), d),
        ) == shape.init_segment(d) + rest,
{
    let at = shape.duration_offsets();
    let all = patch_list(at, d);
    let d0 = no_durations();
    let d1 = Durations { mvhd: d.mvhd, ..d0 };
    let d2 = Durations { tkhd_video: d.tkhd_video, ..d1 };
    let d3 = Durations { tkhd_audio: d.tkhd_audio, ..d2 };
    let d4 = Durations { mdhd_video: d.mdhd_video, ..d3 };
    lemma_patch_movie_header(shape, d0, d.mvhd, rest);
    lemma_patch_video(shape, d1, d.tkhd_video, rest);
    lemma_patch_audio(shape, d2, d.tkhd_audio, rest);
    lemma_patch_video(shape, d3, d.mdhd_video, rest);
    lemma_patch_audio(shape, d4, d.mdhd_audio, rest);
    assert((Durations { mdhd_audio: d.mdhd_audio, ..d4 }) == d);
    let l1 = all.subrange(1, 5);
    let l2 = l1.subrange(1, 4);
    let l3 = l2.subrange(1, 3);
    let l4 = l3.subrange(1, 2);
    assert(l4.subrange(1, 1) =~= Seq::<(usize, u32)>::empty());
    reveal_with_fuel(patched, 6);
}

} // verus!

//! What a player finds in a recording: every field read back from the bytes, at
//! the place where the file format puts it.

use super::boxes::{
    audio_entry_head, avc1_box, avcc_record, dinf_bytes, empty_table_bytes, esds_bytes, fourcc,
    ftyp_bytes, full_bytes, hdlr_bytes, header_head, lemma_box_len, lemma_full_len, lemma_mdhd_len,
    lemma_mvhd_len, lemma_tkhd_len, matrix_bytes, mdhd_bytes, mdia_bytes, media_header_bytes,
    minf_bytes, mp4_box, mp4a_bytes, mvex_bytes, mvhd_bytes, mvhd_tail, stbl_bytes, stbl_tables,
    stsd_bytes, stsz_bytes, tkhd_bytes, tkhd_head, tkhd_tail, track_handler, trak_bytes, trex_bytes,
    visual_entry_head, visual_entry_tail, Durations, MovieShape,
};
use super::fragment::{
    fragment_bytes, lemma_moof_len, lemma_samples_len, lemma_trun_len, mfhd_bytes, moof_bytes,
    sample_bytes, samples_bytes, tfdt_bytes, tfhd_bytes, traf_bytes, trun_bytes, OutSample,
    TrackPart,
};
use super::writer::{packet_data, video_data, Pending, Sample};
use crate::bytes::{
    be16_bytes, be24_bytes, be32_bytes, be64_bytes, be_value, lemma_be32_value, lemma_be64_value,
    zeros,
};
use vstd::prelude::*;

verus! {

/// The 32-bit number at a place in a file.
pub open spec fn word(f: Seq<u8>, at: int) -> int {
    be_value(f.subrange(at, at + 4)) as int
}

/// The 64-bit number at a place in a file.
pub open spec fn long(f: Seq<u8>, at: int) -> int {
    be_value(f.subrange(at, at + 8)) as int
}

/// The 16-bit number at a place in a file.
pub open spec fn half(f: Seq<u8>, at: int) -> int {
    f[at] * 256 + f[at + 1]
}

/// Whether four letters stand at a place in a file.
pub open spec fn letters(f: Seq<u8>, at: int, a: char, b: char, c: char, d: char) -> bool {
    f[at] == a as u8 && f[at + 1] == b as u8 && f[at + 2] == c as u8 && f[at + 3] == d as u8
}

/// Whether a part of a file stands at a place in it.
spec fn placed(f: Seq<u8>, at: int, part: Seq<u8>) -> bool {
    0 <= at && at + part.len() <= f.len() && f.subrange(at, at + part.len()) == part
}

proof fn lemma_placed_first(f: Seq<u8>, at: int, a: Seq<u8>, b: Seq<u8>)
    requires
        placed(f, at, a + b),
    ensures
        placed(f, at, a),
        placed(f, at + a.len(), b),
{
    let whole = f.subrange(at, at + (a + b).len());
    assert(f.subrange(at, at + a.len()) =~= a) by {
        assert forall|i: int| 0 <= i < a.len() implies f.subrange(at, at + a.len())[i] == a[i] by {
            assert(whole[i] == (a + b)[i]);
        }
    }
    assert(f.subrange(at + a.len(), at + a.len() + b.len()) =~= b) by {
        assert forall|i: int| 0 <= i < b.len() implies f.subrange(
            at + a.len(),
            at + a.len() + b.len(),
        )[i] == b[i] by {
            assert(whole[a.len() + i] == (a + b)[a.len() + i]);
        }
    }
}

/// A part of a placed part is placed.
proof fn lemma_placed_within(f: Seq<u8>, at: int, part: Seq<u8>, off: int, inner: Seq<u8>)
    requires
        placed(f, at, part),
        placed(part, off, inner),
    ensures
        placed(f, at + off, inner),
{
    let whole = f.subrange(at, at + part.len());
    assert(f.subrange(at + off, at + off + inner.len()) =~= inner) by {
        assert forall|i: int| 0 <= i < inner.len() implies f.subrange(
            at + off,
            at + off + inner.len(),
        )[i] == inner[i] by {
            assert(whole[off + i] == part[off + i]);
            assert(part.subrange(off, off + inner.len())[i] == part[off + i]);
        }
    }
}

proof fn lemma_word(f: Seq<u8>, at: int, n: int)
    requires
        placed(f, at, be32_bytes(n)),
        0 <= n < 0x1_0000_0000,
    ensures
        word(f, at) == n,
{
    lemma_be32_value(n);
}

proof fn lemma_long(f: Seq<u8>, at: int, n: int)
    requires
        placed(f, at, be64_bytes(n)),
        0 <= n < 0x1_0000_0000_0000_0000,
    ensures
        long(f, at) == n,
{
    lemma_be64_value(n);
}

proof fn lemma_letters(f: Seq<u8>, at: int, a: char, b: char, c: char, d: char)
    requires
        placed(f, at, fourcc(a, b, c, d)),
    ensures
        letters(f, at, a, b, c, d),
{
    let s = f.subrange(at, at + 4);
    assert(s[0] == a as u8 && s[1] == b as u8 && s[2] == c as u8 && s[3] == d as u8);
}

/// Version and flags are read as one word.
proof fn lemma_full_word(f: Seq<u8>, at: int, version: u8, flags: int)
    requires
        placed(f, at, full_bytes(version, flags)),
        0 <= flags < 0x100_0000,
    ensures
        word(f, at) == version * 0x100_0000 + flags,
{
    reveal(full_bytes);
    let n = version * 0x100_0000 + flags;
    let b = full_bytes(version, flags);
    let w = be32_bytes(n);
    assert(n / 0x100_0000 == version && n / 0x1_0000 == version * 0x100 + flags / 0x1_0000 && n
        / 0x100 == version * 0x1_0000 + flags / 0x100);
    assert(b.len() == 4 && b[0] == version && b[1] == be24_bytes(flags)[0] && b[2] == be24_bytes(
        flags,
    )[1] && b[3] == be24_bytes(flags)[2]);
    assert(w[0] == b[0] && w[1] == b[1] && w[2] == b[2] && w[3] == b[3]);
    assert(b =~= w);
    lemma_word(f, at, n);
}

/// What a box's head and content are, where the box stands.
proof fn lemma_box_placed(
    f: Seq<u8>,
    at: int,
    a: char,
    b: char,
    c: char,
    d: char,
    content: Seq<u8>,
)
    requires
        placed(f, at, mp4_box(fourcc(a, b, c, d), content)),
        8 + content.len() < 0x1_0000_0000,
    ensures
        word(f, at) == 8 + content.len(),
        letters(f, at + 4, a, b, c, d),
        placed(f, at + 8, content),
{
    reveal(mp4_box);
    let size = be32_bytes(8 + content.len() as int);
    let typ = fourcc(a, b, c, d);
    lemma_placed_first(f, at, size + typ, content);
    lemma_placed_first(f, at, size, typ);
    lemma_word(f, at, 8 + content.len() as int);
    lemma_letters(f, at + 4, a, b, c, d);
}

proof fn lemma_placed_self(f: Seq<u8>)
    ensures
        placed(f, 0, f),
{
    assert(f.subrange(0, f.len() as int) =~= f);
}

/// What a file says of one sample at a place in a track run.
pub open spec fn says_sample(f: Seq<u8>, at: int, duration: int, size: int, flags: int) -> bool {
    &&& word(f, at) == duration
    &&& word(f, at + 4) == size
    &&& word(f, at + 8) == flags
    &&& word(f, at + 12) == 0
}

#[verifier::rlimit(80)]
proof fn lemma_samples_placed(f: Seq<u8>, at: int, samples: Seq<OutSample>)
    requires
        placed(f, at, samples_bytes(samples)),
    ensures
        forall|k: int|
            0 <= k < samples.len() ==> says_sample(
                f,
                at + 16 * k,
                (#[trigger] samples[k]).duration as int,
                samples[k].size as int,
                samples[k].flags as int,
            ),
    decreases samples.len(),
{
    if samples.len() > 0 {
        let init = samples.drop_last();
        let last = samples.last();
        lemma_samples_len(init);
        lemma_placed_first(f, at, samples_bytes(init), sample_bytes(last));
        lemma_samples_placed(f, at, init);
        let p = at + 16 * init.len();
        reveal(sample_bytes);
        let a = be32_bytes(last.duration as int);
        let b = be32_bytes(last.size as int);
        let c = be32_bytes(last.flags as int);
        let z = be32_bytes(0);
        assert(sample_bytes(last) == a + b + c + z);
        lemma_placed_first(f, p, a + b + c, z);
        lemma_placed_first(f, p, a + b, c);
        lemma_placed_first(f, p, a, b);
        lemma_word(f, p, last.duration as int);
        lemma_word(f, p + 4, last.size as int);
        lemma_word(f, p + 8, last.flags as int);
        lemma_word(f, p + 12, 0);
        assert forall|k: int| 0 <= k < samples.len() implies says_sample(
            f,
            at + 16 * k,
            (#[trigger] samples[k]).duration as int,
            samples[k].size as int,
            samples[k].flags as int,
        ) by {
            if k < init.len() {
                assert(init[k] == samples[k]);
            } else {
                assert(samples[k] == last);
            }
        }
    }
}

#[verifier::rlimit(80)]
proof fn lemma_trun_placed(f: Seq<u8>, at: int, samples: Seq<OutSample>, offset: int)
    requires
        placed(f, at, trun_bytes(samples, offset)),
        20 + 16 * samples.len() < 0x1_0000_0000,
        0 <= offset < 0x1_0000_0000,
    ensures
        word(f, at) == 20 + 16 * samples.len(),
        letters(f, at + 4, 't', 'r', 'u', 'n'),
        word(f, at + 8) == 0x0F01,
        word(f, at + 12) == samples.len(),
        word(f, at + 16) == offset,
        forall|k: int|
            0 <= k < samples.len() ==> says_sample(
                f,
                at + 20 + 16 * k,
                (#[trigger] samples[k]).duration as int,
                samples[k].size as int,
                samples[k].flags as int,
            ),
{
    reveal(trun_bytes);
    lemma_samples_len(samples);
    lemma_full_len(0, 0x0F01);
    let head = full_bytes(0, 0x0F01);
    let n = be32_bytes(samples.len() as int);
    let o = be32_bytes(offset);
    let s = samples_bytes(samples);
    lemma_box_placed(f, at, 't', 'r', 'u', 'n', head + n + o + s);
    lemma_placed_first(f, at + 8, head + n + o, s);
    lemma_placed_first(f, at + 8, head + n, o);
    lemma_placed_first(f, at + 8, head, n);
    lemma_full_word(f, at + 8, 0, 0x0F01);
    lemma_word(f, at + 12, samples.len() as int);
    lemma_word(f, at + 16, offset);
    lemma_samples_placed(f, at + 20, samples);
}

/// A track run reads back by the layout that its flags announce: how many
/// samples there are, where their bytes begin, and of every sample how long it
/// lasts, how many bytes it has, what it depends on, and that it is shown when
/// it is decoded.
#[verifier::rlimit(80)]
pub proof fn law_a_track_run_reads_back(samples: Seq<OutSample>, offset: int)
    requires
        20 + 16 * samples.len() < 0x1_0000_0000,
        0 <= offset < 0x1_0000_0000,
    ensures
        ({
            let run = trun_bytes(samples, offset);
            &&& word(run, 0) == run.len()
            &&& letters(run, 4, 't', 'r', 'u', 'n')
            &&& word(run, 8) == 0x0F01
            &&& word(run, 12) == samples.len()
            &&& word(run, 16) == offset
            &&& forall|k: int|
                0 <= k < samples.len() ==> word(run, 20 + 16 * k) == (
                #[trigger] samples[k]).duration && word(run, 24 + 16 * k) == samples[k].size
                    && word(run, 28 + 16 * k) == samples[k].flags && word(run, 32 + 16 * k) == 0
        }),
{
    let run = trun_bytes(samples, offset);
    lemma_trun_len(samples, offset);
    lemma_placed_self(run);
    lemma_trun_placed(run, 0, samples, offset);
    assert forall|k: int| 0 <= k < samples.len() implies word(run, 20 + 16 * k) == (
    #[trigger] samples[k]).duration && word(run, 24 + 16 * k) == samples[k].size && word(
        run,
        28 + 16 * k,
    ) == samples[k].flags && word(run, 32 + 16 * k) == 0 by {
        assert(says_sample(
            run,
            0 + 20 + 16 * k,
            samples[k].duration as int,
            samples[k].size as int,
            samples[k].flags as int,
        ));
    }
}

/// What a file says of one track, where the track's part of a fragment stands:
/// which track it is, when its first sample is decoded, where the samples' bytes
/// begin, counted from the start of the fragment, and its samples.
pub open spec fn says_track(
    f: Seq<u8>,
    at: int,
    id: int,
    base: int,
    offset: int,
    samples: Seq<OutSample>,
) -> bool {
    &&& word(f, at) == 64 + 16 * samples.len()
    &&& letters(f, at + 4, 't', 'r', 'a', 'f')
    &&& word(f, at + 8) == 16
    &&& letters(f, at + 12, 't', 'f', 'h', 'd')
    &&& word(f, at + 16) == 0x02_0000
    &&& word(f, at + 20) == id
    &&& word(f, at + 24) == 20
    &&& letters(f, at + 28, 't', 'f', 'd', 't')
    &&& word(f, at + 32) == 0x100_0000
    &&& long(f, at + 36) == base
    &&& word(f, at + 44) == 20 + 16 * samples.len()
    &&& letters(f, at + 48, 't', 'r', 'u', 'n')
    &&& word(f, at + 52) == 0x0F01
    &&& word(f, at + 56) == samples.len()
    &&& word(f, at + 60) == offset
    &&& forall|k: int|
        0 <= k < samples.len() ==> says_sample(
            f,
            at + 64 + 16 * k,
            (#[trigger] samples[k]).duration as int,
            samples[k].size as int,
            samples[k].flags as int,
        )
}

#[verifier::rlimit(80)]
proof fn lemma_traf_placed(
    f: Seq<u8>,
    at: int,
    id: int,
    base: int,
    samples: Seq<OutSample>,
    offset: int,
)
    requires
        placed(f, at, traf_bytes(id, base, samples, offset)),
        64 + 16 * samples.len() < 0x1_0000_0000,
        0 <= offset < 0x1_0000_0000,
        0 <= id < 0x1_0000_0000,
        0 <= base < 0x1_0000_0000_0000_0000,
    ensures
        says_track(f, at, id, base, offset, samples),
        traf_bytes(id, base, samples, offset).len() == 64 + 16 * samples.len(),
{
    let h = tfhd_bytes(id);
    let t = tfdt_bytes(base);
    let r = trun_bytes(samples, offset);
    lemma_trun_len(samples, offset);
    lemma_full_len(0, 0x02_0000);
    lemma_full_len(1, 0);
    let hc = full_bytes(0, 0x02_0000) + be32_bytes(id);
    let tc = full_bytes(1, 0) + be64_bytes(base);
    assert(h == mp4_box(fourcc('t', 'f', 'h', 'd'), hc)) by {
        reveal(tfhd_bytes);
    }
    assert(t == mp4_box(fourcc('t', 'f', 'd', 't'), tc)) by {
        reveal(tfdt_bytes);
    }
    lemma_box_len(fourcc('t', 'f', 'h', 'd'), hc);
    lemma_box_len(fourcc('t', 'f', 'd', 't'), tc);
    reveal(traf_bytes);
    lemma_box_len(fourcc('t', 'r', 'a', 'f'), h + t + r);
    lemma_box_placed(f, at, 't', 'r', 'a', 'f', h + t + r);
    lemma_placed_first(f, at + 8, h + t, r);
    lemma_placed_first(f, at + 8, h, t);
    lemma_box_placed(f, at + 8, 't', 'f', 'h', 'd', hc);
    lemma_placed_first(f, at + 16, full_bytes(0, 0x02_0000), be32_bytes(id));
    lemma_full_word(f, at + 16, 0, 0x02_0000);
    lemma_word(f, at + 20, id);
    lemma_box_placed(f, at + 24, 't', 'f', 'd', 't', tc);
    lemma_placed_first(f, at + 32, full_bytes(1, 0), be64_bytes(base));
    lemma_full_word(f, at + 32, 1, 0);
    lemma_long(f, at + 36, base);
    lemma_trun_placed(f, at + 44, samples, offset);
}

/// A fragment whose lengths fit the fields that hold them.
pub open spec fn holds(seq: int, video: TrackPart, audio: TrackPart) -> bool {
    &&& 0 <= seq < 0x1_0000_0000
    &&& 0 <= video.base_ticks < 0x1_0000_0000_0000_0000
    &&& 0 <= audio.base_ticks < 0x1_0000_0000_0000_0000
    &&& 160 + 16 * video.samples.len() + 16 * audio.samples.len() + video.data.len()
        + audio.data.len() < 0x1_0000_0000
}

/// Where the parts of a fragment stand, and what it says before and behind its tracks.
#[verifier::rlimit(80)]
#[verifier::spinoff_prover]
proof fn lemma_fragment_parts(seq: int, video: TrackPart, audio: TrackPart)
    requires
        holds(seq, video, audio),
    ensures
        ({
            let f = fragment_bytes(seq, video, audio);
            let nv = video.samples.len() as int;
            let len = 152 + 16 * nv + 16 * audio.samples.len();
            let vo = len + 8;
            let ao = vo + video.data.len();
            &&& word(f, 0) == len
            &&& letters(f, 4, 'm', 'o', 'o', 'f')
            &&& word(f, 8) == 16
            &&& letters(f, 12, 'm', 'f', 'h', 'd')
            &&& word(f, 16) == 0
            &&& word(f, 20) == seq
            &&& placed(f, 24, traf_bytes(video.id as int, video.base_ticks, video.samples, vo))
            &&& placed(
                f,
                24 + traf_bytes(video.id as int, video.base_ticks, video.samples, vo).len() as int,
                traf_bytes(audio.id as int, audio.base_ticks, audio.samples, ao),
            )
            &&& placed(
                f,
                len,
                mp4_box(fourcc('m', 'd', 'a', 't'), video.data + audio.data),
            )
            &&& f.len() == len + 8 + video.data.len() + audio.data.len()
        }),
{
    let f = fragment_bytes(seq, video, audio);
    let nv = video.samples.len() as int;
    let na = audio.samples.len() as int;
    let len = 152 + 16 * nv + 16 * na;
    let vo = len + 8;
    let ao = vo + video.data.len();
    lemma_moof_len(seq, video, audio);
    let mf = mfhd_bytes(seq);
    let tv = traf_bytes(video.id as int, video.base_ticks, video.samples, vo);
    let ta = traf_bytes(audio.id as int, audio.base_ticks, audio.samples, ao);
    let moof = moof_bytes(seq, video, audio);
    assert(moof == mp4_box(fourcc('m', 'o', 'o', 'f'), mf + tv + ta)) by {
        reveal(moof_bytes);
    }
    let media = video.data + audio.data;
    let mdat = mp4_box(fourcc('m', 'd', 'a', 't'), media);
    lemma_box_len(fourcc('m', 'd', 'a', 't'), media);
    lemma_box_len(fourcc('m', 'o', 'o', 'f'), mf + tv + ta);
    lemma_placed_self(f);
    lemma_placed_first(f, 0, moof, mdat);
    lemma_box_placed(f, 0, 'm', 'o', 'o', 'f', mf + tv + ta);
    lemma_placed_first(f, 8, mf + tv, ta);
    lemma_placed_first(f, 8, mf, tv);
    lemma_full_len(0, 0);
    let mc = full_bytes(0, 0) + be32_bytes(seq);
    assert(mf == mp4_box(fourcc('m', 'f', 'h', 'd'), mc)) by {
        reveal(mfhd_bytes);
    }
    lemma_box_len(fourcc('m', 'f', 'h', 'd'), mc);
    lemma_box_placed(f, 8, 'm', 'f', 'h', 'd', mc);
    lemma_placed_first(f, 16, full_bytes(0, 0), be32_bytes(seq));
    lemma_full_word(f, 16, 0, 0);
    lemma_word(f, 20, seq);
}

/// A fragment reads back field by field: its number, both tracks with all their
/// samples, and the bytes that the two offsets point at.
#[verifier::rlimit(80)]
#[verifier::spinoff_prover]
pub proof fn law_a_fragment_header_reads_back(seq: int, video: TrackPart, audio: TrackPart)
    requires
        holds(seq, video, audio),
    ensures
        ({
            let f = fragment_bytes(seq, video, audio);
            let nv = video.samples.len() as int;
            let na = audio.samples.len() as int;
            let v = word(f, 84);
            let a = word(f, 148 + 16 * nv);
            &&& word(f, 0) == 152 + 16 * nv + 16 * na
            &&& letters(f, 4, 'm', 'o', 'o', 'f')
            &&& word(f, 8) == 16
            &&& letters(f, 12, 'm', 'f', 'h', 'd')
            &&& word(f, 16) == 0
            &&& word(f, 20) == seq
            &&& says_track(f, 24, video.id as int, video.base_ticks, v, video.samples)
            &&& says_track(
                f,
                88 + 16 * nv,
                audio.id as int,
                audio.base_ticks,
                a,
                audio.samples,
            )
            &&& word(f, word(f, 0)) == 8 + video.data.len() + audio.data.len()
            &&& letters(f, word(f, 0) + 4, 'm', 'd', 'a', 't')
            &&& v == word(f, 0) + 8
            &&& f.subrange(v, v + video.data.len()) == video.data
            &&& a == v + video.data.len()
            &&& f.subrange(a, a + audio.data.len()) == audio.data
            &&& f.len() == a + audio.data.len()
        }),
{
    let f = fragment_bytes(seq, video, audio);
    let nv = video.samples.len() as int;
    let na = audio.samples.len() as int;
    let len = 152 + 16 * nv + 16 * na;
    let vo = len + 8;
    let ao = vo + video.data.len();
    let media = video.data + audio.data;
    lemma_fragment_parts(seq, video, audio);
    lemma_traf_placed(f, 24, video.id as int, video.base_ticks, video.samples, vo);
    lemma_traf_placed(
        f,
        88 + 16 * nv,
        audio.id as int,
        audio.base_ticks,
        audio.samples,
        ao,
    );
    lemma_box_placed(f, len, 'm', 'd', 'a', 't', media);
    lemma_placed_first(f, len + 8, video.data, audio.data);
}

/// The sizes that a track run gives its first `k` samples, added up. `at` is
/// where the run's first sample is described.
pub open spec fn sizes(f: Seq<u8>, at: int, k: int) -> int
    decreases k,
{
    if k <= 0 {
        0
    } else {
        sizes(f, at, k - 1) + word(f, at + 16 * (k - 1) + 4)
    }
}

/// The times that a track run gives its first `k` samples, added up.
pub open spec fn times(f: Seq<u8>, at: int, k: int) -> int
    decreases k,
{
    if k <= 0 {
        0
    } else {
        times(f, at, k - 1) + word(f, at + 16 * (k - 1))
    }
}

#[verifier::rlimit(80)]
proof fn lemma_video_sizes(f: Seq<u8>, at: int, video: Seq<Sample>, n: int, k: int)
    requires
        0 <= k <= n <= video.len(),
        forall|i: int|
            0 <= i < n ==> word(f, at + 16 * i + 4) == (#[trigger] video[i]).data.len(),
    ensures
        sizes(f, at, k) == video_data(video, k).len(),
        video_data(video, k).len() <= video_data(video, n).len(),
        video_data(video, n).subrange(0, video_data(video, k).len() as int) == video_data(video, k),
        k < n ==> video_data(video, k).len() + video[k].data.len() <= video_data(video, n).len()
            && video_data(video, n).subrange(
            video_data(video, k).len() as int,
            (video_data(video, k).len() + video[k].data.len()) as int,
        ) == video[k].data,
{
    if k > 0 {
        assert(word(f, at + 16 * (k - 1) + 4) == video[k - 1].data.len());
        lemma_video_sizes_up(f, at, video, n, k - 1);
    }
    if k < n {
        lemma_video_sizes_tail(video, k + 1, n);
        let all = video_data(video, n);
        let upto = video_data(video, k + 1);
        let a = video_data(video, k);
        assert(upto == a + video[k].data);
        assert(all.subrange(0, a.len() as int) =~= a) by {
            assert forall|i: int| 0 <= i < a.len() implies all.subrange(0, a.len() as int)[i] == a[i] by {
                assert(all.subrange(0, upto.len() as int)[i] == upto[i]);
            }
        }
        assert(all.subrange(a.len() as int, (a.len() + video[k].data.len()) as int) =~= video[k].data) by {
            assert forall|i: int| 0 <= i < video[k].data.len() implies all.subrange(
                a.len() as int,
                (a.len() + video[k].data.len()) as int,
            )[i] == video[k].data[i] by {
                assert(all.subrange(0, upto.len() as int)[a.len() + i] == upto[a.len() + i]);
            }
        }
    } else {
        assert(video_data(video, n).subrange(0, video_data(video, n).len() as int) =~= video_data(
            video,
            n,
        ));
    }
}

proof fn lemma_video_sizes_up(f: Seq<u8>, at: int, video: Seq<Sample>, n: int, k: int)
    requires
        0 <= k < n <= video.len(),
        forall|i: int|
            0 <= i < n ==> word(f, at + 16 * i + 4) == (#[trigger] video[i]).data.len(),
    ensures
        sizes(f, at, k) == video_data(video, k).len(),
    decreases k,
{
    if k > 0 {
        assert(word(f, at + 16 * (k - 1) + 4) == video[k - 1].data.len());
        lemma_video_sizes_up(f, at, video, n, k - 1);
    }
}

proof fn lemma_video_sizes_tail(video: Seq<Sample>, k: int, n: int)
    requires
        0 <= k <= n <= video.len(),
    ensures
        video_data(video, k).len() <= video_data(video, n).len(),
        video_data(video, n).subrange(0, video_data(video, k).len() as int) == video_data(video, k),
    decreases n - k,
{
    if k < n {
        lemma_video_sizes_tail(video, k, n - 1);
        let all = video_data(video, n);
        let most = video_data(video, n - 1);
        let a = video_data(video, k);
        assert(all == most + video[n - 1].data);
        assert(all.subrange(0, a.len() as int) =~= most.subrange(0, a.len() as int));
    } else {
        assert(video_data(video, n).subrange(0, video_data(video, n).len() as int) =~= video_data(
            video,
            n,
        ));
    }
}

/// Packets as samples, for their bytes.
spec fn as_samples(packets: Seq<Seq<u8>>) -> Seq<Sample> {
    Seq::new(
        packets.len(),
        |i: int| Sample { data: packets[i], start: 0, duration: None, keyframe: true },
    )
}

proof fn lemma_packets_as_samples(packets: Seq<Seq<u8>>, n: int)
    requires
        0 <= n <= packets.len(),
    ensures
        packet_data(packets, n) == video_data(as_samples(packets), n),
    decreases n,
{
    if n > 0 {
        lemma_packets_as_samples(packets, n - 1);
    }
}

proof fn lemma_times(f: Seq<u8>, at: int, video: Seq<Sample>, k: int)
    requires
        0 <= k <= video.len(),
        forall|i: int|
            0 <= i < k ==> word(f, at + 16 * i) == super::writer::duration_of(#[trigger] video[i]),
    ensures
        times(f, at, k) == super::writer::span(video, k),
    decreases k,
{
    if k > 0 {
        assert(word(f, at + 16 * (k - 1)) == super::writer::duration_of(video[k - 1]));
        lemma_times(f, at, video, k - 1);
    }
}

/// What a player cuts out of a file for sample `k` of a run: as many bytes as the
/// run says, behind those of the samples before it, from where the run's data
/// begins.
pub open spec fn cut(f: Seq<u8>, run: int, data: int, k: int) -> Seq<u8> {
    let from = data + sizes(f, run, k);
    f.subrange(from, from + word(f, run + 16 * k + 4))
}

/// A run of samples with their bytes: every sample is cut out whole.
#[verifier::rlimit(80)]
proof fn lemma_run_cuts(
    f: Seq<u8>,
    run: int,
    data: int,
    samples: Seq<OutSample>,
    video: Seq<Sample>,
    n: int,
)
    requires
        0 <= n <= video.len(),
        samples.len() == n,
        forall|k: int|
            0 <= k < n ==> says_sample(
                f,
                run + 16 * k,
                (#[trigger] samples[k]).duration as int,
                samples[k].size as int,
                samples[k].flags as int,
            ),
        forall|k: int|
            0 <= k < n ==> (#[trigger] samples[k]).size == video[k].data.len() % 0x1_0000_0000,
        video_data(video, n).len() < 0x1_0000_0000,
        0 <= data,
        data + video_data(video, n).len() <= f.len(),
        f.subrange(data, data + video_data(video, n).len()) == video_data(video, n),
    ensures
        sizes(f, run, n) == video_data(video, n).len(),
        forall|k: int|
            0 <= k < n ==> cut(f, run, data, k) == (#[trigger] video[k]).data && word(
                f,
                run + 16 * k + 4,
            ) == video[k].data.len(),
{
    let media = video_data(video, n);
    assert forall|k: int| 0 <= k < n implies word(f, run + 16 * k + 4) == (
    #[trigger] video[k]).data.len() by {
        lemma_video_sizes_tail(video, k + 1, n);
        assert(video_data(video, k + 1).len() >= video[k].data.len());
        assert(samples[k].size == video[k].data.len() % 0x1_0000_0000);
        assert(says_sample(
            f,
            run + 16 * k,
            samples[k].duration as int,
            samples[k].size as int,
            samples[k].flags as int,
        ));
    }
    lemma_video_sizes(f, run, video, n, n);
    assert forall|k: int| 0 <= k < n implies cut(f, run, data, k) == (#[trigger] video[k]).data by {
        lemma_video_sizes(f, run, video, n, k);
        let off = sizes(f, run, k);
        let len = video[k].data.len();
        assert(f.subrange(data + off, data + off + len) =~= f.subrange(
            data,
            data + media.len(),
        ).subrange(off, off + len));
    }
}

/// The tracks of a fragment of the first `m` samples and `n` packets.
spec fn video_side(p: Pending, m: int) -> TrackPart {
    TrackPart {
        id: super::boxes::VIDEO_TRACK_ID,
        base_ticks: p.ticks,
        samples: Seq::new(m as nat, |i: int| super::writer::video_entry(p.video[i])),
        data: video_data(p.video, m),
    }
}

spec fn audio_side(p: Pending, n: int) -> TrackPart {
    TrackPart {
        id: super::boxes::AUDIO_TRACK_ID,
        base_ticks: p.packets_out * 1024,
        samples: Seq::new(n as nat, |i: int| super::writer::audio_entry(p.packets[i])),
        data: packet_data(p.packets, n),
    }
}

/// What is buffered fits the fields of one fragment.
pub open spec fn fragment_fits(p: Pending, m: int, n: int) -> bool {
    &&& 0 <= m <= p.video.len()
    &&& 0 <= n <= p.packets.len()
    &&& 0 <= p.seq < 0x1_0000_0000
    &&& 0 <= p.ticks < 0x1_0000_0000_0000_0000
    &&& 0 <= p.packets_out * 1024 < 0x1_0000_0000_0000_0000
    &&& 160 + 16 * m + 16 * n + video_data(p.video, m).len() + packet_data(p.packets, n).len()
        < 0x1_0000_0000
}

/// A player finds every picture of a fragment: it cuts as many bytes as the run
/// says, one sample behind the other from where the run's offset points, and
/// gets the sample's own bytes; it learns how long the picture stays and whether
/// it can start there.
#[verifier::rlimit(80)]
pub proof fn law_a_player_finds_every_picture(p: Pending, m: int, n: int)
    requires
        fragment_fits(p, m, n),
    ensures
        ({
            let f = p.fragment(m, n);
            &&& word(f, 20) == p.seq
            &&& word(f, 44) == 1
            &&& long(f, 60) == p.ticks
            &&& word(f, 80) == m
            &&& forall|k: int|
                0 <= k < m ==> {
                    let s = #[trigger] p.video[k];
                    &&& cut(f, 88, word(f, 84), k) == s.data
                    &&& word(f, 88 + 16 * k + 4) == s.data.len()
                    &&& (s.duration matches Some(d) ==> word(f, 88 + 16 * k) == d)
                    &&& word(f, 88 + 16 * k + 8) == (if s.keyframe {
                        0x0200_0000int
                    } else {
                        0x0101_0000
                    })
                    &&& word(f, 88 + 16 * k + 12) == 0
                }
        }),
{
    let f = p.fragment(m, n);
    let video = video_side(p, m);
    law_a_fragment_header_reads_back(p.seq, video, audio_side(p, n));
    assert forall|k: int| 0 <= k < m implies says_sample(
        f,
        88 + 16 * k,
        (#[trigger] video.samples[k]).duration as int,
        video.samples[k].size as int,
        video.samples[k].flags as int,
    ) by {
        assert(says_sample(
            f,
            24 + 64 + 16 * k,
            video.samples[k].duration as int,
            video.samples[k].size as int,
            video.samples[k].flags as int,
        ));
    }
    lemma_run_cuts(f, 88, word(f, 84), video.samples, p.video, m);
    assert forall|k: int| 0 <= k < m implies ({
        let s = #[trigger] p.video[k];
        &&& (s.duration matches Some(d) ==> word(f, 88 + 16 * k) == d)
        &&& word(f, 88 + 16 * k + 8) == (if s.keyframe {
            0x0200_0000int
        } else {
            0x0101_0000
        })
        &&& word(f, 88 + 16 * k + 12) == 0
    }) by {
        assert(video.samples[k] == super::writer::video_entry(p.video[k]));
    }
}

/// A player finds every packet of sound of a fragment in the same way; each lasts
/// the 1024 samples that a packet holds.
#[verifier::rlimit(80)]
pub proof fn law_a_player_finds_every_packet(p: Pending, m: int, n: int)
    requires
        fragment_fits(p, m, n),
    ensures
        ({
            let f = p.fragment(m, n);
            let run = 152 + 16 * m;
            &&& word(f, 108 + 16 * m) == 2
            &&& long(f, 124 + 16 * m) == p.packets_out * 1024
            &&& word(f, 144 + 16 * m) == n
            &&& forall|k: int|
                0 <= k < n ==> {
                    let s = #[trigger] p.packets[k];
                    &&& cut(f, run, word(f, 148 + 16 * m), k) == s
                    &&& word(f, run + 16 * k + 4) == s.len()
                    &&& word(f, run + 16 * k) == 1024
                    &&& word(f, run + 16 * k + 8) == 0x0200_0000
                    &&& word(f, run + 16 * k + 12) == 0
                }
        }),
{
    let f = p.fragment(m, n);
    let run = 152 + 16 * m;
    let audio = audio_side(p, n);
    law_a_fragment_header_reads_back(p.seq, video_side(p, m), audio);
    assert forall|k: int| 0 <= k < n implies says_sample(
        f,
        run + 16 * k,
        (#[trigger] audio.samples[k]).duration as int,
        audio.samples[k].size as int,
        audio.samples[k].flags as int,
    ) by {
        assert(says_sample(
            f,
            88 + 16 * m + 64 + 16 * k,
            audio.samples[k].duration as int,
            audio.samples[k].size as int,
            audio.samples[k].flags as int,
        ));
    }
    let ps = as_samples(p.packets);
    lemma_packets_as_samples(p.packets, n);
    assert forall|k: int| 0 <= k < n implies (#[trigger] audio.samples[k]).size
        == ps[k].data.len() % 0x1_0000_0000 by {
        assert(audio.samples[k] == super::writer::audio_entry(p.packets[k]));
    }
    lemma_run_cuts(f, run, word(f, 148 + 16 * m), audio.samples, ps, n);
    assert forall|k: int| 0 <= k < n implies ({
        let s = #[trigger] p.packets[k];
        &&& cut(f, run, word(f, 148 + 16 * m), k) == s
        &&& word(f, run + 16 * k + 4) == s.len()
        &&& word(f, run + 16 * k) == 1024
        &&& word(f, run + 16 * k + 8) == 0x0200_0000
        &&& word(f, run + 16 * k + 12) == 0
    }) by {
        assert(ps[k].data == p.packets[k]);
        assert(audio.samples[k] == super::writer::audio_entry(p.packets[k]));
    }
}

/// The sizes in the two runs of a fragment fill its media to the last byte: first
/// the pictures, then the sound.
pub proof fn law_the_sizes_fill_the_media(p: Pending, m: int, n: int)
    requires
        fragment_fits(p, m, n),
    ensures
        ({
            let f = p.fragment(m, n);
            let media = word(f, 0) + 8;
            &&& word(f, 84) == media
            &&& word(f, 148 + 16 * m) == media + sizes(f, 88, m)
            &&& f.len() == media + sizes(f, 88, m) + sizes(f, 152 + 16 * m, n)
            &&& word(f, word(f, 0)) == 8 + sizes(f, 88, m) + sizes(f, 152 + 16 * m, n)
        }),
{
    let f = p.fragment(m, n);
    law_a_fragment_header_reads_back(p.seq, video_side(p, m), audio_side(p, n));
    law_a_player_finds_every_picture(p, m, n);
    law_a_player_finds_every_packet(p, m, n);
    lemma_video_sizes(f, 88, p.video, m, m);
    let ps = as_samples(p.packets);
    lemma_packets_as_samples(p.packets, n);
    assert forall|k: int| 0 <= k < n implies word(f, 152 + 16 * m + 16 * k + 4) == (
    #[trigger] ps[k]).data.len() by {
        assert(ps[k].data == p.packets[k]);
    }
    lemma_video_sizes(f, 152 + 16 * m, ps, n, n);
}

/// Fragments follow each other without a gap: the next one is decoded from where
/// the times of this one's pictures and packets end, it has the next number, and
/// it holds the samples behind this one's.
pub proof fn law_fragments_follow_each_other(p: Pending, m: int, n: int)
    requires
        fragment_fits(p, m, n),
        p.seq < 0xffff_ffff,
        forall|k: int| 0 <= k < m ==> (#[trigger] p.video[k]).duration is Some,
    ensures
        ({
            let f = p.fragment(m, n);
            let next = p.after(m, n);
            &&& next.ticks == long(f, 60) + times(f, 88, m)
            &&& next.packets_out == p.packets_out + n
            &&& next.seq == word(f, 20) + 1
            &&& forall|k: int| 0 <= k < p.video.len() - m ==> #[trigger] next.video[k] == p.video[m + k]
            &&& forall|k: int|
                0 <= k < p.packets.len() - n ==> #[trigger] next.packets[k] == p.packets[n + k]
        }),
{
    law_a_player_finds_every_picture(p, m, n);
    let f = p.fragment(m, n);
    assert forall|i: int| 0 <= i < m implies word(f, 88 + 16 * i) == super::writer::duration_of(
        #[trigger] p.video[i],
    ) by {
        assert(p.video[i].duration is Some);
    }
    lemma_times(f, 88, p.video, m);
}

proof fn lemma_half(f: Seq<u8>, at: int, n: int)
    requires
        placed(f, at, be16_bytes(n)),
        0 <= n < 0x1_0000,
    ensures
        half(f, at) == n,
{
    let s = f.subrange(at, at + 2);
    assert(s[0] == f[at] && s[1] == f[at + 1]);
    assert(be16_bytes(n)[0] == s[0] && be16_bytes(n)[1] == s[1]);
}

proof fn lemma_matrix_placed(f: Seq<u8>, at: int)
    requires
        placed(f, at, matrix_bytes()),
    ensures
        word(f, at) == 0x1_0000,
        word(f, at + 16) == 0x1_0000,
        word(f, at + 32) == 0x4000_0000,
{
    reveal(matrix_bytes);
    let a = be32_bytes(0x1_0000);
    let z = zeros(12);
    let c = be32_bytes(0x4000_0000);
    lemma_placed_first(f, at, a + z + a + z, c);
    lemma_placed_first(f, at, a + z + a, z);
    lemma_placed_first(f, at, a + z, a);
    lemma_placed_first(f, at, a, z);
    lemma_word(f, at, 0x1_0000);
    lemma_word(f, at + 16, 0x1_0000);
    lemma_word(f, at + 32, 0x4000_0000);
}

/// The time fields of a header: version, two dates, ticks per second.
proof fn lemma_header_head_placed(f: Seq<u8>, at: int, timescale: int)
    requires
        placed(f, at, header_head(timescale)),
        0 <= timescale < 0x1_0000_0000,
    ensures
        word(f, at) == 0,
        word(f, at + 12) == timescale,
{
    reveal(header_head);
    lemma_full_len(0, 0);
    let v = full_bytes(0, 0);
    let z = be32_bytes(0);
    let t = be32_bytes(timescale);
    lemma_placed_first(f, at, v + z + z, t);
    lemma_placed_first(f, at, v + z, z);
    lemma_placed_first(f, at, v, z);
    lemma_full_word(f, at, 0, 0);
    lemma_word(f, at + 12, timescale);
}

/// The movie header reads back: milliseconds, its duration, played at its own
/// speed and full volume, upright, and the next track would be the third.
#[verifier::spinoff_prover]
#[verifier::rlimit(80)]
pub proof fn law_the_movie_header_reads_back(duration: int)
    requires
        0 <= duration < 0x1_0000_0000,
    ensures
        ({
            let b = mvhd_bytes(duration);
            &&& word(b, 0) == 108
            &&& b.len() == 108
            &&& letters(b, 4, 'm', 'v', 'h', 'd')
            &&& word(b, 8) == 0
            &&& word(b, 20) == 1000
            &&& word(b, 24) == duration
            &&& word(b, 28) == 0x1_0000
            &&& half(b, 32) == 0x100
            &&& word(b, 44) == 0x1_0000
            &&& word(b, 60) == 0x1_0000
            &&& word(b, 76) == 0x4000_0000
            &&& word(b, 104) == 3
        }),
{
    let b = mvhd_bytes(duration);
    lemma_mvhd_len(duration);
    lemma_placed_self(b);
    let h = header_head(1000);
    let d = be32_bytes(duration);
    let t = mvhd_tail();
    assert(b == mp4_box(fourcc('m', 'v', 'h', 'd'), h + d + t)) by {
        reveal(mvhd_bytes);
    }
    lemma_box_placed(b, 0, 'm', 'v', 'h', 'd', h + d + t);
    lemma_placed_first(b, 8, h + d, t);
    lemma_placed_first(b, 8, h, d);
    lemma_header_head_placed(b, 8, 1000);
    lemma_word(b, 24, duration);
    assert(matrix_bytes().len() == 36) by {
        reveal(matrix_bytes);
    }
    let r = be32_bytes(0x1_0000);
    let v = be16_bytes(0x100);
    let o = be16_bytes(0);
    let m = matrix_bytes();
    let n = be32_bytes(3);
    assert(t == r + v + o + zeros(8) + m + zeros(24) + n) by {
        reveal(mvhd_tail);
    }
    lemma_placed_first(b, 28, r + v + o + zeros(8) + m + zeros(24), n);
    lemma_placed_first(b, 28, r + v + o + zeros(8) + m, zeros(24));
    lemma_placed_first(b, 28, r + v + o + zeros(8), m);
    lemma_placed_first(b, 28, r + v + o, zeros(8));
    lemma_placed_first(b, 28, r + v, o);
    lemma_placed_first(b, 28, r, v);
    lemma_word(b, 28, 0x1_0000);
    lemma_half(b, 32, 0x100);
    lemma_matrix_placed(b, 44);
    lemma_word(b, 104, 3);
}

/// A track header reads back: in use, which track it is, its duration, the volume
/// of sound, and the size of the picture in whole pixels.
#[verifier::spinoff_prover]
#[verifier::rlimit(80)]
pub proof fn law_a_track_header_reads_back(id: int, is_video: bool, w: int, h: int, duration: int)
    requires
        0 <= id < 0x1_0000_0000,
        0 <= duration < 0x1_0000_0000,
        0 <= w < 0x1_0000,
        0 <= h < 0x1_0000,
    ensures
        ({
            let b = tkhd_bytes(id, is_video, w, h, duration);
            &&& word(b, 0) == 92
            &&& b.len() == 92
            &&& letters(b, 4, 't', 'k', 'h', 'd')
            &&& word(b, 8) == 7
            &&& word(b, 20) == id
            &&& word(b, 28) == duration
            &&& half(b, 44) == (if is_video {
                0int
            } else {
                0x100
            })
            &&& word(b, 48) == 0x1_0000
            &&& word(b, 64) == 0x1_0000
            &&& word(b, 80) == 0x4000_0000
            &&& is_video ==> half(b, 84) == w && half(b, 86) == 0 && half(b, 88) == h && half(b, 90)
                == 0
        }),
{
    let b = tkhd_bytes(id, is_video, w, h, duration);
    lemma_tkhd_len(id, is_video, w, h, duration);
    lemma_placed_self(b);
    let head = tkhd_head(id);
    let d = be32_bytes(duration);
    let t = tkhd_tail(is_video, w, h);
    assert(b == mp4_box(fourcc('t', 'k', 'h', 'd'), head + d + t)) by {
        reveal(tkhd_bytes);
    }
    lemma_box_placed(b, 0, 't', 'k', 'h', 'd', head + d + t);
    lemma_placed_first(b, 8, head + d, t);
    lemma_placed_first(b, 8, head, d);
    lemma_word(b, 28, duration);
    lemma_full_len(0, 7);
    let z = be32_bytes(0);
    assert(head == full_bytes(0, 7) + z + z + be32_bytes(id) + z) by {
        reveal(tkhd_head);
    }
    lemma_placed_first(b, 8, full_bytes(0, 7) + z + z + be32_bytes(id), z);
    lemma_placed_first(b, 8, full_bytes(0, 7) + z + z, be32_bytes(id));
    lemma_placed_first(b, 8, full_bytes(0, 7) + z, z);
    lemma_placed_first(b, 8, full_bytes(0, 7), z);
    lemma_full_word(b, 8, 0, 7);
    lemma_word(b, 20, id);
    let o = be16_bytes(0);
    let vol: int = if is_video {
        0
    } else {
        0x100
    };
    let ww: int = if is_video {
        w * 0x1_0000
    } else {
        0
    };
    let hh: int = if is_video {
        h * 0x1_0000
    } else {
        0
    };
    let m = matrix_bytes();
    assert(m.len() == 36) by {
        reveal(matrix_bytes);
    }
    let v = be16_bytes(vol);
    let wb = be32_bytes(ww);
    let hb = be32_bytes(hh);
    assert(t == zeros(8) + o + o + v + o + m + wb + hb) by {
        reveal(tkhd_tail);
    }
    lemma_placed_first(b, 32, zeros(8) + o + o + v + o + m + wb, hb);
    lemma_placed_first(b, 32, zeros(8) + o + o + v + o + m, wb);
    lemma_placed_first(b, 32, zeros(8) + o + o + v + o, m);
    lemma_placed_first(b, 32, zeros(8) + o + o + v, o);
    lemma_placed_first(b, 32, zeros(8) + o + o, v);
    lemma_half(b, 44, vol);
    lemma_matrix_placed(b, 48);
    if is_video {
        assert(wb =~= be16_bytes(w) + be16_bytes(0));
        assert(hb =~= be16_bytes(h) + be16_bytes(0));
        lemma_placed_first(b, 84, be16_bytes(w), be16_bytes(0));
        lemma_placed_first(b, 88, be16_bytes(h), be16_bytes(0));
        lemma_half(b, 84, w);
        lemma_half(b, 86, 0);
        lemma_half(b, 88, h);
        lemma_half(b, 90, 0);
    }
}

/// A media header reads back: the track's ticks per second, and its duration in
/// them.
#[verifier::rlimit(80)]
pub proof fn law_a_media_header_reads_back(timescale: int, duration: int)
    requires
        0 <= timescale < 0x1_0000_0000,
        0 <= duration < 0x1_0000_0000,
    ensures
        ({
            let b = mdhd_bytes(timescale, duration);
            &&& word(b, 0) == 32
            &&& b.len() == 32
            &&& letters(b, 4, 'm', 'd', 'h', 'd')
            &&& word(b, 8) == 0
            &&& word(b, 20) == timescale
            &&& word(b, 24) == duration
            &&& half(b, 28) == 0x55C4
        }),
{
    let b = mdhd_bytes(timescale, duration);
    lemma_mdhd_len(timescale, duration);
    lemma_placed_self(b);
    let h = header_head(timescale);
    let d = be32_bytes(duration);
    let l = be16_bytes(0x55C4);
    let o = be16_bytes(0);
    assert(b == mp4_box(fourcc('m', 'd', 'h', 'd'), h + d + (l + o))) by {
        reveal(mdhd_bytes);
    }
    lemma_box_placed(b, 0, 'm', 'd', 'h', 'd', h + d + (l + o));
    lemma_placed_first(b, 8, h + d, l + o);
    lemma_placed_first(b, 8, h, d);
    lemma_header_head_placed(b, 8, timescale);
    lemma_word(b, 24, duration);
    lemma_placed_first(b, 28, l, o);
    lemma_half(b, 28, 0x55C4);
}

/// Reading inside a placed part is reading the part.
proof fn lemma_read_inside(f: Seq<u8>, at: int, part: Seq<u8>)
    requires
        placed(f, at, part),
    ensures
        forall|i: int| 0 <= i <= part.len() - 4 ==> #[trigger] word(part, i) == word(f, at + i),
        forall|i: int| 0 <= i <= part.len() - 2 ==> #[trigger] half(part, i) == half(f, at + i),
        forall|i: int| 0 <= i < part.len() ==> #[trigger] part[i] == f[at + i],
{
    let whole = f.subrange(at, at + part.len());
    assert forall|i: int| 0 <= i < part.len() implies #[trigger] part[i] == f[at + i] by {
        assert(whole[i] == part[i]);
    }
    assert forall|i: int| 0 <= i <= part.len() - 4 implies #[trigger] word(part, i) == word(
        f,
        at + i,
    ) by {
        assert(part.subrange(i, i + 4) =~= f.subrange(at + i, at + i + 4));
    }
    assert forall|i: int| 0 <= i <= part.len() - 2 implies #[trigger] half(part, i) == half(
        f,
        at + i,
    ) by {
        assert(part[i] == f[at + i] && part[i + 1] == f[at + i + 1]);
    }
}

/// A track reads back: pictures are track 1 at 90 000 ticks per second, sound is
/// track 2 at 48 000; each has its two durations, the handler of its kind, its
/// media in this very file, and one description of its samples.
#[verifier::spinoff_prover]
#[verifier::rlimit(80)]
pub proof fn law_a_track_reads_back(
    is_video: bool,
    w: int,
    h: int,
    entry: Seq<u8>,
    movie_time: int,
    media_time: int,
)
    requires
        0 <= w < 0x1_0000,
        0 <= h < 0x1_0000,
        0 <= movie_time < 0x1_0000_0000,
        0 <= media_time < 0x1_0000_0000,
        entry.len() < 0xffff_0000,
    ensures
        ({
            let b = trak_bytes(is_video, w, h, entry, movie_time, media_time);
            let e: int = if is_video {
                273
            } else {
                269
            };
            &&& word(b, 0) == b.len()
            &&& letters(b, 4, 't', 'r', 'a', 'k')
            &&& letters(b, 12, 't', 'k', 'h', 'd')
            &&& word(b, 28) == (if is_video {
                1int
            } else {
                2
            })
            &&& word(b, 36) == movie_time
            &&& is_video ==> half(b, 92) == w && half(b, 96) == h
            &&& letters(b, 104, 'm', 'd', 'i', 'a')
            &&& letters(b, 112, 'm', 'd', 'h', 'd')
            &&& word(b, 128) == (if is_video {
                90_000int
            } else {
                48_000
            })
            &&& word(b, 132) == media_time
            &&& letters(b, 144, 'h', 'd', 'l', 'r')
            &&& if is_video {
                letters(b, 156, 'v', 'i', 'd', 'e')
            } else {
                letters(b, 156, 's', 'o', 'u', 'n')
            }
            &&& letters(b, 189, 'm', 'i', 'n', 'f')
            &&& if is_video {
                letters(b, 197, 'v', 'm', 'h', 'd')
            } else {
                letters(b, 197, 's', 'm', 'h', 'd')
            }
            &&& letters(b, e - 56, 'd', 'i', 'n', 'f')
            &&& letters(b, e - 32, 'u', 'r', 'l', ' ')
            &&& word(b, e - 28) == 1
            &&& letters(b, e - 20, 's', 't', 'b', 'l')
            &&& letters(b, e - 12, 's', 't', 's', 'd')
            &&& word(b, e - 4) == 1
            &&& b.subrange(e, e + entry.len()) == entry
        }),
{
    let b = trak_bytes(is_video, w, h, entry, movie_time, media_time);
    let id: int = if is_video {
        1
    } else {
        2
    };
    let ts: int = if is_video {
        90_000
    } else {
        48_000
    };
    let tk = tkhd_bytes(id, is_video, w, h, movie_time);
    let md = mdia_bytes(is_video, entry, media_time);
    super::boxes::lemma_trak_len(is_video, w, h, entry, movie_time, media_time);
    lemma_placed_self(b);
    lemma_tkhd_len(id, is_video, w, h, movie_time);
    assert(b == mp4_box(fourcc('t', 'r', 'a', 'k'), tk + md)) by {
        reveal(trak_bytes);
    }
    lemma_box_len(fourcc('t', 'r', 'a', 'k'), tk + md);
    lemma_box_placed(b, 0, 't', 'r', 'a', 'k', tk + md);
    lemma_placed_first(b, 8, tk, md);
    law_a_track_header_reads_back(id, is_video, w, h, movie_time);
    lemma_read_inside(b, 8, tk);
    assert(word(tk, 20) == word(b, 28));
    assert(word(tk, 28) == word(b, 36));
    assert(half(tk, 84) == half(b, 92));
    assert(half(tk, 88) == half(b, 96));
    assert(tk[4] == b[12] && tk[5] == b[13] && tk[6] == b[14] && tk[7] == b[15]);
    let mh = mdhd_bytes(ts, media_time);
    let th = track_handler(is_video);
    let mi = minf_bytes(is_video, entry);
    lemma_mdhd_len(ts, media_time);
    super::boxes::lemma_handler_len(is_video);
    super::boxes::lemma_minf_len(is_video, entry);
    assert(md == mp4_box(fourcc('m', 'd', 'i', 'a'), mh + th + mi)) by {
        reveal(mdia_bytes);
    }
    lemma_box_placed(b, 100, 'm', 'd', 'i', 'a', mh + th + mi);
    lemma_placed_first(b, 108, mh + th, mi);
    lemma_placed_first(b, 108, mh, th);
    law_a_media_header_reads_back(ts, media_time);
    lemma_read_inside(b, 108, mh);
    assert(word(mh, 20) == word(b, 128));
    assert(word(mh, 24) == word(b, 132));
    assert(mh[4] == b[112] && mh[5] == b[113] && mh[6] == b[114] && mh[7] == b[115]);
    lemma_handler_placed(b, 140, is_video);
    lemma_minf_placed(b, 185, is_video, entry);
}

#[verifier::rlimit(80)]
proof fn lemma_handler_placed(f: Seq<u8>, at: int, is_video: bool)
    requires
        placed(f, at, track_handler(is_video)),
    ensures
        letters(f, at + 4, 'h', 'd', 'l', 'r'),
        if is_video {
            letters(f, at + 16, 'v', 'i', 'd', 'e')
        } else {
            letters(f, at + 16, 's', 'o', 'u', 'n')
        },
{
    reveal(track_handler);
    reveal(hdlr_bytes);
    lemma_full_len(0, 0);
    let kind = if is_video {
        fourcc('v', 'i', 'd', 'e')
    } else {
        fourcc('s', 'o', 'u', 'n')
    };
    let name = if is_video {
        fourcc('V', 'i', 'd', 'e') + fourcc('o', 'H', 'a', 'n') + fourcc('d', 'l', 'e', 'r')
    } else {
        fourcc('S', 'o', 'u', 'n') + fourcc('d', 'H', 'a', 'n') + fourcc('d', 'l', 'e', 'r')
    };
    let v = full_bytes(0, 0);
    let z = be32_bytes(0);
    lemma_box_placed(f, at, 'h', 'd', 'l', 'r', v + z + kind + zeros(12) + name + seq![0u8]);
    lemma_placed_first(f, at + 8, v + z + kind + zeros(12) + name, seq![0u8]);
    lemma_placed_first(f, at + 8, v + z + kind + zeros(12), name);
    lemma_placed_first(f, at + 8, v + z + kind, zeros(12));
    lemma_placed_first(f, at + 8, v + z, kind);
    if is_video {
        lemma_letters(f, at + 16, 'v', 'i', 'd', 'e');
    } else {
        lemma_letters(f, at + 16, 's', 'o', 'u', 'n');
    }
}

#[verifier::spinoff_prover]
#[verifier::rlimit(80)]
proof fn lemma_minf_placed(f: Seq<u8>, at: int, is_video: bool, entry: Seq<u8>)
    requires
        placed(f, at, minf_bytes(is_video, entry)),
        entry.len() < 0xffff_0000,
    ensures
        ({
            let e: int = at + (if is_video {
                88int
            } else {
                84
            });
            &&& letters(f, at + 4, 'm', 'i', 'n', 'f')
            &&& if is_video {
                letters(f, at + 12, 'v', 'm', 'h', 'd')
            } else {
                letters(f, at + 12, 's', 'm', 'h', 'd')
            }
            &&& letters(f, e - 56, 'd', 'i', 'n', 'f')
            &&& letters(f, e - 32, 'u', 'r', 'l', ' ')
            &&& word(f, e - 28) == 1
            &&& letters(f, e - 20, 's', 't', 'b', 'l')
            &&& letters(f, e - 12, 's', 't', 's', 'd')
            &&& word(f, e - 4) == 1
            &&& f.subrange(e, e + entry.len()) == entry
        }),
{
    let m = media_header_bytes(is_video);
    let d = dinf_bytes();
    let s = stbl_bytes(entry);
    lemma_full_len(0, 0);
    lemma_full_len(0, 1);
    super::boxes::lemma_stbl_len(entry);
    let k: int = if is_video {
        20
    } else {
        16
    };
    let vc = full_bytes(0, 1) + be16_bytes(0) + zeros(6);
    let sc = full_bytes(0, 0) + be16_bytes(0) + be16_bytes(0);
    assert(m == (if is_video {
        mp4_box(fourcc('v', 'm', 'h', 'd'), vc)
    } else {
        mp4_box(fourcc('s', 'm', 'h', 'd'), sc)
    })) by {
        reveal(media_header_bytes);
    }
    lemma_box_len(fourcc('v', 'm', 'h', 'd'), vc);
    lemma_box_len(fourcc('s', 'm', 'h', 'd'), sc);
    let url = mp4_box(fourcc('u', 'r', 'l', ' '), full_bytes(0, 1));
    let dc = full_bytes(0, 0) + be32_bytes(1) + url;
    let dref = mp4_box(fourcc('d', 'r', 'e', 'f'), dc);
    assert(d == mp4_box(fourcc('d', 'i', 'n', 'f'), dref)) by {
        reveal(dinf_bytes);
    }
    lemma_box_len(fourcc('u', 'r', 'l', ' '), full_bytes(0, 1));
    lemma_box_len(fourcc('d', 'r', 'e', 'f'), dc);
    lemma_box_len(fourcc('d', 'i', 'n', 'f'), dref);
    assert(minf_bytes(is_video, entry) == mp4_box(fourcc('m', 'i', 'n', 'f'), m + d + s)) by {
        reveal(minf_bytes);
    }
    lemma_box_placed(f, at, 'm', 'i', 'n', 'f', m + d + s);
    lemma_placed_first(f, at + 8, m + d, s);
    lemma_placed_first(f, at + 8, m, d);
    if is_video {
        lemma_box_placed(f, at + 8, 'v', 'm', 'h', 'd', vc);
    } else {
        lemma_box_placed(f, at + 8, 's', 'm', 'h', 'd', sc);
    }
    lemma_box_placed(f, at + 8 + k, 'd', 'i', 'n', 'f', dref);
    lemma_box_placed(f, at + 16 + k, 'd', 'r', 'e', 'f', dc);
    lemma_placed_first(f, at + 24 + k, full_bytes(0, 0) + be32_bytes(1), url);
    lemma_box_placed(f, at + 32 + k, 'u', 'r', 'l', ' ', full_bytes(0, 1));
    lemma_full_word(f, at + 40 + k, 0, 1);
    let tables = stbl_tables(entry);
    assert(s == mp4_box(fourcc('s', 't', 'b', 'l'), tables)) by {
        reveal(stbl_bytes);
    }
    lemma_box_len(fourcc('s', 't', 'b', 'l'), tables);
    lemma_box_placed(f, at + 44 + k, 's', 't', 'b', 'l', tables);
    let a = stsd_bytes(entry);
    let b = empty_table_bytes(fourcc('s', 't', 't', 's'));
    let c = empty_table_bytes(fourcc('s', 't', 's', 'c'));
    let z = stsz_bytes();
    let o = empty_table_bytes(fourcc('s', 't', 'c', 'o'));
    assert(tables == a + b + c + z + o);
    lemma_placed_first(f, at + 52 + k, a + b + c + z, o);
    lemma_placed_first(f, at + 52 + k, a + b + c, z);
    lemma_placed_first(f, at + 52 + k, a + b, c);
    lemma_placed_first(f, at + 52 + k, a, b);
    let ac = full_bytes(0, 0) + be32_bytes(1) + entry;
    assert(a == mp4_box(fourcc('s', 't', 's', 'd'), ac)) by {
        reveal(stsd_bytes);
    }
    lemma_box_placed(f, at + 52 + k, 's', 't', 's', 'd', ac);
    lemma_placed_first(f, at + 60 + k, full_bytes(0, 0) + be32_bytes(1), entry);
    lemma_placed_first(f, at + 60 + k, full_bytes(0, 0), be32_bytes(1));
    lemma_word(f, at + 64 + k, 1);
}

/// A picture track's description reads back: its size, and the decoder's
/// configuration with both parameter sets, whole, and the profile of the first.
#[verifier::spinoff_prover]
#[verifier::rlimit(80)]
pub proof fn law_a_picture_description_reads_back(sps: Seq<u8>, pps: Seq<u8>, w: int, h: int)
    requires
        4 <= sps.len() < 0x1_0000,
        pps.len() < 0x1_0000,
        0 <= w < 0x1_0000,
        0 <= h < 0x1_0000,
    ensures
        ({
            let b = avc1_box(sps, pps, w, h);
            let s = sps.len() as int;
            let p = pps.len() as int;
            &&& word(b, 0) == b.len()
            &&& letters(b, 4, 'a', 'v', 'c', '1')
            &&& half(b, 14) == 1
            &&& half(b, 32) == w
            &&& half(b, 34) == h
            &&& word(b, 36) == 0x48_0000
            &&& word(b, 40) == 0x48_0000
            &&& half(b, 48) == 1
            &&& half(b, 82) == 24
            &&& letters(b, 90, 'a', 'v', 'c', 'C')
            &&& b[94] == 1
            &&& b[95] == sps[1] && b[96] == sps[2] && b[97] == sps[3]
            &&& b[98] == 0xFF
            &&& b[99] == 0xE1
            &&& half(b, 100) == s
            &&& b.subrange(102, 102 + s) == sps
            &&& b[102 + s] == 1
            &&& half(b, 103 + s) == p
            &&& b.subrange(105 + s, 105 + s + p) == pps
            &&& b.len() == 105 + s + p
        }),
{
    let b = avc1_box(sps, pps, w, h);
    let s = sps.len() as int;
    super::boxes::lemma_avc1_len(sps, pps, w, h);
    lemma_placed_self(b);
    let head = visual_entry_head(w, h);
    let rec = avcc_record(sps, pps);
    let cfg = mp4_box(fourcc('a', 'v', 'c', 'C'), rec);
    assert(b == mp4_box(fourcc('a', 'v', 'c', '1'), head + cfg)) by {
        reveal(avc1_box);
    }
    let tail = visual_entry_tail();
    assert(tail.len() == 50) by {
        reveal(visual_entry_tail);
    }
    let one = be16_bytes(1);
    let wb = be16_bytes(w);
    let hb = be16_bytes(h);
    assert(head == zeros(6) + one + zeros(16) + wb + hb + tail) by {
        reveal(visual_entry_head);
    }
    let bytes = seq![1u8, sps[1], sps[2], sps[3], 0xFF, 0xE1];
    let sl = be16_bytes(s);
    let pl = be16_bytes(pps.len() as int);
    assert(rec == bytes + sl + sps + seq![1u8] + pl + pps) by {
        reveal(avcc_record);
    }
    lemma_box_len(fourcc('a', 'v', 'c', 'C'), rec);
    lemma_box_placed(b, 0, 'a', 'v', 'c', '1', head + cfg);
    lemma_placed_first(b, 8, head, cfg);
    lemma_placed_first(b, 8, zeros(6) + one + zeros(16) + wb + hb, tail);
    lemma_placed_first(b, 8, zeros(6) + one + zeros(16) + wb, hb);
    lemma_placed_first(b, 8, zeros(6) + one + zeros(16), wb);
    lemma_placed_first(b, 8, zeros(6) + one, zeros(16));
    lemma_placed_first(b, 8, zeros(6), one);
    lemma_half(b, 14, 1);
    lemma_half(b, 32, w);
    lemma_half(b, 34, h);
    let dpi = be32_bytes(0x48_0000);
    let z = be32_bytes(0);
    let depth = be16_bytes(0x18);
    let end = be16_bytes(0xFFFF);
    assert(tail == dpi + dpi + z + one + zeros(32) + depth + end) by {
        reveal(visual_entry_tail);
    }
    lemma_placed_first(b, 36, dpi + dpi + z + one + zeros(32) + depth, end);
    lemma_placed_first(b, 36, dpi + dpi + z + one + zeros(32), depth);
    lemma_placed_first(b, 36, dpi + dpi + z + one, zeros(32));
    lemma_placed_first(b, 36, dpi + dpi + z, one);
    lemma_placed_first(b, 36, dpi + dpi, z);
    lemma_placed_first(b, 36, dpi, dpi);
    lemma_word(b, 36, 0x48_0000);
    lemma_word(b, 40, 0x48_0000);
    lemma_half(b, 48, 1);
    lemma_half(b, 82, 24);
    lemma_box_placed(b, 86, 'a', 'v', 'c', 'C', rec);
    lemma_placed_first(b, 94, bytes + sl + sps + seq![1u8] + pl, pps);
    lemma_placed_first(b, 94, bytes + sl + sps + seq![1u8], pl);
    lemma_placed_first(b, 94, bytes + sl + sps, seq![1u8]);
    lemma_placed_first(b, 94, bytes + sl, sps);
    lemma_placed_first(b, 94, bytes, sl);
    lemma_half(b, 100, s);
    lemma_half(b, 103 + s, pps.len() as int);
    lemma_read_inside(b, 94, bytes);
    assert(bytes[0] == b[94] && bytes[1] == b[95] && bytes[2] == b[96] && bytes[3] == b[97]
        && bytes[4] == b[98] && bytes[5] == b[99]);
    lemma_read_inside(b, 102 + s, seq![1u8]);
    assert(seq![1u8][0] == b[102 + s + 0]);
}

/// A sound track's description reads back: two channels of 16 bits at 48 kHz, and
/// the codec's own descriptors to the last byte.
#[verifier::rlimit(80)]
pub proof fn law_a_sound_description_reads_back(descriptors: Seq<u8>)
    requires
        descriptors.len() < 0xffff_0000,
    ensures
        ({
            let b = mp4a_bytes(descriptors);
            &&& word(b, 0) == b.len()
            &&& letters(b, 4, 'm', 'p', '4', 'a')
            &&& half(b, 14) == 1
            &&& half(b, 24) == 2
            &&& half(b, 26) == 16
            &&& half(b, 32) == 48_000
            &&& half(b, 34) == 0
            &&& letters(b, 40, 'e', 's', 'd', 's')
            &&& word(b, 44) == 0
            &&& b.subrange(48, b.len() as int) == descriptors
        }),
{
    let b = mp4a_bytes(descriptors);
    super::boxes::lemma_mp4a_len(descriptors);
    lemma_placed_self(b);
    lemma_full_len(0, 0);
    let head = audio_entry_head();
    let es = esds_bytes(descriptors);
    let ec = full_bytes(0, 0) + descriptors;
    assert(es == mp4_box(fourcc('e', 's', 'd', 's'), ec)) by {
        reveal(esds_bytes);
    }
    assert(b == mp4_box(fourcc('m', 'p', '4', 'a'), head + es)) by {
        reveal(mp4a_bytes);
    }
    lemma_box_len(fourcc('e', 's', 'd', 's'), ec);
    let one = be16_bytes(1);
    let two = be16_bytes(2);
    let bits = be16_bytes(16);
    let z = be16_bytes(0);
    let rate = be32_bytes(0xBB80_0000);
    assert(head == zeros(6) + one + zeros(8) + two + bits + z + z + rate) by {
        reveal(audio_entry_head);
    }
    lemma_box_placed(b, 0, 'm', 'p', '4', 'a', head + es);
    lemma_placed_first(b, 8, head, es);
    lemma_placed_first(b, 8, zeros(6) + one + zeros(8) + two + bits + z + z, rate);
    lemma_placed_first(b, 8, zeros(6) + one + zeros(8) + two + bits + z, z);
    lemma_placed_first(b, 8, zeros(6) + one + zeros(8) + two + bits, z);
    lemma_placed_first(b, 8, zeros(6) + one + zeros(8) + two, bits);
    lemma_placed_first(b, 8, zeros(6) + one + zeros(8), two);
    lemma_placed_first(b, 8, zeros(6) + one, zeros(8));
    lemma_placed_first(b, 8, zeros(6), one);
    lemma_half(b, 14, 1);
    lemma_half(b, 24, 2);
    lemma_half(b, 26, 16);
    assert(rate =~= be16_bytes(48_000) + be16_bytes(0));
    lemma_placed_first(b, 32, be16_bytes(48_000), be16_bytes(0));
    lemma_half(b, 32, 48_000);
    lemma_half(b, 34, 0);
    lemma_box_placed(b, 36, 'e', 's', 'd', 's', ec);
    lemma_placed_first(b, 44, full_bytes(0, 0), descriptors);
    lemma_full_word(b, 44, 0, 0);
}

/// The announcement of fragments reads back: one entry for each of the two
/// tracks, under the first sample description.
#[verifier::rlimit(80)]
pub proof fn law_fragments_are_announced()
    ensures
        ({
            let b = mvex_bytes();
            &&& word(b, 0) == 72
            &&& b.len() == 72
            &&& letters(b, 4, 'm', 'v', 'e', 'x')
            &&& letters(b, 12, 't', 'r', 'e', 'x')
            &&& word(b, 20) == 1
            &&& word(b, 24) == 1
            &&& letters(b, 44, 't', 'r', 'e', 'x')
            &&& word(b, 52) == 2
            &&& word(b, 56) == 1
        }),
{
    let b = mvex_bytes();
    let v = trex_bytes(1);
    let a = trex_bytes(2);
    lemma_full_len(0, 0);
    let f = full_bytes(0, 0);
    let one = be32_bytes(1);
    let two = be32_bytes(2);
    assert(v == mp4_box(fourcc('t', 'r', 'e', 'x'), f + one + one + zeros(12))) by {
        reveal(trex_bytes);
    }
    assert(a == mp4_box(fourcc('t', 'r', 'e', 'x'), f + two + one + zeros(12))) by {
        reveal(trex_bytes);
    }
    assert(b == mp4_box(fourcc('m', 'v', 'e', 'x'), v + a)) by {
        reveal(mvex_bytes);
    }
    lemma_box_len(fourcc('t', 'r', 'e', 'x'), f + one + one + zeros(12));
    lemma_box_len(fourcc('t', 'r', 'e', 'x'), f + two + one + zeros(12));
    lemma_box_len(fourcc('m', 'v', 'e', 'x'), v + a);
    lemma_placed_self(b);
    lemma_box_placed(b, 0, 'm', 'v', 'e', 'x', v + a);
    lemma_placed_first(b, 8, v, a);
    lemma_box_placed(b, 8, 't', 'r', 'e', 'x', f + one + one + zeros(12));
    lemma_box_placed(b, 40, 't', 'r', 'e', 'x', f + two + one + zeros(12));
    lemma_placed_first(b, 16, f + one + one, zeros(12));
    lemma_placed_first(b, 16, f + one, one);
    lemma_placed_first(b, 16, f, one);
    lemma_placed_first(b, 48, f + two + one, zeros(12));
    lemma_placed_first(b, 48, f + two, one);
    lemma_placed_first(b, 48, f, two);
    lemma_word(b, 20, 1);
    lemma_word(b, 24, 1);
    lemma_word(b, 52, 2);
    lemma_word(b, 56, 1);
}

/// What a file's head is made of can be told from its parameter sets and size.
pub open spec fn head_fits(shape: MovieShape) -> bool {
    &&& 4 <= shape.sps.len() < 0x1_0000
    &&& shape.pps.len() < 0x1_0000
    &&& shape.descriptors.len() < 0xfff0_0000
    &&& 0 <= shape.width < 0x1_0000
    &&& 0 <= shape.height < 0x1_0000
}

/// Where the parts of a file's head stand.
#[verifier::rlimit(80)]
proof fn lemma_head_placed(shape: MovieShape, d: Durations)
    requires
        head_fits(shape),
    ensures
        ({
            let f = shape.init_segment(d);
            let a: int = 594 + shape.sps.len() as int + shape.pps.len() as int;
            &&& placed(f, 0, ftyp_bytes())
            &&& ftyp_bytes().len() == 32
            &&& word(f, 32) == f.len() - 32
            &&& letters(f, 36, 'm', 'o', 'o', 'v')
            &&& placed(f, 40, mvhd_bytes(d.mvhd as int))
            &&& placed(f, 148, shape.video_trak(d))
            &&& placed(f, a, shape.audio_trak(d))
            &&& placed(f, f.len() - 72, mvex_bytes())
            &&& f.len() == a + 457 + shape.descriptors.len()
        }),
{
    let f = shape.init_segment(d);
    lemma_placed_self(f);
    super::boxes::lemma_moov_len(shape, d);
    let ft = ftyp_bytes();
    assert(ft.len() == 32) by {
        lemma_ftyp_parts();
    }
    lemma_placed_first(f, 0, ft, shape.moov(d));
    let mv = mvhd_bytes(d.mvhd as int);
    let vt = shape.video_trak(d);
    let at = shape.audio_trak(d);
    let mx = mvex_bytes();
    let movie = mv + vt + at + mx;
    lemma_mvhd_len(d.mvhd as int);
    law_fragments_are_announced();
    super::boxes::lemma_avc1_len(shape.sps, shape.pps, shape.width, shape.height);
    super::boxes::lemma_mp4a_len(shape.descriptors);
    let (w, h) = (shape.width, shape.height);
    let ve = shape.video_entry();
    let ae = mp4a_bytes(shape.descriptors);
    super::boxes::lemma_trak_len(true, w, h, ve, d.tkhd_video as int, d.mdhd_video as int);
    super::boxes::lemma_trak_len(false, w, h, ae, d.tkhd_audio as int, d.mdhd_audio as int);
    lemma_box_len(fourcc('m', 'o', 'o', 'v'), movie);
    lemma_box_placed(f, 32, 'm', 'o', 'o', 'v', movie);
    lemma_placed_first(f, 40, mv + vt + at, mx);
    lemma_placed_first(f, 40, mv + vt, at);
    lemma_placed_first(f, 40, mv, vt);
}

proof fn lemma_ftyp_parts()
    ensures
        ftyp_bytes().len() == 32,
        word(ftyp_bytes(), 0) == 32,
        letters(ftyp_bytes(), 4, 'f', 't', 'y', 'p'),
        letters(ftyp_bytes(), 8, 'i', 's', 'o', 'm'),
{
    let ft = ftyp_bytes();
    let isom = fourcc('i', 's', 'o', 'm');
    let rest = be32_bytes(0x200) + isom + fourcc('i', 's', 'o', '2') + fourcc('a', 'v', 'c', '1')
        + fourcc('m', 'p', '4', '1');
    assert(ft == mp4_box(fourcc('f', 't', 'y', 'p'), isom + rest)) by {
        reveal(ftyp_bytes);
        assert(isom + rest =~= isom + be32_bytes(0x200) + isom + fourcc('i', 's', 'o', '2')
            + fourcc('a', 'v', 'c', '1') + fourcc('m', 'p', '4', '1'));
    }
    lemma_box_len(fourcc('f', 't', 'y', 'p'), isom + rest);
    lemma_placed_self(ft);
    lemma_box_placed(ft, 0, 'f', 't', 'y', 'p', isom + rest);
    lemma_placed_first(ft, 8, isom, rest);
    lemma_letters(ft, 8, 'i', 's', 'o', 'm');
}

/// The head of a file reads back: its brand, then one movie to the end, counted in
/// milliseconds, with its duration, and the announcement of fragments last.
#[verifier::rlimit(80)]
pub proof fn law_the_head_of_a_file_reads_back(shape: MovieShape, d: Durations)
    requires
        head_fits(shape),
    ensures
        ({
            let f = shape.init_segment(d);
            &&& word(f, 0) == 32
            &&& letters(f, 4, 'f', 't', 'y', 'p')
            &&& letters(f, 8, 'i', 's', 'o', 'm')
            &&& word(f, 32) == f.len() - 32
            &&& letters(f, 36, 'm', 'o', 'o', 'v')
            &&& letters(f, 44, 'm', 'v', 'h', 'd')
            &&& word(f, 60) == 1000
            &&& word(f, 64) == d.mvhd
            &&& letters(f, f.len() - 68, 'm', 'v', 'e', 'x')
            &&& f.len() == 1051 + shape.sps.len() + shape.pps.len() + shape.descriptors.len()
        }),
{
    let f = shape.init_segment(d);
    lemma_head_placed(shape, d);
    lemma_ftyp_parts();
    let ft = ftyp_bytes();
    assert(word(f, 0) == 32 && letters(f, 4, 'f', 't', 'y', 'p') && letters(
        f,
        8,
        'i',
        's',
        'o',
        'm',
    )) by {
        lemma_read_inside(f, 0, ft);
        assert(word(ft, 0) == word(f, 0));
        assert(ft[4] == f[4] && ft[5] == f[5] && ft[6] == f[6] && ft[7] == f[7]);
        assert(ft[8] == f[8] && ft[9] == f[9] && ft[10] == f[10] && ft[11] == f[11]);
    }
    let mv = mvhd_bytes(d.mvhd as int);
    law_the_movie_header_reads_back(d.mvhd as int);
    assert(word(f, 60) == 1000 && word(f, 64) == d.mvhd && letters(f, 44, 'm', 'v', 'h', 'd')) by {
        lemma_read_inside(f, 40, mv);
        assert(word(mv, 20) == word(f, 60));
        assert(word(mv, 24) == word(f, 64));
        assert(mv[4] == f[44] && mv[5] == f[45] && mv[6] == f[46] && mv[7] == f[47]);
    }
    law_fragments_are_announced();
    let mx = mvex_bytes();
    let x = f.len() - 72;
    assert(letters(f, f.len() - 68, 'm', 'v', 'e', 'x')) by {
        lemma_read_inside(f, x, mx);
        assert(mx[4] == f[x + 4] && mx[5] == f[x + 5] && mx[6] == f[x + 6] && mx[7] == f[x + 7]);
    }
}

/// The picture track of a file's head reads back: track 1, its durations, the size
/// of the picture twice, and both parameter sets whole.
#[verifier::spinoff_prover]
#[verifier::rlimit(80)]
pub proof fn law_the_picture_track_reads_back(shape: MovieShape, d: Durations)
    requires
        head_fits(shape),
    ensures
        ({
            let f = shape.init_segment(d);
            let s = shape.sps.len() as int;
            &&& letters(f, 152, 't', 'r', 'a', 'k')
            &&& word(f, 148) == 446 + s + shape.pps.len()
            &&& word(f, 176) == 1
            &&& word(f, 184) == d.tkhd_video
            &&& half(f, 240) == shape.width
            &&& half(f, 244) == shape.height
            &&& word(f, 276) == 90_000
            &&& word(f, 280) == d.mdhd_video
            &&& letters(f, 304, 'v', 'i', 'd', 'e')
            &&& half(f, 453) == shape.width
            &&& half(f, 455) == shape.height
            &&& f.subrange(523, 523 + s) == shape.sps
            &&& f.subrange(526 + s, 526 + s + shape.pps.len()) == shape.pps
        }),
{
    let f = shape.init_segment(d);
    let s = shape.sps.len() as int;
    lemma_head_placed(shape, d);
    let (w, h) = (shape.width, shape.height);
    let vt = shape.video_trak(d);
    let ve = shape.video_entry();
    super::boxes::lemma_avc1_len(shape.sps, shape.pps, w, h);
    super::boxes::lemma_trak_len(true, w, h, ve, d.tkhd_video as int, d.mdhd_video as int);
    law_a_track_reads_back(true, w, h, ve, d.tkhd_video as int, d.mdhd_video as int);
    assert(word(f, 148) == word(vt, 0) && word(f, 176) == word(vt, 28) && word(f, 184) == word(
        vt,
        36,
    ) && half(f, 240) == half(vt, 92) && half(f, 244) == half(vt, 96) && word(f, 276) == word(
        vt,
        128,
    ) && word(f, 280) == word(vt, 132) && letters(f, 152, 't', 'r', 'a', 'k') && letters(
        f,
        304,
        'v',
        'i',
        'd',
        'e',
    )) by {
        lemma_read_inside(f, 148, vt);
        assert(word(vt, 0) == word(f, 148));
        assert(word(vt, 28) == word(f, 176));
        assert(word(vt, 36) == word(f, 184));
        assert(half(vt, 92) == half(f, 240));
        assert(half(vt, 96) == half(f, 244));
        assert(word(vt, 128) == word(f, 276));
        assert(word(vt, 132) == word(f, 280));
        assert(vt[4] == f[152] && vt[5] == f[153] && vt[6] == f[154] && vt[7] == f[155]);
        assert(vt[156] == f[304] && vt[157] == f[305] && vt[158] == f[306] && vt[159] == f[307]);
    }
    lemma_placed_within(f, 148, vt, 273, ve);
    law_a_picture_description_reads_back(shape.sps, shape.pps, w, h);
    assert(half(f, 453) == half(ve, 32) && half(f, 455) == half(ve, 34)) by {
        lemma_read_inside(f, 421, ve);
        assert(half(ve, 32) == half(f, 453));
        assert(half(ve, 34) == half(f, 455));
    }
    lemma_placed_within(f, 421, ve, 102, shape.sps);
    lemma_placed_within(f, 421, ve, 105 + s, shape.pps);
}

/// The sound track of a file's head reads back: track 2 behind the pictures, its
/// durations at 48 000 ticks per second, and the codec's descriptors whole.
#[verifier::rlimit(80)]
pub proof fn law_the_sound_track_reads_back(shape: MovieShape, d: Durations)
    requires
        head_fits(shape),
    ensures
        ({
            let f = shape.init_segment(d);
            let a: int = 594 + shape.sps.len() as int + shape.pps.len() as int;
            &&& letters(f, a + 4, 't', 'r', 'a', 'k')
            &&& word(f, a) == 385 + shape.descriptors.len()
            &&& word(f, a + 28) == 2
            &&& word(f, a + 36) == d.tkhd_audio
            &&& word(f, a + 128) == 48_000
            &&& word(f, a + 132) == d.mdhd_audio
            &&& letters(f, a + 156, 's', 'o', 'u', 'n')
            &&& f.subrange(a + 317, a + 317 + shape.descriptors.len()) == shape.descriptors
        }),
{
    let f = shape.init_segment(d);
    let a: int = 594 + shape.sps.len() as int + shape.pps.len() as int;
    lemma_head_placed(shape, d);
    let (w, h) = (shape.width, shape.height);
    let at = shape.audio_trak(d);
    let ae = mp4a_bytes(shape.descriptors);
    super::boxes::lemma_mp4a_len(shape.descriptors);
    super::boxes::lemma_trak_len(false, w, h, ae, d.tkhd_audio as int, d.mdhd_audio as int);
    law_a_track_reads_back(false, w, h, ae, d.tkhd_audio as int, d.mdhd_audio as int);
    assert(word(f, a) == word(at, 0) && word(f, a + 28) == word(at, 28) && word(f, a + 36) == word(
        at,
        36,
    ) && word(f, a + 128) == word(at, 128) && word(f, a + 132) == word(at, 132) && letters(
        f,
        a + 4,
        't',
        'r',
        'a',
        'k',
    ) && letters(f, a + 156, 's', 'o', 'u', 'n')) by {
        lemma_read_inside(f, a, at);
        assert(word(at, 0) == word(f, a + 0));
        assert(word(at, 28) == word(f, a + 28));
        assert(word(at, 36) == word(f, a + 36));
        assert(word(at, 128) == word(f, a + 128));
        assert(word(at, 132) == word(f, a + 132));
        assert(at[4] == f[a + 4] && at[5] == f[a + 5] && at[6] == f[a + 6] && at[7] == f[a + 7]);
        assert(at[156] == f[a + 156] && at[157] == f[a + 157] && at[158] == f[a + 158] && at[159]
            == f[a + 159]);
    }
    lemma_placed_within(f, a, at, 269, ae);
    law_a_sound_description_reads_back(shape.descriptors);
    lemma_placed_within(f, a + 269, ae, 48, shape.descriptors);
}

} // verus!

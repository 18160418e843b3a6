//! Movie fragments: one `moof` that describes a run of samples per track, and
//! the `mdat` that holds them.

use super::boxes::{
    end_box, fourcc, full, full_bytes, lemma_box_closed, lemma_box_len, lemma_full_len, mp4_box,
    overwrite_be32, overwritten, start_box,
};
use crate::bytes::{
    be32, be32_bytes, be64, be64_bytes, concat_assoc, lemma_be32_low, put,
};
use vstd::prelude::*;

verus! {

broadcast use concat_assoc;

/// What a fragment says of one sample.
#[derive(Debug, Clone, Copy, PartialEq, Eq)]
pub struct OutSample {
    /// In ticks of the track.
    pub duration: u32,
    /// In bytes.
    pub size: u32,
    /// Whether other samples are needed to decode it.
    pub flags: u32,
}

/// One sample in a track run: duration, size, flags, no composition offset.
#[verifier::opaque]
pub open spec fn sample_bytes(s: OutSample) -> Seq<u8> {
    be32_bytes(s.duration as int) + be32_bytes(s.size as int) + be32_bytes(s.flags as int)
        + be32_bytes(0)
}

/// The samples of a track run, in order.
pub open spec fn samples_bytes(samples: Seq<OutSample>) -> Seq<u8>
    decreases samples.len(),
{
    if samples.len() == 0 {
        Seq::empty()
    } else {
        samples_bytes(samples.drop_last()) + sample_bytes(samples.last())
    }
}

/// A track run takes sixteen bytes for each sample.
pub proof fn lemma_samples_len(samples: Seq<OutSample>)
    ensures
        samples_bytes(samples).len() == 16 * samples.len(),
    decreases samples.len(),
{
    if samples.len() > 0 {
        lemma_samples_len(samples.drop_last());
        reveal(sample_bytes);
    }
}

/// A track run whose data starts `data_offset` bytes after the start of the
/// fragment.
#[verifier::opaque]
pub open spec fn trun_bytes(samples: Seq<OutSample>, data_offset: int) -> Seq<u8> {
    mp4_box(
        fourcc('t', 'r', 'u', 'n'),
        full_bytes(0, 0x0F01) + be32_bytes(samples.len() as int) + be32_bytes(data_offset)
            + samples_bytes(samples),
    )
}

/// The length of a track run.
pub proof fn lemma_trun_len(samples: Seq<OutSample>, data_offset: int)
    ensures
        trun_bytes(samples, data_offset).len() == 20 + 16 * samples.len(),
{
    lemma_samples_len(samples);
    lemma_full_len(0, 0x0F01);
    reveal(trun_bytes);
    lemma_box_len(
        fourcc('t', 'r', 'u', 'n'),
        full_bytes(0, 0x0F01) + be32_bytes(samples.len() as int) + be32_bytes(data_offset)
            + samples_bytes(samples),
    );
}

/// The data offset lies at byte 16 of a track run: writing it there gives the
/// run with that offset.
pub proof fn lemma_trun_offset(samples: Seq<OutSample>, data_offset: int)
    ensures
        overwritten(trun_bytes(samples, 0), 16, data_offset) == trun_bytes(samples, data_offset),
{
    lemma_full_len(0, 0x0F01);
    reveal(trun_bytes);
    reveal(mp4_box);
    let head = be32_bytes((20 + 16 * samples.len()) as int) + fourcc('t', 'r', 'u', 'n') + full_bytes(
        0,
        0x0F01,
    ) + be32_bytes(samples.len() as int);
    lemma_samples_len(samples);
    let zero = trun_bytes(samples, 0);
    assert(zero =~= head + be32_bytes(0) + samples_bytes(samples));
    assert(zero.subrange(0, 16) =~= head);
    assert(zero.subrange(20, zero.len() as int) =~= samples_bytes(samples));
}

fn put_sample(b: &mut Vec<u8>, s: &OutSample)
    ensures
        final(b)@ == old(b)@ + sample_bytes(*s),
{
    proof {
        reveal(sample_bytes);
    }
    be32(b, s.duration);
    be32(b, s.size);
    be32(b, s.flags);
    be32(b, 0);
}

fn put_samples(b: &mut Vec<u8>, samples: &[OutSample])
    ensures
        final(b)@ == old(b)@ + samples_bytes(samples@),
{
    let ghost pre = b@;
    let mut i: usize = 0;
    assert(b@ =~= pre + samples_bytes(samples@.take(0)));
    while i < samples.len()
        invariant
            i <= samples@.len(),
            b@ == pre + samples_bytes(samples@.take(i as int)),
        decreases samples@.len() - i,
    {
        put_sample(b, &samples[i]);
        i = i + 1;
        proof {
            let t = samples@.take(i as int);
            assert(t.drop_last() =~= samples@.take(i - 1));
            assert(t.last() == samples@[i - 1]);
        }
    }
    assert(samples@.take(i as int) =~= samples@);
}

/// A track run with its data offset still zero, and where that field is.
pub fn trun_box(samples: &[OutSample]) -> (r: (Vec<u8>, usize))
    ensures
        r.0@ == trun_bytes(samples@, 0),
        r.1 == 16,
{
    let mut b: Vec<u8> = Vec::new();
    let off: usize = start_box(&mut b, &['t' as u8, 'r' as u8, 'u' as u8, 'n' as u8]);
    full(&mut b, 0, 0x0F01);
    proof {
        lemma_full_len(0, 0x0F01);
        lemma_be32_low(samples@.len() as int);
    }
    be32(&mut b, (samples.len() as u64 % 0x1_0000_0000) as u32);
    let rel: usize = b.len() - off;
    be32(&mut b, 0);
    put_samples(&mut b, samples);
    proof {
        reveal(trun_bytes);
        lemma_box_closed(
            Seq::empty(),
            fourcc('t', 'r', 'u', 'n'),
            full_bytes(0, 0x0F01) + be32_bytes(samples@.len() as int) + be32_bytes(0)
                + samples_bytes(samples@),
        );
    }
    end_box(&mut b, off);
    assert(b@ =~= trun_bytes(samples@, 0));
    (b, rel)
}

/// One track's part of a fragment.
pub struct FragTrack<'a> {
    pub id: u32,
    /// Decode time of the first sample, in ticks of the track.
    pub base_ticks: u64,
    pub samples: &'a [OutSample],
    /// The samples' bytes, one after the other.
    pub data: &'a [u8],
}

/// What one track puts into a fragment.
pub struct TrackPart {
    pub id: u32,
    pub base_ticks: int,
    pub samples: Seq<OutSample>,
    pub data: Seq<u8>,
}

impl View for FragTrack<'_> {
    type V = TrackPart;

    open spec fn view(&self) -> TrackPart {
        TrackPart {
            id: self.id,
            base_ticks: self.base_ticks as int,
            samples: self.samples@,
            data: self.data@,
        }
    }
}

/// The header of a track's part: which track, and offsets count from the
/// start of the fragment.
#[verifier::opaque]
pub open spec fn tfhd_bytes(id: int) -> Seq<u8> {
    mp4_box(fourcc('t', 'f', 'h', 'd'), full_bytes(0, 0x020000) + be32_bytes(id))
}

/// The decode time of a track's part.
#[verifier::opaque]
pub open spec fn tfdt_bytes(base_ticks: int) -> Seq<u8> {
    mp4_box(fourcc('t', 'f', 'd', 't'), full_bytes(1, 0) + be64_bytes(base_ticks))
}

/// One track's part of a fragment.
#[verifier::opaque]
pub open spec fn traf_bytes(
    id: int,
    base_ticks: int,
    samples: Seq<OutSample>,
    data_offset: int,
) -> Seq<u8> {
    mp4_box(
        fourcc('t', 'r', 'a', 'f'),
        tfhd_bytes(id) + tfdt_bytes(base_ticks) + trun_bytes(samples, data_offset),
    )
}

/// The sequence number of a fragment.
#[verifier::opaque]
pub open spec fn mfhd_bytes(seq: int) -> Seq<u8> {
    mp4_box(fourcc('m', 'f', 'h', 'd'), full_bytes(0, 0) + be32_bytes(seq))
}

/// Length of the header of a fragment with the given numbers of samples.
pub open spec fn moof_len(n_video: nat, n_audio: nat) -> int {
    (152 + 16 * n_video + 16 * n_audio) as int
}

/// The header of a fragment.
#[verifier::opaque]
pub open spec fn moof_bytes(seq: int, video: TrackPart, audio: TrackPart) -> Seq<u8> {
    let v_off = moof_len(video.samples.len(), audio.samples.len()) + 8;
    mp4_box(
        fourcc('m', 'o', 'o', 'f'),
        mfhd_bytes(seq) + traf_bytes(
            video.id as int,
            video.base_ticks,
            video.samples,
            v_off,
        ) + traf_bytes(
            audio.id as int,
            audio.base_ticks,
            audio.samples,
            v_off + video.data.len(),
        ),
    )
}

/// A whole fragment: its header, then the video bytes and the audio bytes.
/// The offsets in the header point at them.
pub open spec fn fragment_bytes(seq: int, video: TrackPart, audio: TrackPart) -> Seq<u8> {
    moof_bytes(seq, video, audio) + mp4_box(
        fourcc('m', 'd', 'a', 't'),
        video.data + audio.data,
    )
}

/// The length of one track's part of a fragment.
proof fn lemma_traf_len(id: int, base_ticks: int, samples: Seq<OutSample>, data_offset: int)
    ensures
        tfhd_bytes(id).len() == 16,
        tfdt_bytes(base_ticks).len() == 20,
        traf_bytes(id, base_ticks, samples, data_offset).len() == 64 + 16 * samples.len(),
{
    lemma_trun_len(samples, data_offset);
    lemma_full_len(0, 0x020000);
    lemma_full_len(1, 0);
    assert(tfhd_bytes(id).len() == 16) by {
        reveal(tfhd_bytes);
        reveal(mp4_box);
    }
    assert(tfdt_bytes(base_ticks).len() == 20) by {
        reveal(tfdt_bytes);
        reveal(mp4_box);
    }
    reveal(traf_bytes);
    lemma_box_len(
        fourcc('t', 'r', 'a', 'f'),
        tfhd_bytes(id) + tfdt_bytes(base_ticks) + trun_bytes(samples, data_offset),
    );
}

/// The header of a fragment has the length that its offsets count on.
pub proof fn lemma_moof_len(seq: int, video: TrackPart, audio: TrackPart)
    ensures
        moof_bytes(seq, video, audio).len() == moof_len(video.samples.len(), audio.samples.len()),
{
    let v_off = moof_len(video.samples.len(), audio.samples.len()) + 8;
    lemma_traf_len(video.id as int, video.base_ticks, video.samples, v_off);
    lemma_traf_len(
        audio.id as int,
        audio.base_ticks,
        audio.samples,
        v_off + video.data.len(),
    );
    assert(mfhd_bytes(seq).len() == 16) by {
        reveal(mfhd_bytes);
        reveal(mp4_box);
        lemma_full_len(0, 0);
    }
    reveal(moof_bytes);
    reveal(mp4_box);
}

fn put_mfhd(b: &mut Vec<u8>, seq: u32)
    ensures
        final(b)@ == old(b)@ + mfhd_bytes(seq as int),
{
    let ghost pre = b@;
    let off: usize = start_box(b, &['m' as u8, 'f' as u8, 'h' as u8, 'd' as u8]);
    full(b, 0, 0);
    be32(b, seq);
    proof {
        reveal(mfhd_bytes);
        lemma_box_closed(
            pre,
            fourcc('m', 'f', 'h', 'd'),
            full_bytes(0, 0) + be32_bytes(seq as int),
        );
    }
    end_box(b, off);
}

fn put_tfhd(b: &mut Vec<u8>, id: u32)
    ensures
        final(b)@ == old(b)@ + tfhd_bytes(id as int),
{
    let ghost pre = b@;
    let off: usize = start_box(b, &['t' as u8, 'f' as u8, 'h' as u8, 'd' as u8]);
    full(b, 0, 0x020000);
    be32(b, id);
    proof {
        reveal(tfhd_bytes);
        lemma_box_closed(
            pre,
            fourcc('t', 'f', 'h', 'd'),
            full_bytes(0, 0x020000) + be32_bytes(id as int),
        );
    }
    end_box(b, off);
}

fn put_tfdt(b: &mut Vec<u8>, base_ticks: u64)
    ensures
        final(b)@ == old(b)@ + tfdt_bytes(base_ticks as int),
{
    let ghost pre = b@;
    let off: usize = start_box(b, &['t' as u8, 'f' as u8, 'd' as u8, 't' as u8]);
    full(b, 1, 0);
    be64(b, base_ticks);
    proof {
        reveal(tfdt_bytes);
        lemma_box_closed(
            pre,
            fourcc('t', 'f', 'd', 't'),
            full_bytes(1, 0) + be64_bytes(base_ticks as int),
        );
    }
    end_box(b, off);
}

/// Append one track's part, its data `offset` bytes after the fragment's
/// start (only the low 32 bits of the offset are held).
fn put_traf(b: &mut Vec<u8>, track: &FragTrack, offset: u128)
    ensures
        final(b)@ == old(b)@ + traf_bytes(
            track.id as int,
            track.base_ticks as int,
            track.samples@,
            offset as int,
        ),
{
    let ghost pre = b@;
    let off: usize = start_box(b, &['t' as u8, 'r' as u8, 'a' as u8, 'f' as u8]);
    put_tfhd(b, track.id);
    put_tfdt(b, track.base_ticks);
    let (mut trun, rel): (Vec<u8>, usize) = trun_box(track.samples);
    proof {
        lemma_trun_len(track.samples@, 0);
        lemma_be32_low(offset as int);
        lemma_trun_offset(track.samples@, offset as int);
    }
    overwrite_be32(&mut trun, rel, (offset % 0x1_0000_0000) as u32);
    put(b, trun.as_slice());
    proof {
        reveal(traf_bytes);
        lemma_box_closed(
            pre,
            fourcc('t', 'r', 'a', 'f'),
            tfhd_bytes(track.id as int) + tfdt_bytes(track.base_ticks as int) + trun_bytes(
                track.samples@,
                offset as int,
            ),
        );
    }
    end_box(b, off);
}

/// One fragment of a file: the header that describes the samples of both
/// tracks, and their bytes. Lengths and offsets are held in 32 bits.
pub fn write_fragment(seq: u32, video: &FragTrack, audio: &FragTrack) -> (out: Vec<u8>)
    ensures
        out@ == fragment_bytes(seq as int, video@, audio@),
{
    let v_off: u128 = 160 + 16 * (video.samples.len() as u128) + 16 * (audio.samples.len()
        as u128);
    let a_off: u128 = v_off + video.data.len() as u128;
    let mut out: Vec<u8> = Vec::new();
    let moff: usize = start_box(&mut out, &['m' as u8, 'o' as u8, 'o' as u8, 'f' as u8]);
    put_mfhd(&mut out, seq);
    put_traf(&mut out, video, v_off);
    put_traf(&mut out, audio, a_off);
    proof {
        reveal(moof_bytes);
        lemma_box_closed(
            Seq::empty(),
            fourcc('m', 'o', 'o', 'f'),
            mfhd_bytes(seq as int) + traf_bytes(
                video.id as int,
                video.base_ticks as int,
                video.samples@,
                v_off as int,
            ) + traf_bytes(audio.id as int, audio.base_ticks as int, audio.samples@, a_off as int),
        );
    }
    end_box(&mut out, moff);
    assert(out@ =~= moof_bytes(seq as int, video@, audio@));
    let ghost pre = out@;
    let doff: usize = start_box(&mut out, &['m' as u8, 'd' as u8, 'a' as u8, 't' as u8]);
    put(&mut out, video.data);
    put(&mut out, audio.data);
    proof {
        lemma_box_closed(pre, fourcc('m', 'd', 'a', 't'), video.data@ + audio.data@);
    }
    end_box(&mut out, doff);
    out
}

} // verus!

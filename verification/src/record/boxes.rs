//! The boxes of a fragmented MP4 file.
//!
//! ```text
//! ftyp | moov (empty sample tables + mvex) | moof+mdat | moof+mdat | ...
//! ```
//!
//! Every box is a length, a four-byte type and its content; every builder
//! appends exactly one box (or one field) to the bytes it is given.

use super::{RecordError, RecordParams};
use crate::bytes::{
    be16, be16_bytes, be24, be24_bytes, be32, be32_bytes, be_value, concat_assoc, lemma_be16_low,
    lemma_be32_low, lemma_be32_value, put, put_byte, put_zeros, zeros,
};
use crate::text::has_prefix;
use vstd::prelude::*;

verus! {

/// Track identifier of the video track.
pub const VIDEO_TRACK_ID: u32 = 1;

/// Track identifier of the audio track.
pub const AUDIO_TRACK_ID: u32 = 2;

/// Ticks per second of the video track.
pub const VIDEO_TIMESCALE: u32 = 90_000;

/// Ticks per second of the audio track.
pub const AUDIO_TIMESCALE: u32 = 48_000;

/// Ticks per second of the movie header.
pub const MVHD_TIMESCALE: u32 = 1_000;

broadcast use concat_assoc;

/// A four-character box type.
pub open spec fn fourcc(a: char, b: char, c: char, d: char) -> Seq<u8> {
    seq![a as u8, b as u8, c as u8, d as u8]
}

/// One box: its total length, its type, its content.
#[verifier::opaque]
pub open spec fn mp4_box(typ: Seq<u8>, content: Seq<u8>) -> Seq<u8> {
    be32_bytes(8 + content.len() as int) + typ + content
}

/// The version byte and the three flag bytes that open a full box's content.
#[verifier::opaque]
pub open spec fn full_bytes(version: u8, flags: int) -> Seq<u8> {
    seq![version] + be24_bytes(flags)
}

/// Open a box: room for the length, then the type. Returns where the length
/// field is, for [`end_box`].
pub fn start_box(buf: &mut Vec<u8>, typ: &[u8; 4]) -> (off: usize)
    ensures
        off == old(buf)@.len(),
        final(buf)@ == old(buf)@ + (be32_bytes(0) + typ@),
{
    let off: usize = buf.len();
    be32(buf, 0);
    put(buf, typ);
    off
}

/// Close a box: write the length of everything since `off` into its field.
pub fn end_box(buf: &mut Vec<u8>, off: usize)
    requires
        off + 4 <= old(buf)@.len(),
    ensures
        final(buf)@ == old(buf)@.subrange(0, off as int) + (be32_bytes(old(buf)@.len() - off)
            + old(buf)@.subrange(off + 4, old(buf)@.len() as int)),
{
    let len: u32 = ((buf.len() - off) as u64 % 0x1_0000_0000) as u32;
    proof {
        lemma_be32_low(buf@.len() - off);
    }
    overwrite_be32(buf, off, len);
}

/// `bytes` with the 32-bit form of `v` written over the four bytes at `off`.
pub open spec fn overwritten(bytes: Seq<u8>, off: int, v: int) -> Seq<u8> {
    bytes.subrange(0, off) + (be32_bytes(v) + bytes.subrange(off + 4, bytes.len() as int))
}

/// Write a 32-bit integer over the four bytes at `off`.
pub fn overwrite_be32(buf: &mut Vec<u8>, off: usize, v: u32)
    requires
        off + 4 <= old(buf)@.len(),
    ensures
        final(buf)@ == overwritten(old(buf)@, off as int, v as int),
{
    let len: usize = buf.len();
    assert(off + 4 <= len);
    buf.set(off, (v / 0x100_0000) as u8);
    buf.set(off + 1, ((v / 0x1_0000) % 0x100) as u8);
    buf.set(off + 2, ((v / 0x100) % 0x100) as u8);
    buf.set(off + 3, (v % 0x100) as u8);
    assert(buf@ =~= overwritten(old(buf)@, off as int, v as int));
}

/// Closing a box whose content has been appended leaves exactly that box.
pub proof fn lemma_box_closed(pre: Seq<u8>, typ: Seq<u8>, content: Seq<u8>)
    requires
        typ.len() == 4,
    ensures
        ({
            let open = pre + ((be32_bytes(0) + typ) + content);
            let off = pre.len() as int;
            open.subrange(0, off) + (be32_bytes(open.len() - off) + open.subrange(
                off + 4,
                open.len() as int,
            )) == pre + mp4_box(typ, content)
        }),
{
    reveal(mp4_box);
    let open = pre + ((be32_bytes(0) + typ) + content);
    let off = pre.len() as int;
    assert(open.subrange(0, off) =~= pre);
    assert(open.subrange(off + 4, open.len() as int) =~= typ + content);
}

/// Append the version and flags of a full box.
pub fn full(buf: &mut Vec<u8>, version: u8, flags: u32)
    ensures
        final(buf)@ == old(buf)@ + full_bytes(version, flags as int),
{
    proof {
        reveal(full_bytes);
    }
    put_byte(buf, version);
    be24(buf, flags);
}

/// The decoder configuration record: profile, compatibility and level are
/// copied out of the SPS.
#[verifier::opaque]
pub open spec fn avcc_record(sps: Seq<u8>, pps: Seq<u8>) -> Seq<u8> {
    seq![1u8, sps[1], sps[2], sps[3], 0xFF, 0xE1] + be16_bytes(sps.len() as int) + sps + seq![1u8]
        + be16_bytes(pps.len() as int) + pps
}

/// A picture dimension as the sample entry holds it.
pub open spec fn dimension(v: u32) -> int {
    if v < 0xFFFF {
        v as int
    } else {
        0xFFFF
    }
}

/// The fixed fields of a visual sample entry up to its child box.
#[verifier::opaque]
pub open spec fn visual_entry_head(w: int, h: int) -> Seq<u8> {
    zeros(6) + be16_bytes(1) + zeros(16) + be16_bytes(w) + be16_bytes(h) + visual_entry_tail()
}

/// The resolution, frame count, name and depth of a visual sample entry.
#[verifier::opaque]
pub open spec fn visual_entry_tail() -> Seq<u8> {
    be32_bytes(0x0048_0000) + be32_bytes(0x0048_0000) + be32_bytes(0) + be16_bytes(1) + zeros(32)
        + be16_bytes(0x0018) + be16_bytes(0xFFFF)
}

/// The video sample entry.
#[verifier::opaque]
pub open spec fn avc1_box(sps: Seq<u8>, pps: Seq<u8>, w: int, h: int) -> Seq<u8> {
    mp4_box(
        fourcc('a', 'v', 'c', '1'),
        visual_entry_head(w, h) + mp4_box(fourcc('a', 'v', 'c', 'C'), avcc_record(sps, pps)),
    )
}

/// Whether the two parameter sets are of the right NAL types and long enough
/// to describe the stream.
pub open spec fn valid_parameter_sets(sps: Seq<u8>, pps: Seq<u8>) -> bool {
    sps.len() >= 4 && sps[0] % 32 == 7 && pps.len() > 0 && pps[0] % 32 == 8
}

/// Why a pair of parameter sets is refused.
pub open spec fn parameter_set_refusal(sps: Seq<u8>, pps: Seq<u8>) -> Seq<char> {
    if sps.len() < 4 {
        "SPS missing or shorter than 4 bytes; cannot build avcC"@
    } else if sps[0] % 32 != 7 {
        "first parameter set is not an SPS (NAL type 7)"@
    } else {
        "second parameter set is not a PPS (NAL type 8)"@
    }
}

/// Check the parameter sets a caller supplies.
pub fn validate_parameter_sets(sps: &[u8], pps: &[u8]) -> (r: Result<(), RecordError>)
    ensures
        r is Ok <==> valid_parameter_sets(sps@, pps@),
        r matches Err(e) ==> e is Input && e->Input_0@ == parameter_set_refusal(sps@, pps@),
{
    if sps.len() < 4 {
        return Err(
            RecordError::Input("SPS missing or shorter than 4 bytes; cannot build avcC".to_owned()),
        );
    }
    if sps[0] % 32 != 7 {
        return Err(
            RecordError::Input("first parameter set is not an SPS (NAL type 7)".to_owned()),
        );
    }
    if pps.len() == 0 || pps[0] % 32 != 8 {
        return Err(
            RecordError::Input("second parameter set is not a PPS (NAL type 8)".to_owned()),
        );
    }
    Ok(())
}

/// Append the length of `data` as a 16-bit field, then `data` itself.
fn put_sized16(buf: &mut Vec<u8>, data: &[u8])
    ensures
        final(buf)@ == old(buf)@ + (be16_bytes(data@.len() as int) + data@),
{
    proof {
        lemma_be16_low(data@.len() as int);
    }
    be16(buf, (data.len() as u64 % 0x1_0000) as u16);
    put(buf, data);
}

fn put_visual_entry_tail(b: &mut Vec<u8>)
    ensures
        final(b)@ == old(b)@ + visual_entry_tail(),
{
    proof {
        reveal(visual_entry_tail);
    }
    be32(b, 0x0048_0000);
    be32(b, 0x0048_0000);
    be32(b, 0);
    be16(b, 1);
    put_zeros(b, 32);
    be16(b, 0x0018);
    be16(b, 0xFFFF);
}

fn put_visual_entry_head(b: &mut Vec<u8>, w: u16, h: u16)
    ensures
        final(b)@ == old(b)@ + visual_entry_head(w as int, h as int),
{
    proof {
        reveal(visual_entry_head);
    }
    put_zeros(b, 6);
    be16(b, 1);
    put_zeros(b, 16);
    be16(b, w);
    be16(b, h);
    put_visual_entry_tail(b);
}

fn clamp16(v: u32) -> (r: u16)
    ensures
        r == dimension(v),
{
    if v < 0xFFFF {
        v as u16
    } else {
        0xFFFF
    }
}

fn put_avcc_record(b: &mut Vec<u8>, sps: &[u8], pps: &[u8])
    requires
        sps@.len() >= 4,
    ensures
        final(b)@ == old(b)@ + avcc_record(sps@, pps@),
{
    proof {
        reveal(avcc_record);
    }
    put(b, &[1, sps[1], sps[2], sps[3], 0xFF, 0xE1]);
    put_sized16(b, sps);
    put_byte(b, 1);
    put_sized16(b, pps);
}

/// The video sample entry with its decoder configuration.
pub fn avcc_box(sps: &[u8], pps: &[u8], params: &RecordParams) -> (r: Result<Vec<u8>, RecordError>)
    ensures
        r is Ok <==> sps@.len() >= 4,
        r matches Ok(b) ==> b@ == avc1_box(
            sps@,
            pps@,
            dimension(params.width),
            dimension(params.height),
        ),
        r matches Err(e) ==> e is Input && e->Input_0@ == "SPS shorter than 4 bytes"@,
{
    proof {
        reveal(avc1_box);
    }
    if sps.len() < 4 {
        return Err(RecordError::Input("SPS shorter than 4 bytes".to_owned()));
    }
    let mut b: Vec<u8> = Vec::new();
    let off: usize = start_box(&mut b, &['a' as u8, 'v' as u8, 'c' as u8, '1' as u8]);
    put_visual_entry_head(&mut b, clamp16(params.width), clamp16(params.height));
    let ghost pre = b@;
    let coff: usize = start_box(&mut b, &['a' as u8, 'v' as u8, 'c' as u8, 'C' as u8]);
    put_avcc_record(&mut b, sps, pps);
    proof {
        lemma_box_closed(pre, fourcc('a', 'v', 'c', 'C'), avcc_record(sps@, pps@));
    }
    end_box(&mut b, coff);
    proof {
        let w = dimension(params.width);
        let h = dimension(params.height);
        lemma_box_closed(
            Seq::empty(),
            fourcc('a', 'v', 'c', '1'),
            visual_entry_head(w, h) + mp4_box(fourcc('a', 'v', 'c', 'C'), avcc_record(sps@, pps@)),
        );
    }
    end_box(&mut b, off);
    assert(b@ =~= avc1_box(sps@, pps@, dimension(params.width), dimension(params.height)));
    Ok(b)
}

/// `esds`: version and flags, then the codec's descriptors verbatim.
#[verifier::opaque]
pub open spec fn esds_bytes(descriptors: Seq<u8>) -> Seq<u8> {
    mp4_box(fourcc('e', 's', 'd', 's'), full_bytes(0, 0) + descriptors)
}

/// The `esds` box around the codec's own descriptors.
pub fn esds_box(esds_content: &[u8]) -> (b: Vec<u8>)
    ensures
        b@ == esds_bytes(esds_content@),
{
    proof {
        reveal(esds_bytes);
    }
    let mut b: Vec<u8> = Vec::new();
    let off: usize = start_box(&mut b, &['e' as u8, 's' as u8, 'd' as u8, 's' as u8]);
    full(&mut b, 0, 0);
    put(&mut b, esds_content);
    proof {
        lemma_box_closed(
            Seq::empty(),
            fourcc('e', 's', 'd', 's'),
            full_bytes(0, 0) + esds_content@,
        );
    }
    end_box(&mut b, off);
    assert(b@ =~= esds_bytes(esds_content@));
    b
}

/// The fixed fields of the audio sample entry: stereo, 16 bits, 48 kHz.
#[verifier::opaque]
pub open spec fn audio_entry_head() -> Seq<u8> {
    zeros(6) + be16_bytes(1) + zeros(8) + be16_bytes(2) + be16_bytes(16) + be16_bytes(0)
        + be16_bytes(0) + be32_bytes(AUDIO_TIMESCALE * 0x1_0000)
}

/// The audio sample entry.
#[verifier::opaque]
pub open spec fn mp4a_bytes(descriptors: Seq<u8>) -> Seq<u8> {
    mp4_box(fourcc('m', 'p', '4', 'a'), audio_entry_head() + esds_bytes(descriptors))
}

fn put_audio_entry_head(b: &mut Vec<u8>)
    ensures
        final(b)@ == old(b)@ + audio_entry_head(),
{
    proof {
        reveal(audio_entry_head);
    }
    put_zeros(b, 6);
    be16(b, 1);
    put_zeros(b, 8);
    be16(b, 2);
    be16(b, 16);
    be16(b, 0);
    be16(b, 0);
    be32(b, AUDIO_TIMESCALE * 0x1_0000);
}

/// The audio sample entry with the codec's descriptors.
pub fn mp4a_box(esds_content: &[u8]) -> (b: Vec<u8>)
    ensures
        b@ == mp4a_bytes(esds_content@),
{
    proof {
        reveal(mp4a_bytes);
    }
    let mut b: Vec<u8> = Vec::new();
    let off: usize = start_box(&mut b, &['m' as u8, 'p' as u8, '4' as u8, 'a' as u8]);
    put_audio_entry_head(&mut b);
    let esds: Vec<u8> = esds_box(esds_content);
    put(&mut b, esds.as_slice());
    proof {
        lemma_box_closed(
            Seq::empty(),
            fourcc('m', 'p', '4', 'a'),
            audio_entry_head() + esds_bytes(esds_content@),
        );
    }
    end_box(&mut b, off);
    assert(b@ =~= mp4a_bytes(esds_content@));
    b
}

/// Length of the `ftyp` box: the offset of `moov` in the file.
pub const FTYP_LEN: usize = 32;

/// The file type box: major brand, minor version, compatible brands.
#[verifier::opaque]
pub open spec fn ftyp_bytes() -> Seq<u8> {
    mp4_box(
        fourcc('f', 't', 'y', 'p'),
        fourcc('i', 's', 'o', 'm') + be32_bytes(0x200) + fourcc('i', 's', 'o', 'm') + fourcc(
            'i',
            's',
            'o',
            '2',
        ) + fourcc('a', 'v', 'c', '1') + fourcc('m', 'p', '4', '1'),
    )
}

/// The file type box.
pub fn ftyp_box() -> (b: Vec<u8>)
    ensures
        b@ == ftyp_bytes(),
        b@.len() == FTYP_LEN,
{
    proof {
        reveal(ftyp_bytes);
    }
    let mut b: Vec<u8> = Vec::new();
    let off: usize = start_box(&mut b, &['f' as u8, 't' as u8, 'y' as u8, 'p' as u8]);
    put(&mut b, &['i' as u8, 's' as u8, 'o' as u8, 'm' as u8]);
    be32(&mut b, 0x200);
    put(&mut b, &['i' as u8, 's' as u8, 'o' as u8, 'm' as u8]);
    put(&mut b, &['i' as u8, 's' as u8, 'o' as u8, '2' as u8]);
    put(&mut b, &['a' as u8, 'v' as u8, 'c' as u8, '1' as u8]);
    put(&mut b, &['m' as u8, 'p' as u8, '4' as u8, '1' as u8]);
    proof {
        let content = fourcc('i', 's', 'o', 'm') + be32_bytes(0x200) + fourcc('i', 's', 'o', 'm')
            + fourcc('i', 's', 'o', '2') + fourcc('a', 'v', 'c', '1') + fourcc('m', 'p', '4', '1');
        lemma_box_closed(Seq::empty(), fourcc('f', 't', 'y', 'p'), content);
    }
    end_box(&mut b, off);
    assert(b@ =~= ftyp_bytes());
    b
}

/// Where the duration fields lie, counted from the start of the file.
#[derive(Debug, Clone, Copy, PartialEq, Eq)]
pub struct DurationPatches {
    pub mvhd: usize,
    pub tkhd_video: usize,
    pub tkhd_audio: usize,
    pub mdhd_video: usize,
    pub mdhd_audio: usize,
}

/// The durations that the header declares.
#[derive(Debug, Clone, Copy, PartialEq, Eq)]
pub struct Durations {
    pub mvhd: u32,
    pub tkhd_video: u32,
    pub tkhd_audio: u32,
    pub mdhd_video: u32,
    pub mdhd_audio: u32,
}

/// The durations of a file whose end is not known yet.
pub open spec fn no_durations() -> Durations {
    Durations { mvhd: 0, tkhd_video: 0, tkhd_audio: 0, mdhd_video: 0, mdhd_audio: 0 }
}

/// The identity transformation matrix.
#[verifier::opaque]
pub open spec fn matrix_bytes() -> Seq<u8> {
    be32_bytes(0x0001_0000) + zeros(12) + be32_bytes(0x0001_0000) + zeros(12) + be32_bytes(
        0x4000_0000,
    )
}

fn put_matrix(buf: &mut Vec<u8>)
    ensures
        final(buf)@ == old(buf)@ + matrix_bytes(),
{
    proof {
        reveal(matrix_bytes);
    }
    be32(buf, 0x0001_0000);
    put_zeros(buf, 12);
    be32(buf, 0x0001_0000);
    put_zeros(buf, 12);
    be32(buf, 0x4000_0000);
}

/// What precedes the duration in `mvhd` and `mdhd`.
#[verifier::opaque]
pub open spec fn header_head(timescale: int) -> Seq<u8> {
    full_bytes(0, 0) + be32_bytes(0) + be32_bytes(0) + be32_bytes(timescale)
}

fn put_header_head(buf: &mut Vec<u8>, timescale: u32)
    ensures
        final(buf)@ == old(buf)@ + header_head(timescale as int),
        final(buf)@.len() == old(buf)@.len() + 16,
{
    proof {
        reveal(header_head);
    }
    full(buf, 0, 0);
    be32(buf, 0);
    be32(buf, 0);
    be32(buf, timescale);
    proof {
        lemma_header_head_len(timescale as int);
    }
}

/// What follows the duration in `mvhd`.
#[verifier::opaque]
pub open spec fn mvhd_tail() -> Seq<u8> {
    be32_bytes(0x0001_0000) + be16_bytes(0x0100) + be16_bytes(0) + zeros(8) + matrix_bytes()
        + zeros(24) + be32_bytes(3)
}

fn put_mvhd_tail(buf: &mut Vec<u8>)
    ensures
        final(buf)@ == old(buf)@ + mvhd_tail(),
{
    proof {
        reveal(mvhd_tail);
    }
    be32(buf, 0x0001_0000);
    be16(buf, 0x0100);
    be16(buf, 0);
    put_zeros(buf, 8);
    put_matrix(buf);
    put_zeros(buf, 24);
    be32(buf, 3);
}

/// The movie header with the given duration.
#[verifier::opaque]
pub open spec fn mvhd_bytes(duration: int) -> Seq<u8> {
    mp4_box(
        fourcc('m', 'v', 'h', 'd'),
        header_head(MVHD_TIMESCALE as int) + be32_bytes(duration) + mvhd_tail(),
    )
}

/// Append the movie header, its duration zero. Returns where the duration is.
pub fn mvhd_box(buf: &mut Vec<u8>) -> (dur_off: usize)
    ensures
        final(buf)@ == old(buf)@ + mvhd_bytes(0),
        dur_off == old(buf)@.len() + 24,
{
    proof {
        reveal(mvhd_bytes);
    }
    let ghost pre = buf@;
    let off: usize = start_box(buf, &['m' as u8, 'v' as u8, 'h' as u8, 'd' as u8]);
    put_header_head(buf, MVHD_TIMESCALE);
    let dur_off: usize = buf.len();
    be32(buf, 0);
    put_mvhd_tail(buf);
    proof {
        lemma_box_closed(
            pre,
            fourcc('m', 'v', 'h', 'd'),
            header_head(MVHD_TIMESCALE as int) + be32_bytes(0) + mvhd_tail(),
        );
    }
    end_box(buf, off);
    dur_off
}

/// What precedes the duration in `tkhd`: enabled, in the movie, in the
/// preview.
#[verifier::opaque]
pub open spec fn tkhd_head(track_id: int) -> Seq<u8> {
    full_bytes(0, 7) + be32_bytes(0) + be32_bytes(0) + be32_bytes(track_id) + be32_bytes(0)
}

/// What follows the duration in `tkhd`. Audio has a volume, video a size.
#[verifier::opaque]
pub open spec fn tkhd_tail(is_video: bool, w: int, h: int) -> Seq<u8> {
    zeros(8) + be16_bytes(0) + be16_bytes(0) + be16_bytes(
        if is_video {
            0
        } else {
            0x0100
        },
    ) + be16_bytes(0) + matrix_bytes() + be32_bytes(
        if is_video {
            w * 0x1_0000
        } else {
            0
        },
    ) + be32_bytes(
        if is_video {
            h * 0x1_0000
        } else {
            0
        },
    )
}

/// A track header with the given duration.
#[verifier::opaque]
pub open spec fn tkhd_bytes(track_id: int, is_video: bool, w: int, h: int, duration: int) -> Seq<
    u8,
> {
    mp4_box(
        fourcc('t', 'k', 'h', 'd'),
        tkhd_head(track_id) + be32_bytes(duration) + tkhd_tail(is_video, w, h),
    )
}

fn put_tkhd_head(buf: &mut Vec<u8>, track_id: u32)
    ensures
        final(buf)@ == old(buf)@ + tkhd_head(track_id as int),
        final(buf)@.len() == old(buf)@.len() + 20,
{
    proof {
        reveal(tkhd_head);
    }
    full(buf, 0, 7);
    be32(buf, 0);
    be32(buf, 0);
    be32(buf, track_id);
    be32(buf, 0);
    proof {
        lemma_full_len(0, 7);
    }
}

fn put_tkhd_tail(buf: &mut Vec<u8>, is_video: bool, w: u16, h: u16)
    ensures
        final(buf)@ == old(buf)@ + tkhd_tail(is_video, w as int, h as int),
{
    proof {
        reveal(tkhd_tail);
    }
    put_zeros(buf, 8);
    be16(buf, 0);
    be16(buf, 0);
    be16(
        buf,
        if is_video {
            0
        } else {
            0x0100
        },
    );
    be16(buf, 0);
    put_matrix(buf);
    be32(
        buf,
        if is_video {
            w as u32 * 0x1_0000
        } else {
            0
        },
    );
    be32(
        buf,
        if is_video {
            h as u32 * 0x1_0000
        } else {
            0
        },
    );
}

/// Append a track header, its duration zero. Returns where the duration is.
pub fn tkhd_box(buf: &mut Vec<u8>, track_id: u32, is_video: bool, w: u16, h: u16) -> (dur_off:
    usize)
    ensures
        final(buf)@ == old(buf)@ + tkhd_bytes(track_id as int, is_video, w as int, h as int, 0),
        dur_off == old(buf)@.len() + 28,
{
    proof {
        reveal(tkhd_bytes);
    }
    let ghost pre = buf@;
    let off: usize = start_box(buf, &['t' as u8, 'k' as u8, 'h' as u8, 'd' as u8]);
    put_tkhd_head(buf, track_id);
    let dur_off: usize = buf.len();
    be32(buf, 0);
    put_tkhd_tail(buf, is_video, w, h);
    proof {
        lemma_box_closed(
            pre,
            fourcc('t', 'k', 'h', 'd'),
            tkhd_head(track_id as int) + be32_bytes(0) + tkhd_tail(is_video, w as int, h as int),
        );
    }
    end_box(buf, off);
    dur_off
}

/// A media header with the given duration.
#[verifier::opaque]
pub open spec fn mdhd_bytes(timescale: int, duration: int) -> Seq<u8> {
    mp4_box(
        fourcc('m', 'd', 'h', 'd'),
        header_head(timescale) + be32_bytes(duration) + (be16_bytes(0x55C4) + be16_bytes(0)),
    )
}

/// Append a media header, its duration zero. Returns where the duration is.
pub fn mdhd_box(buf: &mut Vec<u8>, timescale: u32) -> (dur_off: usize)
    ensures
        final(buf)@ == old(buf)@ + mdhd_bytes(timescale as int, 0),
        dur_off == old(buf)@.len() + 24,
{
    proof {
        reveal(mdhd_bytes);
    }
    let ghost pre = buf@;
    let off: usize = start_box(buf, &['m' as u8, 'd' as u8, 'h' as u8, 'd' as u8]);
    put_header_head(buf, timescale);
    let dur_off: usize = buf.len();
    be32(buf, 0);
    be16(buf, 0x55C4);
    be16(buf, 0);
    proof {
        lemma_box_closed(
            pre,
            fourcc('m', 'd', 'h', 'd'),
            header_head(timescale as int) + be32_bytes(0) + (be16_bytes(0x55C4) + be16_bytes(0)),
        );
    }
    end_box(buf, off);
    dur_off
}

/// A handler reference.
#[verifier::opaque]
pub open spec fn hdlr_bytes(handler: Seq<u8>, name: Seq<u8>) -> Seq<u8> {
    mp4_box(
        fourcc('h', 'd', 'l', 'r'),
        full_bytes(0, 0) + be32_bytes(0) + handler + zeros(12) + name + seq![0u8],
    )
}

/// Append a handler reference: the handler's type and its name.
pub fn hdlr_box(buf: &mut Vec<u8>, handler: &[u8; 4], name: &[u8])
    ensures
        final(buf)@ == old(buf)@ + hdlr_bytes(handler@, name@),
{
    proof {
        reveal(hdlr_bytes);
    }
    let ghost pre = buf@;
    let off: usize = start_box(buf, &['h' as u8, 'd' as u8, 'l' as u8, 'r' as u8]);
    full(buf, 0, 0);
    be32(buf, 0);
    put(buf, handler);
    put_zeros(buf, 12);
    put(buf, name);
    put_byte(buf, 0);
    proof {
        lemma_box_closed(
            pre,
            fourcc('h', 'd', 'l', 'r'),
            full_bytes(0, 0) + be32_bytes(0) + handler@ + zeros(12) + name@ + seq![0u8],
        );
    }
    end_box(buf, off);
}

/// The data reference: one entry, the media is in this file.
#[verifier::opaque]
pub open spec fn dinf_bytes() -> Seq<u8> {
    mp4_box(
        fourcc('d', 'i', 'n', 'f'),
        mp4_box(
            fourcc('d', 'r', 'e', 'f'),
            full_bytes(0, 0) + be32_bytes(1) + mp4_box(fourcc('u', 'r', 'l', ' '), full_bytes(0, 1)),
        ),
    )
}

/// Append the data reference.
pub fn dinf_box(buf: &mut Vec<u8>)
    ensures
        final(buf)@ == old(buf)@ + dinf_bytes(),
{
    proof {
        reveal(dinf_bytes);
    }
    let ghost pre = buf@;
    let off: usize = start_box(buf, &['d' as u8, 'i' as u8, 'n' as u8, 'f' as u8]);
    let ghost dpre = buf@;
    let doff: usize = start_box(buf, &['d' as u8, 'r' as u8, 'e' as u8, 'f' as u8]);
    full(buf, 0, 0);
    be32(buf, 1);
    let ghost upre = buf@;
    let uoff: usize = start_box(buf, &['u' as u8, 'r' as u8, 'l' as u8, ' ' as u8]);
    full(buf, 0, 1);
    let ghost url = mp4_box(fourcc('u', 'r', 'l', ' '), full_bytes(0, 1));
    let ghost dref = full_bytes(0, 0) + be32_bytes(1) + url;
    proof {
        lemma_box_closed(upre, fourcc('u', 'r', 'l', ' '), full_bytes(0, 1));
    }
    end_box(buf, uoff);
    proof {
        lemma_box_closed(dpre, fourcc('d', 'r', 'e', 'f'), dref);
    }
    end_box(buf, doff);
    proof {
        lemma_box_closed(
            pre,
            fourcc('d', 'i', 'n', 'f'),
            mp4_box(fourcc('d', 'r', 'e', 'f'), dref),
        );
    }
    end_box(buf, off);
}

/// A sample table with no entries.
#[verifier::opaque]
pub open spec fn empty_table_bytes(typ: Seq<u8>) -> Seq<u8> {
    mp4_box(typ, full_bytes(0, 0) + be32_bytes(0))
}

/// Append a sample table with no entries.
pub fn empty_table(buf: &mut Vec<u8>, typ: &[u8; 4])
    ensures
        final(buf)@ == old(buf)@ + empty_table_bytes(typ@),
{
    proof {
        reveal(empty_table_bytes);
    }
    let ghost pre = buf@;
    let off: usize = start_box(buf, typ);
    full(buf, 0, 0);
    be32(buf, 0);
    proof {
        lemma_box_closed(pre, typ@, full_bytes(0, 0) + be32_bytes(0));
    }
    end_box(buf, off);
}

/// The sample description: one sample entry.
#[verifier::opaque]
pub open spec fn stsd_bytes(entry: Seq<u8>) -> Seq<u8> {
    mp4_box(fourcc('s', 't', 's', 'd'), full_bytes(0, 0) + be32_bytes(1) + entry)
}

fn put_stsd(buf: &mut Vec<u8>, entry: &[u8])
    ensures
        final(buf)@ == old(buf)@ + stsd_bytes(entry@),
{
    proof {
        reveal(stsd_bytes);
    }
    let ghost pre = buf@;
    let stsd: usize = start_box(buf, &['s' as u8, 't' as u8, 's' as u8, 'd' as u8]);
    full(buf, 0, 0);
    be32(buf, 1);
    put(buf, entry);
    proof {
        lemma_box_closed(
            pre,
            fourcc('s', 't', 's', 'd'),
            full_bytes(0, 0) + be32_bytes(1) + entry@,
        );
    }
    end_box(buf, stsd);
}

/// The sample size table: no common size, no samples.
#[verifier::opaque]
pub open spec fn stsz_bytes() -> Seq<u8> {
    mp4_box(fourcc('s', 't', 's', 'z'), full_bytes(0, 0) + be32_bytes(0) + be32_bytes(0))
}

fn put_stsz(buf: &mut Vec<u8>)
    ensures
        final(buf)@ == old(buf)@ + stsz_bytes(),
{
    proof {
        reveal(stsz_bytes);
    }
    let ghost pre = buf@;
    let szoff: usize = start_box(buf, &['s' as u8, 't' as u8, 's' as u8, 'z' as u8]);
    full(buf, 0, 0);
    be32(buf, 0);
    be32(buf, 0);
    proof {
        lemma_box_closed(
            pre,
            fourcc('s', 't', 's', 'z'),
            full_bytes(0, 0) + be32_bytes(0) + be32_bytes(0),
        );
    }
    end_box(buf, szoff);
}

/// The sample tables: one sample entry, every table empty.
pub open spec fn stbl_tables(entry: Seq<u8>) -> Seq<u8> {
    stsd_bytes(entry) + empty_table_bytes(fourcc('s', 't', 't', 's')) + empty_table_bytes(
        fourcc('s', 't', 's', 'c'),
    ) + stsz_bytes() + empty_table_bytes(fourcc('s', 't', 'c', 'o'))
}

/// The sample table box.
#[verifier::opaque]
pub open spec fn stbl_bytes(entry: Seq<u8>) -> Seq<u8> {
    mp4_box(fourcc('s', 't', 'b', 'l'), stbl_tables(entry))
}

fn put_stbl(buf: &mut Vec<u8>, entry: &[u8])
    ensures
        final(buf)@ == old(buf)@ + stbl_bytes(entry@),
{
    proof {
        reveal(stbl_bytes);
    }
    let ghost pre = buf@;
    let stbl: usize = start_box(buf, &['s' as u8, 't' as u8, 'b' as u8, 'l' as u8]);
    put_stsd(buf, entry);
    empty_table(buf, &['s' as u8, 't' as u8, 't' as u8, 's' as u8]);
    empty_table(buf, &['s' as u8, 't' as u8, 's' as u8, 'c' as u8]);
    put_stsz(buf);
    empty_table(buf, &['s' as u8, 't' as u8, 'c' as u8, 'o' as u8]);
    proof {
        lemma_box_closed(pre, fourcc('s', 't', 'b', 'l'), stbl_tables(entry@));
    }
    end_box(buf, stbl);
}

/// The media-specific header: `vmhd` for video, `smhd` for audio.
#[verifier::opaque]
pub open spec fn media_header_bytes(is_video: bool) -> Seq<u8> {
    if is_video {
        mp4_box(fourcc('v', 'm', 'h', 'd'), full_bytes(0, 1) + be16_bytes(0) + zeros(6))
    } else {
        mp4_box(fourcc('s', 'm', 'h', 'd'), full_bytes(0, 0) + be16_bytes(0) + be16_bytes(0))
    }
}

fn put_media_header(buf: &mut Vec<u8>, is_video: bool)
    ensures
        final(buf)@ == old(buf)@ + media_header_bytes(is_video),
{
    proof {
        reveal(media_header_bytes);
    }
    let ghost pre = buf@;
    if is_video {
        let voff: usize = start_box(buf, &['v' as u8, 'm' as u8, 'h' as u8, 'd' as u8]);
        full(buf, 0, 1);
        be16(buf, 0);
        put_zeros(buf, 6);
        proof {
            lemma_box_closed(
                pre,
                fourcc('v', 'm', 'h', 'd'),
                full_bytes(0, 1) + be16_bytes(0) + zeros(6),
            );
        }
        end_box(buf, voff);
    } else {
        let soff: usize = start_box(buf, &['s' as u8, 'm' as u8, 'h' as u8, 'd' as u8]);
        full(buf, 0, 0);
        be16(buf, 0);
        be16(buf, 0);
        proof {
            lemma_box_closed(
                pre,
                fourcc('s', 'm', 'h', 'd'),
                full_bytes(0, 0) + be16_bytes(0) + be16_bytes(0),
            );
        }
        end_box(buf, soff);
    }
}

/// The media information box.
#[verifier::opaque]
pub open spec fn minf_bytes(is_video: bool, entry: Seq<u8>) -> Seq<u8> {
    mp4_box(
        fourcc('m', 'i', 'n', 'f'),
        media_header_bytes(is_video) + dinf_bytes() + stbl_bytes(entry),
    )
}

fn put_minf(buf: &mut Vec<u8>, is_video: bool, entry: &[u8])
    ensures
        final(buf)@ == old(buf)@ + minf_bytes(is_video, entry@),
{
    proof {
        reveal(minf_bytes);
    }
    let ghost pre = buf@;
    let minf: usize = start_box(buf, &['m' as u8, 'i' as u8, 'n' as u8, 'f' as u8]);
    put_media_header(buf, is_video);
    dinf_box(buf);
    put_stbl(buf, entry);
    proof {
        lemma_box_closed(
            pre,
            fourcc('m', 'i', 'n', 'f'),
            media_header_bytes(is_video) + dinf_bytes() + stbl_bytes(entry@),
        );
    }
    end_box(buf, minf);
}

/// The handler of a track: its type and its name.
#[verifier::opaque]
pub open spec fn track_handler(is_video: bool) -> Seq<u8> {
    if is_video {
        hdlr_bytes(
            fourcc('v', 'i', 'd', 'e'),
            fourcc('V', 'i', 'd', 'e') + fourcc('o', 'H', 'a', 'n') + fourcc('d', 'l', 'e', 'r'),
        )
    } else {
        hdlr_bytes(
            fourcc('s', 'o', 'u', 'n'),
            fourcc('S', 'o', 'u', 'n') + fourcc('d', 'H', 'a', 'n') + fourcc('d', 'l', 'e', 'r'),
        )
    }
}

fn put_track_handler(buf: &mut Vec<u8>, is_video: bool)
    ensures
        final(buf)@ == old(buf)@ + track_handler(is_video),
{
    proof {
        reveal(track_handler);
    }
    if is_video {
        let name: [u8; 12] = [
            'V' as u8,
            'i' as u8,
            'd' as u8,
            'e' as u8,
            'o' as u8,
            'H' as u8,
            'a' as u8,
            'n' as u8,
            'd' as u8,
            'l' as u8,
            'e' as u8,
            'r' as u8,
        ];
        assert(name@ =~= fourcc('V', 'i', 'd', 'e') + fourcc('o', 'H', 'a', 'n') + fourcc(
            'd',
            'l',
            'e',
            'r',
        ));
        hdlr_box(buf, &['v' as u8, 'i' as u8, 'd' as u8, 'e' as u8], &name);
    } else {
        let name: [u8; 12] = [
            'S' as u8,
            'o' as u8,
            'u' as u8,
            'n' as u8,
            'd' as u8,
            'H' as u8,
            'a' as u8,
            'n' as u8,
            'd' as u8,
            'l' as u8,
            'e' as u8,
            'r' as u8,
        ];
        assert(name@ =~= fourcc('S', 'o', 'u', 'n') + fourcc('d', 'H', 'a', 'n') + fourcc(
            'd',
            'l',
            'e',
            'r',
        ));
        hdlr_box(buf, &['s' as u8, 'o' as u8, 'u' as u8, 'n' as u8], &name);
    }
}

/// The timescale of a track.
pub open spec fn track_timescale(is_video: bool) -> int {
    if is_video {
        VIDEO_TIMESCALE as int
    } else {
        AUDIO_TIMESCALE as int
    }
}

/// The media box of a track.
#[verifier::opaque]
pub open spec fn mdia_bytes(is_video: bool, entry: Seq<u8>, duration: int) -> Seq<u8> {
    mp4_box(
        fourcc('m', 'd', 'i', 'a'),
        mdhd_bytes(track_timescale(is_video), duration) + track_handler(is_video) + minf_bytes(
            is_video,
            entry,
        ),
    )
}

fn put_mdia(buf: &mut Vec<u8>, is_video: bool, entry: &[u8]) -> (dur_off: usize)
    ensures
        final(buf)@ == old(buf)@ + mdia_bytes(is_video, entry@, 0),
        dur_off == old(buf)@.len() + 32,
{
    proof {
        reveal(mdia_bytes);
    }
    let ghost pre = buf@;
    let mdia: usize = start_box(buf, &['m' as u8, 'd' as u8, 'i' as u8, 'a' as u8]);
    let dur_off: usize = mdhd_box(
        buf,
        if is_video {
            VIDEO_TIMESCALE
        } else {
            AUDIO_TIMESCALE
        },
    );
    put_track_handler(buf, is_video);
    put_minf(buf, is_video, entry);
    proof {
        lemma_box_closed(
            pre,
            fourcc('m', 'd', 'i', 'a'),
            mdhd_bytes(track_timescale(is_video), 0) + track_handler(is_video) + minf_bytes(
                is_video,
                entry@,
            ),
        );
    }
    end_box(buf, mdia);
    dur_off
}

/// The identifier of a track.
pub open spec fn track_id(is_video: bool) -> int {
    if is_video {
        VIDEO_TRACK_ID as int
    } else {
        AUDIO_TRACK_ID as int
    }
}

/// A track: its header, then its media.
#[verifier::opaque]
pub open spec fn trak_bytes(
    is_video: bool,
    w: int,
    h: int,
    entry: Seq<u8>,
    tkhd_duration: int,
    mdhd_duration: int,
) -> Seq<u8> {
    mp4_box(
        fourcc('t', 'r', 'a', 'k'),
        tkhd_bytes(track_id(is_video), is_video, w, h, tkhd_duration) + mdia_bytes(
            is_video,
            entry,
            mdhd_duration,
        ),
    )
}

/// Length of a track header box.
pub const TKHD_LEN: usize = 92;

fn put_trak(buf: &mut Vec<u8>, is_video: bool, w: u16, h: u16, entry: &[u8]) -> (offs: (
    usize,
    usize,
))
    ensures
        final(buf)@ == old(buf)@ + trak_bytes(is_video, w as int, h as int, entry@, 0, 0),
        offs.0 == old(buf)@.len() + 36,
        offs.1 == old(buf)@.len() + 8 + TKHD_LEN + 32,
{
    proof {
        reveal(trak_bytes);
    }
    let ghost pre = buf@;
    let trak: usize = start_box(buf, &['t' as u8, 'r' as u8, 'a' as u8, 'k' as u8]);
    let tkhd: usize = tkhd_box(
        buf,
        if is_video {
            VIDEO_TRACK_ID
        } else {
            AUDIO_TRACK_ID
        },
        is_video,
        w,
        h,
    );
    proof {
        lemma_tkhd_len(track_id(is_video), is_video, w as int, h as int, 0);
    }
    let mdhd: usize = put_mdia(buf, is_video, entry);
    proof {
        lemma_box_closed(
            pre,
            fourcc('t', 'r', 'a', 'k'),
            tkhd_bytes(track_id(is_video), is_video, w as int, h as int, 0) + mdia_bytes(
                is_video,
                entry@,
                0,
            ),
        );
    }
    end_box(buf, trak);
    (tkhd, mdhd)
}

/// The defaults of a track's fragments.
#[verifier::opaque]
pub open spec fn trex_bytes(track_id: int) -> Seq<u8> {
    mp4_box(
        fourcc('t', 'r', 'e', 'x'),
        full_bytes(0, 0) + be32_bytes(track_id) + be32_bytes(1) + zeros(12),
    )
}

fn put_trex(buf: &mut Vec<u8>, track_id: u32)
    ensures
        final(buf)@ == old(buf)@ + trex_bytes(track_id as int),
{
    proof {
        reveal(trex_bytes);
    }
    let ghost pre = buf@;
    let troff: usize = start_box(buf, &['t' as u8, 'r' as u8, 'e' as u8, 'x' as u8]);
    full(buf, 0, 0);
    be32(buf, track_id);
    be32(buf, 1);
    put_zeros(buf, 12);
    proof {
        lemma_box_closed(
            pre,
            fourcc('t', 'r', 'e', 'x'),
            full_bytes(0, 0) + be32_bytes(track_id as int) + be32_bytes(1) + zeros(12),
        );
    }
    end_box(buf, troff);
}

/// The box that announces fragments, for both tracks.
#[verifier::opaque]
pub open spec fn mvex_bytes() -> Seq<u8> {
    mp4_box(
        fourcc('m', 'v', 'e', 'x'),
        trex_bytes(VIDEO_TRACK_ID as int) + trex_bytes(AUDIO_TRACK_ID as int),
    )
}

fn put_mvex(buf: &mut Vec<u8>)
    ensures
        final(buf)@ == old(buf)@ + mvex_bytes(),
{
    proof {
        reveal(mvex_bytes);
    }
    let ghost pre = buf@;
    let mvex: usize = start_box(buf, &['m' as u8, 'v' as u8, 'e' as u8, 'x' as u8]);
    put_trex(buf, VIDEO_TRACK_ID);
    put_trex(buf, AUDIO_TRACK_ID);
    proof {
        lemma_box_closed(
            pre,
            fourcc('m', 'v', 'e', 'x'),
            trex_bytes(VIDEO_TRACK_ID as int) + trex_bytes(AUDIO_TRACK_ID as int),
        );
    }
    end_box(buf, mvex);
}

/// What the header box holds besides durations.
pub struct MovieShape {
    pub sps: Seq<u8>,
    pub pps: Seq<u8>,
    pub descriptors: Seq<u8>,
    pub width: int,
    pub height: int,
}

impl MovieShape {
    /// The video sample entry.
    pub open spec fn video_entry(self) -> Seq<u8> {
        avc1_box(self.sps, self.pps, self.width, self.height)
    }

    /// The video track with its two durations.
    pub open spec fn video_trak(self, d: Durations) -> Seq<u8> {
        trak_bytes(
            true,
            self.width,
            self.height,
            self.video_entry(),
            d.tkhd_video as int,
            d.mdhd_video as int,
        )
    }

    /// The audio track with its two durations.
    pub open spec fn audio_trak(self, d: Durations) -> Seq<u8> {
        trak_bytes(
            false,
            self.width,
            self.height,
            mp4a_bytes(self.descriptors),
            d.tkhd_audio as int,
            d.mdhd_audio as int,
        )
    }

    /// The header box of a fragmented file: the movie header, a video and an
    /// audio track with empty sample tables, and the fragment defaults.
    pub open spec fn moov(self, d: Durations) -> Seq<u8> {
        mp4_box(
            fourcc('m', 'o', 'o', 'v'),
            mvhd_bytes(d.mvhd as int) + self.video_trak(d) + self.audio_trak(d) + mvex_bytes(),
        )
    }

    /// The file up to its first fragment.
    pub open spec fn init_segment(self, d: Durations) -> Seq<u8> {
        ftyp_bytes() + self.moov(d)
    }

    /// Where the duration fields lie in the init segment.
    pub open spec fn duration_offsets(self) -> DurationPatches {
        let video = FTYP_LEN + 8 + 108;
        let audio = video + self.video_trak(no_durations()).len();
        DurationPatches {
            mvhd: (FTYP_LEN + 8 + 24) as usize,
            tkhd_video: (video + 36) as usize,
            tkhd_audio: (audio + 36) as usize,
            mdhd_video: (video + 8 + TKHD_LEN + 32) as usize,
            mdhd_audio: (audio + 8 + TKHD_LEN + 32) as usize,
        }
    }
}

/// A box is eight bytes longer than its content.
pub proof fn lemma_box_len(typ: Seq<u8>, content: Seq<u8>)
    requires
        typ.len() == 4,
    ensures
        mp4_box(typ, content).len() == 8 + content.len(),
{
    reveal(mp4_box);
}

/// Version and flags take four bytes.
pub proof fn lemma_full_len(version: u8, flags: int)
    ensures
        full_bytes(version, flags).len() == 4,
{
    reveal(full_bytes);
}

/// The movie header's length does not depend on the duration.
pub proof fn lemma_mvhd_len(duration: int)
    ensures
        header_head(MVHD_TIMESCALE as int).len() == 16,
        mvhd_tail().len() == 80,
        mvhd_bytes(duration).len() == 108,
{
    assert(matrix_bytes().len() == 36) by {
        reveal(matrix_bytes);
    }
    assert(mvhd_tail().len() == 80) by {
        reveal(mvhd_tail);
    }
    lemma_header_head_len(MVHD_TIMESCALE as int);
    reveal(mvhd_bytes);
    lemma_box_len(
        fourcc('m', 'v', 'h', 'd'),
        header_head(MVHD_TIMESCALE as int) + be32_bytes(duration) + mvhd_tail(),
    );
}

proof fn lemma_header_head_len(timescale: int)
    ensures
        header_head(timescale).len() == 16,
{
    reveal(header_head);
    lemma_full_len(0, 0);
}

/// A track header's length does not depend on what it says.
pub proof fn lemma_tkhd_len(id: int, is_video: bool, w: int, h: int, duration: int)
    ensures
        tkhd_head(id).len() == 20,
        tkhd_tail(is_video, w, h).len() == 60,
        tkhd_bytes(id, is_video, w, h, duration).len() == TKHD_LEN,
{
    assert(matrix_bytes().len() == 36) by {
        reveal(matrix_bytes);
    }
    assert(tkhd_head(id).len() == 20) by {
        reveal(tkhd_head);
        lemma_full_len(0, 7);
    }
    assert(tkhd_tail(is_video, w, h).len() == 60) by {
        reveal(tkhd_tail);
    }
    reveal(tkhd_bytes);
    lemma_box_len(
        fourcc('t', 'k', 'h', 'd'),
        tkhd_head(id) + be32_bytes(duration) + tkhd_tail(is_video, w, h),
    );
}

/// A media header takes 32 bytes.
pub proof fn lemma_mdhd_len(timescale: int, duration: int)
    ensures
        header_head(timescale).len() == 16,
        mdhd_bytes(timescale, duration).len() == 32,
{
    lemma_header_head_len(timescale);
    reveal(mdhd_bytes);
    lemma_box_len(
        fourcc('m', 'd', 'h', 'd'),
        header_head(timescale) + be32_bytes(duration) + (be16_bytes(0x55C4) + be16_bytes(0)),
    );
}

/// A handler reference takes 45 bytes.
pub proof fn lemma_handler_len(is_video: bool)
    ensures
        track_handler(is_video).len() == 45,
{
    reveal(track_handler);
    reveal(hdlr_bytes);
    reveal(mp4_box);
    lemma_full_len(0, 0);
}

/// The media information box is as long as its sample entry and a fixed rest.
pub proof fn lemma_minf_len(is_video: bool, entry: Seq<u8>)
    ensures
        minf_bytes(is_video, entry).len() == entry.len() + (if is_video {
            156int
        } else {
            152
        }),
{
    lemma_full_len(0, 0);
    lemma_full_len(0, 1);
    assert(media_header_bytes(is_video).len() == if is_video {
        20int
    } else {
        16
    }) by {
        reveal(media_header_bytes);
        reveal(mp4_box);
    }
    assert(dinf_bytes().len() == 36) by {
        reveal(dinf_bytes);
        reveal(mp4_box);
    }
    lemma_stbl_len(entry);
    reveal(minf_bytes);
    reveal(mp4_box);
}

/// The sample tables are 92 bytes longer than the sample entry.
pub proof fn lemma_stbl_len(entry: Seq<u8>)
    ensures
        stbl_bytes(entry).len() == entry.len() + 92,
{
    lemma_full_len(0, 0);
    assert(stsd_bytes(entry).len() == entry.len() + 16) by {
        reveal(stsd_bytes);
        reveal(mp4_box);
    }
    assert(stsz_bytes().len() == 20) by {
        reveal(stsz_bytes);
        reveal(mp4_box);
    }
    assert(forall|t: Seq<u8>| t.len() == 4 ==> #[trigger] empty_table_bytes(t).len() == 16) by {
        reveal(empty_table_bytes);
        reveal(mp4_box);
    }
    reveal(stbl_bytes);
    lemma_box_len(fourcc('s', 't', 'b', 'l'), stbl_tables(entry));
}

/// A track's length depends on its sample entry alone.
pub proof fn lemma_trak_len(is_video: bool, w: int, h: int, entry: Seq<u8>, a: int, b: int)
    ensures
        trak_bytes(is_video, w, h, entry, a, b).len() == entry.len() + (if is_video {
            341int
        } else {
            337
        }),
{
    lemma_tkhd_len(track_id(is_video), is_video, w, h, a);
    lemma_mdhd_len(track_timescale(is_video), b);
    lemma_handler_len(is_video);
    lemma_minf_len(is_video, entry);
    reveal(trak_bytes);
    reveal(mdia_bytes);
    reveal(mp4_box);
}

/// The video sample entry is 105 bytes longer than the parameter sets.
pub proof fn lemma_avc1_len(sps: Seq<u8>, pps: Seq<u8>, w: int, h: int)
    ensures
        avc1_box(sps, pps, w, h).len() == sps.len() + pps.len() + 105,
{
    assert(visual_entry_tail().len() == 50) by {
        reveal(visual_entry_tail);
    }
    assert(visual_entry_head(w, h).len() == 78) by {
        reveal(visual_entry_head);
    }
    assert(avcc_record(sps, pps).len() == sps.len() + pps.len() + 11) by {
        reveal(avcc_record);
    }
    reveal(avc1_box);
    reveal(mp4_box);
}

/// The audio sample entry is 48 bytes longer than the descriptors.
pub proof fn lemma_mp4a_len(descriptors: Seq<u8>)
    ensures
        mp4a_bytes(descriptors).len() == descriptors.len() + 48,
{
    lemma_full_len(0, 0);
    assert(audio_entry_head().len() == 28) by {
        reveal(audio_entry_head);
    }
    assert(esds_bytes(descriptors).len() == descriptors.len() + 12) by {
        reveal(esds_bytes);
        reveal(mp4_box);
    }
    reveal(mp4a_bytes);
    reveal(mp4_box);
}

/// The header box is 1019 bytes longer than the variable parts it carries,
/// whatever the durations are.
pub proof fn lemma_moov_len(shape: MovieShape, d: Durations)
    ensures
        shape.moov(d).len() == shape.sps.len() + shape.pps.len() + shape.descriptors.len() + 1019,
{
    lemma_mvhd_len(d.mvhd as int);
    lemma_trak_len(
        true,
        shape.width,
        shape.height,
        shape.video_entry(),
        d.tkhd_video as int,
        d.mdhd_video as int,
    );
    lemma_trak_len(
        false,
        shape.width,
        shape.height,
        mp4a_bytes(shape.descriptors),
        d.tkhd_audio as int,
        d.mdhd_audio as int,
    );
    lemma_avc1_len(shape.sps, shape.pps, shape.width, shape.height);
    lemma_mp4a_len(shape.descriptors);
    assert(trex_bytes(VIDEO_TRACK_ID as int).len() == 32) by {
        reveal(trex_bytes);
        reveal(mp4_box);
        lemma_full_len(0, 0);
    }
    assert(trex_bytes(AUDIO_TRACK_ID as int).len() == 32) by {
        reveal(trex_bytes);
        reveal(mp4_box);
        lemma_full_len(0, 0);
    }
    assert(mvex_bytes().len() == 72) by {
        reveal(mvex_bytes);
        reveal(mp4_box);
    }
    lemma_box_len(
        fourcc('m', 'o', 'o', 'v'),
        mvhd_bytes(d.mvhd as int) + shape.video_trak(d) + shape.audio_trak(d) + mvex_bytes(),
    );
}

/// The shape that a take's parameters describe.
pub open spec fn movie_shape(
    sps: Seq<u8>,
    pps: Seq<u8>,
    descriptors: Seq<u8>,
    params: RecordParams,
) -> MovieShape {
    MovieShape {
        sps,
        pps,
        descriptors,
        width: dimension(params.width),
        height: dimension(params.height),
    }
}

/// The header box with every duration zero, and where the durations will be
/// written once they are known.
pub fn moov_box(sps: &[u8], pps: &[u8], asc: &[u8], params: &RecordParams) -> (r: Result<
    (Vec<u8>, DurationPatches),
    RecordError,
>)
    requires
        sps@.len() + pps@.len() + asc@.len() + 4096 <= usize::MAX,
    ensures
        r is Ok <==> sps@.len() >= 4,
        r matches Ok(m) ==> {
            let shape = movie_shape(sps@, pps@, asc@, *params);
            m.0@ == shape.moov(no_durations()) && m.1 == shape.duration_offsets()
        },
        r matches Err(e) ==> e is Input && e->Input_0@ == "SPS shorter than 4 bytes"@,
{
    let video_entry: Vec<u8> = avcc_box(sps, pps, params)?;
    let audio_entry: Vec<u8> = mp4a_box(asc);
    let w: u16 = clamp16(params.width);
    let h: u16 = clamp16(params.height);
    let ghost shape = movie_shape(sps@, pps@, asc@, *params);
    let mut moov: Vec<u8> = Vec::new();
    let moff: usize = start_box(&mut moov, &['m' as u8, 'o' as u8, 'o' as u8, 'v' as u8]);
    let mvhd: usize = mvhd_box(&mut moov);
    proof {
        lemma_mvhd_len(0);
    }
    let video: (usize, usize) = put_trak(&mut moov, true, w, h, video_entry.as_slice());
    let audio: (usize, usize) = put_trak(&mut moov, false, w, h, audio_entry.as_slice());
    put_mvex(&mut moov);
    proof {
        let d = no_durations();
        lemma_box_closed(
            Seq::empty(),
            fourcc('m', 'o', 'o', 'v'),
            mvhd_bytes(0) + shape.video_trak(d) + shape.audio_trak(d) + mvex_bytes(),
        );
        lemma_moov_len(shape, d);
    }
    end_box(&mut moov, moff);
    assert(moov@ =~= shape.moov(no_durations()));
    let patches: DurationPatches = DurationPatches {
        mvhd: FTYP_LEN + mvhd,
        tkhd_video: FTYP_LEN + video.0,
        tkhd_audio: FTYP_LEN + audio.0,
        mdhd_video: FTYP_LEN + video.1,
        mdhd_audio: FTYP_LEN + audio.1,
    };
    Ok((moov, patches))
}

/// A side of a picture is kept up to what sixteen bits hold, and is that from there on.
pub proof fn law_a_side_is_kept_while_it_fits(v: u32)
    ensures
        v <= 65_535 ==> dimension(v) == v,
        v > 65_535 ==> dimension(v) == 65_535,
{
}

/// Parameter sets describe a stream just where the first is a sequence set long enough for
/// the profile to be read from it and the second is a picture set; what is wrong is told
/// of the first before the second.
pub proof fn law_parameter_sets_are_told_by_their_type(sps: Seq<u8>, pps: Seq<u8>)
    ensures
        valid_parameter_sets(sps, pps) ==> sps.len() >= 4 && sps[0] % 32 == 7 && pps.len() > 0
            && pps[0] % 32 == 8,
        sps.len() < 4 || pps.len() == 0 ==> !valid_parameter_sets(sps, pps),
        sps.len() >= 4 && pps.len() > 0 && sps[0] == 0x67 && pps[0] == 0x68 ==> valid_parameter_sets(
            sps,
            pps,
        ),
        sps.len() >= 4 && pps.len() > 0 && (sps[0] == 0x68 || pps[0] == 0x67)
            ==> !valid_parameter_sets(sps, pps),
        sps.len() < 4 ==> has_prefix(parameter_set_refusal(sps, pps), "SPS missing"@),
        sps.len() >= 4 && sps[0] % 32 != 7 ==> has_prefix(
            parameter_set_refusal(sps, pps),
            "first parameter set"@,
        ),
        sps.len() >= 4 && sps[0] % 32 == 7 ==> has_prefix(
            parameter_set_refusal(sps, pps),
            "second parameter set"@,
        ),
{
    reveal_strlit("SPS missing or shorter than 4 bytes; cannot build avcC");
    reveal_strlit("first parameter set is not an SPS (NAL type 7)");
    reveal_strlit("second parameter set is not a PPS (NAL type 8)");
    reveal_strlit("SPS missing");
    reveal_strlit("first parameter set");
    reveal_strlit("second parameter set");
    let t = parameter_set_refusal(sps, pps);
    if sps.len() < 4 {
        assert(t.subrange(0, "SPS missing"@.len() as int) =~= "SPS missing"@);
    } else if sps[0] % 32 != 7 {
        assert(t.subrange(0, "first parameter set"@.len() as int) =~= "first parameter set"@);
    } else {
        assert(t.subrange(0, "second parameter set"@.len() as int) =~= "second parameter set"@);
    }
}

/// A number that is written over bytes takes four of them, the highest first; every other
/// byte stays.
pub proof fn law_writing_over_changes_four_bytes(bytes: Seq<u8>, off: int, v: int, i: int)
    requires
        0 <= off,
        off + 4 <= bytes.len(),
        0 <= v < 0x1_0000_0000,
        0 <= i < bytes.len(),
    ensures
        overwritten(bytes, off, v).len() == bytes.len(),
        be_value(overwritten(bytes, off, v).subrange(off, off + 4)) == v,
        i < off || i >= off + 4 ==> overwritten(bytes, off, v)[i] == bytes[i],
{
    lemma_be32_value(v);
    assert(overwritten(bytes, off, v).subrange(off, off + 4) =~= be32_bytes(v));
}

/// The shape of a movie is what the take was given: its parameter sets, the sound's
/// descriptors, and the size of its picture.
pub proof fn law_a_movie_has_the_shape_of_its_take(
    sps: Seq<u8>,
    pps: Seq<u8>,
    descriptors: Seq<u8>,
    params: RecordParams,
)
    requires
        params.width <= 65_535,
        params.height <= 65_535,
    ensures
        ({
            let s = movie_shape(sps, pps, descriptors, params);
            &&& s.sps == sps && s.pps == pps && s.descriptors == descriptors
            &&& s.width == params.width && s.height == params.height
        }),
{
}

} // verus!

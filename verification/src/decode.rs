//! Decoded video: which frame of a source is shown, and how its pixels lie.


use vstd::prelude::*;
use vstd::string::*;

verus! {

/// Why a video cannot be decoded.
#[derive(Debug, PartialEq, Eq)]
pub enum DecodeError {
    NoVideoTrack(String),
    Open { path: String, reason: String },
    Failed { path: String, reason: String },
}

impl DecodeError {
    /// The message an operator sees.
    pub open spec fn text(self) -> Seq<char> {
        match self {
            DecodeError::NoVideoTrack(p) => "no video track in "@ + p@,
            DecodeError::Open { path, reason } => "cannot open "@ + path@ + ": "@ + reason@,
            DecodeError::Failed { path, reason } => "decode failed for "@ + path@ + ": "@ + reason@,
        }
    }

    /// The message an operator sees.
    pub fn message(&self) -> (s: String)
        ensures
            s@ == self.text(),
    {
        match self {
            DecodeError::NoVideoTrack(p) => "no video track in ".to_owned().concat(p.as_str()),
            DecodeError::Open { path, reason } => "cannot open ".to_owned().concat(
                path.as_str(),
            ).concat(": ").concat(reason.as_str()),
            DecodeError::Failed { path, reason } => "decode failed for ".to_owned().concat(
                path.as_str(),
            ).concat(": ").concat(reason.as_str()),
        }
    }
}

/// The frame of a clip at a frame of the master clock: none before it starts,
/// none once it is over.
pub open spec fn clip_index(master_frame: u64, start: u64, count: u64) -> Option<u64> {
    if start <= master_frame && master_frame - start < count {
        Some((master_frame - start) as u64)
    } else {
        None
    }
}

/// The frame of a clip at a frame of the master clock.
pub fn clip_source_index(master_frame: u64, item_start_frame: u64, frame_count: u64) -> (r: Option<
    u64,
>)
    ensures
        r == clip_index(master_frame, item_start_frame, frame_count),
{
    if frame_count == 0 || master_frame < item_start_frame {
        return None;
    }
    let elapsed: u64 = master_frame - item_start_frame;
    if elapsed < frame_count {
        Some(elapsed)
    } else {
        None
    }
}

/// The frame of a loop at a frame of the master clock: the frames since its
/// start, over and over.
pub open spec fn loop_index(master_frame: u64, t0: u64, period: u64) -> Option<u64> {
    if period == 0 {
        None
    } else if master_frame < t0 {
        Some(0)
    } else {
        Some(((master_frame - t0) % period as int) as u64)
    }
}

/// The frame of a loop at a frame of the master clock.
pub fn loop_source_index(master_frame: u64, t0: u64, period_frames: u64) -> (r: Option<u64>)
    ensures
        r == loop_index(master_frame, t0, period_frames),
{
    if period_frames == 0 {
        return None;
    }
    let elapsed: u64 = if master_frame >= t0 {
        master_frame - t0
    } else {
        0
    };
    Some(elapsed % period_frames)
}

/// A loop has no seam: from any frame to the next the index goes up by one, or
/// from the last to the first.
pub proof fn law_loops_have_no_seam(frame: u64, t0: u64, period: u64)
    requires
        period > 0,
        t0 <= frame < u64::MAX,
    ensures
        ({
            let here = loop_index(frame, t0, period)->0;
            let next = loop_index((frame + 1) as u64, t0, period)->0;
            here < period && next == if here + 1 == period {
                0
            } else {
                here + 1
            }
        }),
        frame + period <= u64::MAX ==> loop_index((frame + period) as u64, t0, period)
            == loop_index(frame, t0, period),
{
    let e = frame - t0;
    let p = period as int;
    vstd::arithmetic::div_mod::lemma_fundamental_div_mod(e, p);
    let q = e / p;
    let r = e % p;
    if r + 1 == p {
        assert(e + 1 == p * (q + 1) + 0) by (nonlinear_arith)
            requires
                e == p * q + r,
                r + 1 == p,
        ;
        vstd::arithmetic::div_mod::lemma_fundamental_div_mod_converse(e + 1, p, q + 1, 0);
    } else {
        vstd::arithmetic::div_mod::lemma_fundamental_div_mod_converse(e + 1, p, q, r + 1);
    }
    assert(e + p == p * (q + 1) + r) by (nonlinear_arith)
        requires
            e == p * q + r,
    ;
    vstd::arithmetic::div_mod::lemma_fundamental_div_mod_converse(e + p, p, q + 1, r);
}

/// The source frame at a frame of the house rate. A slower source holds its
/// frames, the shorter hold first; a faster one skips.
pub open spec fn cadence_index(source_rate: u32, house_rate: u32, f: int) -> int {
    if source_rate <= house_rate {
        ((f + 1) * source_rate - 1) / house_rate as int
    } else {
        f * source_rate / house_rate as int
    }
}

/// The source frame for each of `house_frames` frames of the house rate.
pub fn cadence_pattern(source_rate: u32, house_rate: u32, house_frames: u64) -> (out: Vec<u64>)
    requires
        house_frames * source_rate <= u64::MAX,
    ensures
        if source_rate == 0 || house_rate == 0 {
            out@.len() == 0
        } else {
            out@.len() == house_frames && forall|f: int|
                0 <= f < house_frames ==> #[trigger] out@[f] == cadence_index(
                    source_rate,
                    house_rate,
                    f,
                )
        },
{
    let mut out: Vec<u64> = Vec::new();
    if source_rate == 0 || house_rate == 0 {
        return out;
    }
    let s: u64 = source_rate as u64;
    let h: u64 = house_rate as u64;
    let mut f: u64 = 0;
    while f < house_frames
        invariant
            f <= house_frames,
            house_frames * source_rate <= u64::MAX,
            s == source_rate,
            h == house_rate,
            s > 0,
            h > 0,
            out@.len() == f,
            forall|k: int|
                0 <= k < f ==> #[trigger] out@[k] == cadence_index(source_rate, house_rate, k),
        decreases house_frames - f,
    {
        assert((f + 1) * s <= house_frames * source_rate && (f + 1) * s >= 1 && f * s <= (f + 1) * s)
            by (nonlinear_arith)
            requires
                f + 1 <= house_frames,
                s == source_rate,
                s > 0,
        ;
        let index: u64 = if source_rate <= house_rate {
            ((f + 1) * s - 1) / h
        } else {
            (f * s) / h
        };
        out.push(index);
        f = f + 1;
    }
    out
}

/// The lengths of the runs of equal numbers among the first `n`.
pub open spec fn runs_of(pattern: Seq<u64>, n: int) -> Seq<u64>
    decreases n,
{
    if n <= 0 {
        Seq::empty()
    } else {
        let before = runs_of(pattern, n - 1);
        if n >= 2 && pattern[n - 1] == pattern[n - 2] {
            before.drop_last().push((before.last() + 1) as u64)
        } else {
            before.push(1)
        }
    }
}

/// The sum of the first `n` numbers.
pub open spec fn total_of(v: Seq<u64>, n: int) -> int
    decreases n,
{
    if n <= 0 {
        0
    } else {
        total_of(v, n - 1) + v[n - 1]
    }
}

proof fn lemma_total_prefix(a: Seq<u64>, b: Seq<u64>, n: int)
    requires
        0 <= n <= a.len(),
        n <= b.len(),
        forall|i: int| 0 <= i < n ==> a[i] == b[i],
    ensures
        total_of(a, n) == total_of(b, n),
    decreases n,
{
    if n > 0 {
        lemma_total_prefix(a, b, n - 1);
    }
}

/// Every frame is held in some run: the runs together are as long as the
/// pattern, and none is empty.
pub proof fn law_runs_cover_the_pattern(pattern: Seq<u64>, n: int)
    requires
        0 <= n <= pattern.len() <= u64::MAX,
    ensures
        total_of(runs_of(pattern, n), runs_of(pattern, n).len() as int) == n,
        n > 0 ==> runs_of(pattern, n).len() > 0 && runs_of(pattern, n).last() <= n,
        forall|i: int| 0 <= i < runs_of(pattern, n).len() ==> #[trigger] runs_of(pattern, n)[i] > 0,
    decreases n,
{
    if n > 0 {
        law_runs_cover_the_pattern(pattern, n - 1);
        let before = runs_of(pattern, n - 1);
        let all = runs_of(pattern, n);
        if n >= 2 && pattern[n - 1] == pattern[n - 2] {
            lemma_total_prefix(all, before, before.len() - 1);
        } else {
            lemma_total_prefix(all, before, before.len() as int);
        }
    }
}

/// The lengths of the runs of a cadence: how long each source frame is held.
pub fn cadence_holds(pattern: &[u64]) -> (holds: Vec<u64>)
    ensures
        holds@ == runs_of(pattern@, pattern@.len() as int),
{
    let mut holds: Vec<u64> = Vec::new();
    let n: usize = pattern.len();
    let mut run: u64 = 0;
    let mut i: usize = 0;
    while i < n
        invariant
            i <= n == pattern@.len(),
            run <= i,
            i == 0 <==> run == 0,
            i == 0 ==> holds@.len() == 0,
            i > 0 ==> holds@.push(run) == runs_of(pattern@, i as int),
        decreases n - i,
    {
        if i > 0 && pattern[i] == pattern[i - 1] {
            let ghost was = holds@.push(run);
            assert(was.drop_last() =~= holds@);
            run = run + 1;
        } else {
            if i > 0 {
                holds.push(run);
            }
            run = 1;
            proof {
                reveal_with_fuel(runs_of, 2);
            }
        }
        i = i + 1;
    }
    if run > 0 {
        holds.push(run);
    }
    assert(n == 0 ==> holds@ =~= runs_of(pattern@, 0));
    holds
}

/// Rows of `row_bytes` bytes, one every `stride` bytes, put next to each other.
pub open spec fn packed(data: Seq<u8>, stride: int, row_bytes: int, rows: int) -> Seq<u8>
    decreases rows,
{
    if rows <= 0 {
        Seq::empty()
    } else {
        packed(data, stride, row_bytes, rows - 1) + data.subrange(
            (rows - 1) * stride,
            (rows - 1) * stride + row_bytes,
        )
    }
}

/// Put the rows of a padded picture next to each other.
pub fn packed_rows(data: &[u8], stride: usize, row_bytes: usize, rows: usize) -> (out: Vec<u8>)
    requires
        row_bytes <= stride,
        rows > 0 ==> (rows - 1) * stride + row_bytes <= data@.len(),
    ensures
        out@ == packed(data@, stride as int, row_bytes as int, rows as int),
{
    let len: usize = data.len();
    let mut out: Vec<u8> = Vec::new();
    let mut row: usize = 0;
    let mut at: usize = 0;
    assert(out@ =~= packed(data@, stride as int, row_bytes as int, 0));
    while row < rows
        invariant
            row <= rows,
            row_bytes <= stride,
            len == data@.len(),
            rows > 0 ==> (rows - 1) * stride + row_bytes <= data@.len(),
            row < rows ==> at == row * stride,
            out@ == packed(data@, stride as int, row_bytes as int, row as int),
        decreases rows - row,
    {
        assert(at + row_bytes <= data@.len()) by (nonlinear_arith)
            requires
                at == row * stride,
                row + 1 <= rows,
                (rows - 1) * stride + row_bytes <= data@.len(),
        ;
        let ghost done = out@;
        let mut i: usize = 0;
        while i < row_bytes
            invariant
                i <= row_bytes,
                at + row_bytes <= len == data@.len(),
                out@ == done + data@.subrange(at as int, at + i),
            decreases row_bytes - i,
        {
            out.push(data[at + i]);
            i = i + 1;
            assert(data@.subrange(at as int, at + i) =~= data@.subrange(at as int, at + i - 1).push(
                data@[at + i - 1],
            ));
        }
        proof {
            assert((row + 1 - 1) * stride == at) by (nonlinear_arith)
                requires
                    at == row * stride,
            ;
        }
        row = row + 1;
        if row < rows {
            assert(at + stride == row * stride && at + stride <= (rows - 1) * stride) by (
            nonlinear_arith)
                requires
                    at == (row - 1) * stride,
                    row <= rows - 1,
            ;
            at = at + stride;
        }
    }
    out
}

/// The place a byte of a pixel comes from when red and blue change places.
pub open spec fn swapped_place(i: int) -> int {
    if i % 4 == 0 {
        i + 2
    } else if i % 4 == 2 {
        i - 2
    } else {
        i
    }
}

/// Pixels with red and blue in each other's place.
pub open spec fn red_blue_swapped(p: Seq<u8>) -> Seq<u8> {
    Seq::new(p.len(), |i: int| p[swapped_place(i)])
}

/// Put red and blue in each other's place: from the order of screens to that
/// of files, and back.
pub fn swap_red_blue(pixels: &[u8]) -> (out: Vec<u8>)
    requires
        pixels@.len() % 4 == 0,
    ensures
        out@ == red_blue_swapped(pixels@),
{
    let n: usize = pixels.len();
    let mut out: Vec<u8> = Vec::new();
    let mut i: usize = 0;
    while i < n
        invariant
            i <= n == pixels@.len(),
            n % 4 == 0,
            i % 4 == 0,
            out@.len() == i,
            forall|k: int| 0 <= k < i ==> #[trigger] out@[k] == pixels@[swapped_place(k)],
        decreases n - i,
    {
        out.push(pixels[i + 2]);
        out.push(pixels[i + 1]);
        out.push(pixels[i]);
        out.push(pixels[i + 3]);
        i = i + 4;
    }
    assert(out@ =~= red_blue_swapped(pixels@));
    out
}

/// Twice swapped is not swapped.
pub proof fn law_swapping_twice_changes_nothing(p: Seq<u8>)
    requires
        p.len() % 4 == 0,
    ensures
        red_blue_swapped(red_blue_swapped(p)) == p,
{
    assert(red_blue_swapped(red_blue_swapped(p)) =~= p);
}

/// Whether a picture has a pixel that is not opaque.
pub fn has_alpha(rgba: &[u8]) -> (r: bool)
    ensures
        r == any_transparent(rgba@),
{
    let len: usize = rgba.len();
    let n: usize = len / 4;
    let mut i: usize = 0;
    while i < n
        invariant
            i <= n == len / 4,
            len == rgba@.len(),
            forall|k: int| 0 <= k < i ==> #[trigger] rgba@[4 * k + 3] == 255,
        decreases n - i,
    {
        if rgba[4 * i + 3] != 255 {
            assert(rgba@[4 * (i as int) + 3] != 255);
            return true;
        }
        i = i + 1;
    }
    false
}

/// The next picture of a session, as it left the decoder.
pub enum Sample {
    /// There is none, and no error.
    End,
    /// The decoder failed.
    Failed(String),
    /// A sample without a picture.
    NoImage,
    /// A picture in the order of screens, with padded rows.
    Image { width: u32, height: u32, stride: usize, data: Vec<u8> },
}

/// One decoded frame, by its place in the source.
#[derive(Debug)]
pub struct DecodedFrame {
    pub index: u64,
    pub width: u32,
    pub height: u32,
    /// Rows of RGBA pixels, next to each other.
    pub rgba: Vec<u8>,
}

/// A decoding session over one asset.
#[derive(Debug)]
pub struct DecodeSession {
    pub path: String,
    pub next_index: u64,
}

/// Whether a sample's rows lie in its data.
pub open spec fn rows_fit(s: Sample) -> bool {
    match s {
        Sample::Image { width, height, stride, data } => {
            &&& width * 4 <= stride
            &&& width * 4 * height <= u32::MAX
            &&& height > 0 ==> (height - 1) * stride + width * 4 <= data@.len()
        },
        _ => true,
    }
}

impl DecodeSession {
    /// A session at the start of an asset.
    pub fn open(path: String) -> (s: DecodeSession)
        ensures
            s.path == path,
            s.next_index == 0,
    {
        DecodeSession { path, next_index: 0 }
    }

    fn failed(&self, reason: String) -> (e: DecodeError)
        ensures
            e.text() == "decode failed for "@ + self.path@ + ": "@ + reason@,
            e matches DecodeError::Failed { path, reason: r } && path@ == self.path@ && r == reason,
    {
        DecodeError::Failed { path: self.path.as_str().to_owned(), reason }
    }

    /// The next frame, or none at the end of the asset. Frames are numbered in
    /// the order they come.
    pub fn next_frame(&mut self, sample: Sample) -> (r: Result<Option<DecodedFrame>, DecodeError>)
        requires
            rows_fit(sample),
            old(self).next_index < u64::MAX,
        ensures
            final(self).path == old(self).path,
            match sample {
                Sample::End => r matches Ok(None) && final(self).next_index == old(self).next_index,
                Sample::Failed(s) => r matches Err(DecodeError::Failed { path, reason }) && path@
                    == old(self).path@ && reason == s && final(self).next_index == old(
                    self).next_index,
                Sample::NoImage => r matches Err(DecodeError::Failed { path, reason }) && path@
                    == old(self).path@ && reason@ == "sample buffer carried no image"@ && final(
                    self).next_index == old(self).next_index,
                Sample::Image { width, height, stride, data } => {
                    &&& r matches Ok(Some(f)) && f.index == old(self).next_index && f.width == width
                        && f.height == height && f.rgba@ == red_blue_swapped(
                        packed(data@, stride as int, width * 4, height as int),
                    )
                    &&& final(self).next_index == old(self).next_index + 1
                },
            },
    {
        match sample {
            Sample::End => Ok(None),
            Sample::Failed(s) => Err(self.failed(s)),
            Sample::NoImage => Err(self.failed("sample buffer carried no image".to_owned())),
            Sample::Image { width, height, stride, data } => {
                assert(width * 4 <= stride);
                let tight: Vec<u8> = packed_rows(
                    data.as_slice(),
                    stride,
                    width as usize * 4,
                    height as usize,
                );
                proof {
                    lemma_packed_len(data@, stride as int, width * 4, height as int);
                    assert(height * (width * 4) == 4 * (width * height)) by (nonlinear_arith);
                }
                let rgba: Vec<u8> = swap_red_blue(tight.as_slice());
                let index: u64 = self.next_index;
                self.next_index = index + 1;
                Ok(Some(DecodedFrame { index, width, height, rgba }))
            },
        }
    }
}

proof fn lemma_packed_len(data: Seq<u8>, stride: int, row_bytes: int, rows: int)
    requires
        0 <= row_bytes <= stride,
        0 <= rows,
        rows > 0 ==> (rows - 1) * stride + row_bytes <= data.len(),
    ensures
        packed(data, stride, row_bytes, rows).len() == rows * row_bytes,
    decreases rows,
{
    if rows > 0 {
        if rows > 1 {
            assert((rows - 2) * stride + row_bytes <= (rows - 1) * stride + row_bytes) by (
            nonlinear_arith)
                requires
                    stride >= 0,
            ;
        }
        lemma_packed_len(data, stride, row_bytes, rows - 1);
        assert((rows - 1) * stride >= 0) by (nonlinear_arith)
            requires
                rows >= 1,
                stride >= 0,
        ;
        assert((rows - 1) * row_bytes + row_bytes == rows * row_bytes) by (nonlinear_arith);
    } else {
        assert(rows * row_bytes == 0) by (nonlinear_arith)
            requires
                rows == 0,
        ;
    }
}

/// What a look at an asset's frames shows.
#[derive(Debug, Clone, Copy, PartialEq, Eq)]
pub struct AssetProbe {
    pub width: u32,
    pub height: u32,
    pub frame_count: u64,
    /// The frames come at a constant rate.
    pub cfr: bool,
    /// So many frames took so many ticks; none where no time passed.
    pub measured: Option<(u64, u128)>,
    pub has_alpha: bool,
}

/// The steps forward between the first `n` times.
pub open spec fn gaps(times: Seq<u64>, n: int) -> Seq<int>
    decreases n,
{
    if n <= 1 {
        Seq::empty()
    } else {
        let rest = gaps(times, n - 1);
        if times[n - 2] < times[n - 1] {
            rest.push(times[n - 1] - times[n - 2])
        } else {
            rest
        }
    }
}

/// All steps together.
pub open spec fn total(gaps: Seq<int>) -> int
    decreases gaps.len(),
{
    if gaps.len() == 0 {
        0
    } else {
        total(gaps.drop_last()) + gaps.last()
    }
}

/// No two steps differ by more than a twentieth of the mean step.
pub open spec fn steady(gaps: Seq<int>) -> bool {
    forall|i: int, j: int|
        0 <= i < gaps.len() && 0 <= j < gaps.len() ==> 20 * gaps.len() * (#[trigger] gaps[i]
            - #[trigger] gaps[j]) <= total(gaps)
}

/// Whether a pixel of a picture is not opaque.
pub open spec fn any_transparent(rgba: Seq<u8>) -> bool {
    exists|i: int| 0 <= i && 4 * i + 3 < rgba.len() && #[trigger] rgba[4 * i + 3] != 255
}

/// Look at the frames of an asset. `times` holds when each is shown, in ticks.
pub fn probe_asset(path: &str, frames: &Vec<DecodedFrame>, times: &Vec<u64>) -> (r: Result<
    AssetProbe,
    DecodeError,
>)
    requires
        times@.len() == frames@.len(),
        frames@.len() <= 0xffff_ffff,
    ensures
        match r {
            Ok(p) => {
                let g = gaps(times@, times@.len() as int);
                &&& frames@.len() > 0
                &&& p.width == frames@[0].width
                &&& p.height == frames@[0].height
                &&& p.frame_count == frames@.len()
                &&& p.cfr == steady(g)
                &&& p.has_alpha == any_transparent(frames@[0].rgba@)
                &&& match p.measured {
                    Some((n, ticks)) => g.len() > 0 && n == g.len() && ticks == total(g),
                    None => g.len() == 0,
                }
            },
            Err(e) => {
                &&& frames@.len() == 0
                &&& e matches DecodeError::Failed { path: p, reason } && p@ == path@ && reason@
                    == "no frames decoded"@
            },
        },
{
    if frames.len() == 0 {
        return Err(
            DecodeError::Failed { path: path.to_owned(), reason: "no frames decoded".to_owned() },
        );
    }
    let len: usize = times.len();
    let mut n: u64 = 0;
    let mut sum: u128 = 0;
    let mut low: u64 = 0;
    let mut high: u64 = 0;
    let mut i: usize = 1;
    let ghost mut at_low: int = 0;
    let ghost mut at_high: int = 0;
    while i < len
        invariant
            1 <= i <= len == times@.len() <= 0xffff_ffff,
            n == gaps(times@, i as int).len(),
            n < i,
            sum == total(gaps(times@, i as int)),
            sum <= n * 0xffff_ffff_ffff_ffff,
            forall|k: int|
                0 <= k < n ==> low <= #[trigger] gaps(times@, i as int)[k] <= high,
            n > 0 ==> 0 <= at_low < n && gaps(times@, i as int)[at_low] == low,
            n > 0 ==> 0 <= at_high < n && gaps(times@, i as int)[at_high] == high,
        decreases len - i,
    {
        let ghost was = gaps(times@, i as int);
        if times[i - 1] < times[i] {
            let step: u64 = times[i] - times[i - 1];
            if n == 0 || step < low {
                low = step;
                proof {
                    at_low = n as int;
                }
            }
            if n == 0 || step > high {
                high = step;
                proof {
                    at_high = n as int;
                }
            }
            n = n + 1;
            sum = sum + step as u128;
            proof {
                let now = gaps(times@, i + 1);
                assert(now == was.push(step as int));
                assert(now.drop_last() =~= was);
            }
        }
        i = i + 1;
    }
    let ghost g = gaps(times@, len as int);
    let spread: u64 = if n == 0 {
        0
    } else {
        high - low
    };
    assert(20 * n * spread <= 20 * 0xffff_ffff * 0xffff_ffff_ffff_ffff) by (nonlinear_arith)
        requires
            0 <= n <= 0xffff_ffff,
            0 <= spread <= 0xffff_ffff_ffff_ffff,
    ;
    let cfr: bool = n == 0 || 20 * (n as u128) * (spread as u128) <= sum;
    proof {
        if n > 0 {
            let most: int = 20 * n as int * (high - low);
            assert(20 * g.len() * (g[at_high] - g[at_low]) == most);
            if cfr {
                assert forall|a: int, b: int|
                    0 <= a < g.len() && 0 <= b < g.len() implies 20 * g.len() * (#[trigger] g[a]
                    - #[trigger] g[b]) <= total(g) by {
                    let d = g[a] - g[b];
                    assert(20 * n as int * d <= most) by (nonlinear_arith)
                        requires
                            d <= high - low,
                            most == 20 * n as int * (high - low),
                    ;
                }
            }
        }
    }
    let measured: Option<(u64, u128)> = if n > 0 {
        Some((n, sum))
    } else {
        None
    };
    Ok(
        AssetProbe {
            width: frames[0].width,
            height: frames[0].height,
            frame_count: frames.len() as u64,
            cfr,
            measured,
            has_alpha: has_alpha(frames[0].rgba.as_slice()),
        },
    )
}

/// Frames that come in equal steps come at a constant rate.
pub proof fn law_equal_steps_are_steady(times: Seq<u64>, step: u64)
    requires
        step > 0,
        forall|i: int|
            0 < i < times.len() ==> #[trigger] times[i] == times[i - 1] + step,
    ensures
        steady(gaps(times, times.len() as int)),
{
    lemma_equal_gaps(times, step, times.len() as int);
    let g = gaps(times, times.len() as int);
    assert forall|i: int, j: int| 0 <= i < g.len() && 0 <= j < g.len() implies 20 * g.len() * (
    #[trigger] g[i] - #[trigger] g[j]) <= total(g) by {
        assert(g[i] - g[j] == 0);
        assert(20 * g.len() * 0 == 0);
    }
}

proof fn lemma_equal_gaps(times: Seq<u64>, step: u64, n: int)
    requires
        step > 0,
        n <= times.len(),
        forall|i: int|
            0 < i < times.len() ==> #[trigger] times[i] == times[i - 1] + step,
    ensures
        forall|k: int| 0 <= k < gaps(times, n).len() ==> #[trigger] gaps(times, n)[k] == step,
        total(gaps(times, n)) >= 0,
    decreases n,
{
    if n > 1 {
        lemma_equal_gaps(times, step, n - 1);
        let rest = gaps(times, n - 1);
        assert(times[n - 1] == times[n - 2] + step);
        assert(gaps(times, n).drop_last() =~= rest);
    }
}

} // verus!

//! Loop cache planning: does a loop fit in video memory, or must it stream.
//!
//! The order is fixed: what a frame costs in the selected format, how many
//! fit the budget, and only then the decision. Costs are counted in half
//! bytes, which makes every format's cost a whole number.

use crate::text::{decimal, push_decimal, str_eq};
use vstd::prelude::*;
use vstd::string::*;

verus! {

/// Formats a cached frame can have.
#[derive(Debug, Clone, Copy, PartialEq, Eq, Structural)]
pub enum CacheTextureFormat {
    /// Luma and chroma planes: a byte and a half per pixel.
    Nv12,
    /// Luma, chroma and alpha planes: two and a half bytes per pixel.
    Nv12Alpha,
    /// Four bytes per pixel.
    Rgba8,
    /// Block-compressed: one byte per pixel.
    Bc7,
}

impl CacheTextureFormat {
    /// Half bytes per pixel.
    pub open spec fn half_bytes(self) -> u32 {
        match self {
            CacheTextureFormat::Nv12 => 3,
            CacheTextureFormat::Nv12Alpha => 5,
            CacheTextureFormat::Rgba8 => 8,
            CacheTextureFormat::Bc7 => 2,
        }
    }

    /// Half bytes per pixel of one cached frame.
    pub fn half_bytes_per_pixel(&self) -> (n: u32)
        ensures
            n == self.half_bytes(),
            2 <= n <= 8,
    {
        match self {
            CacheTextureFormat::Nv12 => 3,
            CacheTextureFormat::Nv12Alpha => 5,
            CacheTextureFormat::Rgba8 => 8,
            CacheTextureFormat::Bc7 => 2,
        }
    }

    /// The format a name stands for.
    pub open spec fn named(declared: Seq<char>) -> Option<CacheTextureFormat> {
        if declared == "nv12"@ {
            Some(CacheTextureFormat::Nv12)
        } else if declared == "nv12Alpha"@ {
            Some(CacheTextureFormat::Nv12Alpha)
        } else if declared == "rgba8"@ {
            Some(CacheTextureFormat::Rgba8)
        } else if declared == "bc7"@ {
            Some(CacheTextureFormat::Bc7)
        } else {
            None
        }
    }

    /// The format a package named, if it named one: anything else leaves the
    /// choice to [`CacheTextureFormat::select`].
    pub fn from_declared(declared: &str) -> (r: Option<CacheTextureFormat>)
        ensures
            r == Self::named(declared@),
    {
        if str_eq(declared, "nv12") {
            Some(CacheTextureFormat::Nv12)
        } else if str_eq(declared, "nv12Alpha") {
            Some(CacheTextureFormat::Nv12Alpha)
        } else if str_eq(declared, "rgba8") {
            Some(CacheTextureFormat::Rgba8)
        } else if str_eq(declared, "bc7") {
            Some(CacheTextureFormat::Bc7)
        } else {
            None
        }
    }

    /// The format a source gets.
    pub open spec fn selected(has_alpha: bool, yuv_sampling: bool) -> CacheTextureFormat {
        if !yuv_sampling {
            CacheTextureFormat::Rgba8
        } else if has_alpha {
            CacheTextureFormat::Nv12Alpha
        } else {
            CacheTextureFormat::Nv12
        }
    }

    /// The format a source gets: alpha needs a format that carries it, and
    /// without YUV sampling everything is RGBA.
    pub fn select(has_alpha: bool, yuv_sampling: bool) -> (f: CacheTextureFormat)
        ensures
            f == Self::selected(has_alpha, yuv_sampling),
    {
        if !yuv_sampling {
            CacheTextureFormat::Rgba8
        } else if has_alpha {
            CacheTextureFormat::Nv12Alpha
        } else {
            CacheTextureFormat::Nv12
        }
    }
}

/// What becomes of a loop.
#[derive(Debug, Clone, Copy, PartialEq, Eq, Structural)]
pub enum CachePolicy {
    /// Every frame stays in video memory.
    Vram,
    /// Only the frames ahead are held.
    Streaming,
}

/// The plan for one loop.
#[derive(Debug)]
pub struct CachePlan {
    pub selected_texture_format: CacheTextureFormat,
    /// Half bytes that one frame takes.
    pub frame_cost_half_bytes: u128,
    pub effective_budget_mib: u32,
    pub max_frames_by_budget: u32,
    pub period_frames: u32,
    pub cache_policy_selected: CachePolicy,
    pub vram_resident: bool,
    /// Frames held ahead when streaming.
    pub read_ahead_frames: u32,
    pub reason: String,
}

/// What is known of a loop before a frame is decoded.
#[derive(Debug, Clone, Copy)]
pub struct LoopSpec {
    pub width: u32,
    pub height: u32,
    pub period_frames: u32,
    pub has_alpha: bool,
    pub yuv_sampling: bool,
    /// Frames between keyframes.
    pub gop_frames: u32,
    /// The format the package named, if it named one.
    pub declared_format: Option<CacheTextureFormat>,
}

/// The budget a loop is planned against.
#[derive(Debug, Clone, Copy)]
pub struct CacheBudget {
    /// For one loop, in MiB.
    pub per_loop_mib: u32,
    /// For all loops, in MiB.
    pub total_mib: u32,
    /// The adapter's recommended working set in MiB, if it is known.
    pub recommended_working_set_mib: Option<u32>,
}

/// MiB one loop gets when its package asks for no other number.
pub const DEFAULT_PER_LOOP_MIB: u32 = 256;

/// MiB all loops get.
pub const DEFAULT_TOTAL_LOOP_MIB: u32 = 512;

/// The smaller of two numbers.
pub open spec fn least(a: u32, b: u32) -> u32 {
    if a < b {
        a
    } else {
        b
    }
}

impl CacheBudget {
    /// The budget of a loop for which so many MiB are declared, on an adapter with such a
    /// working set.
    pub open spec fn declared(
        declared_mib: Option<u32>,
        recommended_working_set_mib: Option<u32>,
    ) -> CacheBudget {
        CacheBudget {
            per_loop_mib: match declared_mib {
                Some(n) => n,
                None => DEFAULT_PER_LOOP_MIB,
            },
            total_mib: DEFAULT_TOTAL_LOOP_MIB,
            recommended_working_set_mib,
        }
    }

    /// The budget of a loop for which a package declares so many MiB, if it
    /// declares any, on an adapter with such a working set.
    pub fn from_manifest(declared_mib: Option<u32>, recommended_working_set_mib: Option<u32>) -> (b:
        CacheBudget)
        ensures
            b == Self::declared(declared_mib, recommended_working_set_mib),
    {
        CacheBudget {
            per_loop_mib: match declared_mib {
                Some(n) => n,
                None => DEFAULT_PER_LOOP_MIB,
            },
            total_mib: DEFAULT_TOTAL_LOOP_MIB,
            recommended_working_set_mib,
        }
    }

    /// The budget of one loop: on unified memory no more than a quarter of the
    /// working set.
    pub open spec fn effective(self) -> u32 {
        let base = least(self.per_loop_mib, self.total_mib);
        match self.recommended_working_set_mib {
            Some(ws) => least(base, ws / 4),
            None => base,
        }
    }

    /// The budget of one loop, in MiB.
    pub fn effective_mib(&self) -> (n: u32)
        ensures
            n == self.effective(),
    {
        let base: u32 = if self.per_loop_mib < self.total_mib {
            self.per_loop_mib
        } else {
            self.total_mib
        };
        match self.recommended_working_set_mib {
            Some(ws) => if base < ws / 4 {
                base
            } else {
                ws / 4
            },
            None => base,
        }
    }
}

/// The format of a loop: the one it names, or the one its source needs.
pub open spec fn format_of(spec: LoopSpec) -> CacheTextureFormat {
    match spec.declared_format {
        Some(f) => f,
        None => CacheTextureFormat::selected(spec.has_alpha, spec.yuv_sampling),
    }
}

/// Half bytes that one frame of a loop takes.
pub open spec fn frame_cost(spec: LoopSpec) -> int {
    spec.width * spec.height * format_of(spec).half_bytes()
}

/// Half bytes in a MiB.
pub const MIB: u128 = 0x20_0000;

/// How many frames of a loop fit a budget, as far as the count can be held.
/// Frames that cost nothing have no place in the cache.
pub open spec fn frames_in_budget(spec: LoopSpec, budget_mib: u32) -> int {
    let cost = frame_cost(spec);
    if cost == 0 {
        0
    } else {
        let n = budget_mib * MIB / cost;
        if n > u32::MAX {
            u32::MAX as int
        } else {
            n
        }
    }
}

/// Whether a loop stays in video memory.
pub open spec fn fits(spec: LoopSpec, budget: CacheBudget) -> bool {
    0 < spec.period_frames && spec.period_frames <= frames_in_budget(spec, budget.effective())
}

/// Frames held ahead when streaming: two groups of pictures, at least sixty.
pub open spec fn read_ahead(spec: LoopSpec) -> int {
    if 2 * spec.gop_frames > 60 {
        2 * spec.gop_frames
    } else {
        60
    }
}

/// `n / d` rounded to the nearest integer, halves to the even one.
pub open spec fn round_even(n: int, d: int) -> int {
    let q = n / d;
    let r = n % d;
    if 2 * r > d || (2 * r == d && q % 2 == 1) {
        q + 1
    } else {
        q
    }
}

/// `n / d` in decimal with `places` (one or three) digits behind the point.
pub open spec fn fixed_point(n: int, d: int, places: int) -> Seq<char> {
    let unit = if places == 1 {
        10int
    } else {
        1000
    };
    let t = round_even(n * unit, d);
    let frac = decimal((t % unit) as nat);
    decimal((t / unit) as nat) + seq!['.'] + Seq::new(
        (if places > frac.len() {
            places - frac.len()
        } else {
            0
        }) as nat,
        |i: int| '0',
    ) + frac
}

/// Why a loop stays or streams.
pub open spec fn reason_of(spec: LoopSpec, budget: CacheBudget) -> Seq<char> {
    let cost = frame_cost(spec);
    let period = decimal(spec.period_frames as nat);
    let effective = decimal(budget.effective() as nat);
    if fits(spec, budget) {
        period + " frames x "@ + fixed_point(cost, MIB as int, 3) + " MiB = "@ + fixed_point(
            spec.period_frames * cost,
            MIB as int,
            1,
        ) + " MiB fits the "@ + effective + " MiB effective budget"@
    } else {
        period + " frames x "@ + fixed_point(cost, MIB as int, 3) + " MiB exceeds the "@ + effective
            + " MiB effective budget ("@ + decimal(
            frames_in_budget(spec, budget.effective()) as nat,
        ) + " frames max); streaming with "@ + decimal(read_ahead(spec) as nat)
            + " frames read-ahead"@
    }
}

/// Append `n / MIB` with one or three digits behind the point.
fn push_mib(s: &mut String, n: u128, places: u64)
    requires
        places == 1 || places == 3,
        n <= 0xf_ffff_ffff_ffff_ffff_ffff_ffff,
        places == 3 ==> n <= 0xf_ffff_ffff_ffff_ffff,
    ensures
        final(s)@ == old(s)@ + fixed_point(n as int, MIB as int, places as int),
{
    let unit: u128 = if places == 1 {
        10
    } else {
        1000
    };
    let x: u128 = n * unit;
    let q: u128 = x / MIB;
    let r: u128 = x % MIB;
    let t: u128 = if 2 * r > MIB || (2 * r == MIB && q % 2 == 1) {
        q + 1
    } else {
        q
    };
    let whole: u128 = t / unit;
    let part: u64 = (t % unit) as u64;
    let ghost before = s@;
    push_decimal_u128(s, whole);
    s.push('.');
    let ghost frac = decimal(part as nat);
    proof {
        reveal_with_fuel(decimal, 4);
        assert(frac.len() == (if part < 10 {
            1nat
        } else if part < 100 {
            2
        } else {
            3
        }));
    }
    if places == 3 {
        if part < 100 {
            s.push('0');
        }
        if part < 10 {
            s.push('0');
        }
    }
    push_decimal(s, part);
    assert(s@ =~= before + fixed_point(n as int, MIB as int, places as int));
}

fn push_decimal_u128(s: &mut String, n: u128)
    ensures
        final(s)@ == old(s)@ + decimal(n as nat),
    decreases n,
{
    if n >= 10 {
        push_decimal_u128(s, n / 10);
    }
    s.push(crate::text::digit((n % 10) as u8));
    assert(s@ =~= old(s)@ + decimal(n as nat));
}

/// Plan a loop: the cost of a frame in its format, the frames that fit the
/// budget, and then whether it stays in video memory or streams.
pub fn plan(spec: LoopSpec, budget: CacheBudget) -> (p: CachePlan)
    requires
        spec.gop_frames < 0x8000_0000,
    ensures
        p.selected_texture_format == format_of(spec),
        p.frame_cost_half_bytes == frame_cost(spec),
        p.effective_budget_mib == budget.effective(),
        p.max_frames_by_budget == frames_in_budget(spec, budget.effective()),
        p.period_frames == spec.period_frames,
        p.vram_resident == fits(spec, budget),
        p.cache_policy_selected == (if fits(spec, budget) {
            CachePolicy::Vram
        } else {
            CachePolicy::Streaming
        }),
        p.read_ahead_frames == read_ahead(spec),
        p.reason@ == reason_of(spec, budget),
{
    let format: CacheTextureFormat = match spec.declared_format {
        Some(f) => f,
        None => CacheTextureFormat::select(spec.has_alpha, spec.yuv_sampling),
    };
    let halves: u32 = format.half_bytes_per_pixel();
    proof {
        assert(0 <= spec.width * spec.height <= 0xffff_ffff * 0xffff_ffff) by (nonlinear_arith)
            requires
                0 <= spec.width <= 0xffff_ffff,
                0 <= spec.height <= 0xffff_ffff,
        ;
        let area = spec.width * spec.height;
        assert(0 <= area * halves <= 0xffff_ffff * 0xffff_ffff * 8) by (nonlinear_arith)
            requires
                0 <= area <= 0xffff_ffff * 0xffff_ffff,
                0 <= halves <= 8,
        ;
    }
    let area: u128 = spec.width as u128 * spec.height as u128;
    let cost: u128 = area * halves as u128;
    let effective: u32 = budget.effective_mib();
    let max_frames: u32 = if cost == 0 {
        0
    } else {
        let n: u128 = effective as u128 * MIB / cost;
        if n > u32::MAX as u128 {
            u32::MAX
        } else {
            n as u32
        }
    };
    let resident: bool = 0 < spec.period_frames && spec.period_frames <= max_frames;
    let read_ahead: u32 = if 2 * spec.gop_frames > 60 {
        2 * spec.gop_frames
    } else {
        60
    };
    let mut reason: String = String::new();
    push_decimal(&mut reason, spec.period_frames as u64);
    reason.append(" frames x ");
    push_mib(&mut reason, cost, 3);
    if resident {
        reason.append(" MiB = ");
        proof {
            assert(0 <= spec.period_frames * cost <= 0xffff_ffff * 0xf_ffff_ffff_ffff_ffff)
                by (nonlinear_arith)
                requires
                    0 <= spec.period_frames <= 0xffff_ffff,
                    0 <= cost <= 0xf_ffff_ffff_ffff_ffff,
            ;
        }
        push_mib(&mut reason, spec.period_frames as u128 * cost, 1);
        reason.append(" MiB fits the ");
        push_decimal(&mut reason, effective as u64);
        reason.append(" MiB effective budget");
    } else {
        reason.append(" MiB exceeds the ");
        push_decimal(&mut reason, effective as u64);
        reason.append(" MiB effective budget (");
        push_decimal(&mut reason, max_frames as u64);
        reason.append(" frames max); streaming with ");
        push_decimal(&mut reason, read_ahead as u64);
        reason.append(" frames read-ahead");
    }
    assert(reason@ =~= reason_of(spec, budget));
    CachePlan {
        selected_texture_format: format,
        frame_cost_half_bytes: cost,
        effective_budget_mib: effective,
        max_frames_by_budget: max_frames,
        period_frames: spec.period_frames,
        cache_policy_selected: if resident {
            CachePolicy::Vram
        } else {
            CachePolicy::Streaming
        },
        vram_resident: resident,
        read_ahead_frames: read_ahead,
        reason,
    }
}

/// The slot of a source frame in a ring of so many.
pub open spec fn slot_in(source_index: u64, period_frames: u32) -> Option<usize> {
    if period_frames == 0 {
        None
    } else {
        Some((source_index % period_frames as u64) as usize)
    }
}

/// The slot of a source frame in the ring: a plain remainder, nothing marks
/// the frame where the loop wraps.
pub fn texture_slot(source_index: u64, period_frames: u32) -> (r: Option<usize>)
    ensures
        r == slot_in(source_index, period_frames),
{
    if period_frames == 0 {
        return None;
    }
    Some((source_index % period_frames as u64) as usize)
}

/// A loop that stays never takes more than its budget.
pub proof fn law_resident_loops_fit(spec: LoopSpec, budget: CacheBudget)
    requires
        fits(spec, budget),
    ensures
        spec.period_frames * frame_cost(spec) <= budget.effective() * MIB,
{
    let cost = frame_cost(spec);
    let total = budget.effective() * MIB;
    let n = total / cost;
    let p = spec.period_frames as int;
    assert(cost >= 0) by (nonlinear_arith)
        requires
            cost == spec.width * spec.height * format_of(spec).half_bytes(),
    ;
    assert(n * cost <= total) by (nonlinear_arith)
        requires
            n == total / cost,
            cost > 0,
    ;
    assert(p * cost <= n * cost) by (nonlinear_arith)
        requires
            p <= n,
            cost > 0,
    ;
}

/// A larger budget never drives a loop out of video memory.
pub proof fn law_more_budget_keeps_residents(spec: LoopSpec, small: CacheBudget, large: CacheBudget)
    requires
        fits(spec, small),
        small.effective() <= large.effective(),
    ensures
        fits(spec, large),
{
    let cost = frame_cost(spec);
    let a = small.effective() * MIB;
    let b = large.effective() * MIB;
    assert(cost >= 0) by (nonlinear_arith)
        requires
            cost == spec.width * spec.height * format_of(spec).half_bytes(),
    ;
    assert(a / cost <= b / cost) by (nonlinear_arith)
        requires
            a <= b,
            cost > 0,
            a >= 0,
    ;
}

/// What a frame costs is the size of its texture. In bytes: four for every pixel
/// as RGBA, one and a half for luma and chroma, two and a half with alpha, one
/// block-compressed. The cost counts half bytes, so it is twice that.
pub proof fn law_a_frame_costs_its_texture(spec: LoopSpec)
    ensures
        ({
            let pixels = spec.width * spec.height;
            match format_of(spec) {
                CacheTextureFormat::Rgba8 => frame_cost(spec) == 2 * (4 * pixels),
                CacheTextureFormat::Nv12 => frame_cost(spec) == 2 * pixels + pixels,
                CacheTextureFormat::Nv12Alpha => frame_cost(spec) == 2 * (2 * pixels) + pixels,
                CacheTextureFormat::Bc7 => frame_cost(spec) == 2 * pixels,
            }
        }),
{
    let pixels = spec.width * spec.height;
    let h = format_of(spec).half_bytes();
    assert(frame_cost(spec) == pixels * h);
    assert(pixels * 8 == 2 * (4 * pixels) && pixels * 3 == 2 * pixels + pixels && pixels * 5 == 2
        * (2 * pixels) + pixels && pixels * 2 == 2 * pixels) by (nonlinear_arith);
}

/// All frames of a loop that stays in video memory are, in bytes, within the MiB
/// that the loop may take: not above its own budget, not above that of all loops,
/// and not above a quarter of the adapter's working set.
pub proof fn law_resident_bytes_are_within_the_budget(spec: LoopSpec, budget: CacheBudget)
    requires
        fits(spec, budget),
    ensures
        ({
            let pixels = spec.width * spec.height;
            let twice_the_bytes = match format_of(spec) {
                CacheTextureFormat::Rgba8 => 8 * pixels,
                CacheTextureFormat::Nv12 => 3 * pixels,
                CacheTextureFormat::Nv12Alpha => 5 * pixels,
                CacheTextureFormat::Bc7 => 2 * pixels,
            };
            let all = spec.period_frames * twice_the_bytes;
            &&& all <= 2 * (budget.per_loop_mib * 1024 * 1024)
            &&& all <= 2 * (budget.total_mib * 1024 * 1024)
            &&& budget.recommended_working_set_mib matches Some(ws) ==> 4 * all <= 2 * (ws * 1024
                * 1024)
        }),
{
    law_resident_loops_fit(spec, budget);
    law_a_frame_costs_its_texture(spec);
    let cost = frame_cost(spec);
    let e = budget.effective() as int;
    assert(e * 0x20_0000 == 2 * (e * 1024 * 1024)) by (nonlinear_arith);
    assert(e <= budget.per_loop_mib && e <= budget.total_mib);
}

/// A loop that streams would not have fitted: one frame of it costs nothing, or
/// its frames are more than the budget holds, or the loop is empty.
pub proof fn law_a_streaming_loop_would_not_fit(spec: LoopSpec, budget: CacheBudget)
    requires
        !fits(spec, budget),
        spec.period_frames > 0,
        spec.width > 0,
        spec.height > 0,
    ensures
        spec.period_frames * frame_cost(spec) > budget.effective() * 0x20_0000,
{
    let cost = frame_cost(spec);
    let total = budget.effective() * MIB;
    let pixels = spec.width * spec.height;
    assert(pixels > 0) by (nonlinear_arith)
        requires
            pixels == spec.width * spec.height,
            spec.width > 0,
            spec.height > 0,
    ;
    law_a_frame_costs_its_texture(spec);
    let n = total / cost;
    let p = spec.period_frames as int;
    assert(p >= n + 1);
    assert(p * cost > total) by (nonlinear_arith)
        requires
            p >= n + 1,
            n == total / cost,
            cost > 0,
    ;
}

/// The budget of a loop is one of the three limits and above none of them.
pub proof fn law_the_tightest_limit_rules(b: CacheBudget)
    ensures
        b.effective() <= b.per_loop_mib,
        b.effective() <= b.total_mib,
        b.recommended_working_set_mib matches Some(ws) ==> b.effective() <= ws / 4,
        b.effective() == b.per_loop_mib || b.effective() == b.total_mib || (
        b.recommended_working_set_mib matches Some(ws) && b.effective() == ws / 4),
{
}

/// A named format is used as it is. Otherwise a source without YUV sampling is
/// RGBA, and else its alpha decides whether there is a plane for it.
pub proof fn law_the_format_carries_the_source(spec: LoopSpec)
    ensures
        spec.declared_format matches Some(f) ==> format_of(spec) == f,
        spec.declared_format is None ==> (format_of(spec) is Rgba8 <==> !spec.yuv_sampling),
        spec.declared_format is None && spec.yuv_sampling ==> (format_of(spec) is Nv12Alpha
            <==> spec.has_alpha) && (format_of(spec) is Nv12 <==> !spec.has_alpha),
{
}

/// What is read ahead covers two groups of pictures and sixty frames, and is one
/// of the two.
pub proof fn law_read_ahead_covers_two_groups(spec: LoopSpec)
    ensures
        read_ahead(spec) >= 60,
        read_ahead(spec) >= spec.gop_frames + spec.gop_frames,
        read_ahead(spec) == 60 || read_ahead(spec) == spec.gop_frames + spec.gop_frames,
{
}

/// A number that is told with digits behind the point is the nearest such number.
pub proof fn law_round_even_is_nearest(n: int, d: int)
    requires
        0 <= n,
        0 < d,
    ensures
        -d <= 2 * (round_even(n, d) * d - n) <= d,
        2 * (round_even(n, d) * d - n) == d || 2 * (n - round_even(n, d) * d) == d ==> round_even(
            n,
            d,
        ) % 2 == 0,
{
    let q = n / d;
    let r = n % d;
    assert(n == q * d + r && 0 <= r < d) by (nonlinear_arith)
        requires
            q == n / d,
            r == n % d,
            d > 0,
    ;
    assert((q + 1) * d == q * d + d) by (nonlinear_arith);
}

/// A name stands for its own format and no other.
pub proof fn law_a_name_stands_for_its_format(declared: Seq<char>)
    ensures
        CacheTextureFormat::named(declared) == Some(CacheTextureFormat::Nv12) <==> declared
            == "nv12"@,
        CacheTextureFormat::named(declared) == Some(CacheTextureFormat::Nv12Alpha) <==> declared
            == "nv12Alpha"@,
        CacheTextureFormat::named(declared) == Some(CacheTextureFormat::Rgba8) <==> declared
            == "rgba8"@,
        CacheTextureFormat::named(declared) == Some(CacheTextureFormat::Bc7) <==> declared
            == "bc7"@,
{
    reveal_strlit("nv12");
    reveal_strlit("nv12Alpha");
    reveal_strlit("rgba8");
    reveal_strlit("bc7");
    assert("nv12"@.len() == 4 && "nv12Alpha"@.len() == 9 && "rgba8"@.len() == 5 && "bc7"@.len()
        == 3);
}

/// A loop never gets more than it declares, a quarter of a gigabyte where it declares
/// nothing, half a gigabyte with all others, or a quarter of the working set.
pub proof fn law_a_budget_keeps_to_every_bound(declared: Option<u32>, ws: Option<u32>)
    ensures
        ({
            let n = CacheBudget::declared(declared, ws).effective();
            &&& declared matches Some(d) ==> n <= d
            &&& declared is None ==> n <= 256
            &&& n <= 512
            &&& ws matches Some(w) ==> 4 * n <= w
            &&& ws is None && declared is None ==> n == 256
            &&& ws is None ==> (declared matches Some(d) ==> n == d || n == 512)
        }),
{
}

} // verus!

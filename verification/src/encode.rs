//! Encoded video: access units and their place on the media timeline.

use vstd::prelude::*;

pub mod session;

verus! {

/// A presentation time: frame `index` at `rate` frames per second. A rate of
/// zero counts as one.
#[derive(Debug, Clone, Copy, PartialEq, Eq, Structural)]
pub struct Pts {
    pub index: u64,
    pub rate: u32,
}

/// One compressed access unit.
#[derive(Debug, Clone, PartialEq, Eq)]
pub struct EncodedUnit {
    /// Coded bytes of the frame, each NAL unit prefixed with its length.
    pub data: Vec<u8>,
    /// Presentation time.
    pub pts: Pts,
    /// Whether the unit can be decoded without the units before it.
    pub is_keyframe: bool,
}

/// `n / d` rounded to the nearest integer, halves away from zero.
pub open spec fn round_div(n: int, d: int) -> int {
    if n >= 0 {
        (2 * n + d) / (2 * d)
    } else {
        -((2 * (-n) + d) / (2 * d))
    }
}

impl Pts {
    /// The rate that counts.
    pub open spec fn effective_rate(self) -> int {
        if self.rate == 0 {
            1
        } else {
            self.rate as int
        }
    }

    /// The time from `self` to `later`, in units of `1 / scale` seconds.
    pub open spec fn ticks_to(self, later: Pts, scale: int) -> int {
        round_div(
            scale * (later.index * self.effective_rate() - self.index * later.effective_rate()),
            self.effective_rate() * later.effective_rate(),
        )
    }

    fn rate_or_one(self) -> (r: u32)
        ensures
            r == self.effective_rate(),
            r > 0,
    {
        if self.rate == 0 {
            1
        } else {
            self.rate
        }
    }

    /// The time from `self` to `later`, in units of `1 / scale` seconds.
    pub fn ticks_between(self, later: Pts, scale: u32) -> (t: i128)
        requires
            scale <= 100_000,
        ensures
            t == self.ticks_to(later, scale as int),
    {
        let ra: u128 = self.rate_or_one() as u128;
        let rb: u128 = later.rate_or_one() as u128;
        proof {
            lemma_product_bound(later.index as int, ra as int);
            lemma_product_bound(self.index as int, rb as int);
            assert(0 < ra * rb <= 0xffff_ffff_ffff_ffff) by (nonlinear_arith)
                requires
                    0 < ra <= 0xffff_ffff,
                    0 < rb <= 0xffff_ffff,
            ;
        }
        let to: u128 = later.index as u128 * ra;
        let from: u128 = self.index as u128 * rb;
        let d: u128 = ra * rb;
        if to >= from {
            let m: u128 = rounded(scale, to - from, d);
            m as i128
        } else {
            let m: u128 = rounded(scale, from - to, d);
            proof {
                let n = scale * (to - from);
                assert(scale * (from - to) == -n) by (nonlinear_arith)
                    requires
                        n == scale * (to - from),
                ;
                if n == 0 {
                    assert((2 * 0 + d as int) / (2 * d as int) == 0) by (nonlinear_arith)
                        requires
                            d > 0,
                    ;
                }
                assert(n <= 0) by (nonlinear_arith)
                    requires
                        n == scale * (to - from),
                        to < from,
                        scale >= 0,
                ;
            }
            -(m as i128)
        }
    }
}

/// The product of a frame index and a rate fits in 96 bits.
proof fn lemma_product_bound(index: int, rate: int)
    requires
        0 <= index <= 0xffff_ffff_ffff_ffff,
        0 <= rate <= 0xffff_ffff,
    ensures
        0 <= index * rate <= 0xffff_ffff_ffff_ffff_ffff_ffff,
{
    assert(0 <= index * rate <= 0xffff_ffff_ffff_ffff * 0xffff_ffff) by (nonlinear_arith)
        requires
            0 <= index <= 0xffff_ffff_ffff_ffff,
            0 <= rate <= 0xffff_ffff,
    ;
}

/// `scale * x / d`, rounded to nearest.
fn rounded(scale: u32, x: u128, d: u128) -> (r: u128)
    requires
        scale <= 100_000,
        x <= 0xffff_ffff_ffff_ffff_ffff_ffff,
        0 < d <= 0xffff_ffff_ffff_ffff,
    ensures
        r == round_div(scale * x, d as int),
        r <= 0xf_ffff_ffff_ffff_ffff_ffff_ffff_ffff,
{
    proof {
        assert(0 <= scale * x <= 100_000 * 0xffff_ffff_ffff_ffff_ffff_ffff) by (nonlinear_arith)
            requires
                0 <= scale <= 100_000,
                0 <= x <= 0xffff_ffff_ffff_ffff_ffff_ffff,
        ;
    }
    let n: u128 = scale as u128 * x;
    let r: u128 = (2 * n + d) / (2 * d);
    assert(r <= 2 * n + d) by (nonlinear_arith)
        requires
            r == (2 * n + d) / (2 * d),
            d > 0,
            n >= 0,
    ;
    r
}

/// A video unit's transport timestamp: its presentation time in whole
/// milliseconds, held at the largest 32-bit value when it exceeds it.
pub fn media_ts_ms(pts: Pts) -> (ms: u32)
    ensures
        ms == ({
            let t = round_div(1000 * pts.index, pts.effective_rate());
            if t > u32::MAX {
                u32::MAX as int
            } else {
                t
            }
        }),
{
    let t: u128 = rounded(1000, pts.index as u128, pts.rate_or_one() as u128);
    if t > u32::MAX as u128 {
        u32::MAX
    } else {
        t as u32
    }
}

} // verus!

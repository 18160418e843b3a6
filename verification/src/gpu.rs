//! The graphics device: its quality, and how pictures are read back from it.

use crate::decode::{packed, packed_rows};
use crate::manifest::QualityProfile;
use vstd::prelude::*;

verus! {

/// `wgpu::COPY_BYTES_PER_ROW_ALIGNMENT`: rows of a picture that is copied into
/// memory start at multiples of 256 bytes.
#[verifier::external_body]
fn row_alignment() -> (n: u32)
    ensures
        n == 256,
{
    wgpu::COPY_BYTES_PER_ROW_ALIGNMENT
}

/// The least multiple of the alignment that holds a row.
pub open spec fn aligned(bytes: int) -> int {
    (bytes + 255) / 256 * 256
}

/// The bytes between two rows of a picture that is read back.
pub fn aligned_bytes_per_row(bytes: u32) -> (n: u32)
    requires
        bytes <= 0xffff_ff00,
    ensures
        n == aligned(bytes as int),
        n % 256 == 0,
        bytes <= n < bytes + 256,
{
    let a: u32 = row_alignment();
    let rows: u64 = (bytes as u64 + (a as u64 - 1)) / (a as u64);
    (rows * a as u64) as u32
}

/// A picture as it was read back, with the padding of its rows left out.
pub fn unpadded(data: &[u8], width: u32, height: u32) -> (out: Vec<u8>)
    requires
        width <= 0x3fff_ffc0,
        data@.len() >= aligned(width * 4) * height,
    ensures
        out@ == packed(data@, aligned(width * 4), width * 4, height as int),
{
    let stride: u32 = aligned_bytes_per_row(width * 4);
    proof {
        if height > 0 {
            assert((height - 1) * stride + width * 4 <= stride * height) by (nonlinear_arith)
                requires
                    width * 4 <= stride,
                    height > 0,
            ;
        }
    }
    packed_rows(data, stride as usize, width as usize * 4, height as usize)
}

/// The rank of a quality.
pub open spec fn rank(q: QualityProfile) -> int {
    match q {
        QualityProfile::Potato => 0,
        QualityProfile::Consumer => 1,
        QualityProfile::Pro => 2,
        QualityProfile::Reference => 3,
    }
}

fn rank_of(q: QualityProfile) -> (r: u8)
    ensures
        r == rank(q),
{
    match q {
        QualityProfile::Potato => 0,
        QualityProfile::Consumer => 1,
        QualityProfile::Pro => 2,
        QualityProfile::Reference => 3,
    }
}

/// The quality a device has: the least where it is no more than the processor.
pub fn probe_quality(software: bool) -> (q: QualityProfile)
    ensures
        q == if software {
            QualityProfile::Potato
        } else {
            QualityProfile::Consumer
        },
{
    if software {
        QualityProfile::Potato
    } else {
        QualityProfile::Consumer
    }
}

/// A quality, but no more than another.
pub open spec fn capped_at(q: QualityProfile, cap: QualityProfile) -> QualityProfile {
    if rank(q) <= rank(cap) {
        q
    } else {
        cap
    }
}

/// The quality in effect: the device's, but no more than was asked for.
pub fn effective_quality(probed: QualityProfile, requested: Option<QualityProfile>) -> (q:
    QualityProfile)
    ensures
        q == (match requested {
            Some(r) => capped_at(probed, r),
            None => probed,
        }),
{
    match requested {
        Some(r) => if rank_of(probed) <= rank_of(r) {
            probed
        } else {
            r
        },
        None => probed,
    }
}

/// The quality in effect is never above the device's, nor above what was asked.
pub proof fn law_quality_is_never_raised(probed: QualityProfile, requested: QualityProfile)
    ensures
        rank(capped_at(probed, requested)) <= rank(probed),
        rank(capped_at(probed, requested)) <= rank(requested),
        capped_at(probed, requested) == probed || capped_at(probed, requested) == requested,
{
}

} // verus!

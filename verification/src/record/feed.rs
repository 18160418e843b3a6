//! From the render loop to a recording: which frames are handed over, and which
//! are left out. The picture on air never waits for it.

use crate::text::{contains, contains_text};
use vstd::prelude::*;
use vstd::string::*;

verus! {

/// Whether a recording leaves a frame out: the picture on air took all of its
/// time. Without a running show there is no time to take.
pub fn should_skip_record_frame(render_elapsed_ns: u64, budget_ns: Option<u64>) -> (r: bool)
    ensures
        r == (budget_ns matches Some(b) && render_elapsed_ns >= b),
{
    match budget_ns {
        Some(b) => render_elapsed_ns >= b,
        None => false,
    }
}

/// What was decided of a frame before it was drawn.
#[derive(Debug, Clone, Copy, PartialEq, Eq, Structural)]
pub struct TapLoan {
    /// The surface the frame is drawn into, by its place in the pool.
    pub surface: Option<usize>,
    /// Whether the take shares surfaces at all.
    pub zero_copy_take: bool,
}

impl TapLoan {
    /// Whether the take shares surfaces.
    pub fn is_zero_copy(&self) -> (r: bool)
        ensures
            r == self.zero_copy_take,
    {
        self.zero_copy_take
    }

    /// Whether the frame has a surface.
    pub fn has_surface(&self) -> (r: bool)
        ensures
            r == (self.surface is Some),
    {
        match self.surface {
            Some(_) => true,
            None => false,
        }
    }
}

/// What is known of a take's surfaces before a frame is drawn.
#[derive(Debug, Clone, Copy, PartialEq, Eq, Structural)]
pub enum Surfaces {
    /// The take has no pool.
    NoPool,
    /// The pool gave this surface, or none.
    Acquired(Option<usize>),
}

/// What is said of a take whose surfaces are gone.
pub open spec fn chain_gone() -> Seq<char> {
    "E_NO_ZEROCOPY: the take's surface pool is gone mid-take; the chain was available at record.start and is not now"@
}

/// Before the draw: the surface of this frame. A take that shares surfaces and
/// has lost them is an error, not a frame that goes another way; a frame that
/// finds none free is left out, and counted.
pub fn begin_tap_frame(surfaces: Surfaces, claims_zero_copy: bool, skipped: &mut u64) -> (r: Result<
    TapLoan,
    String,
>)
    ensures
        match surfaces {
            Surfaces::NoPool => *final(skipped) == *old(skipped) && if claims_zero_copy {
                r matches Err(e) && e@ == chain_gone()
            } else {
                r == Ok::<TapLoan, String>(TapLoan { surface: None, zero_copy_take: false })
            },
            Surfaces::Acquired(surface) => {
                &&& r == Ok::<TapLoan, String>(TapLoan { surface, zero_copy_take: true })
                &&& *final(skipped) == if surface is Some {
                    *old(skipped)
                } else {
                    (*old(skipped)).wrapping_add(1)
                }
            },
        },
{
    match surfaces {
        Surfaces::NoPool => {
            if claims_zero_copy {
                return Err(
                    "E_NO_ZEROCOPY: the take's surface pool is gone mid-take; the chain was available at record.start and is not now".to_owned(),
                );
            }
            Ok(TapLoan { surface: None, zero_copy_take: false })
        },
        Surfaces::Acquired(surface) => {
            let none: bool = match surface {
                Some(_) => false,
                None => true,
            };
            if none {
                *skipped = (*skipped).wrapping_add(1);
            }
            Ok(TapLoan { surface, zero_copy_take: true })
        },
    }
}

/// What is done with a frame after the draw.
#[derive(Debug, Clone, Copy, PartialEq, Eq, Structural)]
pub enum HandOff {
    /// Nothing: the frame was left out before the draw, and counted.
    Nothing,
    /// Nothing: the frame is left out now, and counted.
    Skip,
    /// Hand over the surface.
    Surface(usize),
    /// Read the picture back, and hand it over.
    Readback,
}

/// What is done with a frame after the draw.
pub open spec fn hand_off_of(loan: TapLoan, elapsed_ns: u64, budget_ns: Option<u64>) -> HandOff {
    if loan.zero_copy_take && loan.surface is None {
        HandOff::Nothing
    } else if budget_ns matches Some(b) && elapsed_ns >= b {
        HandOff::Skip
    } else {
        match loan.surface {
            Some(s) => HandOff::Surface(s),
            None => HandOff::Readback,
        }
    }
}

/// After the draw: what is done with the frame. One that is left out now is
/// counted now.
pub fn end_tap_frame(loan: TapLoan, elapsed_ns: u64, budget_ns: Option<u64>, skipped: &mut u64) -> (r:
    HandOff)
    ensures
        r == hand_off_of(loan, elapsed_ns, budget_ns),
        *final(skipped) == if r is Skip {
            (*old(skipped)).wrapping_add(1)
        } else {
            *old(skipped)
        },
{
    if loan.zero_copy_take && !loan.has_surface() {
        return HandOff::Nothing;
    }
    if should_skip_record_frame(elapsed_ns, budget_ns) {
        *skipped = (*skipped).wrapping_add(1);
        return HandOff::Skip;
    }
    match loan.surface {
        Some(s) => HandOff::Surface(s),
        None => HandOff::Readback,
    }
}

/// The frame was handed over, or there was no room: then it is counted.
pub fn handed_off(sent: bool, skipped: &mut u64)
    ensures
        *final(skipped) == if sent {
            *old(skipped)
        } else {
            (*old(skipped)).wrapping_add(1)
        },
{
    if !sent {
        *skipped = (*skipped).wrapping_add(1);
    }
}

/// What is told of a take that lost its surfaces: the cause, under its token.
pub open spec fn loss_text(cause: Seq<char>) -> Seq<char> {
    if contains_text(cause, "E_NO_ZEROCOPY"@) {
        cause
    } else {
        "E_NO_ZEROCOPY: "@ + cause
    }
}

/// What is told of a take that lost its surfaces.
pub fn chain_loss(cause: &str) -> (s: String)
    ensures
        s@ == loss_text(cause@),
{
    if contains(cause, "E_NO_ZEROCOPY") {
        cause.to_owned()
    } else {
        "E_NO_ZEROCOPY: ".to_owned().concat(cause)
    }
}

/// A frame of a take that shares surfaces is never read back instead.
pub proof fn law_shared_takes_are_never_read_back(
    loan: TapLoan,
    elapsed_ns: u64,
    budget_ns: Option<u64>,
)
    requires
        loan.zero_copy_take,
    ensures
        !(hand_off_of(loan, elapsed_ns, budget_ns) is Readback),
{
}

/// A frame that is left out is counted once: where it was counted before the
/// draw, it is not counted after it.
pub proof fn law_a_skip_is_counted_once(loan: TapLoan, elapsed_ns: u64, budget_ns: Option<u64>)
    requires
        loan.zero_copy_take && loan.surface is None,
    ensures
        hand_off_of(loan, elapsed_ns, budget_ns) is Nothing,
{
}

} // verus!

//! Recording sessions: whether an encoder is there, and how a take ends.

use super::RecordError;
use vstd::prelude::*;
use vstd::string::*;

verus! {

/// Why a take could not be opened or ended.
#[derive(Debug, PartialEq, Eq)]
pub enum SessionError {
    /// There is no hardware encoder.
    NoEncoder(String),
    /// The take did not report in time.
    Timeout(String),
    /// The file failed.
    Record(RecordError),
}

impl SessionError {
    /// The message an operator sees.
    pub open spec fn text(self) -> Seq<char> {
        match self {
            SessionError::NoEncoder(s) => "E_NO_HARDWARE_ENCODER: "@ + s@,
            SessionError::Timeout(s) => "E_RECORD_TIMEOUT: "@ + s@,
            SessionError::Record(e) => e.token() + ": "@ + e.detail(),
        }
    }

    /// The message an operator sees: a stable token, then what went wrong.
    pub fn message(&self) -> (s: String)
        ensures
            s@ == self.text(),
    {
        match self {
            SessionError::NoEncoder(s) => "E_NO_HARDWARE_ENCODER: ".to_owned().concat(s.as_str()),
            SessionError::Timeout(s) => "E_RECORD_TIMEOUT: ".to_owned().concat(s.as_str()),
            SessionError::Record(e) => e.message(),
        }
    }
}

impl From<RecordError> for SessionError {
    fn from(e: RecordError) -> (s: SessionError) {
        SessionError::Record(e)
    }
}

impl vstd::std_specs::convert::FromSpecImpl<RecordError> for SessionError {
    open spec fn obeys_from_spec() -> bool {
        true
    }

    open spec fn from_spec(e: RecordError) -> SessionError {
        SessionError::Record(e)
    }
}

/// Whether a hardware encoder is there: a yes is remembered, a no is asked
/// again, and the answer can be forced to no.
#[derive(Debug, Clone, Copy, PartialEq, Eq, Structural)]
pub struct EncoderProbe {
    pub forced_off: bool,
    pub seen: bool,
}

impl EncoderProbe {
    /// A probe that has not asked.
    pub fn new() -> (p: EncoderProbe)
        ensures
            p == (EncoderProbe { forced_off: false, seen: false }),
    {
        EncoderProbe { forced_off: false, seen: false }
    }

    /// Force the answer to no, or release it.
    pub fn set_force_no_encoder(&mut self, force: bool)
        ensures
            *final(self) == (EncoderProbe { forced_off: force, ..*old(self) }),
    {
        self.forced_off = force;
    }

    /// Whether the answer is forced to no.
    pub fn force_no_encoder(&self) -> (r: bool)
        ensures
            r == self.forced_off,
    {
        self.forced_off
    }

    /// Whether the machine has to be asked.
    pub fn must_ask(&self) -> (r: bool)
        ensures
            r == (!self.forced_off && !self.seen),
    {
        !self.forced_off && !self.seen
    }

    /// The answer, where `found` is the machine's.
    pub open spec fn answer(self, found: bool) -> bool {
        !self.forced_off && (self.seen || found)
    }

    /// The probe once it has answered.
    pub open spec fn answered(self, found: bool) -> EncoderProbe {
        EncoderProbe { seen: self.seen || self.answer(found), ..self }
    }

    /// Whether an encoder is there. `found` is the machine's answer; it counts
    /// only where the machine has to be asked.
    pub fn encoder_available(&mut self, found: bool) -> (r: bool)
        ensures
            r == old(self).answer(found),
            *final(self) == old(self).answered(found),
    {
        if self.forced_off {
            return false;
        }
        if self.seen {
            return true;
        }
        if found {
            self.seen = true;
        }
        found
    }
}

/// How a take stands once it was asked to stop.
#[derive(Debug, Clone, Copy, PartialEq, Eq, Structural)]
pub struct TakeEnd {
    /// The engine knows how the take ended.
    pub finished: bool,
    /// The take has to be told to give up.
    pub abandon: bool,
}

/// What the report of a take means: a report ends it, a missing one leaves it
/// to give up on its own.
pub fn take_end(report: &Result<String, SessionError>) -> (e: TakeEnd)
    ensures
        e == (if report matches Err(SessionError::Timeout(_)) {
            TakeEnd { finished: false, abandon: true }
        } else {
            TakeEnd { finished: true, abandon: false }
        }),
{
    match report {
        Err(SessionError::Timeout(_)) => TakeEnd { finished: false, abandon: true },
        _ => TakeEnd { finished: true, abandon: false },
    }
}

/// Once the answer was yes, it stays yes, whatever the machine says later.
pub proof fn law_a_yes_is_remembered(p: EncoderProbe, later: bool)
    requires
        p.answer(true),
    ensures
        p.answered(true).answer(later),
{
}

/// A no is not remembered: the machine is asked again.
pub proof fn law_a_no_is_asked_again(p: EncoderProbe)
    requires
        !p.answer(false),
    ensures
        p.answered(false) == p,
{
}

} // verus!

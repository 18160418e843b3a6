//! The master clock: the frame a show is at is the time it has run, in frames
//! of the house rate, rounded down.

use std::time::Instant;
use vstd::prelude::*;

verus! {

/// A point on the machine's monotonic clock (`std::time::Instant`).
#[verifier::external_type_specification]
#[verifier::external_body]
pub struct ExInstant(std::time::Instant);

/// Whether the clock runs.
#[derive(Debug, Clone, Copy, PartialEq, Eq, Structural)]
pub enum ClockState {
    Stopped,
    Running,
}

/// The master clock.
#[derive(Debug)]
pub struct MasterClock {
    house_rate: u32,
    /// When the clock was started, while it runs.
    epoch: Option<Instant>,
}

/// The clock, as contracts speak of it.
pub struct ClockView {
    pub house_rate: u32,
    /// The moment it counts from, while it runs.
    pub epoch: Option<Instant>,
}

impl ClockView {
    /// Whether the clock runs.
    pub open spec fn state(self) -> ClockState {
        if self.epoch is Some {
            ClockState::Running
        } else {
            ClockState::Stopped
        }
    }

    /// The clock started at a moment; one that runs already goes on as it is.
    pub open spec fn started(self, at: Instant) -> ClockView {
        if self.epoch is Some {
            self
        } else {
            ClockView { epoch: Some(at), ..self }
        }
    }

    /// The clock stopped.
    pub open spec fn stopped(self) -> ClockView {
        ClockView { epoch: None, ..self }
    }

    /// The frame seen when so many seconds and nanoseconds have passed since
    /// the moment the clock counts from; none while it is stopped.
    pub open spec fn seen_after(self, secs: u64, nanos: u32) -> Option<u64> {
        if self.epoch is Some {
            Some(master_frame_at(secs, nanos, self.house_rate))
        } else {
            None
        }
    }
}

/// `std::time::Instant::now`: the present moment. Nothing is said of it.
#[verifier::external_body]
fn now() -> Instant {
    Instant::now()
}

/// `std::time::Instant::elapsed`: the time since `epoch`, in whole seconds and
/// in nanoseconds of the last one. It differs from call to call; the
/// nanoseconds are fewer than a second's.
#[verifier::external_body]
fn since(epoch: &Instant) -> (t: (u64, u32))
    ensures
        t.1 < 1_000_000_000,
{
    let elapsed = epoch.elapsed();
    (elapsed.as_secs(), elapsed.subsec_nanos())
}

/// The frame after so many seconds and nanoseconds, at a rate.
pub open spec fn frames_in(secs: u64, nanos: u32, rate: u32) -> int {
    (secs * 1_000_000_000 + nanos) * rate / 1_000_000_000
}

/// The frame after so many seconds and nanoseconds, within 64 bits.
pub open spec fn master_frame_at(secs: u64, nanos: u32, rate: u32) -> u64 {
    if frames_in(secs, nanos, rate) <= u64::MAX {
        frames_in(secs, nanos, rate) as u64
    } else {
        u64::MAX
    }
}

/// The frame after so many seconds and nanoseconds.
pub fn frame_after(secs: u64, nanos: u32, rate: u32) -> (f: u64)
    requires
        nanos < 1_000_000_000,
    ensures
        f == master_frame_at(secs, nanos, rate),
{
    let time: u128 = secs as u128 * 1_000_000_000 + nanos as u128;
    assert(time * rate <= 0x1_0000_0000_0000_0000 * 1_000_000_000 * 0x1_0000_0000) by (
    nonlinear_arith)
        requires
            time <= 0x1_0000_0000_0000_0000 * 1_000_000_000,
            rate <= 0x1_0000_0000,
    ;
    let f: u128 = time * (rate as u128) / 1_000_000_000;
    if f <= 0xffff_ffff_ffff_ffff {
        f as u64
    } else {
        0xffff_ffff_ffff_ffff
    }
}

impl View for MasterClock {
    type V = ClockView;

    closed spec fn view(&self) -> ClockView {
        ClockView { house_rate: self.house_rate, epoch: self.epoch }
    }
}

impl MasterClock {
    /// A stopped clock.
    pub fn new(house_rate: u32) -> (c: MasterClock)
        ensures
            c@ == (ClockView { house_rate, epoch: None }),
    {
        MasterClock { house_rate, epoch: None }
    }

    /// Whether the clock runs.
    pub fn state(&self) -> (s: ClockState)
        ensures
            s == self@.state(),
    {
        match &self.epoch {
            Some(_) => ClockState::Running,
            None => ClockState::Stopped,
        }
    }

    /// Frames per second.
    pub fn house_rate(&self) -> (r: u32)
        ensures
            r == self@.house_rate,
    {
        self.house_rate
    }

    /// Start the clock from zero at a moment; one that runs already goes on as
    /// it is.
    pub fn start_at(&mut self, at: Instant)
        ensures
            final(self)@ == old(self)@.started(at),
            old(self)@.state() is Running ==> *final(self) == *old(self),
    {
        let stopped: bool = match &self.epoch {
            Some(_) => false,
            None => true,
        };
        if stopped {
            self.epoch = Some(at);
        }
    }

    /// Start the clock from zero, now; one that runs already goes on as it is.
    pub fn start(&mut self)
        ensures
            exists|at: Instant| final(self)@ == #[trigger] old(self)@.started(at),
            old(self)@.state() is Running ==> *final(self) == *old(self),
    {
        let at: Instant = now();
        self.start_at(at);
        assert(self@ == old(self)@.started(at));
    }

    /// Stop the clock.
    pub fn stop(&mut self)
        ensures
            final(self)@ == old(self)@.stopped(),
    {
        self.epoch = None;
    }

    /// The frame the show is at when so much time has passed since the moment
    /// the clock counts from; none while the clock is stopped.
    pub fn frame_when(&self, secs: u64, nanos: u32) -> (f: Option<u64>)
        requires
            nanos < 1_000_000_000,
        ensures
            f == self@.seen_after(secs, nanos),
    {
        match &self.epoch {
            None => None,
            Some(_) => Some(frame_after(secs, nanos, self.house_rate)),
        }
    }

    /// The frame the show is at; none while the clock is stopped.
    pub fn frame(&self) -> (f: Option<u64>)
        ensures
            f is Some <==> self@.state() is Running,
            exists|secs: u64, nanos: u32|
                nanos < 1_000_000_000 && f == #[trigger] self@.seen_after(secs, nanos),
    {
        let t: (u64, u32) = match &self.epoch {
            Some(epoch) => since(epoch),
            None => (0, 0),
        };
        let f: Option<u64> = self.frame_when(t.0, t.1);
        assert(f == self@.seen_after(t.0, t.1));
        f
    }

    /// The clock as if started at `epoch`, or stopped.
    pub fn with_epoch(self, epoch: Instant, state: ClockState) -> (c: MasterClock)
        ensures
            c@ == (ClockView {
                house_rate: self@.house_rate,
                epoch: if state is Running {
                    Some(epoch)
                } else {
                    None
                },
            }),
    {
        match state {
            ClockState::Running => MasterClock { house_rate: self.house_rate, epoch: Some(epoch) },
            ClockState::Stopped => MasterClock { house_rate: self.house_rate, epoch: None },
        }
    }
}

/// The frame never goes back while time goes on.
pub proof fn law_frames_only_grow(
    secs: u64,
    nanos: u32,
    later_secs: u64,
    later_nanos: u32,
    rate: u32,
)
    requires
        secs * 1_000_000_000 + nanos <= later_secs * 1_000_000_000 + later_nanos,
    ensures
        master_frame_at(secs, nanos, rate) <= master_frame_at(later_secs, later_nanos, rate),
{
    let a = (secs * 1_000_000_000 + nanos) * rate;
    let b = (later_secs * 1_000_000_000 + later_nanos) * rate;
    assert(a <= b) by (nonlinear_arith)
        requires
            a == (secs * 1_000_000_000 + nanos) * rate,
            b == (later_secs * 1_000_000_000 + later_nanos) * rate,
            secs * 1_000_000_000 + nanos <= later_secs * 1_000_000_000 + later_nanos,
            rate >= 0,
    ;
    assert(a / 1_000_000_000 <= b / 1_000_000_000);
    assert(0 <= a / 1_000_000_000) by {
        assert(0 <= a) by (nonlinear_arith)
            requires
                a == (secs * 1_000_000_000 + nanos) * rate,
                rate >= 0,
        ;
    }
}

/// Each second holds as many frames as the rate says.
pub proof fn law_a_second_is_its_frames(secs: u64, rate: u32)
    ensures
        frames_in(secs, 0, rate) == secs * rate,
{
    assert((secs * 1_000_000_000) * rate == (secs * rate) * 1_000_000_000) by (nonlinear_arith);
}

/// A clock started from rest counts from the moment of the start: it is at
/// frame zero there. A second start changes nothing, and the rate stays.
pub proof fn law_a_clock_counts_from_its_start(c: ClockView, at: Instant, again: Instant)
    ensures
        c.started(at).state() is Running,
        c.started(at).house_rate == c.house_rate,
        c.state() is Stopped ==> c.started(at).epoch == Some(at),
        c.state() is Stopped ==> c.started(at).seen_after(0, 0) == Some(0u64),
        c.state() is Running ==> c.started(at) == c,
        c.started(at).started(again) == c.started(at),
{
    assert(0 * c.house_rate == 0) by (nonlinear_arith);
}

/// There is a frame just while the clock runs.
pub proof fn law_a_stopped_clock_shows_nothing(c: ClockView, secs: u64, nanos: u32)
    ensures
        c.seen_after(secs, nanos) is None <==> c.state() is Stopped,
        c.stopped().seen_after(secs, nanos) is None,
{
}

/// Of two reads without a stop between them, the later one shows no earlier
/// frame.
pub proof fn law_reads_never_go_back(
    c: ClockView,
    secs: u64,
    nanos: u32,
    later_secs: u64,
    later_nanos: u32,
)
    requires
        c.state() is Running,
        secs * 1_000_000_000 + nanos <= later_secs * 1_000_000_000 + later_nanos,
    ensures
        c.seen_after(secs, nanos) matches Some(a) && c.seen_after(later_secs, later_nanos) matches Some(
            b,
        ) && a <= b,
{
    law_frames_only_grow(secs, nanos, later_secs, later_nanos, c.house_rate);
}

} // verus!

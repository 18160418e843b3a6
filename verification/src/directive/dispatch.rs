//! Which directive does what, and when it is acknowledged.

use crate::audio_control::command_of;
use crate::clock::ClockState;
use crate::directive::engine::{forbidden, DirectiveHandler, EngineView, RecordState, StreamState};
use crate::directive::outputs::{
    close_outcome, end_outcome, record_admission, record_asked, record_ended, record_stopping,
    stream_over,
};
use crate::directive::overlay::{clock_resynced, overlaid, resynced, snapshot_clock};
use crate::directive::take::{
    marked, marker_verdict, show_begun, taken, timer_matches, EndTimer,
};
use crate::directive::{outcome, DirectiveError, ErrorView};
use crate::protocol::{DirectiveFrame, DirectiveView, EngineFrameView, RESYNC};
use crate::record::session::SessionError;
use crate::record::stream::StreamError;
use crate::record::thread::ControlMsg;
use crate::text::str_eq;
use std::time::Instant;
use vstd::prelude::*;
use vstd::string::*;

verus! {

/// What a show that stops does with its outputs.
#[derive(Debug, Clone, Copy, PartialEq, Eq, Structural)]
pub enum StopPlan {
    /// There are none.
    Idle,
    /// They are left as they are, at once.
    Force { record: bool, stream: bool },
    /// They are ended in order, side by side.
    Quiesce { record: bool, stream: bool },
}

impl StopPlan {
    /// What the session of a recording is told: to finish where the outputs are
    /// ended in order, to leave the file as it is where they are forced.
    pub fn record_word(&self) -> (w: Option<ControlMsg>)
        ensures
            w == (match *self {
                StopPlan::Force { record, .. } if record => Some(ControlMsg::Abandon),
                StopPlan::Quiesce { record, .. } if record => Some(ControlMsg::Stop),
                _ => None,
            }),
    {
        match self {
            StopPlan::Force { record, .. } => if *record {
                Some(ControlMsg::Abandon)
            } else {
                None
            },
            StopPlan::Quiesce { record, .. } => if *record {
                Some(ControlMsg::Stop)
            } else {
                None
            },
            StopPlan::Idle => None,
        }
    }
}

/// Whether a recording is to be ended.
pub open spec fn record_active(e: EngineView) -> bool {
    e.record_state is Recording && e.record_session
}

/// Whether a stream is to be ended.
pub open spec fn stream_active(e: EngineView) -> bool {
    e.stream_state is Live && e.stream_session
}

/// What a show that stops does with its outputs: they are ended in order unless
/// the directive says otherwise; told neither to end them nor to force them, it
/// does not stop.
pub open spec fn stop_plan(e: EngineView, d: DirectiveView) -> Result<StopPlan, ErrorView> {
    let record = record_active(e);
    let stream = stream_active(e);
    let quiesce = d.payload.boolean_at("quiesceOutputs"@) != Some(false);
    let force = d.payload.boolean_at("force"@) == Some(true);
    if !record && !stream {
        Ok(StopPlan::Idle)
    } else if force {
        Ok(StopPlan::Force { record, stream })
    } else if quiesce {
        Ok(StopPlan::Quiesce { record, stream })
    } else {
        Err(
            ErrorView::ForbiddenState(
                "show.stop: quiesceOutputs=false with active outputs and no force"@,
            ),
        )
    }
}

/// The engine once the show has stopped: the clock, the decoders and the
/// transition are let go.
pub open spec fn show_over(e: EngineView) -> EngineView {
    EngineView {
        clock: e.clock.stopped(),
        decode_epoch: e.decode_epoch.wrapping_add(1),
        transition: None,
        ..e
    }
}

/// The engine once outputs without a session are idle.
pub open spec fn outputs_idle(e: EngineView) -> EngineView {
    EngineView { record_state: RecordState::Idle, stream_state: StreamState::Idle, ..e }
}

/// The engine once outputs are left as they are.
pub open spec fn outputs_forced(e: EngineView, record: bool, stream: bool) -> EngineView {
    let r = if record {
        EngineView {
            record_tap: false,
            record_session: false,
            markers: Seq::empty(),
            record_state: RecordState::Idle,
            ..e
        }
    } else {
        e
    };
    if stream {
        stream_over(r)
    } else {
        r
    }
}

/// The engine once sessions are taken away to be ended.
pub open spec fn outputs_stopping(e: EngineView, record: bool, stream: bool) -> EngineView {
    let r = if record {
        record_stopping(e)
    } else {
        e
    };
    if stream {
        EngineView { stream_session: false, ..r }
    } else {
        r
    }
}

/// How the recording of a show that stops ended: its session's word, or why
/// nothing was heard of it.
pub open spec fn quiesced_record(e: EngineView, record: Option<Result<Result<(), SessionError>, String>>) -> EngineView {
    match record {
        Some(Ok(ended)) => record_ended(e, Some(ended)),
        _ => e,
    }
}

/// The first failure of a show that stops: the recording's, else the stream's.
pub open spec fn first_failure(
    record: Option<Result<Result<(), SessionError>, String>>,
    stream: Option<Result<(), StreamError>>,
) -> Result<(), ErrorView> {
    let first = match record {
        Some(Ok(ended)) => end_outcome(Some(ended)),
        Some(Err(s)) => Err(
            ErrorView::Invalid("show.stop: record quiesce task failed: "@ + s@),
        ),
        None => Ok(()),
    };
    match first {
        Err(e) => Err(e),
        Ok(()) => close_outcome(stream),
    }
}

impl DirectiveHandler {
    fn end_show(&mut self)
        requires
            old(self).wf(),
        ensures
            final(self).wf(),
            final(self)@ == show_over(old(self)@),
    {
        self.clock.stop();
        self.decode_epoch = self.decode_epoch.wrapping_add(1);
        self.transition = None;
    }

    /// What a show that stops does with its outputs.
    pub fn plan_stop(&self, d: &DirectiveFrame) -> (r: Result<StopPlan, DirectiveError>)
        requires
            self.wf(),
        ensures
            match r {
                Ok(p) => stop_plan(self@, d@) == Ok::<StopPlan, ErrorView>(p),
                Err(e) => stop_plan(self@, d@) == Err::<StopPlan, ErrorView>(e@),
            },
    {
        let record: bool = self.record_session && match self.record_state {
            RecordState::Recording => true,
            RecordState::Idle => false,
        };
        let stream: bool = self.stream_session && match self.stream_state {
            StreamState::Live => true,
            StreamState::Idle => false,
        };
        if !record && !stream {
            return Ok(StopPlan::Idle);
        }
        let quiesce: bool = match d.payload.bool_at("quiesceOutputs") {
            Some(b) => b,
            None => true,
        };
        let force: bool = match d.payload.bool_at("force") {
            Some(b) => b,
            None => false,
        };
        if force {
            Ok(StopPlan::Force { record, stream })
        } else if quiesce {
            Ok(StopPlan::Quiesce { record, stream })
        } else {
            Err(forbidden("show.stop: quiesceOutputs=false with active outputs and no force"))
        }
    }

    /// The show is to stop. Where outputs are to be ended in order they are only
    /// taken away, and [`DirectiveHandler::show_stopped`] follows; else the show has
    /// stopped.
    pub fn on_show_stop(&mut self, d: &DirectiveFrame) -> (r: Result<StopPlan, DirectiveError>)
        requires
            old(self).wf(),
        ensures
            final(self).wf(),
            match r {
                Ok(p) => stop_plan(old(self)@, d@) == Ok::<StopPlan, ErrorView>(p),
                Err(e) => stop_plan(old(self)@, d@) == Err::<StopPlan, ErrorView>(e@),
            },
            final(self)@ == stop_begun(old(self)@, d@),
            r is Err ==> *final(self) == *old(self),
    {
        let plan: StopPlan = match self.plan_stop(d) {
            Ok(p) => p,
            Err(e) => return Err(e),
        };
        match plan {
            StopPlan::Idle => {
                self.record_state = RecordState::Idle;
                self.stream_state = StreamState::Idle;
                self.end_show();
            },
            StopPlan::Force { record, stream } => {
                if record {
                    self.record_tap = false;
                    self.record_session = false;
                    self.markers.clear();
                    self.record_state = RecordState::Idle;
                }
                if stream {
                    self.stream_session = false;
                    self.stream_state = StreamState::Idle;
                    self.stream_tap_selection = None;
                    self.stream_tap = false;
                }
                self.end_show();
            },
            StopPlan::Quiesce { record, stream } => {
                if record {
                    self.record_tap = false;
                    self.record_session = false;
                }
                if stream {
                    self.stream_session = false;
                }
            },
        }
        Ok(plan)
    }

    /// The outputs of a show that stops have ended: the show stops whatever came
    /// of them, and the first failure is told.
    pub fn show_stopped(
        &mut self,
        record: Option<Result<Result<(), SessionError>, String>>,
        stream: Option<Result<(), StreamError>>,
    ) -> (r: Result<(), DirectiveError>)
        requires
            old(self).wf(),
        ensures
            final(self).wf(),
            outcome(r) == first_failure(record, stream),
            final(self)@ == ({
                let ended = quiesced_record(old(self)@, record);
                show_over(
                    if stream is Some {
                        stream_over(ended)
                    } else {
                        ended
                    },
                )
            }),
    {
        let first: Result<(), DirectiveError> = match record {
            Some(Ok(ended)) => self.record_stopped(Some(ended)),
            Some(Err(s)) => Err(
                DirectiveError::Invalid(
                    "show.stop: record quiesce task failed: ".to_owned().concat(s.as_str()),
                ),
            ),
            None => Ok(()),
        };
        let second: Result<(), DirectiveError> = match stream {
            Some(closed) => self.stream_stopped(Some(closed)),
            None => Ok(()),
        };
        self.end_show();
        match first {
            Err(e) => Err(e),
            Ok(()) => second,
        }
    }
}

/// The engine once a show was told to stop.
pub open spec fn stop_begun(e: EngineView, d: DirectiveView) -> EngineView {
    match stop_plan(e, d) {
        Err(_) => e,
        Ok(StopPlan::Idle) => show_over(outputs_idle(e)),
        Ok(StopPlan::Force { record, stream }) => show_over(outputs_forced(e, record, stream)),
        Ok(StopPlan::Quiesce { record, stream }) => outputs_stopping(e, record, stream),
    }
}

/// Kinds of directives.
#[derive(Debug, Clone, Copy, PartialEq, Eq, Structural)]
pub enum Command {
    ShowLoad,
    ShowStart,
    ShowStop,
    Take,
    Fallback,
    Overlay,
    Audio,
    RecordStart,
    RecordStop,
    StreamStart,
    StreamStop,
    Marker,
    Resync,
    /// Nothing the engine does.
    Other,
}

/// The kind of a command.
pub open spec fn kind_of(c: Seq<char>) -> Command {
    if c == "show.load"@ {
        Command::ShowLoad
    } else if c == "show.start"@ {
        Command::ShowStart
    } else if c == "show.stop"@ {
        Command::ShowStop
    } else if c == "view.take"@ || c == "view.cut"@ {
        Command::Take
    } else if c == "view.fallback"@ {
        Command::Fallback
    } else if c == "overlay.show"@ || c == "overlay.hide"@ {
        Command::Overlay
    } else if c == "soundboard.play"@ || c == "soundboard.stop"@ || c == "soundboard.stopAll"@ || c
        == "audio.bus.set"@ || c == "audio.duck"@ || c == "guest.mute"@ {
        Command::Audio
    } else if c == "record.start"@ {
        Command::RecordStart
    } else if c == "record.stop"@ {
        Command::RecordStop
    } else if c == "stream.start"@ {
        Command::StreamStart
    } else if c == "stream.stop"@ {
        Command::StreamStop
    } else if c == "marker.add"@ {
        Command::Marker
    } else if c == RESYNC@ {
        Command::Resync
    } else {
        Command::Other
    }
}

/// The kind of a command.
pub fn command_kind(c: &str) -> (k: Command)
    ensures
        k == kind_of(c@),
{
    if str_eq(c, "show.load") {
        Command::ShowLoad
    } else if str_eq(c, "show.start") {
        Command::ShowStart
    } else if str_eq(c, "show.stop") {
        Command::ShowStop
    } else if str_eq(c, "view.take") || str_eq(c, "view.cut") {
        Command::Take
    } else if str_eq(c, "view.fallback") {
        Command::Fallback
    } else if str_eq(c, "overlay.show") || str_eq(c, "overlay.hide") {
        Command::Overlay
    } else if str_eq(c, "soundboard.play") || str_eq(c, "soundboard.stop") || str_eq(
        c,
        "soundboard.stopAll",
    ) || str_eq(c, "audio.bus.set") || str_eq(c, "audio.duck") || str_eq(c, "guest.mute") {
        Command::Audio
    } else if str_eq(c, "record.start") {
        Command::RecordStart
    } else if str_eq(c, "record.stop") {
        Command::RecordStop
    } else if str_eq(c, "stream.start") {
        Command::StreamStart
    } else if str_eq(c, "stream.stop") {
        Command::StreamStop
    } else if str_eq(c, "marker.add") {
        Command::Marker
    } else if str_eq(c, RESYNC) {
        Command::Resync
    } else {
        Command::Other
    }
}

/// What is left to do of a directive.
#[derive(Debug)]
pub enum Step {
    /// Nothing: it was applied and acknowledged. A timer is set where a timed
    /// item went on air.
    Done(Option<EndTimer>),
    /// Read the package, then load it.
    Load,
    /// The show has stopped; leave the outputs that are named.
    Stopped(StopPlan),
    /// End the outputs that are named.
    StopOutputs(StopPlan),
    /// Ask the disk and the encoder about a recording in this directory.
    RecordStart(String),
    /// Wait for the session, where there is one.
    RecordStop(bool),
    /// Read the package's stream output.
    StreamStart,
    /// Close the session, where there is one.
    StreamStop(bool),
}

/// The engine once a directive is acknowledged.
pub open spec fn acked(e: EngineView, version: u64) -> EngineView {
    EngineView {
        last_applied: version,
        outgoing: e.outgoing.push(
            EngineFrameView::AppliedStateVersion { state_version: version },
        ),
        ..e
    }
}

/// The clock's state once a directive has set it.
pub open spec fn clock_then(e: EngineView, d: DirectiveView) -> ClockState {
    if kind_of(d.command) is Resync {
        snapshot_clock(d)
    } else {
        e.clock.state()
    }
}

/// What a directive does that needs nothing from outside, at a moment and at a
/// frame: the engine after it, and its outcome.
pub open spec fn effect_of(
    e: EngineView,
    d: DirectiveView,
    at: Instant,
    master: Option<u64>,
) -> (EngineView, Result<(), ErrorView>) {
    match kind_of(d.command) {
        Command::ShowStart => (show_begun(e, at), Ok(())),
        Command::Take => (taken(e, d, master), Ok(())),
        Command::Fallback => (EngineView { fallback_active: true, view_item: None, ..e }, Ok(())),
        Command::Overlay => (overlaid(e, d, master), Ok(())),
        Command::Audio => match command_of(d) {
            Ok(c) => (EngineView { audio_commands: e.audio_commands.push(c), ..e }, Ok(())),
            Err(x) => (e, Err(x)),
        },
        Command::Marker => (marked(e, d, master), marker_verdict(e, d)),
        Command::Resync => (resynced(clock_resynced(e, d, at), d, master), Ok(())),
        _ => (e, Ok(())),
    }
}

/// Whether a directive needs nothing from outside.
pub open spec fn at_once(k: Command) -> bool {
    !(k is ShowLoad || k is ShowStop || k is RecordStart || k is RecordStop || k is StreamStart
        || k is StreamStop)
}

impl DirectiveHandler {
    fn perform(&mut self, d: &DirectiveFrame, kind: Command) -> (r: Result<
        Option<EndTimer>,
        DirectiveError,
    >)
        requires
            old(self).wf(),
            kind == kind_of(d@.command),
            at_once(kind),
        ensures
            final(self).wf(),
            exists|at: Instant, master: Option<u64>|
                (master is Some <==> clock_then(old(self)@, d@) is Running) && final(self)@
                    == (#[trigger] effect_of(old(self)@, d@, at, master)).0 && match r {
                    Ok(t) => effect_of(old(self)@, d@, at, master).1 is Ok && if kind is Take {
                        timer_matches(old(self)@, d@, t)
                    } else {
                        t is None
                    },
                    Err(e) => effect_of(old(self)@, d@, at, master).1 == Err::<(), ErrorView>(e@),
                },
    {
        let ghost start = self@;
        let ghost at: Instant = arbitrary();
        match kind {
            Command::ShowStart => {
                self.on_show_start();
                proof {
                    let at = choose|at: Instant| self@ == #[trigger] show_begun(start, at);
                    lemma_some_frame(clock_then(start, d@));
                    let m = choose|m: Option<u64>| frame_fits(m, clock_then(start, d@));
                    assert(self@ == effect_of(start, d@, at, m).0);
                }
                Ok(None)
            },
            Command::Take => {
                let t: Option<EndTimer> = self.on_take(d);
                proof {
                    let m = choose|m: Option<u64>|
                        (m is Some <==> start.clock.state() is Running) && self@ == #[trigger] taken(
                            start,
                            d@,
                            m,
                        );
                    assert(self@ == effect_of(start, d@, at, m).0);
                }
                Ok(t)
            },
            Command::Fallback => {
                self.on_fallback();
                proof {
                    lemma_some_frame(clock_then(start, d@));
                    let m = choose|m: Option<u64>| frame_fits(m, clock_then(start, d@));
                    assert(self@ == effect_of(start, d@, at, m).0);
                }
                Ok(None)
            },
            Command::Overlay => {
                self.on_overlay(d);
                proof {
                    let m = choose|m: Option<u64>|
                        (m is Some <==> start.clock.state() is Running) && self@
                            == #[trigger] overlaid(start, d@, m);
                    assert(self@ == effect_of(start, d@, at, m).0);
                }
                Ok(None)
            },
            Command::Audio => {
                let r: Result<(), DirectiveError> = self.on_audio(d);
                proof {
                    lemma_some_frame(clock_then(start, d@));
                    let m = choose|m: Option<u64>| frame_fits(m, clock_then(start, d@));
                    assert(self@ == effect_of(start, d@, at, m).0);
                }
                match r {
                    Ok(()) => Ok(None),
                    Err(e) => Err(e),
                }
            },
            Command::Marker => {
                let r: Result<(), DirectiveError> = self.on_marker_add(d);
                proof {
                    let m = choose|m: Option<u64>|
                        (m is Some <==> start.clock.state() is Running) && self@ == #[trigger] marked(
                            start,
                            d@,
                            m,
                        );
                    assert(self@ == effect_of(start, d@, at, m).0);
                }
                match r {
                    Ok(()) => Ok(None),
                    Err(e) => Err(e),
                }
            },
            Command::Resync => {
                self.on_resync(d);
                proof {
                    let (at, m) = choose|at: Instant, m: Option<u64>|
                        (m is Some <==> snapshot_clock(d@) is Running) && self@
                            == #[trigger] resynced(clock_resynced(start, d@, at), d@, m);
                    assert(self@ == effect_of(start, d@, at, m).0);
                }
                Ok(None)
            },
            _ => {
                proof {
                    lemma_some_frame(clock_then(start, d@));
                    let m = choose|m: Option<u64>| frame_fits(m, clock_then(start, d@));
                    assert(self@ == effect_of(start, d@, at, m).0);
                }
                Ok(None)
            },
        }
    }

    /// Apply a directive, as far as that needs nothing from outside. One that is
    /// done is acknowledged; one that fails is not.
    pub fn apply(&mut self, d: &DirectiveFrame) -> (r: Result<Step, DirectiveError>)
        requires
            old(self).wf(),
        ensures
            final(self).wf(),
            match kind_of(d@.command) {
                Command::ShowLoad => r matches Ok(Step::Load) && final(self)@ == old(self)@,
                Command::StreamStart => r matches Ok(Step::StreamStart) && final(self)@ == old(self)@,
                Command::ShowStop => match stop_plan(old(self)@, d@) {
                    Ok(StopPlan::Quiesce { record, stream }) => r matches Ok(Step::StopOutputs(p))
                        && p == (StopPlan::Quiesce { record, stream }) && final(self)@
                        == stop_begun(old(self)@, d@),
                    Ok(plan) => r matches Ok(Step::Stopped(p)) && p == plan && final(self)@
                        == acked(stop_begun(old(self)@, d@), d@.state_version),
                    Err(x) => r matches Err(e) && e@ == x && final(self)@ == old(self)@,
                },
                Command::RecordStart => final(self)@ == record_asked(old(self)@)
                    && match record_admission(old(self)@) {
                    Ok(dir) => r matches Ok(Step::RecordStart(s)) && s@ == dir,
                    Err(x) => r matches Err(e) && e@ == x,
                },
                Command::RecordStop => if old(self)@.record_state is Recording {
                    r matches Ok(Step::RecordStop(b)) && b == old(self)@.record_session && final(self)@ == record_stopping(old(self)@)
                } else {
                    r matches Err(e) && e@ == ErrorView::ForbiddenState(
                        "record.stop requires an active recording"@,
                    ) && final(self)@ == old(self)@
                },
                Command::StreamStop => if old(self)@.stream_state is Live {
                    r matches Ok(Step::StreamStop(b)) && b == old(self)@.stream_session && final(self)@ == (EngineView { stream_session: false, ..old(self)@ })
                } else {
                    r matches Err(e) && e@ == ErrorView::ForbiddenState(
                        "stream.stop requires a live stream"@,
                    ) && final(self)@ == old(self)@
                },
                _ => exists|at: Instant, master: Option<u64>|
                    (master is Some <==> clock_then(old(self)@, d@) is Running) && ({
                        let done = #[trigger] effect_of(old(self)@, d@, at, master);
                        match done.1 {
                            Ok(()) => r matches Ok(Step::Done(t)) && final(self)@ == acked(
                                done.0,
                                d@.state_version,
                            ) && (if kind_of(d@.command) is Take {
                                timer_matches(old(self)@, d@, t)
                            } else {
                                t is None
                            }),
                            Err(x) => r matches Err(e) && e@ == x && final(self)@ == done.0,
                        }
                    }),
            },
    {
        let kind: Command = command_kind(d.command.as_str());
        match kind {
            Command::ShowLoad => Ok(Step::Load),
            Command::StreamStart => Ok(Step::StreamStart),
            Command::ShowStop => {
                let plan: StopPlan = match self.on_show_stop(d) {
                    Ok(p) => p,
                    Err(e) => return Err(e),
                };
                match plan {
                    StopPlan::Quiesce { .. } => Ok(Step::StopOutputs(plan)),
                    _ => {
                        self.applied(d.state_version);
                        Ok(Step::Stopped(plan))
                    },
                }
            },
            Command::RecordStart => match self.on_record_start() {
                Ok(dir) => Ok(Step::RecordStart(dir)),
                Err(e) => Err(e),
            },
            Command::RecordStop => match self.on_record_stop() {
                Ok(owned) => Ok(Step::RecordStop(owned)),
                Err(e) => Err(e),
            },
            Command::StreamStop => match self.on_stream_stop() {
                Ok(owned) => Ok(Step::StreamStop(owned)),
                Err(e) => Err(e),
            },
            _ => {
                let ghost start = self@;
                let timer: Option<EndTimer> = match self.perform(d, kind) {
                    Ok(t) => t,
                    Err(e) => return Err(e),
                };
                self.applied(d.state_version);
                Ok(Step::Done(timer))
            },
        }
    }
}

/// Whether there is a frame just where the clock runs.
spec fn frame_fits(m: Option<u64>, s: ClockState) -> bool {
    m is Some <==> s is Running
}

proof fn lemma_some_frame(s: ClockState)
    ensures
        exists|m: Option<u64>| frame_fits(m, s),
{
    let m: Option<u64> = if s is Running {
        Some(0)
    } else {
        None
    };
    assert(frame_fits(m, s));
}

/// A directive that fails at once is not acknowledged, and leaves the version
/// as it was.
pub proof fn law_failures_are_not_acknowledged(
    e: EngineView,
    d: DirectiveView,
    at: Instant,
    master: Option<u64>,
)
    requires
        effect_of(e, d, at, master).1 is Err,
    ensures
        effect_of(e, d, at, master).0.outgoing == e.outgoing,
        effect_of(e, d, at, master).0.last_applied == e.last_applied,
{
}

/// A show that has stopped holds no transition, whatever came of its outputs.
pub proof fn law_a_stopped_show_holds_no_transition(e: EngineView)
    ensures
        show_over(e).transition is None,
        show_over(e).clock.state() is Stopped,
{
}

/// Told neither to end its outputs nor to force them, a show with outputs goes
/// on as it is.
pub proof fn law_a_refused_stop_changes_nothing(e: EngineView, d: DirectiveView)
    requires
        stop_plan(e, d) is Err,
    ensures
        stop_begun(e, d) == e,
        record_active(e) || stream_active(e),
{
}

/// A show that stops leaves no output running behind it.
pub proof fn law_a_stopped_show_has_no_outputs(e: EngineView, d: DirectiveView)
    requires
        stop_plan(e, d) matches Ok(p) && !(p is Quiesce),
    ensures
        !record_active(stop_begun(e, d)),
        !stream_active(stop_begun(e, d)),
{
}

} // verus!

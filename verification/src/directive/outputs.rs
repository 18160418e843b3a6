//! Recordings and streams: when they start, when they stop, and what a show
//! that stops does with them.


use crate::directive::engine::{
    forbidden, invalid, DirectiveHandler, EngineView, RecordState, StreamState,
};
use crate::directive::take::text_in;
use crate::directive::{
    check_record_resolution, finish_err, finish_err_of, outcome, resolve_stream_url, session_err,
    session_err_of, stream_err, stream_target, timestamp_of, DirectiveError, ErrorView,
};
use crate::json::{Json, JsonView};
use crate::manifest::{StreamOutput, TapPathPreference};
use crate::protocol::{DirectiveFrame, DirectiveView};
use crate::record::feed::{chain_loss, loss_text};
use crate::record::session::SessionError;
use crate::record::stream::{kbps_to_bps, StreamError, StreamParams};
use crate::record::tap_path::{
    select_stream, select_with_override, with_override, Consumer, Selection, TapPath,
};
use crate::record::thread::{ControlMsg, DriveStep};
use crate::record::RecordError;
use crate::render::{VIEW_H, VIEW_W};
use crate::scene::opt_text;
use vstd::prelude::*;
use vstd::string::*;

verus! {

/// The path a package asks for: only a restriction to memory says anything.
pub open spec fn override_of(p: Option<TapPathPreference>) -> Option<TapPath> {
    match p {
        Some(TapPathPreference::CpuReadback) => Some(TapPath::CpuReadback),
        _ => None,
    }
}

/// The path a package asks for.
pub fn tap_override(p: Option<TapPathPreference>) -> (r: Option<TapPath>)
    ensures
        r == override_of(p),
{
    match p {
        Some(TapPathPreference::CpuReadback) => Some(TapPath::CpuReadback),
        _ => None,
    }
}

/// The name a package gives its show: the title, else the id, unless that is
/// empty.
pub open spec fn show_name_of(manifest: Option<JsonView>) -> Seq<char> {
    let name = match manifest {
        Some(m) => match text_in(m, "show"@, "title"@) {
            Some(t) => Some(t),
            None => text_in(m, "show"@, "id"@),
        },
        None => None,
    };
    match name {
        Some(n) => if n.len() > 0 {
            n
        } else {
            "show"@
        },
        None => "show"@,
    }
}

/// The name a package gives its show.
pub fn record_show_name(manifest: Option<&Json>) -> (s: String)
    ensures
        s@ == show_name_of(
            match manifest {
                Some(m) => Some(m@),
                None => None,
            },
        ),
{
    match manifest {
        Some(m) => match m.get("show") {
            Some(show) => {
                let name: Option<&str> = match show.str_at("title") {
                    Some(t) => Some(t),
                    None => show.str_at("id"),
                };
                match name {
                    Some(n) => if n.is_empty() {
                        "show".to_owned()
                    } else {
                        n.to_owned()
                    },
                    None => "show".to_owned(),
                }
            },
            None => "show".to_owned(),
        },
        None => "show".to_owned(),
    }
}

/// Whether a recording may start, as far as the engine's own state says; where
/// it would go.
pub open spec fn record_admission(e: EngineView) -> Result<Seq<char>, ErrorView> {
    if !(e.clock.state() is Running) {
        Err(ErrorView::ForbiddenState("record.start requires a running show"@))
    } else if e.record_state is Recording {
        Err(ErrorView::ForbiddenState("record.start while already recording"@))
    } else {
        match e.record_dir {
            Some(dir) => Ok(dir),
            None => Err(
                ErrorView::Invalid(
                    "record.start: no record directory (show.outputs.record.directory not configured)"@,
                ),
            ),
        }
    }
}

/// The engine once a recording was asked for: while the show runs the markers
/// of an earlier take are gone, whatever comes of it.
pub open spec fn record_asked(e: EngineView) -> EngineView {
    if e.clock.state() is Running {
        EngineView { markers: Seq::empty(), ..e }
    } else {
        e
    }
}

/// What a take is opened with.
#[derive(Debug)]
pub struct TakePlan {
    pub show: String,
    pub episode: String,
    pub start_timestamp: String,
    pub width: u32,
    pub height: u32,
    pub fps: u32,
}

/// A take's plan, as contracts speak of it.
pub struct PlanView {
    pub show: Seq<char>,
    pub episode: Seq<char>,
    pub start_timestamp: Seq<char>,
    pub width: u32,
    pub height: u32,
    pub fps: u32,
}

impl View for TakePlan {
    type V = PlanView;

    open spec fn view(&self) -> PlanView {
        PlanView {
            show: self.show@,
            episode: self.episode@,
            start_timestamp: self.start_timestamp@,
            width: self.width,
            height: self.height,
            fps: self.fps,
        }
    }
}

/// The plan of a take: the picture on air, at the house rate.
pub open spec fn plan_of(
    e: EngineView,
    d: DirectiveView,
    manifest: Option<JsonView>,
    millis: u64,
) -> PlanView {
    PlanView {
        show: show_name_of(manifest),
        episode: match d.payload.text_at("outputId"@) {
            Some(id) => if id.len() > 0 {
                id
            } else {
                "episode"@
            },
            None => "episode"@,
        },
        start_timestamp: timestamp_of(millis, e.takes),
        width: VIEW_W,
        height: VIEW_H,
        fps: e.clock.house_rate,
    }
}

/// What the machine says of a take before it is opened: why the disk refuses
/// it, or else whether there is an encoder.
pub open spec fn probes_verdict(probes: Result<bool, RecordError>) -> Result<(), ErrorView> {
    match probes {
        Err(e) => Err(finish_err_of(e)),
        Ok(encoder) => if encoder {
            Ok(())
        } else {
            Err(
                ErrorView::NoHardwareEncoder(
                    "record.start: no hardware H.264 encoder available"@,
                ),
            )
        },
    }
}

/// The path of a take: one that is restricted to memory uses no surfaces.
pub open spec fn take_path(pool: bool, tap: Option<TapPath>) -> Selection {
    with_override(pool && tap != Some(TapPath::CpuReadback), tap)
}

/// The engine once a take is open.
pub open spec fn recording(e: EngineView, selection: Selection) -> EngineView {
    EngineView {
        record_tap_selection: Some(selection),
        skipped_record_frames: 0,
        record_tap: true,
        record_session: true,
        record_state: RecordState::Recording,
        ..e
    }
}

/// The engine once a take was asked to stop.
pub open spec fn record_stopping(e: EngineView) -> EngineView {
    EngineView { record_tap: false, record_session: false, ..e }
}

/// The engine once a take has ended. Only who owned the session clears the
/// markers, and not after a timeout: the take that ends late still writes them.
pub open spec fn record_ended(e: EngineView, ended: Option<Result<(), SessionError>>) -> EngineView {
    EngineView {
        record_state: RecordState::Idle,
        markers: match ended {
            None => e.markers,
            Some(Err(SessionError::Timeout(_))) => e.markers,
            Some(_) => Seq::empty(),
        },
        ..e
    }
}

/// The outcome of a take that has ended.
pub open spec fn end_outcome(ended: Option<Result<(), SessionError>>) -> Result<(), ErrorView> {
    match ended {
        None => Ok(()),
        Some(Ok(())) => Ok(()),
        Some(Err(e)) => Err(session_err_of(e)),
    }
}

impl DirectiveHandler {
    /// A recording is asked for: whether it may start, and where it would go.
    /// The disk and the encoder are asked next.
    pub fn on_record_start(&mut self) -> (r: Result<String, DirectiveError>)
        requires
            old(self).wf(),
        ensures
            final(self).wf(),
            final(self)@ == record_asked(old(self)@),
            match r {
                Ok(dir) => record_admission(old(self)@) == Ok::<Seq<char>, ErrorView>(dir@),
                Err(e) => record_admission(old(self)@) == Err::<Seq<char>, ErrorView>(e@),
            },
    {
        if !self.is_running() {
            return Err(forbidden("record.start requires a running show"));
        }
        self.markers.clear();
        match self.record_state {
            RecordState::Recording => {
                return Err(forbidden("record.start while already recording"));
            },
            RecordState::Idle => {},
        }
        let dir: String = match &self.record_dir {
            Some(d) => d.as_str().to_owned(),
            None => {
                return Err(
                    invalid(
                        "record.start: no record directory (show.outputs.record.directory not configured)",
                    ),
                );
            },
        };
        match check_record_resolution(VIEW_W, VIEW_H) {
            Ok(()) => Ok(dir),
            Err(e) => Err(e),
        }
    }

    /// The disk and the encoder have answered: what the take is opened with.
    pub fn record_probed(
        &mut self,
        d: &DirectiveFrame,
        probes: Result<bool, RecordError>,
        manifest: Option<&Json>,
        millis: u64,
    ) -> (r: Result<TakePlan, DirectiveError>)
        requires
            old(self).wf(),
        ensures
            final(self).wf(),
            match r {
                Ok(plan) => {
                    &&& probes_verdict(probes) is Ok
                    &&& plan@ == plan_of(
                        old(self)@,
                        d@,
                        match manifest {
                            Some(m) => Some(m@),
                            None => None,
                        },
                        millis,
                    )
                    &&& final(self)@ == (EngineView {
                        takes: old(self)@.takes.wrapping_add(1),
                        ..old(self)@
                    })
                },
                Err(e) => probes_verdict(probes) == Err::<(), ErrorView>(e@) && final(self)@ == old(
                    self,
                )@,
            },
    {
        match probes {
            Err(e) => return Err(finish_err(e)),
            Ok(encoder) => {
                if !encoder {
                    return Err(
                        DirectiveError::NoHardwareEncoder(
                            "record.start: no hardware H.264 encoder available".to_owned(),
                        ),
                    );
                }
            },
        }
        let episode: String = match d.payload.str_at("outputId") {
            Some(id) => if id.is_empty() {
                "episode".to_owned()
            } else {
                id.to_owned()
            },
            None => "episode".to_owned(),
        };
        let show: String = record_show_name(manifest);
        let start_timestamp: String = self.takes.default_timestamp(millis);
        Ok(
            TakePlan {
                show,
                episode,
                start_timestamp,
                width: VIEW_W,
                height: VIEW_H,
                fps: self.clock.house_rate(),
            },
        )
    }

    /// The session was opened, or not. `pool` says whether the machine gave
    /// shared surfaces.
    pub fn record_opened(
        &mut self,
        opened: Result<(), RecordError>,
        pool: bool,
        tap: Option<TapPath>,
    ) -> (r: Result<Selection, DirectiveError>)
        requires
            old(self).wf(),
        ensures
            final(self).wf(),
            match opened {
                Ok(()) => r == Ok::<Selection, DirectiveError>(take_path(pool, tap)) && final(self)@
                    == recording(old(self)@, take_path(pool, tap)),
                Err(e) => (r matches Err(x) && x@ == finish_err_of(e)) && final(self)@ == old(
                    self,
                )@,
            },
    {
        match opened {
            Ok(()) => {},
            Err(e) => return Err(finish_err(e)),
        }
        let restricted: bool = match tap {
            Some(TapPath::CpuReadback) => true,
            _ => false,
        };
        let selection: Selection = select_with_override(
            pool && !restricted,
            VIEW_H,
            Consumer::Record,
            tap,
        );
        self.record_tap_selection = Some(selection);
        self.skipped_record_frames = 0;
        self.record_tap = true;
        self.record_session = true;
        self.record_state = RecordState::Recording;
        Ok(selection)
    }

    /// A recording is to stop: whether there is a session to wait for.
    pub fn on_record_stop(&mut self) -> (r: Result<bool, DirectiveError>)
        requires
            old(self).wf(),
        ensures
            final(self).wf(),
            if old(self)@.record_state is Recording {
                r == Ok::<bool, DirectiveError>(old(self)@.record_session) && final(self)@
                    == record_stopping(old(self)@)
            } else {
                (r matches Err(e) && e@ == ErrorView::ForbiddenState(
                    "record.stop requires an active recording"@,
                )) && final(self)@ == old(self)@
            },
    {
        match self.record_state {
            RecordState::Recording => {},
            RecordState::Idle => {
                return Err(forbidden("record.stop requires an active recording"));
            },
        }
        self.record_tap = false;
        let owned: bool = self.record_session;
        self.record_session = false;
        Ok(owned)
    }

    /// The recording has stopped: how its session ended, if there was one.
    pub fn record_stopped(&mut self, ended: Option<Result<(), SessionError>>) -> (r: Result<
        (),
        DirectiveError,
    >)
        requires
            old(self).wf(),
        ensures
            final(self).wf(),
            final(self)@ == record_ended(old(self)@, ended),
            outcome(r) == end_outcome(ended),
    {
        self.record_state = RecordState::Idle;
        match ended {
            None => Ok(()),
            Some(Ok(())) => {
                self.markers.clear();
                Ok(())
            },
            Some(Err(e)) => {
                match &e {
                    SessionError::Timeout(_) => {},
                    _ => self.markers.clear(),
                }
                Err(session_err(e))
            },
        }
    }
}

/// The engine once a take has lost its surfaces: the file is left as it is, and
/// the markers go with the take.
pub open spec fn take_lost(e: EngineView) -> EngineView {
    EngineView {
        record_tap: false,
        record_session: false,
        record_state: RecordState::Idle,
        markers: if e.record_session {
            Seq::empty()
        } else {
            e.markers
        },
        ..e
    }
}

/// The engine once the thread of a take has come to its end: a take that was
/// finished or given up takes its markers along, whenever that was; one that was
/// dropped without a word leaves them.
pub open spec fn thread_ended(e: EngineView, step: DriveStep) -> EngineView {
    match step {
        DriveStep::Finish | DriveStep::GiveUp => EngineView { markers: Seq::empty(), ..e },
        _ => e,
    }
}

impl DirectiveHandler {
    /// A take has lost its surfaces: it ends, and is told under its token. The
    /// path it was on is still told, because it was the path it was on. The
    /// second part is what its session is told, if it has one: to leave the file
    /// as it is, never to finish it.
    pub fn end_take_on_chain_loss(&mut self, cause: &str) -> (r: (String, Option<ControlMsg>))
        requires
            old(self).wf(),
        ensures
            final(self).wf(),
            r.0@ == loss_text(cause@),
            r.1 == (if old(self)@.record_session {
                Some(ControlMsg::Abandon)
            } else {
                None
            }),
            final(self)@ == take_lost(old(self)@),
    {
        let word: Option<ControlMsg> = if self.record_session {
            Some(ControlMsg::Abandon)
        } else {
            None
        };
        self.record_tap = false;
        self.record_session = false;
        self.record_state = RecordState::Idle;
        if word.is_some() {
            self.markers.clear();
        }
        (chain_loss(cause), word)
    }

    /// The thread of a take has done its last step. A finish that comes after
    /// the stop has stopped waiting for it ends the take all the same.
    pub fn take_ended(&mut self, step: DriveStep)
        requires
            old(self).wf(),
        ensures
            final(self).wf(),
            final(self)@ == thread_ended(old(self)@, step),
    {
        match step {
            DriveStep::Finish | DriveStep::GiveUp => {
                self.markers.clear();
            },
            _ => {},
        }
    }
}

/// The url a stream command gives: silence is lawful, anything but a text is
/// not.
pub open spec fn command_url(d: DirectiveView) -> Result<Option<Seq<char>>, ErrorView> {
    match d.payload.member("url"@) {
        None => Ok(None),
        Some(JsonView::Null) => Ok(None),
        Some(JsonView::Text(s)) => Ok(Some(s)),
        Some(_) => Err(ErrorView::Invalid("E_BAD_PAYLOAD: stream.start url must be a string"@)),
    }
}

/// What is said of a stream that is restricted to memory.
pub open spec fn readback_refusal() -> ErrorView {
    ErrorView::Invalid(
        "E_NO_ZEROCOPY: "@
            + "stream.start refused: cpuReadback tapPath is unlawful for streaming; streaming shares frames with the encoder without CPU readback"@,
    )
}

/// What is said of a stream on a machine without shared surfaces.
pub open spec fn chain_refusal() -> ErrorView {
    ErrorView::Invalid(
        "E_NO_ZEROCOPY: "@
            + "stream.start refused: machine has no zero-copy chain; streaming shares frames with the encoder without CPU readback"@,
    )
}

/// The url of a package's stream.
pub open spec fn output_url(output: Option<StreamOutput>) -> Option<Seq<char>> {
    match output {
        Some(o) => opt_text(o.url),
        None => None,
    }
}

/// The path a package asks for its stream.
pub open spec fn output_tap(output: Option<StreamOutput>) -> Option<TapPath> {
    match output {
        Some(o) => override_of(o.tap_path),
        None => None,
    }
}

/// Whether a stream may start, as far as the engine and the package say; where
/// it would go. These refusals are the same on every machine.
pub open spec fn stream_admission(
    e: EngineView,
    d: DirectiveView,
    output: Option<StreamOutput>,
) -> Result<Seq<char>, ErrorView> {
    if !(e.clock.state() is Running) {
        Err(ErrorView::ForbiddenState("stream.start requires a running show"@))
    } else if e.stream_state is Live {
        Err(ErrorView::ForbiddenState("stream.start while already live"@))
    } else {
        match command_url(d) {
            Err(x) => Err(x),
            Ok(url) => match stream_target(output_url(output), url) {
                Err(x) => Err(x),
                Ok(endpoint) => if output_tap(output) == Some(TapPath::CpuReadback) {
                    Err(readback_refusal())
                } else {
                    Ok(endpoint)
                },
            },
        }
    }
}

/// Whether a stream starts, on a machine with or without shared surfaces and an
/// encoder.
pub open spec fn stream_verdict(
    e: EngineView,
    d: DirectiveView,
    output: Option<StreamOutput>,
    chain: bool,
    encoder: bool,
) -> Result<Seq<char>, ErrorView> {
    match stream_admission(e, d, output) {
        Err(x) => Err(x),
        Ok(endpoint) => match machine_verdict(chain, encoder) {
            Err(x) => Err(x),
            Ok(()) => Ok(endpoint),
        },
    }
}

/// What the machine says of a stream: surfaces first, then the encoder.
pub open spec fn machine_verdict(chain: bool, encoder: bool) -> Result<(), ErrorView> {
    if !chain {
        Err(chain_refusal())
    } else if !encoder {
        Err(ErrorView::NoHardwareEncoder("stream.start: no hardware H.264 encoder available"@))
    } else {
        Ok(())
    }
}

/// The engine once a stream is live.
pub open spec fn streaming(e: EngineView, selection: Selection) -> EngineView {
    EngineView {
        stream_tap_selection: Some(selection),
        skipped_stream_frames: 0,
        stream_tap: true,
        stream_session: true,
        stream_state: StreamState::Live,
        ..e
    }
}

/// The engine once a stream is over.
pub open spec fn stream_over(e: EngineView) -> EngineView {
    EngineView {
        stream_state: StreamState::Idle,
        stream_session: false,
        stream_tap_selection: None,
        stream_tap: false,
        ..e
    }
}

/// A stream's error, as contracts speak of it.
pub open spec fn close_outcome(closed: Option<Result<(), StreamError>>) -> Result<(), ErrorView> {
    match closed {
        Some(Err(e)) => Err(ErrorView::Invalid(e.text())),
        _ => Ok(()),
    }
}

/// What a stream is encoded at: the picture on air, at the house rate, with the
/// bitrates the package declares.
pub open spec fn stream_params(house_rate: u32, output: Option<StreamOutput>) -> StreamParams {
    StreamParams {
        width: VIEW_W,
        height: VIEW_H,
        fps: if house_rate == 0 {
            1
        } else {
            house_rate
        },
        video_bitrate_bps: match output {
            Some(o) => match o.video_bitrate_kbps {
                Some(kbps) => kbps_to_bps(kbps),
                None => 8_000_000,
            },
            None => 8_000_000,
        },
        audio_bitrate_bps: match output {
            Some(o) => match o.audio_bitrate_kbps {
                Some(kbps) => kbps_to_bps(kbps),
                None => 192_000,
            },
            None => 192_000,
        },
    }
}

impl DirectiveHandler {
    /// A stream is asked for: whether it may start, and where it would go. The
    /// machine is asked next, surfaces first.
    pub fn on_stream_start(&self, d: &DirectiveFrame, output: &Option<StreamOutput>) -> (r: Result<
        String,
        DirectiveError,
    >)
        requires
            self.wf(),
        ensures
            match r {
                Ok(endpoint) => stream_admission(self@, d@, *output) == Ok::<Seq<char>, ErrorView>(
                    endpoint@,
                ),
                Err(e) => stream_admission(self@, d@, *output) == Err::<Seq<char>, ErrorView>(e@),
            },
    {
        if !self.is_running() {
            return Err(forbidden("stream.start requires a running show"));
        }
        match self.stream_state {
            StreamState::Live => return Err(forbidden("stream.start while already live")),
            StreamState::Idle => {},
        }
        let url: Option<&str> = match d.payload.get("url") {
            None => None,
            Some(Json::Null) => None,
            Some(Json::Text(s)) => Some(s.as_str()),
            Some(_) => {
                return Err(invalid("E_BAD_PAYLOAD: stream.start url must be a string"));
            },
        };
        let manifest_url: Option<&str> = match output {
            Some(o) => match &o.url {
                Some(u) => Some(u.as_str()),
                None => None,
            },
            None => None,
        };
        let endpoint: String = match resolve_stream_url(manifest_url, url) {
            Ok(u) => u,
            Err(e) => return Err(e),
        };
        let restricted: bool = match output {
            Some(o) => match tap_override(o.tap_path) {
                Some(TapPath::CpuReadback) => true,
                _ => false,
            },
            None => false,
        };
        if restricted {
            return Err(
                stream_err(
                    StreamError::NoChain(
                        "stream.start refused: cpuReadback tapPath is unlawful for streaming; streaming shares frames with the encoder without CPU readback".to_owned(),
                    ),
                ),
            );
        }
        Ok(endpoint)
    }

    /// The machine gave shared surfaces, or not: without them a stream has no
    /// lawful path, and is not read back instead.
    pub fn stream_chain(capable: bool) -> (r: Result<(), DirectiveError>)
        ensures
            outcome(r) == if capable {
                Ok(())
            } else {
                Err(chain_refusal())
            },
    {
        match select_stream(capable) {
            Some(_) => Ok(()),
            None => Err(
                stream_err(
                    StreamError::NoChain(
                        "stream.start refused: machine has no zero-copy chain; streaming shares frames with the encoder without CPU readback".to_owned(),
                    ),
                ),
            ),
        }
    }

    /// The surfaces are there, and the encoder has answered: the stream goes
    /// live on shared surfaces, at the picture and the rate of the show.
    pub fn stream_opened(&mut self, encoder: bool, output: &Option<StreamOutput>) -> (r: Result<
        (Selection, StreamParams),
        DirectiveError,
    >)
        requires
            old(self).wf(),
            output_tap(*output) is None,
        ensures
            final(self).wf(),
            match r {
                Ok((selection, params)) => {
                    &&& machine_verdict(true, encoder) is Ok
                    &&& selection == with_override(true, None)
                    &&& params == stream_params(old(self)@.clock.house_rate, *output)
                    &&& final(self)@ == streaming(old(self)@, selection)
                },
                Err(e) => machine_verdict(true, encoder) == Err::<(), ErrorView>(e@) && final(self)@
                    == old(self)@,
            },
    {
        if !encoder {
            return Err(
                DirectiveError::NoHardwareEncoder(
                    "stream.start: no hardware H.264 encoder available".to_owned(),
                ),
            );
        }
        let selection: Selection = select_with_override(true, VIEW_H, Consumer::Stream, None);
        self.stream_tap_selection = Some(selection);
        self.skipped_stream_frames = 0;
        let params: StreamParams = StreamParams::new(
            VIEW_W,
            VIEW_H,
            self.clock.house_rate(),
        ).with_output(
            match output {
                Some(o) => Some(o),
                None => None,
            },
        );
        self.stream_tap = true;
        self.stream_session = true;
        self.stream_state = StreamState::Live;
        Ok((selection, params))
    }

    /// A stream is to stop: whether there is a session to close.
    pub fn on_stream_stop(&mut self) -> (r: Result<bool, DirectiveError>)
        requires
            old(self).wf(),
        ensures
            final(self).wf(),
            if old(self)@.stream_state is Live {
                r == Ok::<bool, DirectiveError>(old(self)@.stream_session) && final(self)@ == (
                EngineView { stream_session: false, ..old(self)@ })
            } else {
                (r matches Err(e) && e@ == ErrorView::ForbiddenState(
                    "stream.stop requires a live stream"@,
                )) && final(self)@ == old(self)@
            },
    {
        match self.stream_state {
            StreamState::Live => {},
            StreamState::Idle => return Err(forbidden("stream.stop requires a live stream")),
        }
        let owned: bool = self.stream_session;
        self.stream_session = false;
        Ok(owned)
    }

    /// The stream has stopped: how its session closed, if there was one.
    pub fn stream_stopped(&mut self, closed: Option<Result<(), StreamError>>) -> (r: Result<
        (),
        DirectiveError,
    >)
        requires
            old(self).wf(),
        ensures
            final(self).wf(),
            final(self)@ == stream_over(old(self)@),
            outcome(r) == close_outcome(closed),
    {
        self.stream_state = StreamState::Idle;
        self.stream_session = false;
        self.stream_tap_selection = None;
        self.stream_tap = false;
        match closed {
            Some(Err(e)) => Err(stream_err(e)),
            _ => Ok(()),
        }
    }
}

/// A stream that is refused is refused by the configuration first, whatever the
/// machine has; then for want of surfaces; and only last for want of an
/// encoder.
pub proof fn law_streams_are_refused_in_order(
    e: EngineView,
    d: DirectiveView,
    output: Option<StreamOutput>,
    chain: bool,
    encoder: bool,
)
    ensures
        stream_admission(e, d, output) is Err ==> stream_verdict(e, d, output, chain, encoder)
            == stream_admission(e, d, output),
        stream_admission(e, d, output) is Ok && !chain ==> stream_verdict(
            e,
            d,
            output,
            chain,
            encoder,
        ) == Err::<Seq<char>, ErrorView>(chain_refusal()),
        stream_verdict(e, d, output, chain, encoder) is Ok <==> stream_admission(e, d, output) is Ok
            && chain && encoder,
{
}

/// A recording that runs is never taken over by another: the second start is
/// refused, and only the markers are reset.
pub proof fn law_a_running_take_is_kept(e: EngineView)
    requires
        e.record_state is Recording,
        e.clock.state() is Running,
    ensures
        record_admission(e) == Err::<Seq<char>, ErrorView>(
            ErrorView::ForbiddenState("record.start while already recording"@),
        ),
        record_asked(e) == (EngineView { markers: Seq::empty(), ..e }),
{
}

/// A take whose session someone else has taken ends with its markers kept.
pub proof fn law_only_the_owner_clears_markers(e: EngineView)
    ensures
        record_ended(e, None).markers == e.markers,
        end_outcome(None) is Ok,
{
}

} // verus!

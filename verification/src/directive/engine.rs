//! The state of the engine that directives change.

use crate::audio_control::{command_views, AudioCommand, CommandView};
use crate::clock::{ClockState, ClockView, MasterClock};
use crate::directive::{DirectiveError, ErrorView, PlaybackTracker, Timestamps};
use crate::manifest::QualityProfile;
use crate::protocol::{frame_views, EngineFrame, EngineFrameView};
use crate::record::markers::{MarkerStore, MarkerView};
use crate::record::tap_path::Selection;
use crate::scene::transition::{transition_view, Transition, TransitionView};
use crate::scene::{opt_text, texts, IndexView, PackageIndex};
use crate::strmap::StrMap;
use vstd::prelude::*;

verus! {

/// Whether a recording runs.
#[derive(Debug, Clone, Copy, PartialEq, Eq, Structural)]
pub enum RecordState {
    Idle,
    Recording,
}

/// Whether a stream runs.
#[derive(Debug, Clone, Copy, PartialEq, Eq, Structural)]
pub enum StreamState {
    Idle,
    Live,
}

/// Where an overlay's animation is.
#[derive(Debug, Clone, Copy, PartialEq, Eq, Structural)]
pub enum OverlayPhase {
    Enter,
    Steady,
    Exit,
}

/// An overlay on air.
#[derive(Debug, Clone, Copy, PartialEq, Eq, Structural)]
pub struct OverlayRuntime {
    pub on_air: bool,
    pub anim_start: u64,
    pub duration_frames: u64,
    pub phase: OverlayPhase,
}

/// The slate shown when all else fails, in memory since the package was loaded.
#[derive(Debug)]
pub struct FallbackSlate {
    pub path: String,
    pub bytes: Vec<u8>,
}

/// A loaded package.
#[derive(Debug)]
pub struct Package {
    pub index: PackageIndex,
    /// Frames that overlays take to enter and to leave.
    pub overlay_enter_frames: StrMap<u64>,
    pub overlay_exit_frames: StrMap<u64>,
}

/// A package, as contracts speak of it.
pub struct PackageView {
    pub index: IndexView,
    pub overlay_enter_frames: Map<Seq<char>, u64>,
    pub overlay_exit_frames: Map<Seq<char>, u64>,
}

impl View for Package {
    type V = PackageView;

    open spec fn view(&self) -> PackageView {
        PackageView {
            index: self.index@,
            overlay_enter_frames: self.overlay_enter_frames@,
            overlay_exit_frames: self.overlay_exit_frames@,
        }
    }
}

/// The state of the engine.
pub struct DirectiveHandler {
    pub clock: MasterClock,
    pub last_applied: u64,
    pub package_path: Option<String>,
    pub fallback: Option<FallbackSlate>,
    pub fallback_active: bool,
    pub package: Option<Package>,
    /// Counts loads, so that what was made for one package is not used for
    /// another.
    pub package_generation: u64,
    pub requested_quality: Option<QualityProfile>,
    pub record_dir: Option<String>,
    pub view_item: Option<String>,
    pub view_item_start_frame: u64,
    pub preview_item: Option<String>,
    pub preview_item_start_frame: u64,
    pub transition: Option<Transition>,
    pub overlays: StrMap<OverlayRuntime>,
    /// The asset whose sound each item plays.
    pub item_audio: StrMap<String>,
    pub audio_commands: Vec<AudioCommand>,
    pub decode_failures_total: u64,
    pub unattributable_decode_failures_total: u64,
    /// Counts the times the decoders were released; a lease of an earlier count
    /// is void.
    pub decode_epoch: u64,
    pub markers: MarkerStore,
    pub takes: Timestamps,
    pub record_state: RecordState,
    /// Whether there is a session, and whether its tap hangs on the mix.
    pub record_session: bool,
    pub record_tap: bool,
    pub record_tap_selection: Option<Selection>,
    pub skipped_record_frames: u64,
    pub stream_state: StreamState,
    pub stream_session: bool,
    pub stream_tap: bool,
    pub stream_tap_selection: Option<Selection>,
    pub skipped_stream_frames: u64,
    pub playing: PlaybackTracker,
    /// Frames for the control plane.
    pub outgoing: Vec<EngineFrame>,
}

/// The state of the engine, as contracts speak of it.
pub struct EngineView {
    pub clock: ClockView,
    pub last_applied: u64,
    pub package_path: Option<Seq<char>>,
    pub fallback: Option<(Seq<char>, Seq<u8>)>,
    pub fallback_active: bool,
    pub package: Option<PackageView>,
    pub package_generation: u64,
    pub requested_quality: Option<QualityProfile>,
    pub record_dir: Option<Seq<char>>,
    pub view_item: Option<Seq<char>>,
    pub view_item_start_frame: u64,
    pub preview_item: Option<Seq<char>>,
    pub preview_item_start_frame: u64,
    pub transition: Option<TransitionView>,
    pub overlays: Map<Seq<char>, OverlayRuntime>,
    pub item_audio: Map<Seq<char>, Seq<char>>,
    pub audio_commands: Seq<CommandView>,
    pub decode_failures_total: u64,
    pub unattributable_decode_failures_total: u64,
    pub decode_epoch: u64,
    pub markers: Seq<MarkerView>,
    pub takes: u64,
    pub record_state: RecordState,
    pub record_session: bool,
    pub record_tap: bool,
    pub record_tap_selection: Option<Selection>,
    pub skipped_record_frames: u64,
    pub stream_state: StreamState,
    pub stream_session: bool,
    pub stream_tap: bool,
    pub stream_tap_selection: Option<Selection>,
    pub skipped_stream_frames: u64,
    pub playing: Option<(Seq<char>, u64)>,
    pub outgoing: Seq<EngineFrameView>,
}

/// The view of a package that may be none.
pub open spec fn package_view(p: Option<Package>) -> Option<PackageView> {
    match p {
        Some(p) => Some(p@),
        None => None,
    }
}

/// The view of a slate that may be none.
pub open spec fn fallback_view(f: Option<FallbackSlate>) -> Option<(Seq<char>, Seq<u8>)> {
    match f {
        Some(f) => Some((f.path@, f.bytes@)),
        None => None,
    }
}

impl View for DirectiveHandler {
    type V = EngineView;

    open spec fn view(&self) -> EngineView {
        EngineView {
            clock: self.clock@,
            last_applied: self.last_applied,
            package_path: opt_text(self.package_path),
            fallback: fallback_view(self.fallback),
            fallback_active: self.fallback_active,
            package: package_view(self.package),
            package_generation: self.package_generation,
            requested_quality: self.requested_quality,
            record_dir: opt_text(self.record_dir),
            view_item: opt_text(self.view_item),
            view_item_start_frame: self.view_item_start_frame,
            preview_item: opt_text(self.preview_item),
            preview_item_start_frame: self.preview_item_start_frame,
            transition: transition_view(self.transition),
            overlays: self.overlays@,
            item_audio: texts(self.item_audio@),
            audio_commands: command_views(self.audio_commands@),
            decode_failures_total: self.decode_failures_total,
            unattributable_decode_failures_total: self.unattributable_decode_failures_total,
            decode_epoch: self.decode_epoch,
            markers: self.markers@,
            takes: self.takes.taken,
            record_state: self.record_state,
            record_session: self.record_session,
            record_tap: self.record_tap,
            record_tap_selection: self.record_tap_selection,
            skipped_record_frames: self.skipped_record_frames,
            stream_state: self.stream_state,
            stream_session: self.stream_session,
            stream_tap: self.stream_tap,
            stream_tap_selection: self.stream_tap_selection,
            skipped_stream_frames: self.skipped_stream_frames,
            playing: self.playing@,
            outgoing: frame_views(self.outgoing@),
        }
    }
}

/// The first frame after the present one; `stopped` while the clock is stopped.
pub open spec fn frame_after_now(master: Option<u64>, stopped: u64) -> u64 {
    match master {
        Some(f) => if f == u64::MAX {
            f
        } else {
            (f + 1) as u64
        },
        None => stopped,
    }
}

/// The first frame after the present one: nothing takes effect within a frame.
pub fn next_frame(master: Option<u64>, stopped: u64) -> (f: u64)
    ensures
        f == frame_after_now(master, stopped),
{
    match master {
        Some(f) => if f == u64::MAX {
            f
        } else {
            f + 1
        },
        None => stopped,
    }
}

impl DirectiveHandler {
    /// The tables are well formed.
    pub open spec fn wf(self) -> bool {
        &&& self.overlays.wf()
        &&& self.item_audio.wf()
        &&& match self.package {
            Some(p) => p.index.wf() && p.overlay_enter_frames.wf() && p.overlay_exit_frames.wf(),
            None => true,
        }
    }

    /// An engine that has done nothing, at a house rate.
    pub fn new(house_rate: u32) -> (e: DirectiveHandler)
        ensures
            e.wf(),
            e@ == (EngineView {
                clock: ClockView { house_rate, epoch: None },
                last_applied: 0,
                package_path: None,
                fallback: None,
                fallback_active: false,
                package: None,
                package_generation: 0,
                requested_quality: None,
                record_dir: None,
                view_item: None,
                view_item_start_frame: 0,
                preview_item: None,
                preview_item_start_frame: 0,
                transition: None,
                overlays: Map::empty(),
                item_audio: Map::empty(),
                audio_commands: Seq::empty(),
                decode_failures_total: 0,
                unattributable_decode_failures_total: 0,
                decode_epoch: 0,
                markers: Seq::empty(),
                takes: 0,
                record_state: RecordState::Idle,
                record_session: false,
                record_tap: false,
                record_tap_selection: None,
                skipped_record_frames: 0,
                stream_state: StreamState::Idle,
                stream_session: false,
                stream_tap: false,
                stream_tap_selection: None,
                skipped_stream_frames: 0,
                playing: None,
                outgoing: Seq::empty(),
            }),
    {
        let e: DirectiveHandler = DirectiveHandler {
            clock: MasterClock::new(house_rate),
            last_applied: 0,
            package_path: None,
            fallback: None,
            fallback_active: false,
            package: None,
            package_generation: 0,
            requested_quality: None,
            record_dir: None,
            view_item: None,
            view_item_start_frame: 0,
            preview_item: None,
            preview_item_start_frame: 0,
            transition: None,
            overlays: StrMap::new(),
            item_audio: StrMap::new(),
            audio_commands: Vec::new(),
            decode_failures_total: 0,
            unattributable_decode_failures_total: 0,
            decode_epoch: 0,
            markers: MarkerStore::new(),
            takes: Timestamps::new(),
            record_state: RecordState::Idle,
            record_session: false,
            record_tap: false,
            record_tap_selection: None,
            skipped_record_frames: 0,
            stream_state: StreamState::Idle,
            stream_session: false,
            stream_tap: false,
            stream_tap_selection: None,
            skipped_stream_frames: 0,
            playing: PlaybackTracker::new(),
            outgoing: Vec::new(),
        };
        assert(e@.item_audio =~= Map::empty());
        assert(e@.audio_commands =~= Seq::empty());
        assert(e@.outgoing =~= Seq::empty());
        e
    }

    /// Whether the show runs.
    pub fn is_running(&self) -> (r: bool)
        ensures
            r == (self@.clock.state() is Running),
    {
        match self.clock.state() {
            ClockState::Running => true,
            ClockState::Stopped => false,
        }
    }

    /// Put a frame into the queue for the control plane.
    pub fn push_frame(&mut self, frame: EngineFrame)
        ensures
            final(self)@ == (EngineView {
                outgoing: old(self)@.outgoing.push(frame@),
                ..old(self)@
            }),
            old(self).wf() ==> final(self).wf(),
    {
        let ghost before = self@.outgoing;
        self.outgoing.push(frame);
        assert(self@.outgoing =~= before.push(frame@));
    }

    /// Put a command into the queue for the audio graph.
    pub fn push_audio(&mut self, command: AudioCommand)
        ensures
            final(self)@ == (EngineView {
                audio_commands: old(self)@.audio_commands.push(command@),
                ..old(self)@
            }),
            old(self).wf() ==> final(self).wf(),
    {
        let ghost before = self@.audio_commands;
        self.audio_commands.push(command);
        assert(self@.audio_commands =~= before.push(command@));
    }

    /// A directive was applied: remember its version, and say so.
    pub fn applied(&mut self, state_version: u64)
        ensures
            final(self)@ == (EngineView {
                last_applied: state_version,
                outgoing: old(self)@.outgoing.push(
                    EngineFrameView::AppliedStateVersion { state_version },
                ),
                ..old(self)@
            }),
            old(self).wf() ==> final(self).wf(),
    {
        self.last_applied = state_version;
        self.push_frame(EngineFrame::AppliedStateVersion { state_version });
    }
}

/// A refusal because of the state the engine is in.
pub fn forbidden(why: &str) -> (e: DirectiveError)
    ensures
        e@ == ErrorView::ForbiddenState(why@),
{
    DirectiveError::ForbiddenState(why.to_owned())
}

/// A refusal because the directive makes no sense.
pub fn invalid(why: &str) -> (e: DirectiveError)
    ensures
        e@ == ErrorView::Invalid(why@),
{
    DirectiveError::Invalid(why.to_owned())
}

} // verus!

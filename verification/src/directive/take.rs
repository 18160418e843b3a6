//! Takes, sounds, markers and the fallback.

use crate::audio_control::{command_of, AudioCommand, CommandView};
use crate::directive::engine::{
    forbidden, frame_after_now, invalid, next_frame, DirectiveHandler, EngineView, RecordState,
};
use crate::directive::{next_generation, outcome, DirectiveError, ErrorView};
use crate::json::{Json, JsonView};
use crate::protocol::{DirectiveFrame, DirectiveView, EngineFrame, EngineFrameView, ItemEvent};
use crate::record::markers::{Marker, MarkerView};
use crate::scene::transition::{
    freeze, frozen_under, Transition, TransitionKind, TransitionView, Underlay,
};
use crate::scene::{number_at, owned, read_number, Number};
use crate::text::str_eq;
use std::time::Instant;
use vstd::prelude::*;

verus! {

/// The text of `key` within the member `outer`.
pub open spec fn text_in(j: JsonView, outer: Seq<char>, key: Seq<char>) -> Option<Seq<char>> {
    match j.member(outer) {
        Some(o) => o.text_at(key),
        None => None,
    }
}

/// The whole number of `key` within the member `outer`.
pub open spec fn unsigned_in(j: JsonView, outer: Seq<char>, key: Seq<char>) -> Option<u64> {
    match j.member(outer) {
        Some(o) => o.unsigned_at(key),
        None => None,
    }
}

/// Read the whole number of `key` within the member `outer`.
pub fn read_unsigned_in(j: &Json, outer: &str, key: &str) -> (r: Option<u64>)
    ensures
        r == unsigned_in(j@, outer@, key@),
{
    match j.get(outer) {
        Some(o) => o.u64_at(key),
        None => None,
    }
}

/// The item or scene a take names.
pub open spec fn take_target(d: DirectiveView) -> Option<Seq<char>> {
    match d.target.text_at("itemRef"@) {
        Some(r) => Some(r),
        None => d.target.text_at("sceneId"@),
    }
}

/// The transition of a take: a mix where it says so, else a cut.
pub open spec fn take_kind(d: DirectiveView) -> TransitionKind {
    if d.payload.text_at("transition"@) == Some("mix"@) {
        TransitionKind::Mix
    } else {
        TransitionKind::Cut
    }
}

/// The frames of a take's transition.
pub open spec fn take_frames(d: DirectiveView) -> u64 {
    match d.payload.unsigned_at("durationFrames"@) {
        Some(n) => n,
        None => match take_kind(d) {
            TransitionKind::Mix => 15,
            TransitionKind::Cut => 0,
        },
    }
}

/// The frame before the one a take starts on.
pub open spec fn frozen_frame(start: u64) -> u64 {
    if start == 0 {
        0
    } else {
        (start - 1) as u64
    }
}

/// The transition a take puts on air.
pub open spec fn take_transition(
    e: EngineView,
    d: DirectiveView,
    item: Seq<char>,
    master: Option<u64>,
) -> TransitionView {
    let start = frame_after_now(master, 0);
    TransitionView {
        from_item: e.view_item,
        from_start_frame: e.view_item_start_frame,
        to_item: item,
        kind: take_kind(d),
        duration_frames: take_frames(d),
        start_frame: start,
        underlay: frozen_under(e.transition, take_kind(d), frozen_frame(start)),
    }
}

/// The sound a take puts on the clip bus.
pub open spec fn take_sound(
    e: EngineView,
    d: DirectiveView,
    item: Seq<char>,
    master: Option<u64>,
) -> CommandView {
    CommandView::TakeItem {
        item_ref: item,
        asset_id: if e.item_audio.dom().contains(item) {
            Some(e.item_audio[item])
        } else {
            None
        },
        t0: frame_after_now(master, 0),
        mode: match text_in(d.payload, "audio"@, "transition"@) {
            Some(m) => m,
            None => "follow"@,
        },
        ramp_ms: match d.payload.member("audio"@) {
            Some(a) => number_at(a, "rampMs"@),
            None => None,
        },
        crossfade_frames: match take_kind(d) {
            TransitionKind::Mix => match unsigned_in(d.payload, "audio"@, "durationFrames"@) {
                Some(n) => n,
                None => take_frames(d),
            },
            TransitionKind::Cut => 0,
        },
    }
}

/// The engine after a take. A take that names nothing changes nothing.
pub open spec fn taken(e: EngineView, d: DirectiveView, master: Option<u64>) -> EngineView {
    match take_target(d) {
        None => e,
        Some(item) => EngineView {
            transition: Some(take_transition(e, d, item, master)),
            view_item: Some(item),
            view_item_start_frame: frame_after_now(master, 0),
            audio_commands: e.audio_commands.push(take_sound(e, d, item, master)),
            playing: Some((item, next_generation(e.playing))),
            ..e
        },
    }
}

/// The end of a timed item that is to be told, unless a later take comes
/// first.
#[derive(Debug)]
pub struct EndTimer {
    pub item_ref: String,
    pub frames: u32,
    pub generation: u64,
}

/// Whether a timer is the one of a take.
pub open spec fn timer_matches(e: EngineView, d: DirectiveView, t: Option<EndTimer>) -> bool {
    match (take_target(d), d.payload.unsigned_at("durationFrames"@)) {
        (Some(item), Some(n)) => {
            &&& t is Some
            &&& t->0.item_ref@ == item
            &&& t->0.frames == n % 0x1_0000_0000
            &&& t->0.generation == next_generation(e.playing)
        },
        _ => t is None,
    }
}

/// The milliseconds after which an item of so many frames ends.
pub open spec fn end_after_ms(frames: u32, rate: u32) -> int {
    frames * 1000 / rate as int
}

/// The milliseconds after which an item of so many frames ends.
pub fn done_after_ms(frames: u32, rate: u32) -> (ms: u64)
    requires
        rate > 0,
    ensures
        ms == end_after_ms(frames, rate),
{
    (frames as u64 * 1000) / rate as u64
}

impl DirectiveHandler {
    /// A take, at a frame of the master clock. It shows from the next frame on.
    pub fn take_at(&mut self, d: &DirectiveFrame, master: Option<u64>) -> (timer: Option<EndTimer>)
        requires
            old(self).wf(),
        ensures
            final(self).wf(),
            final(self)@ == taken(old(self)@, d@, master),
            timer_matches(old(self)@, d@, timer),
    {
        let ghost start_view = self@;
        let item: &str = match d.target.str_at("itemRef") {
            Some(r) => r,
            None => match d.target.str_at("sceneId") {
                Some(r) => r,
                None => return None,
            },
        };
        let kind: TransitionKind = match d.payload.str_at("transition") {
            Some(t) => if str_eq(t, "mix") {
                TransitionKind::Mix
            } else {
                TransitionKind::Cut
            },
            None => TransitionKind::Cut,
        };
        let mix: bool = match kind {
            TransitionKind::Mix => true,
            TransitionKind::Cut => false,
        };
        let length: Option<u64> = d.payload.u64_at("durationFrames");
        let frames: u64 = match length {
            Some(n) => n,
            None => if mix {
                15
            } else {
                0
            },
        };
        let start: u64 = next_frame(master, 0);
        let frozen: u64 = if start == 0 {
            0
        } else {
            start - 1
        };
        let underlay: Option<Underlay> = freeze(&self.transition, kind, frozen);
        let previous: Option<String> = match &self.view_item {
            Some(v) => Some(v.as_str().to_owned()),
            None => None,
        };
        let mut mode: String = "follow".to_owned();
        let mut ramp_ms: Option<Number> = None;
        let mut sound_frames: Option<u64> = None;
        match d.payload.get("audio") {
            Some(a) => {
                match a.str_at("transition") {
                    Some(m) => {
                        mode = m.to_owned();
                    },
                    None => {},
                }
                ramp_ms = read_number(a, "rampMs");
                sound_frames = a.u64_at("durationFrames");
            },
            None => {},
        }
        let crossfade_frames: u64 = if mix {
            match sound_frames {
                Some(n) => n,
                None => frames,
            }
        } else {
            0
        };
        let asset_id: Option<String> = match self.item_audio.get(item) {
            Some(a) => Some(a.as_str().to_owned()),
            None => None,
        };
        self.transition = Some(
            Transition {
                from_item: previous,
                from_start_frame: self.view_item_start_frame,
                to_item: item.to_owned(),
                kind,
                duration_frames: frames,
                start_frame: start,
                underlay,
            },
        );
        self.view_item = Some(item.to_owned());
        self.view_item_start_frame = start;
        self.push_audio(
            AudioCommand::TakeItem {
                item_ref: item.to_owned(),
                asset_id,
                t0: start,
                mode,
                ramp_ms,
                crossfade_frames,
            },
        );
        let generation: u64 = self.playing.begin(item);
        match length {
            Some(n) => Some(
                EndTimer {
                    item_ref: item.to_owned(),
                    frames: (n % 0x1_0000_0000) as u32,
                    generation,
                },
            ),
            None => None,
        }
    }

    /// A take, now.
    pub fn on_take(&mut self, d: &DirectiveFrame) -> (timer: Option<EndTimer>)
        requires
            old(self).wf(),
        ensures
            final(self).wf(),
            timer_matches(old(self)@, d@, timer),
            exists|master: Option<u64>|
                (master is Some <==> old(self)@.clock.state() is Running) && final(self)@
                    == #[trigger] taken(old(self)@, d@, master),
    {
        let master: Option<u64> = self.clock.frame();
        let timer: Option<EndTimer> = self.take_at(d, master);
        assert(self@ == taken(old(self)@, d@, master));
        timer
    }

    /// The time of an item has run: its end is told where it still plays in a
    /// running show, and not where a later take came first.
    pub fn on_done(&mut self, item_ref: &str, generation: u64) -> (told: bool)
        requires
            old(self).wf(),
        ensures
            final(self).wf(),
            told == (old(self)@.clock.state() is Running && old(self)@.playing == Some(
                (item_ref@, generation),
            )),
            final(self)@ == if told {
                EngineView {
                    outgoing: old(self)@.outgoing.push(
                        EngineFrameView::ItemEvent {
                            item_ref: item_ref@,
                            event: ItemEvent::End,
                            detail: None,
                        },
                    ),
                    ..old(self)@
                }
            } else {
                old(self)@
            },
    {
        if !self.is_running() || !self.playing.is_current(item_ref, generation) {
            return false;
        }
        self.push_frame(
            EngineFrame::ItemEvent {
                item_ref: item_ref.to_owned(),
                event: ItemEvent::End,
                detail: None,
            },
        );
        true
    }

    /// An audio directive.
    pub fn on_audio(&mut self, d: &DirectiveFrame) -> (r: Result<(), DirectiveError>)
        requires
            old(self).wf(),
        ensures
            final(self).wf(),
            match command_of(d@) {
                Ok(c) => r is Ok && final(self)@ == (EngineView {
                    audio_commands: old(self)@.audio_commands.push(c),
                    ..old(self)@
                }),
                Err(e) => outcome(r) == Err::<(), ErrorView>(e) && final(self)@ == old(self)@,
            },
    {
        match AudioCommand::from_directive(d) {
            Ok(c) => {
                self.push_audio(c);
                Ok(())
            },
            Err(e) => Err(e),
        }
    }

    /// A marker, at a frame of the master clock.
    pub fn marker_at(&mut self, d: &DirectiveFrame, master: Option<u64>) -> (r: Result<
        (),
        DirectiveError,
    >)
        requires
            old(self).wf(),
        ensures
            final(self).wf(),
            outcome(r) == marker_verdict(old(self)@, d@),
            final(self)@ == marked(old(self)@, d@, master),
    {
        match self.record_state {
            RecordState::Recording => {},
            RecordState::Idle => return Err(forbidden("marker.add requires an active recording")),
        }
        let name: &str = match d.payload.str_at("name") {
            Some(n) => n,
            None => return Err(invalid("marker.add missing name")),
        };
        if name.is_empty() {
            return Err(invalid("marker.add missing name"));
        }
        self.markers.add(
            Marker {
                name: name.to_owned(),
                frame: next_frame(master, 0),
                timecode: owned(d.payload.str_at("timecode")),
            },
        );
        Ok(())
    }

    /// A marker, now.
    pub fn on_marker_add(&mut self, d: &DirectiveFrame) -> (r: Result<(), DirectiveError>)
        requires
            old(self).wf(),
        ensures
            final(self).wf(),
            outcome(r) == marker_verdict(old(self)@, d@),
            exists|master: Option<u64>|
                (master is Some <==> old(self)@.clock.state() is Running) && final(self)@
                    == #[trigger] marked(old(self)@, d@, master),
    {
        let master: Option<u64> = self.clock.frame();
        let r: Result<(), DirectiveError> = self.marker_at(d, master);
        assert(self@ == marked(old(self)@, d@, master));
        r
    }

    /// The fallback goes on air.
    pub fn on_fallback(&mut self)
        requires
            old(self).wf(),
        ensures
            final(self).wf(),
            final(self)@ == (EngineView { fallback_active: true, view_item: None, ..old(self)@ }),
    {
        self.fallback_active = true;
        self.view_item = None;
    }

    /// The show starts at a moment; one that runs already goes on as it is.
    pub fn show_start_at(&mut self, at: Instant)
        requires
            old(self).wf(),
        ensures
            final(self).wf(),
            final(self)@ == show_begun(old(self)@, at),
            old(self)@.clock.state() is Running ==> final(self).clock == old(self).clock,
    {
        self.clock.start_at(at);
    }

    /// The show starts, now; one that runs already goes on as it is.
    pub fn on_show_start(&mut self)
        requires
            old(self).wf(),
        ensures
            final(self).wf(),
            exists|at: Instant| final(self)@ == #[trigger] show_begun(old(self)@, at),
            old(self)@.clock.state() is Running ==> final(self).clock == old(self).clock,
    {
        self.clock.start();
        proof {
            let at = choose|at: Instant| self.clock@ == #[trigger] old(self).clock@.started(at);
            assert(self@ == show_begun(old(self)@, at));
        }
    }
}

/// The engine once its show has started at a moment.
pub open spec fn show_begun(e: EngineView, at: Instant) -> EngineView {
    EngineView { clock: e.clock.started(at), ..e }
}

/// Whether a marker is taken: only while a recording runs, and only by a name.
pub open spec fn marker_verdict(e: EngineView, d: DirectiveView) -> Result<(), ErrorView> {
    if e.record_state is Idle {
        Err(ErrorView::ForbiddenState("marker.add requires an active recording"@))
    } else {
        match d.payload.text_at("name"@) {
            Some(n) => if n.len() > 0 {
                Ok(())
            } else {
                Err(ErrorView::Invalid("marker.add missing name"@))
            },
            None => Err(ErrorView::Invalid("marker.add missing name"@)),
        }
    }
}

/// The engine after a marker.
pub open spec fn marked(e: EngineView, d: DirectiveView, master: Option<u64>) -> EngineView {
    if marker_verdict(e, d) is Ok {
        EngineView {
            markers: e.markers.push(
                MarkerView {
                    name: d.payload.text_at("name"@)->0,
                    frame: frame_after_now(master, 0),
                    timecode: d.payload.text_at("timecode"@),
                },
            ),
            ..e
        }
    } else {
        e
    }
}

} // verus!

//! Overlays, and the snapshot that replaces everything.

use crate::clock::ClockState;
use crate::directive::engine::{
    frame_after_now, next_frame, DirectiveHandler, EngineView, OverlayPhase, OverlayRuntime, PackageView,
};
use crate::directive::take::{read_unsigned_in, unsigned_in};
use crate::json::{Json, JsonView};
use crate::protocol::{DirectiveFrame, DirectiveView};
use crate::scene::{json_views, owned};
use crate::strmap::StrMap;
use crate::text::str_eq;
use std::time::Instant;
use vstd::prelude::*;
use vstd::string::*;

verus! {

/// The overlay a directive names.
pub open spec fn overlay_target(d: DirectiveView) -> Option<Seq<char>> {
    match d.target.text_at("overlayId"@) {
        Some(id) => Some(id),
        None => d.payload.text_at("overlayId"@),
    }
}

/// The frames an overlay takes to enter or to leave: those the directive names,
/// else those the package declares, else one.
pub open spec fn overlay_frames(
    package: Option<PackageView>,
    d: DirectiveView,
    id: Seq<char>,
    show: bool,
) -> u64 {
    let declared = match package {
        Some(p) => {
            let table = if show {
                p.overlay_enter_frames
            } else {
                p.overlay_exit_frames
            };
            if table.dom().contains(id) {
                table[id]
            } else {
                1
            }
        },
        None => 1,
    };
    match unsigned_in(d.payload, "animation"@, "durationFrames"@) {
        Some(n) => if n >= 1 {
            n
        } else {
            declared
        },
        None => declared,
    }
}

/// Whether an overlay directive starts an animation. Showing what is on air and
/// not leaving does nothing; nor does hiding what leaves already or is not
/// there. Showing what leaves brings it back.
pub open spec fn starts(current: Option<OverlayRuntime>, show: bool) -> bool {
    match current {
        Some(ov) => if show {
            !ov.on_air || ov.phase is Exit
        } else {
            !(ov.phase is Exit)
        },
        None => show,
    }
}

/// What a table holds under a name.
pub open spec fn overlay_at(m: Map<Seq<char>, OverlayRuntime>, id: Seq<char>) -> Option<
    OverlayRuntime,
> {
    if m.dom().contains(id) {
        Some(m[id])
    } else {
        None
    }
}

/// The engine after an overlay directive.
pub open spec fn overlaid(e: EngineView, d: DirectiveView, master: Option<u64>) -> EngineView {
    let show = d.command == "overlay.show"@;
    match overlay_target(d) {
        None => e,
        Some(id) => if starts(overlay_at(e.overlays, id), show) {
            EngineView {
                overlays: e.overlays.insert(
                    id,
                    OverlayRuntime {
                        on_air: true,
                        anim_start: frame_after_now(master, 1),
                        duration_frames: overlay_frames(e.package, d, id, show),
                        phase: if show {
                            OverlayPhase::Enter
                        } else {
                            OverlayPhase::Exit
                        },
                    },
                ),
                ..e
            }
        } else {
            e
        },
    }
}

/// The overlays of a snapshot: each that is named is on air and steady.
pub open spec fn steady_overlays(items: Seq<JsonView>, now: u64, n: int) -> Map<
    Seq<char>,
    OverlayRuntime,
>
    decreases n,
{
    if n <= 0 {
        Map::empty()
    } else {
        let rest = steady_overlays(items, now, n - 1);
        match items[n - 1].text() {
            Some(id) => rest.insert(
                id,
                OverlayRuntime {
                    on_air: true,
                    anim_start: now,
                    duration_frames: 1,
                    phase: OverlayPhase::Steady,
                },
            ),
            None => rest,
        }
    }
}

/// The clock's state in a snapshot.
pub open spec fn snapshot_clock(d: DirectiveView) -> ClockState {
    if d.payload.text_at("showState"@) == Some("RUNNING"@) {
        ClockState::Running
    } else {
        ClockState::Stopped
    }
}

/// The clock as a snapshot at a moment sets it.
pub open spec fn clock_resynced(e: EngineView, d: DirectiveView, at: Instant) -> EngineView {
    EngineView {
        clock: if snapshot_clock(d) is Running {
            e.clock.started(at)
        } else {
            e.clock.stopped()
        },
        ..e
    }
}

/// The engine after a snapshot, where `master` is the frame once the clock is
/// in the snapshot's state. The clock itself is set before. What the snapshot names it replaces, also by
/// nothing; a transition that was under way is over.
pub open spec fn resynced(e: EngineView, d: DirectiveView, master: Option<u64>) -> EngineView {
    let p = d.payload;
    let now = match master {
        Some(f) => f,
        None => 0,
    };
    EngineView {
        fallback_active: e.fallback_active || p.boolean_at("fallbackActive"@) == Some(true),
        view_item: match p.member("viewItem"@) {
            Some(v) => v.text(),
            None => e.view_item,
        },
        view_item_start_frame: match p.member("viewItem"@) {
            Some(_) => match p.unsigned_at("viewItemStartFrame"@) {
                Some(t0) => t0,
                None => now,
            },
            None => e.view_item_start_frame,
        },
        transition: None,
        preview_item: match p.member("previewItem"@) {
            Some(v) => v.text(),
            None => e.preview_item,
        },
        preview_item_start_frame: match p.member("previewItem"@) {
            Some(_) => now,
            None => e.preview_item_start_frame,
        },
        overlays: match p.member("visibleOverlays"@) {
            Some(v) => match v.items() {
                Some(items) => steady_overlays(items, now, items.len() as int),
                None => e.overlays,
            },
            None => e.overlays,
        },
        last_applied: d.state_version,
        ..e
    }
}

fn snapshot_overlays(items: &Vec<Json>, now: u64) -> (m: StrMap<OverlayRuntime>)
    ensures
        m.wf(),
        m@ == steady_overlays(json_views(items@), now, items@.len() as int),
{
    let ghost all = json_views(items@);
    let mut m: StrMap<OverlayRuntime> = StrMap::new();
    let n: usize = items.len();
    let mut i: usize = 0;
    while i < n
        invariant
            i <= n == items@.len(),
            all == json_views(items@),
            m.wf(),
            m@ == steady_overlays(all, now, i as int),
        decreases n - i,
    {
        assert(all[i as int] == items@[i as int]@);
        match items[i].as_str() {
            Some(id) => m.insert(
                id,
                OverlayRuntime {
                    on_air: true,
                    anim_start: now,
                    duration_frames: 1,
                    phase: OverlayPhase::Steady,
                },
            ),
            None => {},
        }
        i = i + 1;
    }
    m
}

impl DirectiveHandler {
    fn declared_frames(&self, id: &str, show: bool) -> (n: u64)
        requires
            self.wf(),
        ensures
            n == (match self@.package {
                Some(p) => {
                    let table = if show {
                        p.overlay_enter_frames
                    } else {
                        p.overlay_exit_frames
                    };
                    if table.dom().contains(id@) {
                        table[id@]
                    } else {
                        1
                    }
                },
                None => 1,
            }),
    {
        let found: Option<&u64> = match &self.package {
            Some(p) => if show {
                p.overlay_enter_frames.get(id)
            } else {
                p.overlay_exit_frames.get(id)
            },
            None => None,
        };
        match found {
            Some(n) => *n,
            None => 1,
        }
    }

    /// An overlay directive, at a frame of the master clock. The animation
    /// starts with the next frame.
    pub fn overlay_at(&mut self, d: &DirectiveFrame, master: Option<u64>)
        requires
            old(self).wf(),
        ensures
            final(self).wf(),
            final(self)@ == overlaid(old(self)@, d@, master),
    {
        let id: &str = match d.target.str_at("overlayId") {
            Some(id) => id,
            None => match d.payload.str_at("overlayId") {
                Some(id) => id,
                None => return,
            },
        };
        let show: bool = str_eq(d.command.as_str(), "overlay.show");
        let declared: u64 = self.declared_frames(id, show);
        let frames: u64 = match read_unsigned_in(&d.payload, "animation", "durationFrames") {
            Some(n) => if n >= 1 {
                n
            } else {
                declared
            },
            None => declared,
        };
        let starts: bool = match self.overlays.get(id) {
            Some(ov) => {
                let leaving: bool = match ov.phase {
                    OverlayPhase::Exit => true,
                    _ => false,
                };
                if show {
                    !ov.on_air || leaving
                } else {
                    !leaving
                }
            },
            None => show,
        };
        if starts {
            self.overlays.insert(
                id,
                OverlayRuntime {
                    on_air: true,
                    anim_start: next_frame(master, 1),
                    duration_frames: frames,
                    phase: if show {
                        OverlayPhase::Enter
                    } else {
                        OverlayPhase::Exit
                    },
                },
            );
        }
    }

    /// An overlay directive, now.
    pub fn on_overlay(&mut self, d: &DirectiveFrame)
        requires
            old(self).wf(),
        ensures
            final(self).wf(),
            exists|master: Option<u64>|
                (master is Some <==> old(self)@.clock.state() is Running) && final(self)@
                    == #[trigger] overlaid(old(self)@, d@, master),
    {
        let master: Option<u64> = self.clock.frame();
        self.overlay_at(d, master);
        assert(self@ == overlaid(old(self)@, d@, master));
    }

    /// What a snapshot says, but for the clock, which stands as it says
    /// already; `master` is its frame.
    pub fn resync_at(&mut self, d: &DirectiveFrame, master: Option<u64>)
        requires
            old(self).wf(),
        ensures
            final(self).wf(),
            final(self)@ == resynced(old(self)@, d@, master),
    {
        let now: u64 = match master {
            Some(f) => f,
            None => 0,
        };
        let p: &Json = &d.payload;
        match p.bool_at("fallbackActive") {
            Some(true) => {
                self.fallback_active = true;
            },
            _ => {},
        }
        match p.get("viewItem") {
            Some(v) => {
                self.view_item = owned(v.as_str());
                self.view_item_start_frame = match p.u64_at("viewItemStartFrame") {
                    Some(t0) => t0,
                    None => now,
                };
            },
            None => {},
        }
        self.transition = None;
        match p.get("previewItem") {
            Some(v) => {
                self.preview_item = owned(v.as_str());
                self.preview_item_start_frame = now;
            },
            None => {},
        }
        match p.get("visibleOverlays") {
            Some(v) => {
                match v.as_array() {
                    Some(items) => {
                        assert(json_views(items@) =~= v@.items()->0);
                        self.overlays = snapshot_overlays(items, now);
                    },
                    None => {},
                }
            },
            None => {},
        }
        self.last_applied = d.state_version;
    }

    /// A snapshot: the clock goes as it says, and the rest follows.
    pub fn on_resync(&mut self, d: &DirectiveFrame)
        requires
            old(self).wf(),
        ensures
            final(self).wf(),
            exists|at: Instant, master: Option<u64>|
                (master is Some <==> snapshot_clock(d@) is Running) && final(self)@
                    == #[trigger] resynced(clock_resynced(old(self)@, d@, at), d@, master),
    {
        let running: bool = match d.payload.str_at("showState") {
            Some(s) => str_eq(s, "RUNNING"),
            None => false,
        };
        if running {
            self.clock.start();
        } else {
            self.clock.stop();
        }
        let ghost mid = self@;
        proof {
            if running {
                let at = choose|at: Instant|
                    self.clock@ == #[trigger] old(self).clock@.started(at);
                assert(mid == clock_resynced(old(self)@, d@, at));
            } else {
                assert(mid == clock_resynced(old(self)@, d@, arbitrary()));
            }
        }
        let master: Option<u64> = self.clock.frame();
        self.resync_at(d, master);
        proof {
            let at = choose|at: Instant| mid == #[trigger] clock_resynced(old(self)@, d@, at);
            assert(self@ == resynced(clock_resynced(old(self)@, d@, at), d@, master));
        }
    }
}

proof fn lemma_steady(items: Seq<JsonView>, now: u64, n: int, id: Seq<char>)
    requires
        0 <= n <= items.len(),
    ensures
        steady_overlays(items, now, n).dom().contains(id) <==> exists|i: int|
            0 <= i < n && (#[trigger] items[i]).text() == Some(id),
        steady_overlays(items, now, n).dom().contains(id) ==> steady_overlays(items, now, n)[id] == (
        OverlayRuntime {
            on_air: true,
            anim_start: now,
            duration_frames: 1,
            phase: OverlayPhase::Steady,
        }),
    decreases n,
{
    if n > 0 {
        lemma_steady(items, now, n - 1, id);
        assert(items[n - 1].text() == items[n - 1].text());
        if exists|i: int| 0 <= i < n && (#[trigger] items[i]).text() == Some(id) {
            let i = choose|i: int| 0 <= i < n && (#[trigger] items[i]).text() == Some(id);
            if i < n - 1 {
                assert(items[i].text() == Some(id));
            }
        }
    }
}

/// A snapshot's overlays are on air, and no other.
pub proof fn law_a_snapshot_replaces_the_overlays(
    e: EngineView,
    d: DirectiveView,
    master: Option<u64>,
    items: Seq<JsonView>,
    id: Seq<char>,
)
    requires
        d.payload.member("visibleOverlays"@) matches Some(v) && v.items() == Some(items),
    ensures
        resynced(e, d, master).overlays.dom().contains(id) <==> exists|i: int|
            0 <= i < items.len() && (#[trigger] items[i]).text() == Some(id),
        resynced(e, d, master).overlays.dom().contains(id) ==> resynced(
            e,
            d,
            master,
        ).overlays[id].phase is Steady,
{
    let now = match master {
        Some(f) => f,
        None => 0,
    };
    lemma_steady(items, now, items.len() as int, id);
}

/// A snapshot leaves no transition under way.
pub proof fn law_a_snapshot_ends_the_transition(
    e: EngineView,
    d: DirectiveView,
    master: Option<u64>,
)
    ensures
        resynced(e, d, master).transition is None,
{
}

/// A take never touches an overlay.
pub proof fn law_a_take_leaves_overlays_alone(
    e: EngineView,
    d: DirectiveView,
    master: Option<u64>,
)
    ensures
        crate::directive::take::taken(e, d, master).overlays == e.overlays,
{
}

/// Showing twice is showing once, and hiding twice is hiding once.
pub proof fn law_overlay_directives_repeat_to_nothing(
    e: EngineView,
    d: DirectiveView,
    master: Option<u64>,
    later: Option<u64>,
)
    ensures
        overlaid(overlaid(e, d, master), d, later) == overlaid(e, d, master),
{
}

} // verus!

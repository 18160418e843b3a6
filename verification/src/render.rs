//! The render loop's decisions: what a bus shows, when the preview gives way,
//! and what a late frame costs.

use crate::decode::{clip_index, clip_source_index, loop_index, loop_source_index};
use crate::directive::engine::EngineView;
use crate::directive::take::{take_target, taken};
use crate::loop_cache::texture_slot;
use crate::protocol::DirectiveView;
use crate::scene::picture::{resolved, ResolvedScene};
use crate::scene::transition::{
    blend, capped, frozen_under, transition_view, whole, FrozenView, Ratio, Transition,
    TransitionKind, TransitionView,
};
use crate::scene::{opt_text, IndexView, PackageIndex};
use vstd::prelude::*;

verus! {

/// The picture on air, in pixels.
pub const VIEW_W: u32 = 1920;

/// The height of the picture on air.
pub const VIEW_H: u32 = 1080;

/// The preview picture, in pixels.
pub const PREVIEW_W: u32 = 960;

/// The height of the preview picture.
pub const PREVIEW_H: u32 = 540;

/// Layers of one picture at most.
pub const MAX_LAYERS: usize = 64;

/// Late frames after which the preview gives way.
pub const LATE_TO_DEGRADE: u32 = 2;

/// Frames in time after which the preview comes back.
pub const ON_TIME_TO_RECOVER: u32 = 30;

/// The two pictures.
#[derive(Debug, Clone, Copy, PartialEq, Eq, Structural)]
pub enum Bus {
    View,
    Preview,
}

/// How far the engine has stepped back. The picture on air never does.
#[derive(Debug, Clone, Copy, PartialEq, Eq, Structural)]
pub enum Rung {
    /// The preview is drawn with every frame.
    Nominal,
    /// The preview is drawn with every other frame.
    PreviewHalfRate,
}

/// What one frame did.
#[derive(Debug, Clone, Copy, PartialEq, Eq, Structural)]
pub struct FrameReport {
    pub frame: u64,
    pub rendered_preview: bool,
    /// How late the picture on air was, in nanoseconds.
    pub view_late_by: Option<u64>,
    pub preview_failed: bool,
}

/// What the loop remembers from frame to frame.
#[derive(Debug, Clone, Copy, PartialEq, Eq, Structural)]
pub struct RenderState {
    pub rung: Rung,
    pub consecutive_late: u32,
    pub consecutive_on_time: u32,
    /// The picture on air fails; it is told once.
    pub view_failing: bool,
    pub fallback_active: bool,
    pub dropped_frames_total: u64,
    pub preview_missed: u64,
}

/// One more, as far as it counts.
pub open spec fn counted(n: u32) -> u32 {
    if n == u32::MAX {
        n
    } else {
        (n + 1) as u32
    }
}

/// The loop's state after a frame that was late, or in time.
pub open spec fn rung_after(s: RenderState, late: bool) -> RenderState {
    if late {
        RenderState {
            consecutive_late: counted(s.consecutive_late),
            consecutive_on_time: 0,
            rung: if counted(s.consecutive_late) >= LATE_TO_DEGRADE {
                Rung::PreviewHalfRate
            } else {
                s.rung
            },
            ..s
        }
    } else {
        RenderState {
            consecutive_on_time: counted(s.consecutive_on_time),
            consecutive_late: 0,
            rung: if counted(s.consecutive_on_time) >= ON_TIME_TO_RECOVER {
                Rung::Nominal
            } else {
                s.rung
            },
            ..s
        }
    }
}

/// Whether the fallback stands in for a picture: only on air, and only while it
/// is active.
pub fn shows_fallback(bus: Bus, active: bool) -> (r: bool)
    ensures
        r == (bus is View && active),
{
    match bus {
        Bus::View => active,
        Bus::Preview => false,
    }
}

/// How many frames a lateness costs, begun ones too, and at least one.
pub open spec fn missed_by(late_ns: u64, budget_ns: u64) -> u64 {
    if budget_ns == 0 {
        u64::MAX
    } else {
        let n = (late_ns + budget_ns - 1) / budget_ns as int;
        if n < 1 {
            1
        } else {
            n as u64
        }
    }
}

/// How late a frame was, if it was.
pub open spec fn late_by(elapsed_ns: u64, deadline_ns: Option<u64>) -> Option<u64> {
    match deadline_ns {
        Some(b) => if elapsed_ns > b {
            Some((elapsed_ns - b) as u64)
        } else {
            None
        },
        None => None,
    }
}

/// How many frames a lateness costs.
pub fn frames_missed(late_ns: u64, budget_ns: u64) -> (n: u64)
    ensures
        n == missed_by(late_ns, budget_ns),
{
    if budget_ns == 0 {
        return u64::MAX;
    }
    let b: u128 = budget_ns as u128;
    let n: u128 = (late_ns as u128 + b - 1) / b;
    assert(n <= late_ns) by (nonlinear_arith)
        requires
            b >= 1,
            n == (late_ns as u128 + b - 1) / b as int,
    ;
    if n < 1 {
        1
    } else {
        n as u64
    }
}

impl RenderState {
    /// A loop that has drawn nothing.
    pub fn new() -> (s: RenderState)
        ensures
            s == (RenderState {
                rung: Rung::Nominal,
                consecutive_late: 0,
                consecutive_on_time: 0,
                view_failing: false,
                fallback_active: false,
                dropped_frames_total: 0,
                preview_missed: 0,
            }),
    {
        RenderState {
            rung: Rung::Nominal,
            consecutive_late: 0,
            consecutive_on_time: 0,
            view_failing: false,
            fallback_active: false,
            dropped_frames_total: 0,
            preview_missed: 0,
        }
    }

    /// Whether the preview is drawn with a frame.
    pub fn preview_due(&self, frame: u64) -> (r: bool)
        ensures
            r == (self.rung is Nominal || frame % 2 == 0),
    {
        match self.rung {
            Rung::Nominal => true,
            Rung::PreviewHalfRate => frame % 2 == 0,
        }
    }

    /// A frame was late, or in time.
    pub fn update_rung(&mut self, late: bool)
        ensures
            *final(self) == rung_after(*old(self), late),
    {
        if late {
            if self.consecutive_late < u32::MAX {
                self.consecutive_late = self.consecutive_late + 1;
            }
            self.consecutive_on_time = 0;
            if self.consecutive_late >= LATE_TO_DEGRADE {
                self.rung = Rung::PreviewHalfRate;
            }
        } else {
            if self.consecutive_on_time < u32::MAX {
                self.consecutive_on_time = self.consecutive_on_time + 1;
            }
            self.consecutive_late = 0;
            if self.consecutive_on_time >= ON_TIME_TO_RECOVER {
                self.rung = Rung::Nominal;
            }
        }
    }

    /// A frame was drawn: `preview` says whether the preview came out, where it
    /// was due; `view` whether the picture on air did. The report, and the
    /// frames that were missed.
    pub fn finish_frame(
        &mut self,
        frame: u64,
        preview: Option<bool>,
        view: bool,
        elapsed_ns: u64,
        deadline_ns: Option<u64>,
    ) -> (r: (FrameReport, u64))
        ensures
            r.0 == (FrameReport {
                frame,
                rendered_preview: preview == Some(true),
                view_late_by: late_by(elapsed_ns, deadline_ns),
                preview_failed: preview == Some(false),
            }),
            r.1 == (match late_by(elapsed_ns, deadline_ns) {
                Some(late) => missed_by(late, deadline_ns->0),
                None => 0,
            }),
            *final(self) == rung_after(
                RenderState {
                    preview_missed: if preview == Some(false) {
                        old(self).preview_missed.wrapping_add(1)
                    } else {
                        old(self).preview_missed
                    },
                    view_failing: !view,
                    fallback_active: old(self).fallback_active || !view,
                    dropped_frames_total: if late_by(elapsed_ns, deadline_ns) is Some {
                        old(self).dropped_frames_total.wrapping_add(1)
                    } else {
                        old(self).dropped_frames_total
                    },
                    ..*old(self)
                },
                late_by(elapsed_ns, deadline_ns) is Some,
            ),
    {
        let failed: bool = match preview {
            Some(false) => true,
            _ => false,
        };
        if failed {
            self.preview_missed = self.preview_missed.wrapping_add(1);
        }
        self.view_failing = !view;
        if !view {
            self.fallback_active = true;
        }
        let mut late: Option<u64> = None;
        let mut missed: u64 = 0;
        match deadline_ns {
            Some(budget) => {
                if elapsed_ns > budget {
                    self.dropped_frames_total = self.dropped_frames_total.wrapping_add(1);
                    late = Some(elapsed_ns - budget);
                    missed = frames_missed(elapsed_ns - budget, budget);
                }
            },
            None => {},
        }
        let was_late: bool = match late {
            Some(_) => true,
            None => false,
        };
        self.update_rung(was_late);
        let rendered: bool = match preview {
            Some(true) => true,
            _ => false,
        };
        (
            FrameReport {
                frame,
                rendered_preview: rendered,
                view_late_by: late,
                preview_failed: failed,
            },
            missed,
        )
    }
}

/// What is on the buses in one frame, read at once.
pub struct FrameSnapshot<'a> {
    pub view_item: Option<&'a str>,
    pub view_item_start_frame: u64,
    pub preview_item: Option<&'a str>,
    pub preview_item_start_frame: u64,
    pub transition: &'a Option<Transition>,
}

/// An item on a bus, how strong it is, and when it went on air.
pub struct OnAir {
    pub item: Option<Seq<char>>,
    pub alpha: Ratio,
    pub t0: u64,
}

/// The items under a mix, lowest first.
pub open spec fn shown_under(layers: Seq<FrozenView>) -> Seq<OnAir> {
    layers.map_values(
        |l: FrozenView| OnAir { item: Some(l.item), alpha: l.alpha, t0: l.t0 },
    )
}

/// What is on the view, lowest first. Before its first frame a transition shows
/// what was on; a mix in flight shows what it started from, and what it goes to
/// as far as it is; else the item on air is shown.
pub open spec fn view_of(
    t: Option<TransitionView>,
    item: Option<Seq<char>>,
    start: u64,
    frame: u64,
) -> Seq<OnAir> {
    match t {
        Some(t) => if frame < t.start_frame {
            seq![OnAir { item: t.from_item, alpha: whole(), t0: t.from_start_frame }]
        } else if t.kind is Mix && !t.complete(frame) {
            (match t.underlay {
                Some(u) => shown_under(u),
                None => match t.from_item {
                    Some(from) => seq![
                        OnAir { item: Some(from), alpha: whole(), t0: t.from_start_frame },
                    ],
                    None => Seq::empty(),
                },
            }).push(OnAir { item: Some(t.to_item), alpha: t.progress(frame), t0: t.start_frame })
        } else {
            seq![OnAir { item, alpha: whole(), t0: start }]
        },
        None => seq![OnAir { item, alpha: whole(), t0: start }],
    }
}

/// A scene that is drawn, how strong it is, and the frame its items count from.
pub struct DrawnScene {
    pub scene: ResolvedScene,
    pub alpha: Ratio,
    pub t0: u64,
}

/// Whether scenes are those of the items on a bus.
pub open spec fn draws(idx: IndexView, out: Seq<DrawnScene>, items: Seq<OnAir>) -> bool {
    out.len() == items.len() && forall|i: int|
        0 <= i < out.len() ==> (#[trigger] out[i]).scene@ == resolved(idx, items[i].item)
            && out[i].alpha == items[i].alpha && out[i].t0 == items[i].t0
}

fn drawn(idx: &PackageIndex, item: Option<&str>, alpha: Ratio, t0: u64) -> (d: DrawnScene)
    ensures
        d.scene@ == resolved(idx@, crate::json::text_view(item)),
        d.alpha == alpha,
        d.t0 == t0,
{
    DrawnScene { scene: idx.resolve(item), alpha, t0 }
}

fn as_str(s: &Option<String>) -> (r: Option<&str>)
    ensures
        crate::json::text_view(r) == opt_text(*s),
{
    match s {
        Some(s) => Some(s.as_str()),
        None => None,
    }
}

/// What is on a bus in a frame.
pub open spec fn bus_items(bus: Bus, s: FrameSnapshot, frame: u64) -> Seq<OnAir> {
    match bus {
        Bus::Preview => seq![
            OnAir {
                item: crate::json::text_view(s.preview_item),
                alpha: whole(),
                t0: s.preview_item_start_frame,
            },
        ],
        Bus::View => view_of(
            transition_view(*s.transition),
            crate::json::text_view(s.view_item),
            s.view_item_start_frame,
            frame,
        ),
    }
}

/// What a bus shows in a frame: scenes, lowest first.
pub fn scene_for(index: &PackageIndex, bus: Bus, snapshot: &FrameSnapshot, frame: u64) -> (out: Vec<
    DrawnScene,
>)
    ensures
        draws(index@, out@, bus_items(bus, *snapshot, frame)),
{
    let one: Ratio = Ratio { num: 1, den: 1 };
    let mut out: Vec<DrawnScene> = Vec::new();
    match bus {
        Bus::Preview => {
            out.push(
                drawn(index, snapshot.preview_item, one, snapshot.preview_item_start_frame),
            );
            return out;
        },
        Bus::View => {},
    }
    match snapshot.transition {
        Some(t) => {
            if frame < t.start_frame {
                out.push(drawn(index, as_str(&t.from_item), one, t.from_start_frame));
                return out;
            }
            let mix: bool = match t.kind {
                TransitionKind::Mix => true,
                TransitionKind::Cut => false,
            };
            if mix && !t.is_complete(frame) {
                match &t.underlay {
                    Some(u) => {
                        let ghost under = shown_under(u@);
                        let n: usize = u.layers.len();
                        let mut i: usize = 0;
                        while i < n
                            invariant
                                i <= n == u.layers@.len(),
                                under == shown_under(u@),
                                out@.len() == i,
                                forall|k: int|
                                    0 <= k < i ==> (#[trigger] out@[k]).scene@ == resolved(
                                        index@,
                                        under[k].item,
                                    ) && out@[k].alpha == under[k].alpha && out@[k].t0
                                        == under[k].t0,
                            decreases n - i,
                        {
                            assert(u@[i as int] == u.layers@[i as int]@);
                            let l: &crate::scene::transition::FrozenLayer = &u.layers[i];
                            out.push(drawn(index, Some(l.item.as_str()), l.alpha, l.t0));
                            i = i + 1;
                        }
                    },
                    None => {
                        match &t.from_item {
                            Some(from) => out.push(
                                drawn(index, Some(from.as_str()), one, t.from_start_frame),
                            ),
                            None => {},
                        }
                    },
                }
                out.push(
                    drawn(index, Some(t.to_item.as_str()), t.progress(frame), t.start_frame),
                );
                return out;
            }
        },
        None => {},
    }
    out.push(drawn(index, snapshot.view_item, one, snapshot.view_item_start_frame));
    out
}

/// The texture of a video at a frame: that of the frame it is at, or the last
/// there is where that one is not in memory.
pub open spec fn video_texture(
    frame: u64,
    t0: u64,
    period: u32,
    resident: usize,
    looping: bool,
) -> Option<usize> {
    let index = if looping {
        loop_index(frame, t0, period as u64)
    } else {
        clip_index(frame, t0, period as u64)
    };
    match index {
        None => None,
        Some(i) => if i < resident {
            Some(i as usize)
        } else if resident > 0 {
            Some((resident - 1) as usize)
        } else {
            None
        },
    }
}

/// The texture of a video at a frame.
pub fn video_slot(frame: u64, t0: u64, period: u32, resident: usize, looping: bool) -> (r: Option<
    usize,
>)
    ensures
        r == video_texture(frame, t0, period, resident, looping),
{
    let index: u64 = if looping {
        match loop_source_index(frame, t0, period as u64) {
            Some(i) => i,
            None => return None,
        }
    } else {
        match clip_source_index(frame, t0, period as u64) {
            Some(i) => i,
            None => return None,
        }
    };
    let slot: usize = match texture_slot(index, period) {
        Some(s) => s,
        None => return None,
    };
    proof {
        assert(index < period);
        assert(index % period as u64 == index) by (nonlinear_arith)
            requires
                index < period,
        ;
    }
    if slot < resident {
        Some(slot)
    } else if resident > 0 {
        Some(resident - 1)
    } else {
        None
    }
}

/// A mix that interrupts a mix starts from what was on air: under its first
/// frame lies what the other showed last, as far as there was anything to see
/// of it.
pub proof fn law_an_interrupted_mix_starts_from_the_blend(
    old: TransitionView,
    new: TransitionView,
    item: Option<Seq<char>>,
    start: u64,
    frame: u64,
)
    requires
        old.kind is Mix,
        new.kind is Mix,
        old.start_frame <= frame < u64::MAX,
        !old.complete(frame),
        old.progress(frame).num > 0,
        blend(old, frame).len() <= 8,
        new.start_frame == frame + 1,
        new.duration_frames > 0,
        new.underlay == frozen_under(Some(old), new.kind, frame),
    ensures
        view_of(Some(new), item, start, new.start_frame) == view_of(
            Some(old),
            item,
            start,
            frame,
        ).push(
            OnAir {
                item: Some(new.to_item),
                alpha: new.progress(new.start_frame),
                t0: new.start_frame,
            },
        ),
        new.progress(new.start_frame).num == 0,
{
    let under = blend(old, frame);
    assert(capped(under) == under);
    assert(new.underlay == Some(under));
    assert(shown_under(under) =~= view_of(Some(old), item, start, frame));
}

/// A cut shows its item from its first frame on, and nothing of what was on.
pub proof fn law_a_cut_snaps(
    t: TransitionView,
    start: u64,
    frame: u64,
)
    requires
        t.kind is Cut,
        frame >= t.start_frame,
    ensures
        view_of(Some(t), Some(t.to_item), start, frame) == seq![
            OnAir { item: Some(t.to_item), alpha: whole(), t0: start },
        ],
{
}

/// A mix that is over shows its item alone.
pub proof fn law_a_finished_mix_shows_its_item(t: TransitionView, start: u64, frame: u64)
    requires
        t.complete(frame),
    ensures
        view_of(Some(t), Some(t.to_item), start, frame) == seq![
            OnAir { item: Some(t.to_item), alpha: whole(), t0: start },
        ],
{
}

/// No transition begins within a frame: before its first frame the picture is
/// what was on.
pub proof fn law_nothing_begins_early(
    t: TransitionView,
    item: Option<Seq<char>>,
    start: u64,
    frame: u64,
)
    requires
        frame < t.start_frame,
    ensures
        view_of(Some(t), item, start, frame) == seq![
            OnAir { item: t.from_item, alpha: whole(), t0: t.from_start_frame },
        ],
{
}

/// A take does not begin within a frame: the present frame belongs to the item
/// that was on air, and the take shows from the next one on.
pub proof fn law_a_take_waits_for_the_next_frame(
    e: EngineView,
    d: DirectiveView,
    item: Seq<char>,
    frame: u64,
)
    requires
        frame < u64::MAX,
        take_target(d) == Some(item),
    ensures
        ({
            let after = taken(e, d, Some(frame));
            &&& after.transition matches Some(t) && t.start_frame == frame + 1
            &&& view_of(
                after.transition,
                after.view_item,
                after.view_item_start_frame,
                frame,
            ) == seq![
                OnAir { item: e.view_item, alpha: whole(), t0: e.view_item_start_frame },
            ]
        }),
{
}

/// The preview comes back only after enough frames in time, one after another,
/// and gives way only after late ones in a row.
pub proof fn law_the_preview_gives_way_first(s: RenderState, late: bool)
    ensures
        rung_after(s, late).rung != s.rung ==> if late {
            rung_after(s, late).rung is PreviewHalfRate && s.consecutive_late >= 1
        } else {
            rung_after(s, late).rung is Nominal && s.consecutive_on_time >= 29
        },
{
}

/// A lateness of less than a frame's time costs one frame, and it costs one more
/// for each frame's time begun.
pub proof fn law_lateness_is_measured(late_ns: u64, budget_ns: u64)
    requires
        budget_ns > 0,
        late_ns > 0,
    ensures
        (missed_by(late_ns, budget_ns) - 1) * budget_ns < late_ns <= missed_by(late_ns, budget_ns)
            * budget_ns,
{
    let b = budget_ns as int;
    let x = late_ns + b - 1;
    let n = x / b;
    vstd::arithmetic::div_mod::lemma_fundamental_div_mod(x, b);
    assert(n >= 1) by (nonlinear_arith)
        requires
            x >= b,
            b > 0,
            n == x / b,
    ;
    assert(n <= late_ns) by (nonlinear_arith)
        requires
            x == late_ns + b - 1,
            b > 0,
            late_ns > 0,
            n == x / b,
    ;
    assert((n - 1) * b == n * b - b) by (nonlinear_arith);
    assert(b * n == n * b) by (nonlinear_arith);
}

} // verus!

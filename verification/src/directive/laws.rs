//! What directives do, told from the words they are written in.

use super::dispatch::{
    acked, effect_of, first_failure, kind_of, outputs_forced, outputs_stopping, show_over,
    stop_plan, StopPlan,
};
use super::engine::{frame_after_now, EngineView, PackageView};
use super::overlay::{clock_resynced, overlaid, resynced, steady_overlays};
use super::take::{end_after_ms, marked, marker_verdict, show_begun, taken, timer_matches, EndTimer};
use super::ErrorView;
use crate::audio_control::{action_of, ActionView, CommandView};
use crate::json::JsonView;
use crate::protocol::{DirectiveView, EngineFrameView};
use crate::record::session::SessionError;
use crate::scene::number_at;
use crate::scene::transition::{blend, TransitionView};
use std::time::Instant;
use vstd::prelude::*;
use vstd::string::*;

verus! {

/// Whether a take names this item: as an item, or else as a scene.
pub open spec fn names(d: DirectiveView, item: Seq<char>) -> bool {
    d.target.text_at("itemRef"@) == Some(item) || (d.target.text_at("itemRef"@) is None
        && d.target.text_at("sceneId"@) == Some(item))
}

/// Whether nothing that a directive about the picture leaves alone has changed: the
/// package, the outputs, the markers, what was told, and what was applied.
pub open spec fn rest_kept(a: EngineView, b: EngineView) -> bool {
    &&& b.clock == a.clock
    &&& b.last_applied == a.last_applied
    &&& b.package_path == a.package_path
    &&& b.fallback == a.fallback
    &&& b.package == a.package
    &&& b.package_generation == a.package_generation
    &&& b.requested_quality == a.requested_quality
    &&& b.record_dir == a.record_dir
    &&& b.item_audio == a.item_audio
    &&& b.decode_failures_total == a.decode_failures_total
    &&& b.unattributable_decode_failures_total == a.unattributable_decode_failures_total
    &&& b.decode_epoch == a.decode_epoch
    &&& b.takes == a.takes
    &&& b.record_state == a.record_state
    &&& b.record_session == a.record_session
    &&& b.record_tap == a.record_tap
    &&& b.record_tap_selection == a.record_tap_selection
    &&& b.skipped_record_frames == a.skipped_record_frames
    &&& b.stream_state == a.stream_state
    &&& b.stream_session == a.stream_session
    &&& b.stream_tap == a.stream_tap
    &&& b.stream_tap_selection == a.stream_tap_selection
    &&& b.skipped_stream_frames == a.skipped_stream_frames
    &&& b.outgoing == a.outgoing
}

/// Nothing takes effect within a frame: what a directive starts, starts with the
/// frame behind the one it came in.
pub proof fn law_effects_start_with_the_next_frame(f: u64, stopped: u64)
    ensures
        f < u64::MAX ==> frame_after_now(Some(f), stopped) == f + 1,
        frame_after_now(Some(f), stopped) >= f,
        frame_after_now(None, stopped) == stopped,
{
}

/// A take that names an item leaves one more command for the sound: that item
/// with its own asset, in the mode that the take asks for under its sound, and in
/// the mode that follows the picture only where it asks for none.
pub proof fn law_a_take_sounds_as_it_asks(
    e: EngineView,
    d: DirectiveView,
    master: Option<u64>,
    item: Seq<char>,
)
    requires
        names(d, item),
    ensures
        ({
            let after = taken(e, d, master).audio_commands;
            &&& after.len() == e.audio_commands.len() + 1
            &&& after.drop_last() == e.audio_commands
            &&& after.last() matches CommandView::TakeItem {
                item_ref,
                asset_id,
                t0,
                mode,
                ramp_ms,
                crossfade_frames,
            } && {
                &&& item_ref == item
                &&& e.item_audio.dom().contains(item) ==> asset_id == Some(e.item_audio[item])
                &&& !e.item_audio.dom().contains(item) ==> asset_id is None
                &&& master is None ==> t0 == 0
                &&& master matches Some(f) ==> f < u64::MAX ==> t0 == f + 1
                &&& d.payload.member("audio"@) is None ==> mode == "follow"@ && ramp_ms is None
                &&& d.payload.member("audio"@) matches Some(a) ==> {
                    &&& a.text_at("transition"@) matches Some(m) ==> mode == m
                    &&& a.text_at("transition"@) is None ==> mode == "follow"@
                    &&& ramp_ms == number_at(a, "rampMs"@)
                }
                &&& d.payload.text_at("transition"@) != Some("mix"@) ==> crossfade_frames == 0
                &&& d.payload.text_at("transition"@) == Some("mix"@) ==> {
                    &&& d.payload.member("audio"@) matches Some(a) ==> (a.unsigned_at(
                        "durationFrames"@,
                    ) matches Some(n) ==> crossfade_frames == n)
                    &&& (d.payload.member("audio"@) matches Some(a) ==> a.unsigned_at(
                        "durationFrames"@,
                    ) is None) ==> {
                        &&& d.payload.unsigned_at("durationFrames"@) matches Some(n)
                            ==> crossfade_frames == n
                        &&& d.payload.unsigned_at("durationFrames"@) is None ==> crossfade_frames
                            == 15
                    }
                }
            }
        }),
{
    let after = taken(e, d, master).audio_commands;
    assert(after.drop_last() =~= e.audio_commands);
}

/// A take that asks for silence ends in a silent clip bus, and no other take does.
pub proof fn law_only_a_muted_take_is_silent(
    e: EngineView,
    d: DirectiveView,
    master: Option<u64>,
    item: Seq<char>,
    resident: Set<Seq<char>>,
)
    requires
        names(d, item),
    ensures
        action_of(taken(e, d, master).audio_commands.last(), resident) matches ActionView::SwapClip {
            asset_id,
            level,
            ..
        } && {
            &&& level.muted <==> (d.payload.member("audio"@) matches Some(a) && a.text_at(
                "transition"@,
            ) == Some("mute"@))
            &&& e.item_audio.dom().contains(item) && resident.contains(e.item_audio[item])
                ==> asset_id == Some(e.item_audio[item])
            &&& asset_id matches Some(a) ==> resident.contains(a)
        },
{
    reveal_strlit("mute");
    reveal_strlit("follow");
    assert("mute"@.len() == 4 && "follow"@.len() == 6);
}

/// A take that names an item puts it on air from the next frame on, with a
/// transition from what was on air to it: a mix where the take says so, in the
/// frames it names or else fifteen, and a cut otherwise.
pub proof fn law_a_take_shows_its_item(
    e: EngineView,
    d: DirectiveView,
    master: Option<u64>,
    item: Seq<char>,
)
    requires
        names(d, item),
    ensures
        ({
            let after = taken(e, d, master);
            &&& after.view_item == Some(item)
            &&& master is None ==> after.view_item_start_frame == 0
            &&& master matches Some(f) ==> f < u64::MAX ==> after.view_item_start_frame == f + 1
            &&& after.transition matches Some(t) && {
                &&& t.from_item == e.view_item
                &&& t.from_start_frame == e.view_item_start_frame
                &&& t.to_item == item
                &&& t.start_frame == after.view_item_start_frame
                &&& t.kind is Mix <==> d.payload.text_at("transition"@) == Some("mix"@)
                &&& d.payload.unsigned_at("durationFrames"@) matches Some(n) ==> t.duration_frames
                    == n
                &&& d.payload.unsigned_at("durationFrames"@) is None ==> t.duration_frames == (
                if d.payload.text_at("transition"@) == Some("mix"@) {
                    15int
                } else {
                    0
                })
            }
            &&& after.playing matches Some(p) && {
                &&& p.0 == item
                &&& e.playing is None ==> p.1 == 0
                &&& e.playing matches Some(q) ==> q.1 < u64::MAX ==> p.1 == q.1 + 1
            }
            &&& rest_kept(e, after)
            &&& after.fallback_active == e.fallback_active
            &&& after.preview_item == e.preview_item
            &&& after.overlays == e.overlays
            &&& after.markers == e.markers
        }),
{
}

/// A take that names nothing does nothing.
pub proof fn law_a_take_of_nothing_does_nothing(
    e: EngineView,
    d: DirectiveView,
    master: Option<u64>,
)
    requires
        d.target.text_at("itemRef"@) is None,
        d.target.text_at("sceneId"@) is None,
    ensures
        taken(e, d, master) == e,
{
}

/// A mix that interrupts a mix carries beneath it what was on screen: the
/// outgoing item in full, and over it the incoming one as far as it had come.
pub proof fn law_an_interrupted_mix_stays_on_screen(
    e: EngineView,
    d: DirectiveView,
    master: u64,
    item: Seq<char>,
    old: TransitionView,
    from: Seq<char>,
)
    requires
        names(d, item),
        d.payload.text_at("transition"@) == Some("mix"@),
        e.transition == Some(old),
        old.kind is Mix,
        old.underlay is None,
        old.from_item == Some(from),
        old.start_frame <= master < u64::MAX,
        master - old.start_frame < old.duration_frames,
    ensures
        taken(e, d, Some(master)).transition matches Some(t) && t.underlay matches Some(u) && {
            &&& u[0].item == from
            &&& u[0].alpha.num == u[0].alpha.den
            &&& u[0].t0 == old.from_start_frame
            &&& master == old.start_frame ==> u.len() == 1
            &&& master > old.start_frame ==> u.len() == 2 && u[1].item == old.to_item
                && u[1].alpha.num == master - old.start_frame && u[1].alpha.den
                == old.duration_frames && u[1].t0 == old.start_frame
        },
{
    let u = blend(old, master);
    assert(u.len() <= 2);
}

/// The timer of a take tells the end of the item it put on air, after the frames
/// that it names, and of this playing of it; a take without frames has none.
pub proof fn law_a_timer_is_that_of_its_take(
    e: EngineView,
    d: DirectiveView,
    master: Option<u64>,
    item: Seq<char>,
    timer: Option<EndTimer>,
)
    requires
        names(d, item),
        timer_matches(e, d, timer),
    ensures
        timer is Some <==> d.payload.unsigned_at("durationFrames"@) is Some,
        timer matches Some(t) ==> {
            &&& t.item_ref@ == item
            &&& d.payload.unsigned_at("durationFrames"@) matches Some(n) && (n <= u32::MAX
                ==> t.frames == n)
            &&& taken(e, d, master).playing == Some((item, t.generation))
        },
{
}

/// An item's time in milliseconds is its frames over the rate, rounded down.
pub proof fn law_an_item_ends_after_its_frames(frames: u32, rate: u32)
    requires
        rate > 0,
    ensures
        end_after_ms(frames, rate) * rate <= frames * 1000 < (end_after_ms(frames, rate) + 1)
            * rate,
{
    let q = end_after_ms(frames, rate);
    let n = frames * 1000;
    let r = rate as int;
    assert(q * r <= n < (q + 1) * r) by (nonlinear_arith)
        requires
            q == n / r,
            r > 0,
    ;
}

/// A marker is taken just while a recording runs and it has a name, and is then
/// the last one: under its name, at the next frame, with its timecode as it came.
pub proof fn law_a_marker_is_kept_as_it_came(
    e: EngineView,
    d: DirectiveView,
    master: Option<u64>,
)
    ensures
        ({
            let after = marked(e, d, master);
            let taken_in = e.record_state is Recording && (d.payload.text_at("name"@) matches Some(n)
                && n.len() > 0);
            &&& marker_verdict(e, d) is Ok <==> taken_in
            &&& !taken_in ==> after == e
            &&& e.record_state is Idle ==> (marker_verdict(e, d) matches Err(x)
                && x is ForbiddenState)
            &&& e.record_state is Recording && !taken_in ==> (marker_verdict(e, d) matches Err(x)
                && x is Invalid)
            &&& taken_in ==> {
                &&& after.markers.len() == e.markers.len() + 1
                &&& after.markers.drop_last() == e.markers
                &&& Some(after.markers.last().name) == d.payload.text_at("name"@)
                &&& after.markers.last().timecode == d.payload.text_at("timecode"@)
                &&& master is None ==> after.markers.last().frame == 0
                &&& master matches Some(f) ==> f < u64::MAX ==> after.markers.last().frame == f + 1
                &&& rest_kept(e, after)
                &&& after.view_item == e.view_item
            }
        }),
{
    let after = marked(e, d, master);
    if marker_verdict(e, d) is Ok {
        assert(after.markers.drop_last() =~= e.markers);
    }
}

/// The frames an overlay's animation takes: those the directive names, if it names
/// at least one; else those the package declares for that way of the overlay; else
/// one.
pub open spec fn takes_frames(
    n: u64,
    package: Option<PackageView>,
    d: DirectiveView,
    id: Seq<char>,
    show: bool,
) -> bool {
    let asked = match d.payload.member("animation"@) {
        Some(a) => a.unsigned_at("durationFrames"@),
        None => None,
    };
    if asked matches Some(k) && k > 0 {
        Some(n) == asked
    } else {
        &&& package is None ==> n == 1
        &&& package matches Some(p) ==> {
            &&& show && p.overlay_enter_frames.dom().contains(id) ==> n
                == p.overlay_enter_frames[id]
            &&& show && !p.overlay_enter_frames.dom().contains(id) ==> n == 1
            &&& !show && p.overlay_exit_frames.dom().contains(id) ==> n
                == p.overlay_exit_frames[id]
            &&& !show && !p.overlay_exit_frames.dom().contains(id) ==> n == 1
        }
    }
}

/// Showing an overlay that is not on air, or that leaves, makes it enter with the
/// next frame; hiding one that does not leave yet makes it leave with the next
/// frame. No other overlay changes.
pub proof fn law_an_overlay_enters_and_leaves(
    e: EngineView,
    d: DirectiveView,
    master: Option<u64>,
    id: Seq<char>,
    other: Seq<char>,
)
    requires
        d.target.text_at("overlayId"@) == Some(id) || (d.target.text_at("overlayId"@) is None
            && d.payload.text_at("overlayId"@) == Some(id)),
        other != id,
    ensures
        ({
            let after = overlaid(e, d, master);
            let there = e.overlays.dom().contains(id);
            let show = d.command == "overlay.show"@;
            let acts = if show {
                !there || !e.overlays[id].on_air || e.overlays[id].phase is Exit
            } else {
                there && !(e.overlays[id].phase is Exit)
            };
            &&& !acts ==> after == e
            &&& acts ==> after.overlays.dom().contains(id) && {
                let o = after.overlays[id];
                &&& o.on_air
                &&& show ==> o.phase is Enter
                &&& !show ==> o.phase is Exit
                &&& master is None ==> o.anim_start == 1
                &&& master matches Some(f) ==> f < u64::MAX ==> o.anim_start == f + 1
                &&& takes_frames(o.duration_frames, e.package, d, id, show)
            }
            &&& after.overlays.dom().contains(other) == e.overlays.dom().contains(other)
            &&& e.overlays.dom().contains(other) ==> after.overlays[other] == e.overlays[other]
            &&& rest_kept(e, after)
            &&& after.view_item == e.view_item
            &&& after.transition == e.transition
            &&& after.audio_commands == e.audio_commands
            &&& after.markers == e.markers
        }),
{
}

/// A snapshot replaces what it names and keeps what it does not: the item on air
/// from the frame it gives, or else from now; the item in preview from now; the
/// fallback is switched on and never off.
pub proof fn law_a_snapshot_says_what_is_on_air(
    e: EngineView,
    d: DirectiveView,
    master: Option<u64>,
)
    ensures
        ({
            let after = resynced(e, d, master);
            let p = d.payload;
            let now = match master {
                Some(f) => f,
                None => 0u64,
            };
            &&& p.member("viewItem"@) is None ==> after.view_item == e.view_item
                && after.view_item_start_frame == e.view_item_start_frame
            &&& p.member("viewItem"@) matches Some(JsonView::Text(t)) ==> after.view_item == Some(t)
            &&& p.member("viewItem"@) matches Some(JsonView::Null) ==> after.view_item is None
            &&& p.member("viewItem"@) is Some ==> {
                &&& p.unsigned_at("viewItemStartFrame"@) matches Some(f)
                    ==> after.view_item_start_frame == f
                &&& p.unsigned_at("viewItemStartFrame"@) is None ==> after.view_item_start_frame
                    == now
            }
            &&& p.member("previewItem"@) is None ==> after.preview_item == e.preview_item
                && after.preview_item_start_frame == e.preview_item_start_frame
            &&& p.member("previewItem"@) matches Some(JsonView::Text(t)) ==> after.preview_item
                == Some(t) && after.preview_item_start_frame == now
            &&& p.member("previewItem"@) matches Some(JsonView::Null) ==> after.preview_item is None
            &&& p.boolean_at("fallbackActive"@) == Some(true) ==> after.fallback_active
            &&& p.boolean_at("fallbackActive"@) != Some(true) ==> after.fallback_active
                == e.fallback_active
            &&& p.member("visibleOverlays"@) is None ==> after.overlays == e.overlays
            &&& after.transition is None
            &&& after.last_applied == d.state_version
            &&& rest_kept(e, EngineView { last_applied: e.last_applied, ..after })
            &&& after.markers == e.markers
            &&& after.audio_commands == e.audio_commands
        }),
{
}

/// An overlay of a snapshot is on air and at rest from now on.
pub proof fn law_a_snapshot_overlay_is_at_rest(
    items: Seq<JsonView>,
    now: u64,
    n: int,
    i: int,
    id: Seq<char>,
)
    requires
        0 <= i < n <= items.len(),
        items[i] == JsonView::Text(id),
    ensures
        steady_overlays(items, now, n).dom().contains(id),
        steady_overlays(items, now, n)[id].on_air,
        steady_overlays(items, now, n)[id].phase is Steady,
        steady_overlays(items, now, n)[id].anim_start == now,
        steady_overlays(items, now, n)[id].duration_frames == 1,
    decreases n,
{
    if i < n - 1 {
        law_a_snapshot_overlay_is_at_rest(items, now, n - 1, i, id);
    }
}

/// The clock runs after a snapshot just where the snapshot says that the show
/// runs; one that ran before goes on from where it was.
pub proof fn law_a_snapshot_sets_the_clock(e: EngineView, d: DirectiveView, at: Instant)
    ensures
        ({
            let c = clock_resynced(e, d, at).clock;
            let runs = d.payload.text_at("showState"@) == Some("RUNNING"@);
            &&& runs <==> c.epoch is Some
            &&& runs && e.clock.epoch is Some ==> c.epoch == e.clock.epoch
            &&& runs && e.clock.epoch is None ==> c.epoch == Some(at)
            &&& c.house_rate == e.clock.house_rate
        }),
{
}

/// A command is what its name says, and one of any other name is nothing.
pub proof fn law_a_command_is_known_by_its_name(c: Seq<char>)
    ensures
        kind_of(c) is ShowLoad ==> c == "show.load"@,
        kind_of(c) is ShowStart ==> c == "show.start"@,
        kind_of(c) is ShowStop ==> c == "show.stop"@,
        kind_of(c) is Take ==> c == "view.take"@ || c == "view.cut"@,
        kind_of(c) is Fallback ==> c == "view.fallback"@,
        kind_of(c) is Overlay ==> c == "overlay.show"@ || c == "overlay.hide"@,
        kind_of(c) is Audio ==> c == "soundboard.play"@ || c == "soundboard.stop"@ || c
            == "soundboard.stopAll"@ || c == "audio.bus.set"@ || c == "audio.duck"@ || c
            == "guest.mute"@,
        kind_of(c) is RecordStart ==> c == "record.start"@,
        kind_of(c) is RecordStop ==> c == "record.stop"@,
        kind_of(c) is StreamStart ==> c == "stream.start"@,
        kind_of(c) is StreamStop ==> c == "stream.stop"@,
        kind_of(c) is Marker ==> c == "marker.add"@,
        kind_of(c) is Resync ==> c == "show.resync"@,
        kind_of(c) is Other ==> c != "show.load"@ && c != "show.start"@ && c != "show.stop"@ && c
            != "view.take"@ && c != "view.cut"@ && c != "view.fallback"@ && c != "overlay.show"@ && c
            != "overlay.hide"@ && c != "soundboard.play"@ && c != "soundboard.stop"@ && c
            != "soundboard.stopAll"@ && c != "audio.bus.set"@ && c != "audio.duck"@ && c
            != "guest.mute"@ && c != "record.start"@ && c != "record.stop"@ && c != "stream.start"@
            && c != "stream.stop"@ && c != "marker.add"@ && c != "show.resync"@,
{
}

/// The fallback goes on air in place of the item, and nothing else changes.
pub proof fn law_the_fallback_replaces_the_item(
    e: EngineView,
    d: DirectiveView,
    at: Instant,
    master: Option<u64>,
)
    requires
        kind_of(d.command) is Fallback,
    ensures
        ({
            let done = effect_of(e, d, at, master);
            &&& done.1 is Ok
            &&& done.0.fallback_active
            &&& done.0.view_item is None
            &&& rest_kept(e, done.0)
            &&& done.0.overlays == e.overlays
            &&& done.0.markers == e.markers
            &&& done.0.audio_commands == e.audio_commands
            &&& done.0.preview_item == e.preview_item
        }),
{
}

/// A show starts its clock at the moment it is told to, and only once; starting it
/// changes nothing else.
pub proof fn law_a_show_starts_once(e: EngineView, at: Instant, again: Instant)
    ensures
        show_begun(e, at).clock.epoch is Some,
        e.clock.epoch is None ==> show_begun(e, at).clock.epoch == Some(at),
        e.clock.epoch is Some ==> show_begun(e, at) == e,
        show_begun(show_begun(e, at), again) == show_begun(e, at),
        show_begun(e, at).clock.house_rate == e.clock.house_rate,
        rest_kept(e, EngineView { clock: e.clock, ..show_begun(e, at) }),
{
}

/// What is acknowledged is the version of the directive, told once and remembered.
pub proof fn law_an_acknowledgement_tells_the_version(e: EngineView, version: u64)
    ensures
        acked(e, version).last_applied == version,
        acked(e, version).outgoing.len() == e.outgoing.len() + 1,
        acked(e, version).outgoing.drop_last() == e.outgoing,
        acked(e, version).outgoing.last() == (EngineFrameView::AppliedStateVersion {
            state_version: version,
        }),
        rest_kept(
            e,
            EngineView {
                last_applied: e.last_applied,
                outgoing: e.outgoing,
                ..acked(e, version)
            },
        ),
{
    assert(acked(e, version).outgoing.drop_last() =~= e.outgoing);
}

/// A show without outputs just stops. One with outputs forces them where it is told
/// to, ends them in order otherwise, and does not stop where it is told not to and
/// not to force them either; the outputs it names are those that run.
pub proof fn law_a_stop_ends_the_outputs_that_run(e: EngineView, d: DirectiveView)
    ensures
        ({
            let r = e.record_state is Recording && e.record_session;
            let s = e.stream_state is Live && e.stream_session;
            let force = d.payload.boolean_at("force"@) == Some(true);
            let keep = d.payload.boolean_at("quiesceOutputs"@) == Some(false);
            &&& stop_plan(e, d) == Ok::<StopPlan, ErrorView>(StopPlan::Idle) <==> !r && !s
            &&& (r || s) && force ==> stop_plan(e, d) == Ok::<StopPlan, ErrorView>(
                StopPlan::Force { record: r, stream: s },
            )
            &&& (r || s) && !force && !keep ==> stop_plan(e, d) == Ok::<StopPlan, ErrorView>(
                StopPlan::Quiesce { record: r, stream: s },
            )
            &&& (r || s) && !force && keep ==> (stop_plan(e, d) matches Err(x)
                && x is ForbiddenState)
        }),
{
}

/// A show that is over has stopped its clock, voided every lease of a decoder and
/// ended its transition; what is on air, the package and the markers stay.
pub proof fn law_a_show_that_is_over_keeps_its_picture(e: EngineView)
    ensures
        show_over(e).clock.epoch is None,
        show_over(e).clock.house_rate == e.clock.house_rate,
        show_over(e).transition is None,
        show_over(e).decode_epoch != e.decode_epoch,
        e.decode_epoch < u64::MAX ==> show_over(e).decode_epoch == e.decode_epoch + 1,
        show_over(e).view_item == e.view_item,
        show_over(e).markers == e.markers,
        show_over(e).overlays == e.overlays,
        show_over(e).audio_commands == e.audio_commands,
        rest_kept(e, EngineView { clock: e.clock, decode_epoch: e.decode_epoch, ..show_over(e) }),
{
}

/// Forcing a recording drops its session, its tap and its markers; forcing a stream
/// drops its session, its tap and its path; what is not forced is left alone.
pub proof fn law_forced_outputs_are_dropped(e: EngineView, record: bool, stream: bool)
    ensures
        ({
            let a = outputs_forced(e, record, stream);
            &&& record ==> a.record_state is Idle && !a.record_session && !a.record_tap
                && a.markers.len() == 0
            &&& !record ==> a.record_state == e.record_state && a.record_session
                == e.record_session && a.record_tap == e.record_tap && a.markers == e.markers
            &&& stream ==> a.stream_state is Idle && !a.stream_session && !a.stream_tap
                && a.stream_tap_selection is None
            &&& !stream ==> a.stream_state == e.stream_state && a.stream_session
                == e.stream_session && a.stream_tap == e.stream_tap && a.stream_tap_selection
                == e.stream_tap_selection
            &&& a.record_tap_selection == e.record_tap_selection
            &&& a.view_item == e.view_item
            &&& a.clock == e.clock
            &&& a.outgoing == e.outgoing
        }),
{
}

/// Outputs that are ended in order are only taken away: their state and the markers
/// stay until they have ended.
pub proof fn law_outputs_that_stop_keep_their_state(e: EngineView, record: bool, stream: bool)
    ensures
        ({
            let a = outputs_stopping(e, record, stream);
            &&& a.record_state == e.record_state
            &&& a.stream_state == e.stream_state
            &&& a.markers == e.markers
            &&& a.clock == e.clock
            &&& record ==> !a.record_session && !a.record_tap
            &&& !record ==> a.record_session == e.record_session && a.record_tap == e.record_tap
            &&& stream ==> !a.stream_session
            &&& !stream ==> a.stream_session == e.stream_session
            &&& a.stream_tap == e.stream_tap
        }),
{
}

/// Of two failures the recording's is told, and without one the stream's; a show
/// whose outputs ended well has none to tell.
pub proof fn law_the_recording_fails_first(
    record: Option<Result<Result<(), SessionError>, String>>,
    stream: Option<Result<(), crate::record::stream::StreamError>>,
)
    ensures
        record matches Some(Err(_)) ==> (first_failure(record, stream) matches Err(x)
            && x is Invalid),
        record matches Some(Ok(Err(x))) ==> first_failure(record, stream) == Err::<(), ErrorView>(
            super::session_err_of(x),
        ),
        (record is None || record matches Some(Ok(Ok(())))) && (stream matches Some(Err(_))) ==> (
        first_failure(record, stream) matches Err(x) && x is Invalid),
        (record is None || record matches Some(Ok(Ok(())))) && (stream is None
            || stream matches Some(Ok(()))) ==> first_failure(record, stream) is Ok,
{
}

} // verus!

use nbe::json::parse;
use nbe::render::{
    frames_missed, scene_for, video_slot, Bus, FrameSnapshot, RenderState, Rung, VIEW_H, VIEW_W,
};
use nbe::scene::picture::LayerSource;
use nbe::scene::transition::{FrozenLayer, Ratio, Transition, TransitionKind, Underlay};
use nbe::scene::{Fill, PackageIndex, Rgb};

fn index() -> PackageIndex {
    let m = parse(
        r##"{
            "scenes": [
                { "id": "SA", "elements": [ { "id": "a", "kind": "graphic", "fields": { "color": "#0a0000" } } ] },
                { "id": "SB", "elements": [ { "id": "b", "kind": "graphic", "fields": { "color": "#0b0000" } } ] }
            ],
            "rundown": { "items": [
                { "id": "A", "sceneRef": "SA" }, { "id": "B", "sceneRef": "SB" }
            ] }
        }"##,
    )
    .unwrap();
    PackageIndex::build(&m)
}

fn shown(t: &Option<Transition>, frame: u64) -> Vec<(u8, Ratio, u64)> {
    let s = FrameSnapshot {
        view_item: Some("B"),
        view_item_start_frame: 100,
        preview_item: Some("A"),
        preview_item_start_frame: 7,
        transition: t,
    };
    scene_for(&index(), Bus::View, &s, frame)
        .iter()
        .map(|d| {
            let red = match d.scene.layers[0].source {
                LayerSource::Solid(Fill::Named(Rgb { r, .. })) => r,
                _ => 0,
            };
            (red, d.alpha, d.t0)
        })
        .collect()
}

const ONE: Ratio = Ratio { num: 1, den: 1 };

fn mix() -> Transition {
    Transition {
        from_item: Some("A".to_string()),
        from_start_frame: 5,
        to_item: "B".to_string(),
        kind: TransitionKind::Mix,
        duration_frames: 10,
        start_frame: 100,
        underlay: None,
    }
}

#[test]
fn a_mix_shows_both_items_and_then_the_new_one() {
    let t = Some(mix());
    assert_eq!(shown(&t, 99), vec![(0x0a, ONE, 5)]);
    assert_eq!(shown(&t, 104), vec![(0x0a, ONE, 5), (0x0b, Ratio { num: 4, den: 10 }, 100)]);
    assert_eq!(shown(&t, 110), vec![(0x0b, ONE, 100)]);
    assert_eq!(shown(&None, 50), vec![(0x0b, ONE, 100)]);
}

#[test]
fn a_cut_snaps() {
    let t = Some(Transition { kind: TransitionKind::Cut, ..mix() });
    assert_eq!(shown(&t, 100), vec![(0x0b, ONE, 100)]);
}

#[test]
fn an_underlay_lies_under_the_mix() {
    let mut t = mix();
    let half = Ratio { num: 1, den: 2 };
    t.underlay = Some(Underlay {
        layers: vec![
            FrozenLayer { item: "B".to_string(), alpha: ONE, t0: 1 },
            FrozenLayer { item: "A".to_string(), alpha: half, t0: 2 },
        ],
    });
    assert_eq!(
        shown(&Some(t), 101),
        vec![(0x0b, ONE, 1), (0x0a, half, 2), (0x0b, Ratio { num: 1, den: 10 }, 100)]
    );
}

#[test]
fn the_preview_shows_its_own_item() {
    let t = Some(mix());
    let s = FrameSnapshot {
        view_item: Some("B"),
        view_item_start_frame: 100,
        preview_item: Some("A"),
        preview_item_start_frame: 7,
        transition: &t,
    };
    let out = scene_for(&index(), Bus::Preview, &s, 104);
    assert_eq!(out.len(), 1);
    assert_eq!(out[0].t0, 7);
}

#[test]
fn the_preview_gives_way_after_two_late_frames_and_comes_back_after_thirty() {
    let mut s = RenderState::new();
    s.finish_frame(0, Some(true), true, 40, Some(33));
    assert_eq!(s.rung, Rung::Nominal);
    let (report, missed) = s.finish_frame(1, Some(true), true, 34, Some(33));
    assert_eq!(report.view_late_by, Some(1));
    assert_eq!(missed, 1);
    assert_eq!(s.rung, Rung::PreviewHalfRate);
    assert!(s.preview_due(2) && !s.preview_due(3));
    assert_eq!(s.dropped_frames_total, 2);
    for f in 0..29 {
        s.finish_frame(f, None, true, 33, Some(33));
    }
    assert_eq!(s.rung, Rung::PreviewHalfRate);
    s.finish_frame(30, None, true, 10, Some(33));
    assert_eq!(s.rung, Rung::Nominal);
}

#[test]
fn a_failed_picture_brings_the_fallback_and_a_failed_preview_does_not() {
    let mut s = RenderState::new();
    let (report, missed) = s.finish_frame(5, Some(false), true, 10, None);
    assert!(report.preview_failed && !report.rendered_preview);
    assert_eq!(missed, 0);
    assert_eq!(s.preview_missed, 1);
    assert!(!s.fallback_active);
    s.finish_frame(6, None, false, 10, None);
    assert!(s.fallback_active && s.view_failing);
    s.finish_frame(7, None, true, 10, None);
    assert!(s.fallback_active && !s.view_failing);
}

#[test]
fn lateness_is_measured_in_frames_begun() {
    assert_eq!(frames_missed(1, 33), 1);
    assert_eq!(frames_missed(33, 33), 1);
    assert_eq!(frames_missed(34, 33), 2);
    assert_eq!(frames_missed(1, 0), u64::MAX);
}

#[test]
fn a_video_shows_the_frame_it_is_at_or_the_last_there_is() {
    assert_eq!(video_slot(10, 4, 100, 100, false), Some(6));
    assert_eq!(video_slot(3, 4, 100, 100, false), None);
    assert_eq!(video_slot(104, 4, 100, 100, false), None);
    assert_eq!(video_slot(107, 4, 100, 100, true), Some(3));
    assert_eq!(video_slot(50, 4, 100, 10, true), Some(9));
    assert_eq!(video_slot(50, 4, 100, 0, true), None);
    assert_eq!(video_slot(50, 4, 0, 10, true), None);
}

#[test]
fn the_picture_on_air_is_full_hd() {
    assert_eq!((VIEW_W, VIEW_H), (1920, 1080));
}

#[test]
fn the_fallback_stands_in_on_air_only() {
    assert!(nbe::render::shows_fallback(Bus::View, true));
    assert!(!nbe::render::shows_fallback(Bus::View, false));
    assert!(!nbe::render::shows_fallback(Bus::Preview, true));
}

use nbe::json::{parse, Json, Real};
use nbe::manifest::QualityProfile;
use nbe::scene::picture::{Layer, LayerSource};
use nbe::scene::transition::{
    freeze, FrozenLayer, Ratio, Transition, TransitionKind, Underlay, MAX_UNDERLAY_LAYERS,
};
use nbe::scene::{
    declared_loop_budget, image_sources, parse_hex_rgb, parse_quality, DecodedImage, Fill, Number, PackageIndex, Rgb,
};

fn manifest() -> Json {
    parse(
        r##"{
            "qualityProfile": "pro",
            "show": { "video": { "frameRate": 25 } },
            "assets": [
                { "id": "still", "kind": "image", "source": "still.png" },
                { "id": "A1_clip", "kind": "video", "source": "a1.mp4" },
                { "id": "bug", "kind": "alphaVideo", "source": "bug.mov", "loop": { "periodFrames": 90 } },
                { "id": "bed", "kind": "audio", "source": "bed.wav" },
                { "kind": "video", "source": "nameless.mp4" }
            ],
            "scenes": [
                { "id": "S1", "elements": [
                    { "id": "top", "kind": "graphic", "z": 9, "fields": { "color": "#10a0Ff" } },
                    { "id": "loop", "kind": "videoLoop", "z": -1, "assetId": "bug" },
                    { "id": "ghost", "kind": "clip", "z": 0, "assetId": "A1_clip", "opacity": 0 },
                    { "id": "clip", "kind": "clip", "z": 1, "assetId": "A1_clip",
                      "transform": { "x": 0.5, "w": 1 } },
                    { "id": "plain", "kind": "graphic", "z": 1 },
                    { "id": "hidden", "kind": "graphic", "z": 2, "visible": false },
                    { "kind": "graphic" }
                ] },
                { "id": "S2", "elements": [
                    { "id": "pic", "kind": "clip", "assetId": "still" },
                    { "id": "away", "kind": "clip", "assetId": "A1_clip", "audio": { "bus": "music" } },
                    { "id": "quiet", "kind": "clip", "assetId": "A1_clip", "audio": { "muted": true } }
                ] }
            ],
            "rundown": { "items": [
                { "id": "A1", "kind": "sceneRef", "sceneRef": "S1" },
                { "id": "A2", "kind": "sceneRef", "sceneRef": "S2" },
                { "id": "A3", "kind": "slate", "sceneRef": "S1" },
                { "id": "A4", "kind": "sceneRef", "sceneRef": "S1", "audioPolicy": "mute" },
                { "id": "A0", "kind": "sceneRef", "sceneRef": "S1", "audioPolicy": "bed" },
                { "id": "A5", "kind": "sceneRef", "sceneRef": "nowhere" }
            ] }
        }"##,
    )
    .unwrap()
}

fn zs(layers: &[Layer]) -> Vec<i64> {
    layers.iter().map(|l| l.z).collect()
}

#[test]
fn a_package_is_indexed_by_what_it_declares() {
    let idx = PackageIndex::build(&manifest());
    assert_eq!(idx.requested_quality, Some(QualityProfile::Pro));
    assert_eq!(idx.declared_house_rate, Some(25));
    assert_eq!(idx.asset_kind.get("bug").map(|s| s.as_str()), Some("alphaVideo"));
    assert_eq!(idx.declared_loop_period.get("bug"), Some(&90));
    assert!(idx.declared_loop_period.get("A1_clip").is_none());
    assert_eq!(
        image_sources(&manifest()),
        vec![("still".to_string(), "still.png".to_string())]
    );
}

#[test]
fn layers_are_drawn_lowest_first() {
    let idx = PackageIndex::build(&manifest());
    let scene = idx.resolve(Some("A1"));
    assert_eq!(zs(&scene.layers), vec![-1, 1, 1, 9]);
    assert!(matches!(
        &scene.layers[0].source,
        LayerSource::Video { asset_id, looping: true } if asset_id == "bug"
    ));
    assert!(matches!(
        &scene.layers[1].source,
        LayerSource::Video { asset_id, looping: false } if asset_id == "A1_clip"
    ));
    assert_eq!(
        scene.layers[1].rect.x,
        Some(Number::Fraction(Real { bits: 0.5f64.to_bits() }))
    );
    assert_eq!(scene.layers[1].rect.y, None);
    assert_eq!(scene.layers[1].rect.w, Some(Number::Unsigned(1)));
    assert!(matches!(scene.layers[2].source, LayerSource::Solid(Fill::Placeholder)));
    assert!(matches!(
        scene.layers[3].source,
        LayerSource::Solid(Fill::Named(Rgb { r: 0x10, g: 0xa0, b: 0xff }))
    ));
}

#[test]
fn an_item_without_a_picture_is_empty_and_a_slate_is_a_slate() {
    let idx = PackageIndex::build(&manifest());
    assert!(idx.resolve(None).is_empty());
    assert!(idx.resolve(Some("A5")).is_empty());
    assert!(idx.resolve(Some("unknown")).is_empty());
    let slate = idx.resolve(Some("A3"));
    assert_eq!(slate.layers.len(), 1);
    assert!(matches!(slate.layers[0].source, LayerSource::Solid(Fill::Slate)));
}

#[test]
fn sound_comes_from_what_is_drawn() {
    let idx = PackageIndex::build(&manifest());
    assert_eq!(idx.item_audio_asset("A1").as_deref(), Some("A1_clip"));
    assert_eq!(idx.item_audio_asset("A0").as_deref(), Some("A1_clip"));
    assert_eq!(idx.item_audio_asset("A2"), None);
    assert_eq!(idx.item_audio_asset("A3"), None);
    assert_eq!(idx.item_audio_asset("A4"), None);
    let map = idx.item_audio_map();
    assert_eq!(map.len(), 2);
    assert_eq!(map.get("A1").map(|s| s.as_str()), Some("A1_clip"));
}

#[test]
fn a_failure_finds_the_items_that_show_the_asset() {
    let idx = PackageIndex::build(&manifest());
    assert_eq!(idx.items_using_asset("A1_clip"), vec!["A0", "A1", "A2", "A3", "A4"]);
    assert_eq!(idx.items_using_asset("still"), vec!["A2"]);
    assert!(idx.items_using_asset("bed").is_empty());
}

/// A picture of one red and one blue pixel, as a file.
fn png() -> Vec<u8> {
    vec![
        137, 80, 78, 71, 13, 10, 26, 10, 0, 0, 0, 13, 73, 72, 68, 82, 0, 0, 0, 2, 0, 0, 0, 1, 8, 2,
        0, 0, 0, 123, 64, 232, 221, 0, 0, 0, 18, 73, 68, 65, 84, 120, 1, 1, 7, 0, 248, 255, 0, 255,
        0, 0, 0, 0, 255, 7, 0, 1, 255, 85, 54, 186, 199, 0, 0, 0, 0, 73, 69, 78, 68, 174, 66, 96,
        130,
    ]
}

#[test]
fn an_image_is_shown_once_it_is_read() {
    let mut idx = PackageIndex::build(&manifest());
    assert!(idx.resolve(Some("A2")).layers.iter().all(|l| !matches!(l.source, LayerSource::Image(_))));
    assert!(!idx.install_image("still", b"not an image"));
    assert!(idx.install_image("still", &png()));
    assert!(matches!(
        &idx.resolve(Some("A2")).layers[0].source,
        LayerSource::Image(a) if a == "still"
    ));
    assert_eq!(idx.images.get("still").unwrap().rgba, vec![255, 0, 0, 255, 0, 0, 255, 255]);
    let img = DecodedImage::decode(&png()).unwrap();
    assert_eq!((img.width, img.height), (2, 1));
    assert_eq!(img.rgba, vec![255, 0, 0, 255, 0, 0, 255, 255]);
    assert!(DecodedImage::decode(&[1, 2, 3]).is_none());
}

#[test]
fn a_generated_slate_is_one_color() {
    let s = DecodedImage::generated_slate(3, 2, [1, 2, 3, 4]);
    assert_eq!(s.rgba, [1u8, 2, 3, 4].repeat(6));
}

#[test]
fn colors_and_qualities_are_read_strictly() {
    assert_eq!(parse_hex_rgb("#010203"), Some(Rgb { r: 1, g: 2, b: 3 }));
    assert_eq!(parse_hex_rgb("#+10203"), Some(Rgb { r: 1, g: 2, b: 3 }));
    assert_eq!(parse_hex_rgb("010203"), None);
    assert_eq!(parse_hex_rgb("#01020"), None);
    assert_eq!(parse_hex_rgb("#01020g"), None);
    assert_eq!(parse_quality("potato"), Some(QualityProfile::Potato));
    assert_eq!(parse_quality("reference"), Some(QualityProfile::Reference));
    assert_eq!(parse_quality("ultra"), None);
}

fn mix(from: Option<&str>, to: &str, start: u64, frames: u64) -> Transition {
    Transition {
        from_item: from.map(|s| s.to_string()),
        from_start_frame: 3,
        to_item: to.to_string(),
        kind: TransitionKind::Mix,
        duration_frames: frames,
        start_frame: start,
        underlay: None,
    }
}

#[test]
fn progress_counts_frames() {
    let t = mix(Some("a"), "b", 100, 20);
    assert_eq!(t.progress(99), Ratio { num: 0, den: 1 });
    assert_eq!(t.progress(100), Ratio { num: 0, den: 20 });
    assert_eq!(t.progress(105), Ratio { num: 5, den: 20 });
    assert_eq!(t.progress(120), Ratio { num: 1, den: 1 });
    assert!(!t.is_complete(119));
    assert!(t.is_complete(120));
    let cut = Transition { kind: TransitionKind::Cut, ..mix(None, "b", 100, 20) };
    assert!(!cut.is_complete(99));
    assert!(cut.is_complete(100));
    assert!(mix(None, "b", 100, 0).is_complete(100));
}

#[test]
fn an_interrupted_mix_is_frozen_under_the_next() {
    let old = Some(mix(Some("a"), "b", 100, 20));
    let u = freeze(&old, TransitionKind::Mix, 105).unwrap();
    assert_eq!(u.layers.len(), 2);
    assert_eq!((u.layers[0].item.as_str(), u.layers[0].t0), ("a", 3));
    assert_eq!(u.layers[0].alpha, Ratio { num: 1, den: 1 });
    assert_eq!((u.layers[1].item.as_str(), u.layers[1].t0), ("b", 100));
    assert_eq!(u.layers[1].alpha, Ratio { num: 5, den: 20 });
    assert!(freeze(&old, TransitionKind::Cut, 105).is_none());
    assert!(freeze(&old, TransitionKind::Mix, 120).is_none());
    assert!(freeze(&None, TransitionKind::Mix, 105).is_none());
    assert!(freeze(&Some(mix(None, "b", 100, 20)), TransitionKind::Mix, 100).is_none());
}

#[test]
fn frozen_layers_are_bounded_and_keep_their_base() {
    let layers: Vec<FrozenLayer> = (0..MAX_UNDERLAY_LAYERS)
        .map(|i| FrozenLayer { item: format!("i{i}"), alpha: Ratio { num: 1, den: 2 }, t0: 0 })
        .collect();
    let mut t = mix(Some("stale"), "new", 10, 20);
    t.underlay = Some(Underlay { layers });
    let u = freeze(&Some(t), TransitionKind::Mix, 15).unwrap();
    assert_eq!(u.layers.len(), MAX_UNDERLAY_LAYERS);
    assert_eq!(u.layers[0].item, "i0");
    assert_eq!(u.layers[1].item, "i2");
    assert_eq!(u.layers.last().unwrap().item, "new");
}

#[test]
fn a_loop_declares_its_memory() {
    let m = parse(
        r#"{"assets":[
            {"id":"a","loop":{"vramBudgetMib":64}},
            {"id":"b","loop":{"vramBudgetMib":4294967296}},
            {"id":"a","loop":{"vramBudgetMib":128}},
            {"id":"a","loop":{}},
            {"id":"c"}]}"#,
    )
    .unwrap();
    assert_eq!(declared_loop_budget(&m, "a"), Some(128));
    assert_eq!(declared_loop_budget(&m, "b"), None);
    assert_eq!(declared_loop_budget(&m, "c"), None);
    assert_eq!(declared_loop_budget(&parse("{}").unwrap(), "a"), None);
}

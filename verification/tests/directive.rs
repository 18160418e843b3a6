use nbe::audio_control::AudioCommand;
use nbe::clock::{ClockState, MasterClock};
use nbe::directive::dispatch::{Step, StopPlan};
use nbe::directive::engine::{DirectiveHandler, OverlayPhase, RecordState, StreamState};
use nbe::directive::load::{
    fallback_source, join_path, overlay_frames, video_assets, ManifestFile, ShowFiles,
};
use nbe::directive::outputs::{record_show_name, tap_override};
use nbe::directive::take::done_after_ms;
use nbe::directive::{
    check_record_resolution, finish_err, resolve_stream_url, session_err, stream_err,
    DirectiveError, PlaybackTracker, Timestamps,
};
use nbe::json::parse;
use nbe::manifest::{StreamOutput, TapPathPreference};
use nbe::protocol::{DirectiveFrame, EngineFrame, ItemEvent, RESYNC};
use nbe::record::session::SessionError;
use nbe::record::stream::StreamError;
use nbe::record::tap_path::{Reason, TapPath};
use nbe::record::thread::{ControlMsg, DriveStep};
use nbe::record::RecordError;
use nbe::scene::transition::TransitionKind;
use nbe::scene::PackageIndex;
use nbe::strmap::StrMap;
use std::time::{Duration, Instant};

fn d(command: &str, target: &str, payload: &str) -> DirectiveFrame {
    DirectiveFrame {
        v: "0.4".to_string(),
        seq: 1,
        state_version: 7,
        command: command.to_string(),
        target: parse(target).unwrap(),
        payload: parse(payload).unwrap(),
    }
}

const MANIFEST: &str = r#"{
    "qualityProfile": "consumer",
    "show": {
        "title": "Evening", "id": "ev", "fallbackAssetId": "slate",
        "outputs": { "record": { "directory": "rec" } }
    },
    "assets": [
        { "id": "slate", "kind": "image", "source": "media/slate.png" },
        { "id": "A1_clip", "kind": "video", "source": "a1.mp4" },
        { "id": "lost", "kind": "video", "source": "lost.mp4" }
    ],
    "scenes": [ { "id": "S", "elements": [ { "id": "e", "kind": "clip", "assetId": "A1_clip" } ] } ],
    "rundown": { "items": [ { "id": "A1", "kind": "sceneRef", "sceneRef": "S" } ] }
}"#;

fn files(fallback: Result<Vec<u8>, String>, failures: &[(&str, &str)]) -> ShowFiles {
    let mut enter = StrMap::new();
    enter.insert("bug", 12u64);
    ShowFiles {
        fallback,
        images: Vec::new(),
        failures: failures.iter().map(|f| (f.0.to_string(), f.1.to_string())).collect(),
        overlay_enter_frames: enter,
        overlay_exit_frames: StrMap::new(),
    }
}

fn loaded() -> DirectiveHandler {
    let mut h = DirectiveHandler::new(30);
    h.on_show_load(
        &d("show.load", "{}", r#"{"packagePath":"/pkg"}"#),
        &ManifestFile::Text(MANIFEST.to_string()),
        files(Ok(vec![1, 2]), &[]),
    )
    .unwrap();
    h
}

fn running() -> DirectiveHandler {
    let mut h = loaded();
    h.apply(&d("show.start", "{}", "{}")).unwrap();
    h
}

fn recording() -> DirectiveHandler {
    let mut h = running();
    assert!(matches!(h.apply(&d("record.start", "{}", "{}")), Ok(Step::RecordStart(_))));
    h.record_probed(&d("record.start", "{}", "{}"), Ok(true), None, 5).unwrap();
    h.record_opened(Ok(()), true, None).unwrap();
    h
}

fn live() -> DirectiveHandler {
    let mut h = running();
    h.stream_opened(true, &None).unwrap();
    h
}

fn acks(h: &DirectiveHandler) -> usize {
    h.outgoing.iter().filter(|f| matches!(f, EngineFrame::AppliedStateVersion { .. })).count()
}

#[test]
fn messages_carry_stable_tokens() {
    let m = |e: DirectiveError| e.message();
    assert_eq!(m(DirectiveError::NoPackage("x".into())), "no package loaded: x");
    assert_eq!(m(DirectiveError::FallbackMissing("x".into())), "fallback slate not resident: x");
    assert_eq!(m(DirectiveError::Io("x".into())), "io: x");
    assert_eq!(m(DirectiveError::Invalid("x".into())), "invalid directive: x");
    assert_eq!(m(DirectiveError::ForbiddenState("x".into())), "E_FORBIDDEN_STATE: x");
    assert_eq!(m(DirectiveError::NoHardwareEncoder("x".into())), "E_NO_HARDWARE_ENCODER: x");
    assert_eq!(m(DirectiveError::Timeout("x".into())), "E_RECORD_TIMEOUT: x");
    assert_eq!(m(DirectiveError::Unsupported("x".into())), "E_UNSUPPORTED: x");
    assert_eq!(m(DirectiveError::Disk("x".into())), "E_DISK: x");
    assert_eq!(m(finish_err(RecordError::Disk("full".into()))), "E_DISK: full");
    assert_eq!(
        m(finish_err(RecordError::Input("odd".into()))),
        "invalid directive: E_RECORD_INPUT: odd"
    );
    assert_eq!(m(session_err(SessionError::Timeout("t".into()))), "E_RECORD_TIMEOUT: t");
    assert_eq!(m(session_err(SessionError::NoEncoder("n".into()))), "E_NO_HARDWARE_ENCODER: n");
    assert_eq!(
        m(session_err(SessionError::Record(RecordError::Disk("full".into())))),
        "E_DISK: full"
    );
    assert_eq!(
        m(stream_err(StreamError::NoChain("none".into()))),
        "invalid directive: E_NO_ZEROCOPY: none"
    );
}

#[test]
fn the_commands_url_wins_and_blank_is_silent() {
    let r = resolve_stream_url;
    assert_eq!(r(Some("rtmp://m/a/k"), Some(" rtmp://c/a/k ")).unwrap(), "rtmp://c/a/k");
    assert_eq!(r(Some("rtmp://m/a/k"), Some("  ")).unwrap(), "rtmp://m/a/k");
    assert_eq!(r(None, Some("RTMP://c/a/k")).unwrap(), "RTMP://c/a/k");
    let none = r(None, None).unwrap_err().message();
    assert!(none.contains("E_BAD_PAYLOAD") && none.contains("publish target"));
    let http = r(None, Some("http://x")).unwrap_err().message();
    assert!(http.ends_with("not an rtmp:// publish target: http://x"));
}

#[test]
fn recordings_are_no_larger_than_they_can_be() {
    assert!(check_record_resolution(1920, 1080).is_ok());
    let e = check_record_resolution(3840, 2160).unwrap_err().message();
    assert!(e.starts_with("E_UNSUPPORTED: record geometry 3840x2160 exceeds the 1920x1080 ceiling"));
    assert!(check_record_resolution(1920, 1081).is_err());
}

#[test]
fn takes_have_names_of_their_own() {
    let mut t = Timestamps::new();
    assert_eq!(t.default_timestamp(1234), "session-1234-0");
    assert_eq!(t.default_timestamp(1234), "session-1234-1");
}

#[test]
fn a_later_playing_ends_the_earlier_one() {
    let mut p = PlaybackTracker::new();
    let a = p.begin("A");
    assert!(p.is_current("A", a));
    let b = p.begin("A");
    assert!(!p.is_current("A", a));
    assert!(p.is_current("A", b));
    assert!(!p.is_current("B", b));
    assert_eq!((a, b), (0, 1));
}

#[test]
fn a_load_puts_the_package_in_place() {
    let h = loaded();
    assert_eq!(h.package_path.as_deref(), Some("/pkg"));
    assert_eq!(h.fallback.as_ref().unwrap().path, "/pkg/media/slate.png");
    assert_eq!(h.fallback.as_ref().unwrap().bytes, vec![1, 2]);
    assert_eq!(h.record_dir.as_deref(), Some("/pkg/rec"));
    assert_eq!(h.item_audio.get("A1").map(|s| s.as_str()), Some("A1_clip"));
    assert_eq!(h.package_generation, 1);
    assert_eq!(h.decode_epoch, 1);
}

#[test]
fn a_load_that_fails_says_why() {
    let load = |payload: &str, m: ManifestFile, f: ShowFiles| {
        let mut h = DirectiveHandler::new(30);
        let e = h.on_show_load(&d("show.load", "{}", payload), &m, f).unwrap_err().message();
        assert!(h.package.is_none());
        e
    };
    let path = r#"{"packagePath":"/p"}"#;
    let ok = || files(Ok(vec![]), &[]);
    let text = |t: &str| ManifestFile::Text(t.to_string());
    assert_eq!(load("{}", text("{}"), ok()), "invalid directive: show.load missing packagePath");
    assert_eq!(
        load(path, ManifestFile::Unreadable("gone".into()), ok()),
        "invalid directive: cannot open manifest: gone"
    );
    assert!(load(path, text("{"), ok()).starts_with("invalid directive: manifest not valid JSON: "));
    assert_eq!(
        load(path, ManifestFile::Garbled("not text".into()), ok()),
        "invalid directive: manifest not valid JSON: not text"
    );
    assert_eq!(load(path, text("{}"), ok()), "invalid directive: manifest has no fallbackAssetId");
    assert_eq!(
        load(path, text(r#"{"show":{"fallbackAssetId":"x"}}"#), ok()),
        "invalid directive: fallback asset has no source"
    );
    assert_eq!(
        load(path, text(MANIFEST), files(Err("/p/media/slate.png: gone".into()), &[])),
        "fallback slate not resident: /p/media/slate.png: gone"
    );
}

#[test]
fn a_failure_to_decode_is_told_to_its_items_or_counted() {
    let mut h = DirectiveHandler::new(30);
    h.on_show_load(
        &d("show.load", "{}", r#"{"packagePath":"/pkg"}"#),
        &ManifestFile::Text(MANIFEST.to_string()),
        files(Ok(vec![]), &[("A1_clip", "E_DECODE"), ("lost", "E_DECODE")]),
    )
    .unwrap();
    assert_eq!(h.decode_failures_total, 2);
    assert_eq!(h.unattributable_decode_failures_total, 1);
    assert_eq!(h.outgoing.len(), 1);
    assert!(matches!(
        &h.outgoing[0],
        EngineFrame::ItemEvent { item_ref, event: ItemEvent::DecodeError, detail: Some(t) }
            if item_ref == "A1" && t == "E_DECODE"
    ));
}

#[test]
fn the_files_of_a_package_are_found() {
    let m = parse(MANIFEST).unwrap();
    assert_eq!(fallback_source(&m).unwrap(), "media/slate.png");
    let mut videos: Vec<String> =
        video_assets(&PackageIndex::build(&m)).iter().map(|v| v.asset_id.clone()).collect();
    videos.sort();
    assert_eq!(videos, vec!["A1_clip", "lost"]);
    assert_eq!(join_path("/a", "b"), "/a/b");
    assert_eq!(join_path("/a/", "b"), "/a/b");
    assert_eq!(join_path("/a", "/b"), "/b");
    assert_eq!(join_path("", "b"), "b");
    assert_eq!(record_show_name(Some(&m)), "Evening");
    assert_eq!(record_show_name(Some(&parse(r#"{"show":{"id":"x"}}"#).unwrap())), "x");
    assert_eq!(record_show_name(Some(&parse(r#"{"show":{"title":"","id":"x"}}"#).unwrap())), "show");
    assert_eq!(record_show_name(None), "show");
}

#[test]
fn a_take_goes_on_air_with_the_next_frame() {
    let mut h = loaded();
    let take = d("view.take", r#"{"itemRef":"A1"}"#, r#"{"transition":"mix","durationFrames":20}"#);
    let timer = h.take_at(&take, Some(99)).unwrap();
    assert_eq!((timer.item_ref.as_str(), timer.frames, timer.generation), ("A1", 20, 0));
    let t = h.transition.as_ref().unwrap();
    assert_eq!((t.start_frame, t.duration_frames, t.kind), (100, 20, TransitionKind::Mix));
    assert!(t.underlay.is_none() && t.from_item.is_none());
    assert_eq!(h.view_item.as_deref(), Some("A1"));
    assert_eq!(h.view_item_start_frame, 100);
    match &h.audio_commands[0] {
        AudioCommand::TakeItem { asset_id, t0, mode, ramp_ms, crossfade_frames, .. } => {
            assert_eq!(asset_id.as_deref(), Some("A1_clip"));
            assert_eq!((*t0, mode.as_str(), *crossfade_frames), (100, "follow", 20));
            assert!(ramp_ms.is_none());
        }
        other => panic!("{other:?}"),
    }
    let next = d("view.take", r#"{"sceneId":"B"}"#, r#"{"transition":"mix"}"#);
    assert!(h.take_at(&next, Some(104)).is_none());
    let t = h.transition.as_ref().unwrap();
    assert_eq!(t.duration_frames, 15);
    let u = t.underlay.as_ref().unwrap();
    assert_eq!(u.layers.len(), 1);
    assert_eq!((u.layers[0].item.as_str(), u.layers[0].alpha.num), ("A1", 4));
    h.take_at(&d("view.cut", r#"{"itemRef":"C"}"#, "{}"), Some(106));
    let t = h.transition.as_ref().unwrap();
    assert!(t.underlay.is_none());
    assert_eq!((t.kind, t.duration_frames), (TransitionKind::Cut, 0));
    assert!(h.take_at(&d("view.take", "{}", "{}"), Some(107)).is_none());
    assert_eq!(h.view_item.as_deref(), Some("C"));
}

#[test]
fn the_end_of_an_item_is_told_once_and_only_while_it_plays() {
    let mut h = running();
    let take = d("view.take", r#"{"itemRef":"A1"}"#, r#"{"durationFrames":30}"#);
    let first = match h.apply(&take).unwrap() {
        Step::Done(Some(t)) => t,
        other => panic!("{other:?}"),
    };
    assert!(h.on_done("A1", first.generation));
    h.apply(&take).unwrap();
    assert!(!h.on_done("A1", first.generation));
    h.apply(&d("show.stop", "{}", "{}")).unwrap();
    assert!(!h.on_done("A1", first.generation + 1));
    assert_eq!(done_after_ms(30, 30), 1000);
    assert_eq!(done_after_ms(1, 30), 33);
}

#[test]
fn overlays_enter_leave_and_come_back() {
    let mut h = loaded();
    let show = d("overlay.show", r#"{"overlayId":"bug"}"#, "{}");
    let hide = d("overlay.hide", "{}", r#"{"overlayId":"bug"}"#);
    h.overlay_at(&hide, Some(1));
    assert_eq!(h.overlays.len(), 0);
    h.overlay_at(&show, Some(9));
    let o = *h.overlays.get("bug").unwrap();
    assert_eq!((o.anim_start, o.duration_frames, o.phase), (10, 12, OverlayPhase::Enter));
    h.overlay_at(&show, Some(20));
    assert_eq!(h.overlays.get("bug").unwrap().anim_start, 10);
    h.overlay_at(&hide, Some(29));
    let o = *h.overlays.get("bug").unwrap();
    assert_eq!((o.anim_start, o.duration_frames, o.phase), (30, 1, OverlayPhase::Exit));
    h.overlay_at(&hide, Some(40));
    assert_eq!(h.overlays.get("bug").unwrap().anim_start, 30);
    let quick = d(
        "overlay.show",
        r#"{"overlayId":"bug"}"#,
        r#"{"animation":{"durationFrames":3}}"#,
    );
    h.overlay_at(&quick, None);
    let o = *h.overlays.get("bug").unwrap();
    assert_eq!((o.anim_start, o.duration_frames, o.phase), (1, 3, OverlayPhase::Enter));
}

#[test]
fn a_snapshot_replaces_everything_it_names() {
    let mut h = running();
    h.apply(&d("view.take", r#"{"itemRef":"A1"}"#, r#"{"transition":"mix"}"#)).unwrap();
    h.apply(&d("overlay.show", r#"{"overlayId":"bug"}"#, "{}")).unwrap();
    let snap = d(
        RESYNC,
        "{}",
        r#"{"showState":"RUNNING","viewItem":"B","viewItemStartFrame":40,"previewItem":null,
            "fallbackActive":true,"visibleOverlays":["lower",3]}"#,
    );
    assert!(matches!(h.apply(&snap), Ok(Step::Done(None))));
    assert_eq!(h.view_item.as_deref(), Some("B"));
    assert_eq!(h.view_item_start_frame, 40);
    assert!(h.preview_item.is_none() && h.transition.is_none() && h.fallback_active);
    assert_eq!(h.overlays.len(), 1);
    assert_eq!(h.overlays.get("lower").unwrap().phase, OverlayPhase::Steady);
    assert_eq!(h.last_applied, 7);
    h.apply(&d(RESYNC, "{}", "{}")).unwrap();
    assert_eq!(h.clock.state(), ClockState::Stopped);
    assert_eq!(h.view_item.as_deref(), Some("B"));
    assert_eq!(h.overlays.len(), 1);
}

#[test]
fn a_recording_starts_only_where_it_may() {
    let mut h = loaded();
    let start = d("record.start", "{}", r#"{"outputId":"ep1"}"#);
    assert_eq!(
        h.apply(&start).unwrap_err().message(),
        "E_FORBIDDEN_STATE: record.start requires a running show"
    );
    let mut h = running();
    match h.apply(&start).unwrap() {
        Step::RecordStart(dir) => assert_eq!(dir, "/pkg/rec"),
        other => panic!("{other:?}"),
    }
    let full = h.record_probed(&start, Err(RecordError::Disk("full".into())), None, 5);
    assert_eq!(full.unwrap_err().message(), "E_DISK: full");
    let none = h.record_probed(&start, Ok(false), None, 5).unwrap_err().message();
    assert!(none.starts_with("E_NO_HARDWARE_ENCODER: record.start"));
    let m = parse(MANIFEST).unwrap();
    let plan = h.record_probed(&start, Ok(true), Some(&m), 5).unwrap();
    assert_eq!((plan.show.as_str(), plan.episode.as_str()), ("Evening", "ep1"));
    assert_eq!(plan.start_timestamp, "session-5-0");
    assert_eq!((plan.width, plan.height, plan.fps), (1920, 1080, 30));
    let sel = h.record_opened(Ok(()), true, tap_override(Some(TapPathPreference::CpuReadback))).unwrap();
    assert_eq!((sel.path, sel.reason), (TapPath::CpuReadback, Reason::Override));
    assert_eq!(h.record_state, RecordState::Recording);
    assert_eq!(
        h.apply(&start).unwrap_err().message(),
        "E_FORBIDDEN_STATE: record.start while already recording"
    );
    h.record_dir = None;
    h.record_state = RecordState::Idle;
    assert!(h.apply(&start).unwrap_err().message().contains("no record directory"));
}

#[test]
fn markers_belong_to_a_recording() {
    let mut h = running();
    let add = d("marker.add", "{}", r#"{"name":"goal","timecode":"00:01"}"#);
    assert_eq!(
        h.apply(&add).unwrap_err().message(),
        "E_FORBIDDEN_STATE: marker.add requires an active recording"
    );
    let mut h = recording();
    h.marker_at(&add, Some(41)).unwrap();
    let list = h.markers.list();
    assert_eq!((list[0].name.as_str(), list[0].frame), ("goal", 42));
    assert_eq!(list[0].timecode.as_deref(), Some("00:01"));
    let nameless = d("marker.add", "{}", r#"{"name":""}"#);
    assert_eq!(
        h.apply(&nameless).unwrap_err().message(),
        "invalid directive: marker.add missing name"
    );
}

#[test]
fn a_recording_stops_and_clears_its_markers_unless_it_is_late() {
    let add = d("marker.add", "{}", r#"{"name":"goal"}"#);
    let stop = d("record.stop", "{}", "{}");
    let ended = |end: Option<Result<(), SessionError>>| {
        let mut h = recording();
        h.apply(&add).unwrap();
        assert!(matches!(h.apply(&stop), Ok(Step::RecordStop(true))));
        assert!(!h.record_tap && !h.record_session);
        let r = h.record_stopped(end);
        assert_eq!(h.record_state, RecordState::Idle);
        (r.err().map(|e| e.message()), h.markers.list().len())
    };
    assert_eq!(ended(Some(Ok(()))), (None, 0));
    assert_eq!(ended(None), (None, 1));
    assert_eq!(
        ended(Some(Err(SessionError::Timeout("t".into())))),
        (Some("E_RECORD_TIMEOUT: t".to_string()), 1)
    );
    assert_eq!(
        ended(Some(Err(SessionError::NoEncoder("n".into())))),
        (Some("E_NO_HARDWARE_ENCODER: n".to_string()), 0)
    );
    assert_eq!(
        loaded().apply(&stop).unwrap_err().message(),
        "E_FORBIDDEN_STATE: record.stop requires an active recording"
    );
}

fn output(url: &str, tap: TapPathPreference) -> Option<StreamOutput> {
    Some(StreamOutput {
        protocol: None,
        url: Some(url.to_string()),
        tap_path: Some(tap),
        video_bitrate_kbps: Some(6000),
        audio_bitrate_kbps: None,
    })
}

#[test]
fn stream_start_refusal_order_is_config_then_chain_then_encoder() {
    let start = d("stream.start", "{}", "{}");
    let cpu = output("rtmp://h/a/k", TapPathPreference::CpuReadback);
    let auto = output("rtmp://h/a/k", TapPathPreference::Auto);
    assert!(loaded().on_stream_start(&start, &auto).unwrap_err().message().contains("running show"));
    assert!(live().on_stream_start(&start, &auto).unwrap_err().message().contains("already live"));
    let h = running();
    assert!(h.on_stream_start(&start, &None).unwrap_err().message().contains("E_BAD_PAYLOAD"));
    let number = d("stream.start", "{}", r#"{"url":7}"#);
    assert_eq!(
        h.on_stream_start(&number, &auto).unwrap_err().message(),
        "invalid directive: E_BAD_PAYLOAD: stream.start url must be a string"
    );
    assert!(h.on_stream_start(&start, &cpu).unwrap_err().message().contains("E_NO_ZEROCOPY"));
    assert_eq!(h.on_stream_start(&start, &auto).unwrap(), "rtmp://h/a/k");
    let chain = DirectiveHandler::stream_chain(false).unwrap_err().message();
    assert!(chain.starts_with("invalid directive: E_NO_ZEROCOPY: stream.start refused: machine has no"));
    assert!(DirectiveHandler::stream_chain(true).is_ok());
    let mut h = running();
    assert!(h.stream_opened(false, &auto).unwrap_err().message().starts_with("E_NO_HARDWARE_ENCODER"));
    assert_eq!(h.stream_state, StreamState::Idle);
    let (sel, params) = h.stream_opened(true, &auto).unwrap();
    assert_eq!((sel.path, sel.reason), (TapPath::ZeroCopy, Reason::Table));
    assert_eq!((params.video_bitrate_bps, params.audio_bitrate_bps), (6_000_000, 192_000));
    assert_eq!(h.stream_state, StreamState::Live);
}

#[test]
fn a_stream_stops_whatever_its_close_says() {
    let stop = d("stream.stop", "{}", "{}");
    let mut h = live();
    assert!(matches!(h.apply(&stop), Ok(Step::StreamStop(true))));
    let e = h.stream_stopped(Some(Err(StreamError::Teardown("late".into())))).unwrap_err();
    assert_eq!(e.message(), "invalid directive: E_NETWORK: late");
    assert_eq!(h.stream_state, StreamState::Idle);
    assert!(h.stream_tap_selection.is_none() && !h.stream_tap);
    assert_eq!(
        h.apply(&stop).unwrap_err().message(),
        "E_FORBIDDEN_STATE: stream.stop requires a live stream"
    );
}

#[test]
fn a_show_stops_as_it_is_told() {
    let mut h = running();
    assert!(matches!(h.apply(&d("show.stop", "{}", "{}")), Ok(Step::Stopped(StopPlan::Idle))));
    assert_eq!(h.clock.state(), ClockState::Stopped);

    let mut h = recording();
    let before = acks(&h);
    let refused = h.apply(&d("show.stop", "{}", r#"{"quiesceOutputs":false}"#)).unwrap_err();
    assert!(refused.message().starts_with("E_FORBIDDEN_STATE: show.stop"));
    assert_eq!(h.clock.state(), ClockState::Running);
    assert_eq!(acks(&h), before);

    let forced = h.apply(&d("show.stop", "{}", r#"{"force":true}"#)).unwrap();
    assert!(matches!(forced, Step::Stopped(StopPlan::Force { record: true, stream: false })));
    assert_eq!(h.record_state, RecordState::Idle);
    assert_eq!(acks(&h), before + 1);

    let mut h = recording();
    h.stream_opened(true, &None).unwrap();
    let plan = h.apply(&d("show.stop", "{}", "{}")).unwrap();
    assert!(matches!(plan, Step::StopOutputs(StopPlan::Quiesce { record: true, stream: true })));
    assert_eq!(h.clock.state(), ClockState::Running);
    let r = h.show_stopped(
        Some(Ok(Err(SessionError::Timeout("t".into())))),
        Some(Err(StreamError::Teardown("x".into()))),
    );
    assert_eq!(r.unwrap_err().message(), "E_RECORD_TIMEOUT: t");
    assert_eq!(h.clock.state(), ClockState::Stopped);
    assert_eq!((h.record_state, h.stream_state), (RecordState::Idle, StreamState::Idle));
    assert!(h.transition.is_none());

    let mut h = recording();
    h.apply(&d("show.stop", "{}", "{}")).unwrap();
    let r = h.show_stopped(Some(Err("panicked".into())), None);
    assert!(r.unwrap_err().message().ends_with("show.stop: record quiesce task failed: panicked"));
    let mut h = live();
    h.apply(&d("show.stop", "{}", "{}")).unwrap();
    assert!(h.show_stopped(None, Some(Ok(()))).is_ok());
}

#[test]
fn every_applied_directive_is_acknowledged_once() {
    let mut h = loaded();
    for c in ["show.start", "view.fallback", "soundboard.stopAll", "unheard.of"] {
        let before = acks(&h);
        assert!(matches!(h.apply(&d(c, "{}", "{}")), Ok(Step::Done(None))));
        assert_eq!(acks(&h), before + 1);
        assert_eq!(h.last_applied, 7);
    }
    let before = acks(&h);
    assert!(h.apply(&d("guest.mute", "{}", "{}")).is_err());
    assert!(matches!(h.apply(&d("show.load", "{}", "{}")), Ok(Step::Load)));
    assert!(matches!(h.apply(&d("stream.start", "{}", "{}")), Ok(Step::StreamStart)));
    assert_eq!(acks(&h), before);
    assert!(h.fallback_active);
}

#[test]
fn a_take_that_loses_its_surfaces_ends() {
    let mut h = recording();
    h.marker_at(&d("marker.add", "{}", r#"{"name":"goal"}"#), Some(41)).unwrap();
    let (said, word) = h.end_take_on_chain_loss("device lost");
    assert_eq!(said, "E_NO_ZEROCOPY: device lost");
    assert_eq!(word, Some(ControlMsg::Abandon), "the file is left, never finished");
    assert_eq!(h.end_take_on_chain_loss("again").1, None, "no session is left to tell");
    assert_eq!(h.record_state, RecordState::Idle);
    assert!(!h.record_session && !h.record_tap);
    assert!(h.markers.list().is_empty(), "the markers go with the take");
    assert_eq!(h.record_tap_selection.unwrap().path, TapPath::ZeroCopy);
}

#[test]
fn an_overlay_takes_as_long_as_its_longest_element() {
    let m = parse(
        r#"{"overlays":[
            {"id":"a","elements":[
                {"enterAnimation":{"durationFrames":5}},
                {"enterAnimation":{"durationFrames":12},"exitAnimation":{"durationFrames":3}},
                {}]},
            {"id":"b","elements":[{}]},
            {"elements":[{"enterAnimation":{"durationFrames":9}}]}]}"#,
    )
    .unwrap();
    let enter = overlay_frames(&m, "enterAnimation");
    assert_eq!(enter.len(), 1);
    assert_eq!(enter.get("a"), Some(&12));
    assert_eq!(overlay_frames(&m, "exitAnimation").get("a"), Some(&3));
    assert_eq!(overlay_frames(&parse("{}").unwrap(), "enterAnimation").len(), 0);
}

#[test]
fn a_stop_tells_a_recording_to_finish_or_to_be_left() {
    let force = StopPlan::Force { record: true, stream: false };
    assert_eq!(force.record_word(), Some(ControlMsg::Abandon));
    let quiesce = StopPlan::Quiesce { record: true, stream: true };
    assert_eq!(quiesce.record_word(), Some(ControlMsg::Stop));
    assert_eq!(StopPlan::Force { record: false, stream: true }.record_word(), None);
    assert_eq!(StopPlan::Idle.record_word(), None);
}

#[test]
fn neither_a_second_start_nor_a_refused_stop_touches_the_clock() {
    let mut h = recording();
    let epoch = Instant::now() - Duration::from_secs(1000);
    h.clock = MasterClock::new(30).with_epoch(epoch, ClockState::Running);
    h.on_show_start();
    assert!(h.clock.frame().unwrap() >= 30_000);
    let stop = d("show.stop", "{}", r#"{"quiesceOutputs":false}"#);
    assert!(matches!(h.apply(&stop), Err(DirectiveError::ForbiddenState(_))));
    assert!(h.clock.frame().unwrap() >= 30_000);
    assert!(h.record_session);
    h.show_start_at(Instant::now());
    assert!(h.clock.frame().unwrap() >= 30_000);
}

#[test]
fn a_superseded_playing_stays_over() {
    let mut t = PlaybackTracker::new();
    assert!(!t.is_current("a", 0));
    let first = t.begin("a");
    t.begin("b");
    let last = t.begin("a");
    assert!(!t.is_current("a", first));
    assert!(t.is_current("a", last) && last > first);
}

#[test]
fn a_late_finish_takes_its_markers_along() {
    let add = d("marker.add", "{}", r#"{"name":"goal"}"#);
    let after = |step: DriveStep| {
        let mut h = recording();
        h.marker_at(&add, Some(41)).unwrap();
        h.apply(&d("record.stop", "{}", "{}")).unwrap();
        assert!(h.record_stopped(Some(Err(SessionError::Timeout("late".into())))).is_err());
        assert_eq!(h.markers.list().len(), 1, "the late take still needs them");
        h.take_ended(step);
        h.markers.list().len()
    };
    assert_eq!(after(DriveStep::Finish), 0);
    assert_eq!(after(DriveStep::GiveUp), 0);
    assert_eq!(after(DriveStep::Dropped), 1);
}

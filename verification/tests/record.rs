use nbe::aac::AacFrame;
use nbe::encode::{EncodedUnit, Pts};
use nbe::record::audio_tap::{AudioTap, CHANNELS};
use nbe::record::boxes::validate_parameter_sets;
use nbe::record::feed::{
    begin_tap_frame, chain_loss, end_tap_frame, handed_off, should_skip_record_frame, HandOff,
    Surfaces, TapLoan,
};
use nbe::record::markers::{chapters, sidecar_path, Marker, MarkerStore};
use nbe::record::pool::{consumer_in_flight, shared_pool_size, stream_pool_size};
use nbe::record::session::{EncoderProbe, SessionError};
use nbe::record::space::{
    df_available, SpaceCache, SPACE_CACHE_MAX_ENTRIES, SPACE_CACHE_NEG_TTL_MS,
};
use nbe::record::tap_path::{
    select, select_stream, select_with_override, Consumer, Reason, TapPath,
};
use nbe::record::thread::{await_done, SessionResult};
use nbe::record::writer::RecordingWriter;
use nbe::record::{recording_filename, RecordError, RecordParams};

fn bits(samples: &[f32]) -> Vec<u32> {
    samples.iter().map(|s| s.to_bits()).collect()
}

#[test]
fn overfill_drops_oldest_frames_and_counts() {
    let mut tap = AudioTap::with_capacity(4);
    tap.push(&bits(&[1.0, 2.0]));
    assert_eq!(tap.dropped(), 0);
    tap.push(&bits(&[3.0, 4.0, 5.0, 6.0]));
    assert_eq!(tap.dropped(), 2, "one whole frame evicted");
    assert_eq!(tap.drain(), bits(&[3.0, 4.0, 5.0, 6.0]));
}

#[test]
fn single_push_larger_than_capacity_keeps_the_tail() {
    let mut tap = AudioTap::with_capacity(4);
    tap.push(&bits(&[1.0, 2.0, 3.0, 4.0, 5.0, 6.0]));
    assert_eq!(tap.dropped(), 2);
    assert_eq!(tap.drain(), bits(&[3.0, 4.0, 5.0, 6.0]));
}

#[test]
fn capacity_is_whole_frames_and_odd_trailers_are_counted_not_stored() {
    assert_eq!(AudioTap::with_capacity(5).capacity(), 4);
    assert_eq!(AudioTap::with_capacity(1).capacity(), CHANNELS);
    let mut tap = AudioTap::with_capacity(8);
    tap.push(&bits(&[1.0, 2.0, 3.0]));
    assert_eq!(tap.dropped(), 1, "the trailing half-frame is counted");
    assert_eq!(tap.drain(), bits(&[1.0, 2.0]));
}

#[test]
fn sidecar_path_sits_beside_the_file() {
    assert_eq!(
        sidecar_path("/tmp/show_ep_20260914T120000Z.mp4"),
        "/tmp/show_ep_20260914T120000Z.markers.json"
    );
}

#[test]
fn store_round_trips_in_arrival_order() {
    let mut store = MarkerStore::new();
    store.clear();
    store.add(Marker { name: "a".into(), frame: 3, timecode: None });
    store.add(Marker { name: "b".into(), frame: 1, timecode: Some("00:00:00:01".into()) });
    let got = store.list();
    assert_eq!(got.len(), 2);
    assert_eq!(got[0].name, "a");
    store.clear();
    assert!(store.list().is_empty());
}

#[test]
fn chapters_go_by_frame_and_keep_the_order_of_one_frame() {
    let m = |name: &str, frame: u64| Marker { name: name.into(), frame, timecode: None };
    let got = chapters(&[m("c", 7), m("a", 1), m("d", 7), m("b", 1)]);
    let names: Vec<&str> = got.iter().map(|m| m.name.as_str()).collect();
    assert_eq!(names, vec!["a", "b", "c", "d"]);
}

#[test]
fn filename_sanitizes_path_escapes() {
    let p = RecordParams {
        directory: "/tmp".into(),
        show: "../evil show!".into(),
        episode: "ep/01".into(),
        start_timestamp: "2026-09-14T12:00:00Z".into(),
        width: 640,
        height: 360,
        fps: 30,
        sps: vec![0x67],
        pps: vec![0x68],
    };
    let name = recording_filename(&p);
    assert!(!name.contains('/'));
    assert!(name.ends_with(".mp4"));
    assert_eq!(name, ".._evil_show__ep_01_2026-09-14T12_00_00Z.mp4");
}

#[test]
fn error_tokens_are_stable() {
    assert_eq!(RecordError::Disk("x".into()).kind_token(), "E_DISK");
    assert_eq!(RecordError::Aac("x".into()).kind_token(), "E_AAC_UNAVAILABLE");
    assert_eq!(RecordError::Input("x".into()).kind_token(), "E_RECORD_INPUT");
}

#[test]
fn space_caches_evict_oldest_past_the_bound() {
    let mut sizes: SpaceCache<u64> = SpaceCache::new();
    for n in 0..(SPACE_CACHE_MAX_ENTRIES + 10) {
        sizes.put(&format!("/tmp/nbe-cache-{n}"), n as u64, 1);
    }
    assert_eq!(sizes.len(), SPACE_CACHE_MAX_ENTRIES);
    assert!(
        sizes.get("/tmp/nbe-cache-0", 0, u64::MAX).is_none(),
        "oldest entry must evict first"
    );
    let mut refusals: SpaceCache<String> = SpaceCache::new();
    for n in 0..(SPACE_CACHE_MAX_ENTRIES + 10) {
        refusals.put(&format!("/tmp/nbe-neg-{n}"), n as u64, "sick".into());
    }
    assert_eq!(refusals.len(), SPACE_CACHE_MAX_ENTRIES);
    assert!(
        refusals.get("/tmp/nbe-neg-0", 0, u64::MAX).is_none(),
        "oldest negative entry must evict first"
    );
}

#[test]
fn negative_cache_backs_off_within_ttl_and_expires_after() {
    let dir = "/tmp/nbe-neg-backoff-probe";
    let now = 100_000u64;
    let mut refusals: SpaceCache<String> = SpaceCache::new();
    refusals.put(dir, now, "sick disk".into());
    assert_eq!(
        refusals.get(dir, now, SPACE_CACHE_NEG_TTL_MS).map(|s| s.as_str()),
        Some("sick disk"),
        "fresh failure must back off"
    );
    refusals.put(dir, now - SPACE_CACHE_NEG_TTL_MS - 1000, "sick disk".into());
    assert!(
        refusals.get(dir, now, SPACE_CACHE_NEG_TTL_MS).is_none(),
        "stale failure must expire so a recovered disk is re-probed"
    );
}

#[test]
fn the_available_column_is_found_by_its_heading() {
    let df = "Filesystem 1M-blocks  Used Available Capacity Mounted on\n/dev/disk1 1000 400 600 40% /\n";
    assert_eq!(
        df_available(df).unwrap(),
        ("600".to_string(), "/dev/disk1 1000 400 600 40% /".to_string())
    );
    assert_eq!(df_available("").unwrap_err().kind_token(), "E_DISK");
}

#[test]
fn sizes_count_every_holder() {
    assert_eq!(consumer_in_flight(2), 3);
    assert_eq!(shared_pool_size(2, 2), 7);
    assert_eq!(stream_pool_size(2), 4);
}

#[test]
fn force_seam_reports_unavailable_without_touching_hardware() {
    let mut probe = EncoderProbe::new();
    probe.set_force_no_encoder(true);
    assert!(!probe.must_ask());
    assert!(!probe.encoder_available(true));
    probe.set_force_no_encoder(false);
}

#[test]
fn a_yes_is_remembered_and_a_no_is_asked_again() {
    let mut probe = EncoderProbe::new();
    assert!(probe.must_ask());
    assert!(!probe.encoder_available(false));
    assert!(probe.must_ask());
    assert!(probe.encoder_available(true));
    assert!(!probe.must_ask());
    assert!(probe.encoder_available(false));
}

#[test]
fn a_failed_probe_falls_back_to_cpu_with_the_reason_recorded() {
    let s = select(false, 1080, Consumer::Record);
    assert_eq!(s.path, TapPath::CpuReadback);
    assert_eq!(s.reason, Reason::ProbeUnavailable);
}

#[test]
fn streaming_has_no_lawful_path_without_zero_copy() {
    assert!(select_stream(false).is_none());
    assert_eq!(select_stream(true).unwrap().path, TapPath::ZeroCopy);
}

#[test]
fn an_override_cannot_conjure_a_capability_the_probe_denied() {
    let s = select_with_override(false, 1080, Consumer::Record, Some(TapPath::ZeroCopy));
    assert_eq!(s.path, TapPath::CpuReadback);
    assert_eq!(s.reason, Reason::ProbeUnavailable);
}

#[test]
fn an_override_to_cpu_is_honoured_and_says_so() {
    let s = select_with_override(true, 2160, Consumer::Record, Some(TapPath::CpuReadback));
    assert_eq!(s.path, TapPath::CpuReadback);
    assert_eq!(s.reason, Reason::Override);
}

#[test]
fn path_tokens_are_stable() {
    assert_eq!(TapPath::ZeroCopy.as_str(), "zeroCopy");
    assert_eq!(TapPath::CpuReadback.as_str(), "cpuReadback");
}

#[test]
fn reason_tokens_are_stable() {
    let table = select(true, 1080, Consumer::Record).reason;
    let unavailable = select(false, 1080, Consumer::Record).reason;
    let overridden =
        select_with_override(true, 2160, Consumer::Record, Some(TapPath::CpuReadback)).reason;
    assert_eq!(format!("{table:?}"), "Table");
    assert_eq!(format!("{unavailable:?}"), "ProbeUnavailable");
    assert_eq!(format!("{overridden:?}"), "Override");
    assert_eq!(overridden.as_str(), "Override");
}

#[test]
fn await_done_maps_timeout_to_force_path_error() {
    let (_tx, rx) = std::sync::mpsc::channel::<SessionResult>();
    let err = await_done(&rx, 10).unwrap_err();
    assert!(matches!(err, SessionError::Timeout(_)));
    assert!(err.message().contains("kept as-is"));
}

#[test]
fn await_done_maps_gone_thread_to_timeout_never_silence() {
    let (tx, rx) = std::sync::mpsc::channel::<SessionResult>();
    drop(tx);
    let err = await_done(&rx, 5000).unwrap_err();
    assert!(matches!(err, SessionError::Timeout(_)));
    assert!(err.message().contains("E_RECORD_TIMEOUT"));
    assert!(err.message().contains("kept as-is"));
}

#[test]
fn await_done_passes_through_ok_and_err() {
    let (tx, rx) = std::sync::mpsc::channel::<SessionResult>();
    tx.send(Ok("/tmp/take.mp4".to_string())).unwrap();
    assert_eq!(await_done(&rx, 1000).unwrap(), "/tmp/take.mp4");

    let (tx, rx) = std::sync::mpsc::channel::<SessionResult>();
    tx.send(Err(SessionError::NoEncoder("nope".into()))).unwrap();
    let err = await_done(&rx, 1000).unwrap_err();
    assert!(err.message().contains("E_NO_HARDWARE_ENCODER"));
}

#[test]
fn parameter_set_validation_rejects_mistyped_nals() {
    let sps = vec![0x67, 0x64, 0x00, 0x1E, 0xAA];
    let pps = vec![0x68, 0x11, 0x22];
    validate_parameter_sets(&sps, &pps).unwrap();
    assert!(validate_parameter_sets(&[], &pps).is_err());
    assert!(validate_parameter_sets(&[0x65, 0x11, 0x22, 0x33], &pps).is_err());
    assert!(validate_parameter_sets(&sps, &[]).is_err());
}

fn take_params() -> RecordParams {
    RecordParams {
        directory: "/tmp".into(),
        show: "show".into(),
        episode: "ep".into(),
        start_timestamp: "now".into(),
        width: 640,
        height: 360,
        fps: 30,
        sps: vec![0x67, 0x64, 0x00, 0x1E, 0xAA],
        pps: vec![0x68, 0x11, 0x22],
    }
}

fn unit(index: u64, key: bool) -> EncodedUnit {
    EncodedUnit { data: vec![0, 0, 0, 1, index as u8], pts: Pts { index, rate: 30 }, is_keyframe: key }
}

/// The boxes of a file: their types and lengths.
fn boxes(file: &[u8]) -> Vec<(String, usize)> {
    let mut out = Vec::new();
    let mut at = 0;
    while at + 8 <= file.len() {
        let len = u32::from_be_bytes([file[at], file[at + 1], file[at + 2], file[at + 3]]) as usize;
        out.push((String::from_utf8_lossy(&file[at + 4..at + 8]).to_string(), len));
        at += len;
    }
    assert_eq!(at, file.len(), "the boxes cover the file");
    out
}

#[test]
fn a_take_is_a_header_and_whole_fragments() {
    let mut w = RecordingWriter::create(take_params(), vec![0x03, 0x01, 0x00]);
    let mut file = Vec::new();
    for i in 0..60u64 {
        file.extend(w.push_video(&unit(i, i == 0)).unwrap());
        file.extend(w.push_audio(vec![AacFrame { data: vec![i as u8; 10] }]));
    }
    let done = w.finish(Vec::new());
    file.extend(&done.tail);
    let kinds: Vec<String> = boxes(&file).iter().map(|b| b.0.clone()).collect();
    assert_eq!(&kinds[..2], &["ftyp".to_string(), "moov".to_string()]);
    assert!(kinds.len() >= 4);
    for pair in kinds[2..].chunks(2) {
        assert_eq!(pair, &["moof".to_string(), "mdat".to_string()]);
    }
    assert_eq!(done.patches.len(), 5);
    for (off, _) in &done.patches {
        assert!(off + 4 <= file.len());
    }
}

#[test]
fn a_take_without_a_keyframe_writes_nothing() {
    let mut w = RecordingWriter::create(take_params(), vec![0x03]);
    for i in 0..5u64 {
        let r = w.push_video(&unit(i, false));
        assert!(r.is_err() || r.unwrap().is_empty());
    }
    assert_eq!(w.buffered_video_len(), 0);
}

#[test]
fn a_recording_gives_way_before_the_picture_does() {
    assert!(should_skip_record_frame(33, Some(33)));
    assert!(!should_skip_record_frame(32, Some(33)));
    assert!(!should_skip_record_frame(u64::MAX, None));
}

#[test]
fn a_frame_without_a_surface_is_counted_once_and_not_read_back() {
    let mut skipped = 0u64;
    let loan = begin_tap_frame(Surfaces::Acquired(None), true, &mut skipped).unwrap();
    assert!(loan.is_zero_copy() && !loan.has_surface());
    assert_eq!(skipped, 1);
    assert_eq!(end_tap_frame(loan, 100, Some(33), &mut skipped), HandOff::Nothing);
    assert_eq!(skipped, 1);

    let loan = begin_tap_frame(Surfaces::Acquired(Some(2)), true, &mut skipped).unwrap();
    assert_eq!(end_tap_frame(loan, 10, Some(33), &mut skipped), HandOff::Surface(2));
    assert_eq!(end_tap_frame(loan, 40, Some(33), &mut skipped), HandOff::Skip);
    assert_eq!(skipped, 2);
    handed_off(false, &mut skipped);
    handed_off(true, &mut skipped);
    assert_eq!(skipped, 3);

    let plain = begin_tap_frame(Surfaces::NoPool, false, &mut skipped).unwrap();
    assert_eq!(plain, TapLoan { surface: None, zero_copy_take: false });
    assert_eq!(end_tap_frame(plain, 10, None, &mut skipped), HandOff::Readback);
    let lost = begin_tap_frame(Surfaces::NoPool, true, &mut skipped).unwrap_err();
    assert!(lost.starts_with("E_NO_ZEROCOPY: "));
}

#[test]
fn a_lost_chain_is_told_under_its_token_once() {
    assert_eq!(chain_loss("device lost"), "E_NO_ZEROCOPY: device lost");
    assert_eq!(chain_loss("E_NO_ZEROCOPY: gone"), "E_NO_ZEROCOPY: gone");
}

#[test]
fn a_name_without_a_point_gets_the_sidecars_extension() {
    assert_eq!(sidecar_path("/tmp.d/take"), "/tmp.d/take.markers.json");
    assert_eq!(sidecar_path("a.b.mp4"), "a.b.markers.json");
    assert_eq!(sidecar_path("/rec/.hidden"), "/rec/.hidden.markers.json");
    assert_eq!(sidecar_path("/rec/take."), "/rec/take.markers.json");
    assert_eq!(sidecar_path("/rec/.."), "/rec/..");
    assert_eq!(sidecar_path("/"), "/");
    assert_eq!(sidecar_path(""), "");
}

#[test]
fn a_tap_hands_over_everything_oldest_first() {
    let mut carry = AudioTap::with_capacity(6);
    let mut tap = AudioTap::with_capacity(4);
    carry.push(&[9, 9, 1, 2]);
    carry.push(&[3, 4, 5, 6]);
    carry.hand_over(&mut tap);
    assert!(carry.is_empty());
    assert_eq!((carry.dropped(), tap.dropped()), (2, 2));
    assert_eq!(tap.drain(), vec![3, 4, 5, 6]);
    carry.push(&[7, 8]);
    carry.hand_over(&mut tap);
    assert_eq!(tap.drain(), vec![7, 8]);
}

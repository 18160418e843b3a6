use nbe::encode::{media_ts_ms, EncodedUnit, Pts};
use nbe::manifest::StreamOutput;
use nbe::record::rtmp::amf0::{
    amf0_bool, amf0_command_name_trans, amf0_create_stream_id, amf0_decode, amf0_invoke,
    amf0_null, amf0_number, amf0_object, amf0_payload_contains, amf0_string, Amf0, NUMBER_1,
};
use nbe::record::rtmp::chunk::{write_chunked, ChunkReader};
use nbe::record::rtmp::dialog::{
    check_version, handshake_answer, opening, phase_wait_ms, quiet_ms, Dialog, DialogAction,
    DialogEvent, Phase,
};
use nbe::record::rtmp::RtmpError;
use nbe::record::rtmp::publisher::{
    adopt_chunk_size, audio_sequence_header, live_step, video_sequence_header, LiveEvent, LoopEnd,
    PublisherAction, PublisherEvent, PublisherHandle, PublisherLoop, PublisherState,
    AUDIO_BITRATE_BPS, ENVELOPE_BITRATE_BPS, VIDEO_BITRATE_BPS,
};
use nbe::record::rtmp::url::parse_rtmp_url;
use nbe::record::stream::{
    audio_ts_ms, avc_sequence_header, flv_audio_tag, flv_video_tag, StreamParams, StreamSeams,
    StreamSession, StreamThread,
};
use nbe::record::tap_path::select_stream;

fn params() -> StreamParams {
    StreamParams::new(640, 360, 30)
}

#[test]
fn parses_loopback_publish_targets() {
    let u = parse_rtmp_url("rtmp://127.0.0.1:19350/live/key-one").unwrap();
    assert_eq!(u.host, "127.0.0.1");
    assert_eq!(u.port, 19350);
    assert_eq!(u.app, "live");
    assert_eq!(u.key, "key-one");
}

#[test]
fn default_port_is_1935() {
    let u = parse_rtmp_url("rtmp://example/live/key").unwrap();
    assert_eq!(u.port, 1935);
}

#[test]
fn refuses_non_rtmp_and_keyless_targets() {
    assert!(parse_rtmp_url("http://x/live/k").is_err());
    assert!(parse_rtmp_url("rtmp://hostonly").is_err());
    assert!(parse_rtmp_url("rtmp://h/app").is_err());
    assert!(parse_rtmp_url("rtmp://h//key").is_err());
}

#[test]
fn sequence_headers_identify_h264_and_aac() {
    assert!(video_sequence_header().starts_with(&[0x17, 0x00]));
    assert!(audio_sequence_header().starts_with(&[0xAF, 0x00]));
}

#[test]
fn buffer_ms_divides_bytes_by_the_envelope() {
    assert_eq!(ENVELOPE_BITRATE_BPS, 8_192_000);
    let bytes = 1_024_000usize;
    let ms = bytes as f64 * 8000.0 / ENVELOPE_BITRATE_BPS as f64;
    assert!((ms - 1000.0).abs() < 1e-6, "1_024_000 bytes at 8.192 Mbps is 1 s");
}

#[test]
fn force_seam_reports_chain_less_without_touching_hardware() {
    let mut seams = StreamSeams::new();
    seams.set_force_no_chain(true);
    assert!(!seams.chain_available(true));
    seams.set_force_no_chain(false);
    assert!(seams.chain_available(true));
    assert!(!seams.chain_available(false));
}

#[test]
fn close_error_seam_fails_loudly_with_the_network_token() {
    let sel = select_stream(true).unwrap();
    let mut s = StreamSession::open("rtmp://127.0.0.1:9/live/k".into(), sel, params(), true);
    let mut seams = StreamSeams::new();
    seams.set_force_close_error(true);
    let err = s.stop_and_close(&seams, true, true).expect_err("armed seam must fail");
    assert!(err.message().starts_with("E_NETWORK: "));
    assert!(!s.is_closed(), "a failed close closes nothing");
    seams.set_force_close_error(false);
    s.stop_and_close(&seams, true, true).expect("released seam must close");
    assert!(s.is_closed());
}

#[test]
fn a_transportless_session_has_no_thread_to_feed() {
    let sel = select_stream(true).unwrap();
    let s = StreamSession::open("rtmp://127.0.0.1:9/live/k".into(), sel, params(), false);
    assert!(!s.has_publisher());
    assert!(!s.has_frame_sender());
}

#[test]
fn params_take_the_manifest_bitrates() {
    let out = StreamOutput {
        url: Some("rtmp://h/a/k".into()),
        video_bitrate_kbps: Some(6000),
        audio_bitrate_kbps: Some(128),
        protocol: None,
        tap_path: None,
    };
    let p = StreamParams::new(1920, 1080, 60).with_output(Some(&out));
    assert_eq!(p.video_bitrate_bps, 6_000_000);
    assert_eq!(p.audio_bitrate_bps, 128_000);
    assert_eq!(p.fps, 60);
    assert_eq!(p.envelope_bps(), 6_128_000);
    let d = StreamParams::new(1920, 1080, 30).with_output(None);
    assert_eq!(d.envelope_bps(), VIDEO_BITRATE_BPS + AUDIO_BITRATE_BPS);
}

#[test]
fn timestamps_are_media_time() {
    let at = |fps: u32, i: u64| media_ts_ms(Pts { index: i, rate: fps });
    assert_eq!((0..4).map(|i| at(60, i)).collect::<Vec<_>>(), [0, 17, 33, 50]);
    assert_eq!((0..4).map(|i| at(30, i)).collect::<Vec<_>>(), [0, 33, 67, 100]);
    assert_eq!(at(60, 60), 1000);
    assert_eq!(audio_ts_ms(0), 0);
    assert_eq!(audio_ts_ms(3), 64);
    assert_eq!(audio_ts_ms(375), 8000);
}

#[test]
fn avc_sequence_header_refuses_empty_or_mistyped_sets() {
    assert!(avc_sequence_header(&[], &[]).is_none());
    assert!(avc_sequence_header(&[0x67, 0x64], &[0x68]).is_none());
    assert!(avc_sequence_header(&[0x65, 0x64, 0x00, 0x1F], &[0x68]).is_none());
    assert!(avc_sequence_header(&[0x67, 0x64, 0x00, 0x1F], &[0x67]).is_none());
    let sps = vec![0x67, 0x64, 0x00, 0x1F, 0xAA, 0xBB];
    let pps = vec![0x68, 0xCC];
    let seq = avc_sequence_header(&sps, &pps).expect("valid sets build");
    assert!(seq.starts_with(&[0x17, 0x00, 0x00, 0x00, 0x00]));
    assert_eq!(&seq[5..10], &[0x01, 0x64, 0x00, 0x1F, 0xFF]);
    assert!(seq.windows(sps.len()).any(|w| w == sps.as_slice()));
    assert!(seq.windows(pps.len()).any(|w| w == pps.as_slice()));
}

#[test]
fn avc_sequence_header_accepts_real_hardware_sps_shapes() {
    let sps = vec![0x27, 0x64, 0x00, 0x28, 0xAC, 0x13];
    let pps = vec![0x28, 0xEE, 0x1F, 0x2C];
    let seq = avc_sequence_header(&sps, &pps).expect("hardware sets build");
    assert_eq!(&seq[5..10], &[0x01, 0x64, 0x00, 0x28, 0xFF]);
}

#[test]
fn flv_video_tag_marks_keyframes_and_never_sequence() {
    let key = EncodedUnit {
        data: vec![0x01, 0x02],
        is_keyframe: true,
        pts: Pts { index: 0, rate: 30 },
    };
    let inter =
        EncodedUnit { data: vec![0x03], is_keyframe: false, pts: Pts { index: 30, rate: 30 } };
    assert_eq!(&flv_video_tag(&key)[..5], &[0x17, 0x01, 0x00, 0x00, 0x00]);
    assert_eq!(&flv_video_tag(&inter)[..5], &[0x27, 0x01, 0x00, 0x00, 0x00]);
    assert_eq!(&flv_video_tag(&key)[5..], &[0x01, 0x02]);
    assert_eq!(flv_audio_tag(&[9, 8]), vec![0xAF, 0x01, 9, 8]);
}

#[test]
fn values_read_back_as_they_were_written() {
    let props = [("app", amf0_string("live")), ("ok", amf0_bool(true)), ("none", amf0_null())];
    let bytes = amf0_object(&props);
    let (value, end) = amf0_decode(&bytes, 0).unwrap();
    assert_eq!(end, bytes.len());
    match value {
        Amf0::Object(members) => {
            assert_eq!(members.len(), 3);
            assert_eq!(members[0].0, "app");
            assert!(matches!(&members[0].1, Amf0::Text(s) if s == "live"));
            assert!(matches!(members[1].1, Amf0::Bool(true)));
            assert!(matches!(members[2].1, Amf0::Null));
        }
        other => panic!("{other:?}"),
    }
    assert!(amf0_decode(&bytes[..bytes.len() - 1], 0).is_err());
    assert!(amf0_decode(&[0x7f], 0).is_err());
}

#[test]
fn commands_are_known_by_name_and_number() {
    let payload = amf0_invoke("_result", NUMBER_1, &amf0_null(), &amf0_number(5.0f64.to_bits()));
    let (name, trans) = amf0_command_name_trans(&payload).unwrap();
    assert_eq!(name, "_result");
    assert_eq!(f64::from_bits(trans), 1.0);
    assert_eq!(amf0_create_stream_id(&payload), Some(5));
    assert!(amf0_payload_contains(&payload, "_result"));
    assert!(!amf0_payload_contains(&payload, "_error"));
    assert!(amf0_command_name_trans(&[]).is_err());
}

#[test]
fn a_message_survives_its_chunks() {
    let payload: Vec<u8> = (0..1000u32).map(|i| (i % 251) as u8).collect();
    let wire = write_chunked(6, 40, 0x09, 1, &payload, 128);
    let (n, m) = ChunkReader::new().next_message(&wire).unwrap();
    let m = m.unwrap();
    assert_eq!(n, wire.len());
    assert_eq!(m.payload, payload);
    assert_eq!((m.csid, m.timestamp, m.msg_type, m.stream_id), (6, 40, 0x09, 1));
}

#[test]
fn an_announced_size_is_read_with_from_then_on() {
    let payload = vec![5u8; 3000];
    let mut wire = write_chunked(2, 0, 0x01, 0, &1024u32.to_be_bytes(), 128);
    wire.extend(write_chunked(6, 0, 0x09, 1, &payload, 1024));
    let mut reader = ChunkReader::new();
    let (n, m) = reader.next_message(&wire).unwrap();
    assert_eq!(reader.chunk_size(), 1024);
    assert_eq!(n, wire.len());
    assert_eq!(m.unwrap().payload, payload);
}

#[test]
fn bytes_may_come_one_at_a_time() {
    let wire = write_chunked(3, 0, 0x14, 0, &[7u8; 300], 128);
    let mut reader = ChunkReader::new();
    let mut held: Vec<u8> = Vec::new();
    let mut got = None;
    for b in wire {
        held.push(b);
        let (n, m) = reader.next_message(&held).unwrap();
        held.drain(..n);
        if m.is_some() {
            got = m;
        }
    }
    assert_eq!(got.unwrap().payload, vec![7u8; 300]);
    assert!(held.is_empty());
}

#[test]
fn a_chunk_without_history_is_refused() {
    let mut reader = ChunkReader::new();
    assert!(reader.next_message(&[0xC3, 0, 0, 0]).is_err());
}

#[test]
fn a_dialog_goes_from_connect_to_publish() {
    assert_eq!(opening(0).len(), 1537);
    assert!(check_version(3).is_ok());
    assert!(check_version(6).is_err());
    let url = parse_rtmp_url("rtmp://h/live/key").unwrap();
    let (mut dialog, connect) = Dialog::start(url);
    assert!(amf0_payload_contains(&connect, "connect"));
    let reply = |payload: Vec<u8>| {
        let wire = write_chunked(3, 0, 0x14, 0, &payload, 128);
        let (_, m) = ChunkReader::new().next_message(&wire).unwrap();
        DialogEvent::Message(m.unwrap())
    };
    let ok = amf0_invoke("_result", NUMBER_1, &amf0_null(), &amf0_null());
    match dialog.on_event(reply(ok), 128) {
        DialogAction::Send(bytes) => assert!(amf0_payload_contains(&bytes, "createStream")),
        _ => panic!("connect's answer opens a stream"),
    }
    let two = 0x4000_0000_0000_0000u64;
    let created = amf0_invoke("_result", two, &amf0_null(), &amf0_number(1.0f64.to_bits()));
    match dialog.on_event(reply(created), 128) {
        DialogAction::Send(bytes) => {
            assert!(amf0_payload_contains(&bytes, "publish"));
            assert!(amf0_payload_contains(&bytes, "key"));
        }
        _ => panic!("a stream is published on"),
    }
    let status = amf0_invoke(
        "onStatus",
        0,
        &amf0_null(),
        &amf0_object(&[("code", amf0_string("NetStream.Publish.Start"))]),
    );
    assert!(matches!(dialog.on_event(reply(status), 128), DialogAction::Live(1)));
}

#[test]
fn a_refused_publish_is_an_error_and_a_late_one_is_not() {
    let url = parse_rtmp_url("rtmp://h/live/key").unwrap();
    let (mut dialog, _) = Dialog::start(url);
    assert!(matches!(dialog.on_event(DialogEvent::Expired, 128), DialogAction::Refuse(_)));
    assert!(matches!(dialog.on_event(DialogEvent::Shutdown, 128), DialogAction::Refuse(_)));
}

#[test]
fn a_full_queue_sheds_and_counts() {
    let mut h = PublisherHandle::new();
    let mut taken = 0;
    for _ in 0..100 {
        if h.try_publish_video(vec![1, 2, 3], 0) {
            taken += 1;
        }
    }
    assert_eq!(h.shed_frames(), 100 - taken);
    assert_eq!(h.buffered_bytes() as u64, 3 * taken);
    let f = h.begin_write().unwrap();
    assert_eq!(f.payload, vec![1, 2, 3]);
    assert_eq!(h.buffered_bytes() as u64, 3 * taken);
    h.end_write();
    assert_eq!(h.buffered_bytes() as u64, 3 * (taken - 1));
    h.set_state(PublisherState::Closed);
    assert!(!h.try_publish_audio(vec![1], 0));
}

#[test]
fn a_publisher_dials_again_with_longer_pauses() {
    let mut l = PublisherLoop::new();
    assert_eq!(l.on_event(PublisherEvent::Started, false), PublisherAction::Dial);
    let first = match l.on_event(PublisherEvent::ConnectFailed, false) {
        PublisherAction::Pause(ms) => ms,
        other => panic!("{other:?}"),
    };
    assert_eq!(l.on_event(PublisherEvent::PauseOver, false), PublisherAction::Dial);
    assert_eq!(
        l.on_event(PublisherEvent::ConnectFailed, false),
        PublisherAction::Pause(2 * first)
    );
    assert_eq!(l.on_event(PublisherEvent::PauseOver, true), PublisherAction::Exit);
    assert_eq!(live_step(LiveEvent::Eof, false), Some(LoopEnd::Transport));
    assert_eq!(live_step(LiveEvent::Written, false), None);
}

#[test]
fn an_announced_chunk_size_is_adopted_within_its_bounds() {
    let mut wire = write_chunked(2, 0, 0x01, 0, &4096u32.to_be_bytes(), 128);
    assert_eq!(adopt_chunk_size(&wire, 128), 4096);
    wire[12..16].copy_from_slice(&1u32.to_be_bytes());
    assert_eq!(adopt_chunk_size(&wire, 128), 128);
    assert_eq!(adopt_chunk_size(&[], 77), 77);
}

#[test]
fn shed_frames_leave_a_gap_in_the_timeline() {
    let mut t = StreamThread::new();
    assert_eq!(t.pts_index(100), Some(0));
    assert_eq!(t.pts_index(101), Some(1));
    assert_eq!(t.pts_index(105), Some(5));
    assert_eq!(t.pts_index(99), None);
}

#[test]
fn the_peers_block_is_sent_back_as_it_came() {
    let block: Vec<u8> = (0..1536u32).map(|i| (i * 7 % 251) as u8).collect();
    assert_eq!(handshake_answer(3, &block).unwrap(), block);
    match handshake_answer(6, &block) {
        Err(RtmpError::Protocol(why)) => assert_eq!(why, "peer is not RTMP (bad version)"),
        other => panic!("{other:?}"),
    }
}

#[test]
fn each_phase_has_its_wait() {
    assert_eq!(phase_wait_ms(Phase::Connecting), 5000);
    assert_eq!(phase_wait_ms(Phase::Creating), 5000);
    assert_eq!(phase_wait_ms(Phase::Publishing(1)), 2000);
    assert_eq!(quiet_ms(Phase::Connecting), None);
    assert_eq!(quiet_ms(Phase::Publishing(1)), Some(50));
}

#[test]
fn empty_segments_are_refused() {
    for url in ["rtmp://h//app/key", "rtmp://h//", "rtmp://h/", "rtmp://h/app/", "rtmp:///app/key"] {
        assert!(parse_rtmp_url(url).is_err(), "{url}");
    }
    let said = parse_rtmp_url("rtmp://h//app/key").unwrap_err().message();
    assert!(said.contains("needs a non-empty app and key"), "{said}");
    let u = parse_rtmp_url("rtmp://h:7/app/a/b/").unwrap();
    assert_eq!((u.port, u.app.as_str(), u.key.as_str()), (7, "app", "a/b"));
}

#[test]
fn the_standing_audio_header_says_48_khz() {
    assert_eq!(audio_sequence_header(), vec![0xAF, 0x00, 0x11, 0x90]);
}

#[test]
fn a_value_that_is_cut_short_is_refused() {
    let whole = amf0_object(&[("k", amf0_string("v")), ("n", amf0_number(NUMBER_1))]);
    let (_, end) = amf0_decode(&whole, 0).unwrap();
    assert_eq!(end, whole.len());
    for cut in 0..whole.len() {
        assert!(amf0_decode(&whole[..cut], 0).is_err(), "{cut}");
    }
    let mut more = whole.clone();
    more.extend([9, 9, 9]);
    assert_eq!(amf0_decode(&more, 0).unwrap().1, end);
}

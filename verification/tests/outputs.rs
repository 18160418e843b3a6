use nbe::aac::{AacEncoder, AacFrame};
use nbe::encode::{EncodedUnit, Pts};
use nbe::record::rtmp::chunk::{write_chunked, ChunkReader, CSID_AUDIO, CSID_VIDEO, MSG_VIDEO};
use nbe::record::rtmp::publisher::{
    audio_frame, video_frame, write_media, PublisherHandle, PublisherState, PUBLISH_CHANNEL_BOUND,
};
use nbe::record::session::{take_end, EncoderProbe, SessionError, TakeEnd};
use nbe::record::space::{
    SpaceMemory, SpaceStep, SPACE_CACHE_NEG_TTL_MS, SPACE_CACHE_TTL_MS,
};
use nbe::record::stream::{
    aac_sequence_header, flv_audio_tag, flv_video_tag, hand_off_stream_surface, Offered,
    PublishReport, StreamSeams, StreamThread,
};
use nbe::record::thread::{
    drive_step, dropped_report, ControlMsg, Drive, DriveStep, FrameQueue,
};
use nbe::record::whole::write_recording;
use nbe::record::writer::{check_audio_block, RecordingWriter};
use nbe::record::{RecordError, RecordParams};

fn take_params() -> RecordParams {
    RecordParams {
        directory: "/tmp".into(),
        show: "s".into(),
        episode: "e".into(),
        start_timestamp: "t".into(),
        width: 640,
        height: 360,
        fps: 30,
        sps: vec![0x67, 0x64, 0x00, 0x1E, 0xAA],
        pps: vec![0x68, 0xEE],
    }
}

fn unit(index: u64, key: bool) -> EncodedUnit {
    EncodedUnit { data: vec![0, 0, 0, 1, 0x65], pts: Pts { index, rate: 30 }, is_keyframe: key }
}

#[test]
fn free_space_is_asked_once_and_again_when_it_is_stale() {
    let mut m = SpaceMemory::new();
    assert!(matches!(m.lookup("/a", 0), SpaceStep::Ask));
    m.answered("/a", 0, &Ok(512.0f64.to_bits()));
    match m.lookup("/a", SPACE_CACHE_TTL_MS - 1) {
        SpaceStep::Known(b) => assert_eq!(f64::from_bits(b), 512.0),
        other => panic!("{other:?}"),
    }
    assert!(matches!(m.lookup("/a", SPACE_CACHE_TTL_MS), SpaceStep::Ask));
    assert!(matches!(m.lookup("/b", 0), SpaceStep::Ask));
}

#[test]
fn a_refusal_is_remembered_for_a_moment() {
    let mut m = SpaceMemory::new();
    m.answered("/a", 10, &Err(RecordError::Disk("gone".into())));
    match m.lookup("/a", 10) {
        SpaceStep::Refused(RecordError::Disk(why)) => assert_eq!(why, "E_DISK: gone"),
        other => panic!("{other:?}"),
    }
    assert!(matches!(m.lookup("/a", 10 + SPACE_CACHE_NEG_TTL_MS), SpaceStep::Ask));
    m.answered("/a", 11, &Ok(7));
    assert!(matches!(m.lookup("/a", 11), SpaceStep::Known(7)));
}

#[test]
fn queued_frames_come_before_a_stop() {
    let stop = Some(ControlMsg::Stop);
    let abandon = Some(ControlMsg::Abandon);
    assert_eq!(drive_step(FrameQueue::Frame, stop), DriveStep::HandleFrame);
    assert_eq!(drive_step(FrameQueue::Empty, stop), DriveStep::Finish);
    assert_eq!(drive_step(FrameQueue::Empty, abandon), DriveStep::GiveUp);
    assert_eq!(drive_step(FrameQueue::Empty, None), DriveStep::Wait);
    assert_eq!(drive_step(FrameQueue::Gone, stop), DriveStep::Finish);
    assert_eq!(drive_step(FrameQueue::Gone, abandon), DriveStep::Dropped);
    let said = dropped_report().unwrap_err().message();
    assert!(said.contains("prior fragments kept as-is"), "{said}");
}

#[test]
fn a_take_without_units_blames_the_missing_encoder() {
    let d = Drive::new(take_params(), None, Some("no such device".into()));
    match d.finish_verdict() {
        Err(SessionError::NoEncoder(why)) => assert_eq!(why, "no such device"),
        other => panic!("{other:?}"),
    }
    let d = Drive::new(take_params(), None, None);
    match d.finish_verdict() {
        Err(SessionError::Record(RecordError::Input(why))) => assert_eq!(why, "no video units"),
        other => panic!("{other:?}"),
    }
}

#[test]
fn a_take_without_a_keyframe_is_refused() {
    let mut d = Drive::new(take_params(), None, None);
    d.count_skip();
    assert_eq!(d.skipped, 1);
    d.capture_sets(vec![0x67], vec![0x68]);
    d.capture_sets(vec![1], vec![2]);
    assert_eq!(d.sets, Some((vec![0x67], vec![0x68])), "the first sets count");
    d.writer = Some(RecordingWriter::create(take_params(), vec![0x03]));
    assert!(d.push_video(&unit(0, false)).unwrap().is_empty());
    match d.finish_verdict() {
        Err(SessionError::Record(RecordError::Input(why))) => {
            assert_eq!(why, "no keyframe observed; refusing undecodable recording")
        }
        other => panic!("{other:?}"),
    }
    d.push_video(&unit(1, true)).unwrap();
    assert_eq!(d.video_units, 2);
    assert!(d.finish_verdict().is_ok());
}

#[test]
fn only_a_silent_thread_is_abandoned() {
    assert_eq!(take_end(&Ok("f".into())), TakeEnd { finished: true, abandon: false });
    assert_eq!(
        take_end(&Err(SessionError::NoEncoder("n".into()))),
        TakeEnd { finished: true, abandon: false }
    );
    assert_eq!(
        take_end(&Err(SessionError::Timeout("t".into()))),
        TakeEnd { finished: false, abandon: true }
    );
}

#[test]
fn parameter_sets_are_accepted_until_the_header_is_written() {
    let mut w = RecordingWriter::create(take_params(), vec![0x03]);
    assert!(w.set_parameter_sets(vec![0x67, 1, 2, 3], vec![0x68]).is_ok());
    let mut written = Vec::new();
    for i in 0..40u64 {
        written.extend(w.push_video(&unit(i, i == 0 || i == 30)).unwrap());
    }
    written.extend(w.push_audio((0..60).map(|_| AacFrame { data: vec![1, 2] }).collect()));
    assert!(!written.is_empty(), "the header is out");
    let err = w.set_parameter_sets(vec![0x67, 1, 2, 3], vec![0x68]).unwrap_err();
    assert!(err.message().contains("arrived after the header"), "{}", err.message());
}

#[test]
fn audio_comes_in_whole_stereo_frames() {
    assert!(check_audio_block(0).is_ok());
    assert!(check_audio_block(4).is_ok());
    let err = check_audio_block(3).unwrap_err();
    assert!(err.message().contains("whole stereo frames"));
}

#[test]
fn the_sequence_header_goes_before_the_first_picture() {
    let mut t = StreamThread::new();
    let mut p = PublisherHandle::new();
    let units = vec![unit(0, true), unit(1, false)];
    assert_eq!(
        t.publish_units(&mut p, &units, None),
        PublishReport { published: 0, dropped: 2 },
        "nothing is sent that could not be decoded"
    );
    let sps = [0x67u8, 0x64, 0x00, 0x1E];
    let pps = [0x68u8];
    assert_eq!(
        t.publish_units(&mut p, &units, Some((&sps, &pps))),
        PublishReport { published: 2, dropped: 0 }
    );
    assert!(t.seq_sent);
    let head = p.begin_write().unwrap();
    assert_eq!(head.payload[..2], [0x17, 0x00]);
    p.end_write();
    let first = p.begin_write().unwrap();
    assert_eq!(first.payload, flv_video_tag(&units[0]));
    assert_eq!(first.kind, MSG_VIDEO);
}

#[test]
fn an_odd_sample_waits_for_its_pair() {
    let mut t = StreamThread::new();
    assert_eq!(t.pair_up(&[1, 2, 3]), vec![1, 2]);
    assert_eq!(t.carry, Some(3));
    assert_eq!(t.pair_up(&[4]), vec![3, 4]);
    assert_eq!(t.carry, None);
    assert!(t.pair_up(&[]).is_empty());
}

#[test]
fn priming_packets_are_not_published() {
    let mut t = StreamThread::new();
    let mut p = PublisherHandle::new();
    let packets: Vec<AacFrame> = (0..4u8).map(|i| AacFrame { data: vec![i] }).collect();
    assert_eq!(t.publish_packets(&mut p, &packets), 2);
    assert_eq!(t.audio_packets, 2);
    let first = p.begin_write().unwrap();
    assert_eq!(first.payload, flv_audio_tag(&[2]));
    assert_eq!(first.timestamp, 0);
    p.end_write();
    assert_eq!(p.begin_write().unwrap().timestamp, 21);
}

#[test]
fn media_goes_out_on_its_own_chunk_stream() {
    let v = video_frame(vec![9; 5], 40);
    assert_eq!(
        write_media(&v, 1, 128),
        write_chunked(CSID_VIDEO, 40, 0x09, 1, &[9; 5], 128)
    );
    let a = audio_frame(vec![7; 3], 41);
    assert_eq!(write_media(&a, 1, 128), write_chunked(CSID_AUDIO, 41, 0x08, 1, &[7; 3], 128));
    assert_eq!(ChunkReader::new().out_chunk_size(), 128);
}

#[test]
fn an_outage_sheds_the_queue_and_keeps_the_announcements() {
    let mut p = PublisherHandle::new();
    assert!(p.try_publish_video(vec![0x17, 0x00, 1], 0));
    assert!(p.try_publish_audio(vec![0xAF, 0x00, 2], 0));
    for _ in 2..PUBLISH_CHANNEL_BOUND {
        assert!(p.try_publish_video(vec![0x27, 0x01], 5));
    }
    assert!(!p.try_publish_video(vec![0x27, 0x01], 6), "the queue is bounded");
    p.drain_stale();
    assert_eq!(p.buffered_bytes(), 0);
    assert_eq!(p.shed_frames(), PUBLISH_CHANNEL_BOUND as u64 + 1);
    assert!(p.begin_write().is_none());
    let again: Vec<Vec<u8>> = p.announcements().into_iter().map(|f| f.payload).collect();
    assert_eq!(again, vec![vec![0x17, 0x00, 1], vec![0xAF, 0x00, 2]]);
}

#[test]
fn the_bare_audio_configuration_is_found_again() {
    let bare = AacEncoder::open(vec![0x11, 0x90]).unwrap();
    assert_eq!(bare.bare_audio_specific_config(), Some(vec![0x11, 0x90]));
    let wrapped = AacEncoder::open(bare.esds_content()).unwrap();
    assert_eq!(wrapped.bare_audio_specific_config(), Some(vec![0x11, 0x90]));
    let long = AacEncoder::open(vec![0x12; 200]).unwrap();
    let wrapped = AacEncoder::open(long.esds_content()).unwrap();
    assert_eq!(wrapped.bare_audio_specific_config(), Some(vec![0x12; 200]));
    assert_eq!(aac_sequence_header(&[0x11, 0x90]), vec![0xAF, 0x00, 0x11, 0x90]);
}

#[test]
fn broken_descriptors_hold_no_configuration() {
    for cookie in [
        vec![0x03],
        vec![0x03, 0x80],
        vec![0x03, 200, 0],
        vec![0x03, 5, 0, 2, 0, 0x05, 0],
        vec![0x03, 3, 0, 2, 0],
    ] {
        let enc = AacEncoder::open(cookie.clone()).unwrap();
        assert_eq!(enc.bare_audio_specific_config(), None, "{cookie:?}");
    }
}

#[test]
fn the_seams_force_what_they_say() {
    let mut p = EncoderProbe::new();
    assert!(!p.force_no_encoder());
    p.set_force_no_encoder(true);
    assert!(p.force_no_encoder());
    let mut s = StreamSeams::new();
    assert!(s.chain_available(true));
    s.set_force_no_chain(true);
    assert!(s.force_no_chain());
    assert!(!s.chain_available(true));
}

#[test]
fn a_take_written_at_once_is_the_take_written_piece_by_piece() {
    let units: Vec<EncodedUnit> = (0..75).map(|i| unit(i, i % 30 == 0)).collect();
    let packet = |i: u8| AacFrame { data: vec![i, i] };
    let blocks: Vec<Vec<AacFrame>> =
        (0..6u8).map(|b| (0..20u8).map(|i| packet(b * 20 + i)).collect()).collect();
    let tail = vec![packet(200)];
    let whole =
        write_recording(&units, blocks.clone(), tail.clone(), take_params(), vec![0x03]).unwrap();

    let mut w = RecordingWriter::create(take_params(), vec![0x03]);
    let mut file = Vec::new();
    for u in &units {
        file.extend(w.push_video(u).unwrap());
    }
    for b in blocks {
        file.extend(w.push_audio(b));
    }
    let done = w.finish(tail);
    file.extend(done.tail);
    assert_eq!(whole.tail, file);
    assert_eq!(whole.patches, done.patches);
    assert_eq!(&file[4..8], b"ftyp");
}

#[test]
fn a_take_of_nothing_is_refused() {
    let err = write_recording(&Vec::new(), Vec::new(), Vec::new(), take_params(), vec![0x03])
        .err()
        .unwrap();
    assert_eq!(err, RecordError::Input("no video units".into()));
    let mut params = take_params();
    params.sps = Vec::new();
    assert!(write_recording(&vec![unit(0, true)], Vec::new(), Vec::new(), params, vec![3]).is_err());
}

#[test]
fn a_picture_for_a_busy_stream_is_counted() {
    let mut skipped = 0;
    assert!(hand_off_stream_surface(Offered::Taken, &mut skipped));
    assert!(!hand_off_stream_surface(Offered::Gone, &mut skipped));
    assert_eq!(skipped, 0);
    assert!(!hand_off_stream_surface(Offered::Full, &mut skipped));
    assert_eq!(skipped, 1);
}

#[test]
fn a_publisher_that_is_told_to_stop_is_closed() {
    let mut p = PublisherHandle::new();
    p.set_state(PublisherState::Live);
    p.shutdown_signal();
    assert_eq!(p.publisher_state(), PublisherState::Closed);
}

use nbe::aac::{
    feed, fill, is_available, push_desc_len, AacEncoder, AacFrame, FillStep, Filled, INPUT_DRAINED,
};
use nbe::decode::{
    cadence_holds, cadence_pattern, clip_source_index, has_alpha, loop_source_index, packed_rows,
    probe_asset, swap_red_blue, DecodeError, DecodeSession, DecodedFrame, Sample,
};
use nbe::encode::session::{
    buffer_fits, check_zero_copy_buffer, EncodeError, EncodeSession, Output, Payload,
};
use nbe::encode::Pts;
use nbe::gpu::{aligned_bytes_per_row, effective_quality, probe_quality, unpadded};
use nbe::manifest::QualityProfile;
use nbe::zerocopy::{build_failed, Holders, SurfacePool, ZeroCopyError};

#[test]
fn clips_play_once_and_loops_again() {
    assert_eq!(clip_source_index(9, 10, 5), None);
    assert_eq!(clip_source_index(10, 10, 5), Some(0));
    assert_eq!(clip_source_index(14, 10, 5), Some(4));
    assert_eq!(clip_source_index(15, 10, 5), None);
    assert_eq!(clip_source_index(10, 10, 0), None);
    assert_eq!(loop_source_index(3, 10, 5), Some(0));
    assert_eq!(loop_source_index(16, 10, 5), Some(1));
    assert_eq!(loop_source_index(16, 10, 0), None);
}

#[test]
fn a_slower_source_is_held() {
    let pattern = cadence_pattern(12, 30, 10);
    assert_eq!(pattern, vec![0, 0, 1, 1, 1, 2, 2, 3, 3, 3]);
    assert_eq!(cadence_holds(&pattern), vec![2, 3, 2, 3]);
    assert_eq!(cadence_holds(&cadence_pattern(30, 30, 4)), vec![1, 1, 1, 1]);
    assert_eq!(cadence_pattern(60, 30, 3), vec![0, 2, 4]);
    assert!(cadence_pattern(0, 30, 3).is_empty());
    assert!(cadence_pattern(30, 0, 3).is_empty());
    assert!(cadence_holds(&[]).is_empty());
    assert_eq!(cadence_holds(&[7, 7, 8, 7]), vec![2, 1, 1]);
}

#[test]
fn rows_lose_their_padding_and_colors_change_places() {
    let padded = [1u8, 2, 3, 4, 99, 99, 5, 6, 7, 8];
    assert_eq!(packed_rows(&padded, 6, 4, 2), vec![1, 2, 3, 4, 5, 6, 7, 8]);
    assert!(packed_rows(&[], 6, 4, 0).is_empty());
    assert_eq!(swap_red_blue(&[1, 2, 3, 4, 5, 6, 7, 8]), vec![3, 2, 1, 4, 7, 6, 5, 8]);
    let twice = swap_red_blue(&swap_red_blue(&[9, 8, 7, 6]));
    assert_eq!(twice, vec![9, 8, 7, 6]);
    assert!(!has_alpha(&[0, 0, 0, 255, 1, 1, 1, 255]));
    assert!(has_alpha(&[0, 0, 0, 255, 1, 1, 1, 254]));
}

#[test]
fn frames_are_numbered_as_they_come() {
    let mut s = DecodeSession::open("clip.mp4".to_string());
    let image = || Sample::Image { width: 1, height: 2, stride: 6, data: vec![3, 2, 1, 4, 0, 0, 7, 6, 5, 8] };
    let f = s.next_frame(image()).unwrap().unwrap();
    assert_eq!((f.index, f.width, f.height), (0, 1, 2));
    assert_eq!(f.rgba, vec![1, 2, 3, 4, 5, 6, 7, 8]);
    assert_eq!(s.next_frame(image()).unwrap().unwrap().index, 1);
    assert!(s.next_frame(Sample::End).unwrap().is_none());
    assert_eq!(
        s.next_frame(Sample::NoImage).unwrap_err().message(),
        "decode failed for clip.mp4: sample buffer carried no image"
    );
    assert_eq!(
        s.next_frame(Sample::Failed("bad".to_string())).unwrap_err().message(),
        "decode failed for clip.mp4: bad"
    );
    assert_eq!(
        DecodeError::NoVideoTrack("x".to_string()).message(),
        "no video track in x"
    );
    assert_eq!(
        DecodeError::Open { path: "p".to_string(), reason: "r".to_string() }.message(),
        "cannot open p: r"
    );
}

#[test]
fn odd_sample_count_is_refused() {
    let enc = AacEncoder::open(vec![0x03]).expect("open must succeed");
    let err = enc.accept(3).expect_err("3 samples are not whole stereo frames");
    assert_eq!(err.kind_token(), "E_AAC_UNAVAILABLE");
    assert_eq!(err.message(), "E_AAC_UNAVAILABLE: refusing 3 samples: not whole stereo frames");
    assert_eq!(enc.accept(2048).unwrap(), 1024);
}

#[test]
fn descriptors_are_the_encoders_own_or_the_least() {
    let own = AacEncoder::open(vec![0x03, 0x80, 1, 2]).unwrap();
    assert_eq!(own.esds_content(), vec![0x03, 0x80, 1, 2]);
    let bare = AacEncoder::open(vec![0x11, 0x90]).unwrap();
    let e = bare.esds_content();
    assert_eq!(&e[..5], &[0x03, 25, 0, 2, 0]);
    assert_eq!(&e[5..12], &[0x04, 20, 0x40, 0x15, 0, 0, 0]);
    assert_eq!(&e[12..20], &[0, 2, 0xEE, 0, 0, 2, 0xEE, 0]);
    assert_eq!(&e[20..], &[0x05, 2, 0x11, 0x90, 0x06, 1, 0x02]);
    assert!(AacEncoder::open(Vec::new()).is_err());
    let mut b = Vec::new();
    push_desc_len(&mut b, 127);
    push_desc_len(&mut b, 128);
    push_desc_len(&mut b, 300);
    assert_eq!(b, vec![127, 0x81, 0, 0x82, 0x2C]);
}

#[test]
fn packets_are_collected_and_bounded() {
    let mut out = Vec::new();
    let call = |packets: Vec<(u64, u32)>, status: i32| Filled { out: vec![1, 2, 3, 4], packets, status };
    assert_eq!(fill(&mut out, &call(vec![(0, 2), (2, 2)], 0)).unwrap(), FillStep::More);
    assert_eq!(out[1], AacFrame { data: vec![3, 4] });
    assert_eq!(fill(&mut out, &call(vec![(1, 1)], INPUT_DRAINED)).unwrap(), FillStep::Done);
    assert_eq!(out.len(), 3);
    assert_eq!(fill(&mut out, &call(vec![], 0)).unwrap(), FillStep::Done);
    let err = fill(&mut out, &call(vec![(3, 2)], 0)).unwrap_err();
    assert_eq!(
        err.message(),
        "E_AAC_UNAVAILABLE: AAC packet [3..3+2] runs past the 4 output bytes"
    );
    let err = fill(&mut out, &call(vec![], -50)).unwrap_err();
    assert_eq!(err.message(), "E_AAC_UNAVAILABLE: AAC conversion failed (OSStatus -50)");
    assert_eq!(feed(10, 4, false), (4, 0));
    assert_eq!(feed(3, 4, false), (3, 0));
    assert_eq!(feed(3, 0, false), (0, INPUT_DRAINED));
    assert_eq!(feed(3, 0, true), (0, 0));
    assert!(is_available(&[3], &vec![AacFrame { data: vec![1] }]));
    assert!(!is_available(&[3], &vec![]));
    assert!(!is_available(&[3], &vec![AacFrame { data: vec![] }]));
    assert!(!is_available(&[], &vec![AacFrame { data: vec![1] }]));
}

#[test]
fn sessions_refuse_what_no_encoder_takes() {
    let refused = |w, h, f, b, s| {
        EncodeSession::open_with_options(w, h, f, b, s).unwrap_err().message()
    };
    assert_eq!(
        refused(640, 360, 30, 1, true),
        "E_NO_HARDWARE_ENCODER: software encode refused: this encoder is hardware-only, no CPU fallback exists"
    );
    assert!(refused(0, 360, 30, 1, false).ends_with("refusing zero-sized encode 0x360"));
    assert!(refused(u32::MAX, 1, 30, 1, false).contains("implausible"));
    assert!(refused(640, 360, 0, 1, false).ends_with("refusing encode frame rate 0"));
    assert!(refused(640, 360, 30, u32::MAX, false).contains("bit rate"));
    assert!(EncodeSession::open(640, 360, 30, 1_000_000).is_ok());
    assert_eq!(EncodeError::NoHardwareEncoder("x".to_string()).kind_token(), "E_NO_HARDWARE_ENCODER");
}

fn sample(index: u64, key: bool, payload: Payload) -> Output {
    Output::Sample {
        pts: Pts { index, rate: 30 },
        is_keyframe: key,
        sets: Some((vec![0x67, 1, 2, 3], vec![0x68, 1])),
        payload,
    }
}

#[test]
fn a_session_keeps_every_unit_and_the_first_sets() {
    let mut s = EncodeSession::open(2, 2, 30, 1000).unwrap();
    let err = s.encode_rgba(15).unwrap_err();
    assert!(err.message().ends_with("expected 16 bytes of RGBA for 2x2, got 15"));
    let first = s.encode_rgba(16).unwrap();
    assert!(first.force_keyframe);
    s.on_output(sample(1, false, Payload::Bytes(vec![9])));
    assert!(s.param_sets.is_none());
    s.on_output(sample(0, true, Payload::Bytes(vec![7])));
    assert!(s.param_sets.is_some());
    assert_eq!(s.submitted(first, false).len(), 2);
    assert_eq!(s.take_new_units().len(), 0);
    assert!(!s.encode_rgba(16).unwrap().force_keyframe);
    s.on_output(Output::Failed(-12));
    s.on_output(sample(2, false, Payload::Missing));
    assert_eq!(s.first_error.as_deref(), Some("compression callback reported OSStatus -12"));
    let all = s.finish(0).unwrap();
    assert_eq!(all.iter().map(|u| u.pts.index).collect::<Vec<_>>(), vec![0, 1]);
}

#[test]
fn a_stream_without_units_has_failed() {
    let open = || EncodeSession::open(2, 2, 30, 1000).unwrap();
    assert!(open().finish(0).unwrap_err().message().ends_with("encoder produced no access units"));
    assert!(open().finish(-3).unwrap_err().message().contains("(OSStatus -3)"));
    for (payload, text) in [
        (Payload::Missing, "compressed sample carried no data buffer"),
        (Payload::Stuck, "could not copy compressed sample bytes"),
        (Payload::Bytes(vec![]), "compressed sample carried an empty data buffer"),
    ] {
        let mut s = open();
        s.on_output(Output::Nothing);
        s.on_output(sample(0, true, payload));
        assert_eq!(
            s.finish(0).unwrap_err().message(),
            format!("E_NO_HARDWARE_ENCODER: encoder produced no access units ({text})")
        );
    }
}

#[test]
fn places_only_go_up_and_shapes_have_to_match() {
    let mut s = EncodeSession::open(640, 360, 30, 1000).unwrap();
    let first = s.encode_pixel_buffer_at(5, true, 640, 360).unwrap();
    assert!(first.force_keyframe);
    s.submitted(first, true);
    assert!(s
        .encode_pixel_buffer_at(5, true, 640, 360)
        .unwrap_err()
        .message()
        .ends_with("pts index 5 does not follow 5; refusing a non-increasing timeline"));
    assert!(s.encode_pixel_buffer_at(9, true, 640, 360).is_ok());
    assert!(s.encode_pixel_buffer(false, 640, 360).unwrap_err().message().contains("32BGRA"));
    assert!(check_zero_copy_buffer(true, 1, 360, 640, 360)
        .unwrap_err()
        .message()
        .ends_with("zero-copy buffer is 1x360, session is 640x360"));
    s.finished = true;
    assert!(s.encode_pixel_buffer(true, 640, 360).unwrap_err().message().contains("finished"));
    assert!(buffer_fits(8, 8, 2, 16));
    assert!(!buffer_fits(8, 8, 2, 15));
    assert!(!buffer_fits(7, 8, 2, 100));
    assert!(!buffer_fits(usize::MAX, 8, 3, usize::MAX));
}

#[test]
fn a_surface_in_use_is_not_handed_out() {
    let held = |owners, retains| Holders { owners, retains };
    let pool = vec![held(2, 1), held(1, 2), held(1, 1), held(1, 0)];
    assert_eq!(SurfacePool::acquire(&pool), Some(2));
    assert_eq!(SurfacePool::free(&pool), 2);
    assert_eq!(SurfacePool::acquire(&vec![held(1, 2)]), None);
    let p = SurfacePool::new(1920, 1080, 5).unwrap();
    assert_eq!((p.len(), p.dimensions()), (5, (1920, 1080)));
    assert_eq!(
        SurfacePool::new(1, 1, 0).unwrap_err().message(),
        "E_NO_ZEROCOPY: a surface pool of zero surfaces is not a pool"
    );
    assert_eq!(
        SurfacePool::new(0, 1, 1).unwrap_err().message(),
        "E_NO_ZEROCOPY: implausible surface geometry 0x1"
    );
    assert_eq!(
        build_failed(1, 5, "nil").message(),
        "E_NO_ZEROCOPY: surface 1 of 5 could not be built: nil"
    );
    let e = ZeroCopyError::from(EncodeError::NoHardwareEncoder("x".to_string()));
    assert_eq!(e.message(), "E_NO_HARDWARE_ENCODER: x");
}

#[test]
fn pictures_are_read_back_row_by_row() {
    assert_eq!(aligned_bytes_per_row(0), 0);
    assert_eq!(aligned_bytes_per_row(1), 256);
    assert_eq!(aligned_bytes_per_row(256), 256);
    assert_eq!(aligned_bytes_per_row(7680), 7680);
    let mut data = vec![0u8; 512];
    data[..4].copy_from_slice(&[1, 2, 3, 4]);
    data[256..260].copy_from_slice(&[5, 6, 7, 8]);
    assert_eq!(unpadded(&data, 1, 2), vec![1, 2, 3, 4, 5, 6, 7, 8]);
}

#[test]
fn quality_is_capped_and_never_raised() {
    assert_eq!(probe_quality(true), QualityProfile::Potato);
    assert_eq!(probe_quality(false), QualityProfile::Consumer);
    assert_eq!(
        effective_quality(QualityProfile::Consumer, Some(QualityProfile::Reference)),
        QualityProfile::Consumer
    );
    assert_eq!(
        effective_quality(QualityProfile::Consumer, Some(QualityProfile::Potato)),
        QualityProfile::Potato
    );
    assert_eq!(effective_quality(QualityProfile::Pro, None), QualityProfile::Pro);
}

fn frame_of(index: u64, alpha: u8) -> DecodedFrame {
    DecodedFrame { index, width: 1, height: 1, rgba: vec![1, 2, 3, alpha] }
}

#[test]
fn a_probe_tells_a_constant_rate_from_a_varying_one() {
    let frames: Vec<DecodedFrame> = (0..4).map(|i| frame_of(i, 255)).collect();
    let even = probe_asset("a.mov", &frames, &vec![0, 100, 200, 300]).unwrap();
    assert!(even.cfr);
    assert_eq!(even.measured, Some((3, 300)));
    assert_eq!((even.width, even.height, even.frame_count), (1, 1, 4));
    assert!(!even.has_alpha);
    let close = probe_asset("a.mov", &frames, &vec![0, 100, 205, 305]).unwrap();
    assert!(close.cfr, "within a twentieth of the mean");
    let uneven = probe_asset("a.mov", &frames, &vec![0, 100, 206, 306]).unwrap();
    assert!(!uneven.cfr);
    let back = probe_asset("a.mov", &frames, &vec![0, 100, 50, 150]).unwrap();
    assert_eq!(back.measured, Some((2, 200)), "only steps forward count");
}

#[test]
fn a_probe_of_one_frame_measures_no_rate() {
    let one = probe_asset("a.mov", &vec![frame_of(0, 7)], &vec![42]).unwrap();
    assert!(one.cfr && one.has_alpha);
    assert_eq!(one.measured, None);
    match probe_asset("a.mov", &Vec::new(), &Vec::new()) {
        Err(DecodeError::Failed { path, reason }) => {
            assert_eq!(path, "a.mov");
            assert_eq!(reason, "no frames decoded");
        }
        other => panic!("{other:?}"),
    }
}

#[test]
fn units_of_one_time_stay_in_the_order_they_came() {
    let mut s = EncodeSession::open(2, 2, 30, 1000).unwrap();
    for (index, byte) in [(2, 1), (0, 2), (2, 3), (1, 4), (0, 5)] {
        s.on_output(sample(index, false, Payload::Bytes(vec![byte])));
    }
    let all = s.finish(0).unwrap();
    let seen: Vec<(u64, u8)> = all.iter().map(|u| (u.pts.index, u.data[0])).collect();
    assert_eq!(seen, vec![(0, 2), (0, 5), (1, 4), (2, 1), (2, 3)]);
}

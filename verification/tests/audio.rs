use nbe::audio::{
    read_index, sample_for_master_frame, source_reads, source_start, AudioGraph, BusId, Feed,
    Source,
};
use nbe::audio_control::{apply, take_level, AudioCommand, GraphAction, RampLength, TakeLevel};
use nbe::audio_driver::{
    block_frames_at, blocks_per, take_batch, MeterWindow, NullSink, Pace, MAX_COMMANDS_PER_CYCLE,
};
use nbe::json::parse;
use nbe::protocol::DirectiveFrame;
use nbe::scene::Number;
use nbe::strmap::StrMap;

fn directive(command: &str, payload: &str) -> DirectiveFrame {
    DirectiveFrame {
        v: "0.4".to_string(),
        seq: 0,
        state_version: 0,
        command: command.to_string(),
        target: parse("{}").unwrap(),
        payload: parse(payload).unwrap(),
    }
}

fn names(feeds: &[Feed]) -> Vec<String> {
    feeds
        .iter()
        .map(|f| match f {
            Feed::Bus(b, s) => format!("{}{}", b.as_str(), if s.is_some() { "+" } else { "" }),
            Feed::Voices => "voices".to_string(),
            Feed::Guest(g, _) => format!("guest:{g}"),
        })
        .collect()
}

#[test]
fn buses_are_known_by_their_names() {
    for name in ["mic", "clip", "music", "sfx", "guest", "master", "guestReturn", "ifb"] {
        assert_eq!(BusId::parse(name).unwrap().as_str(), name);
    }
    assert_eq!(BusId::parse("guestreturn"), None);
    assert!(BusId::Guest.feeds_master() && !BusId::Ifb.feeds_master());
}

#[test]
fn a_guest_hears_everyone_else() {
    let mut g = AudioGraph::new(30);
    let tone = |n| vec![Source::Tone { tone: n }];
    g.upsert_guest("zoe", tone(1));
    g.upsert_guest("ann", tone(2));
    g.upsert_guest("max", tone(3));
    g.upsert_guest("ann", tone(4));
    g.set_source(BusId::Clip, tone(5));
    g.trigger("stab", 100);
    assert_eq!(
        names(&g.program_feeds()),
        vec!["mic", "clip+", "music", "sfx", "guest", "voices", "guest:ann", "guest:max", "guest:zoe"]
    );
    assert_eq!(names(&g.return_feeds("max")), vec!["clip+", "guest:ann", "guest:zoe"]);
    assert_eq!(
        names(&g.return_feeds("nobody")),
        vec!["clip+", "guest:ann", "guest:max", "guest:zoe"]
    );
}

#[test]
fn a_swap_waits_for_silence() {
    let mut g = AudioGraph::new(30);
    g.set_source(BusId::Clip, vec![Source::Tone { tone: 1 }]);
    assert!(!g.swap_source_through_silence(BusId::Clip, vec![Source::Tone { tone: 2 }], 0, 0, false));
    assert!(g.service_pending_swaps(&[false; 8]).is_empty());
    let clip = |g: &AudioGraph| match &g.program_feeds()[1] {
        Feed::Bus(_, Some(s)) => s[0],
        other => panic!("{other:?}"),
    };
    assert_eq!(clip(&g), Source::Tone { tone: 1 });
    let made = g.service_pending_swaps(&[true; 8]);
    assert_eq!(made.len(), 1);
    assert_eq!(clip(&g), Source::Tone { tone: 2 });
    assert!(g.service_pending_swaps(&[true; 8]).is_empty());
    assert!(g.swap_source_through_silence(BusId::Clip, vec![Source::Tone { tone: 3 }], 0, 0, true));
    assert_eq!(clip(&g), Source::Tone { tone: 3 });
}

#[test]
fn voices_stop_by_number_or_by_asset() {
    let mut g = AudioGraph::new(30);
    let first = g.trigger("stab", 100);
    let second = g.trigger("stab", 100);
    g.trigger("bed", 100);
    assert_eq!((first, second), (1, 2));
    assert_eq!(g.stop_voice(Some(first), Some("bed")), 1);
    assert_eq!(g.stop_voice(None, Some("stab")), 1);
    assert_eq!(g.stop_voice(None, None), 0);
    assert_eq!(g.stop_all_voices(), 1);
    assert_eq!(g.active_voices(), 3);
    g.finish_block(10, &vec![true, false, false]);
    assert_eq!(g.active_voices(), 2);
    assert_eq!((g.voice(0).playback_id, g.voice(0).position), (2, 20));
    assert_eq!((g.voice(1).playback_id, g.voice(1).position), (3, 20));
    g.finish_block(40, &vec![false, false]);
    assert_eq!(g.active_voices(), 0);
}

#[test]
fn a_source_is_read_where_its_frame_puts_it() {
    assert_eq!(sample_for_master_frame(30, 0, 30), 48_000);
    assert_eq!(sample_for_master_frame(25, 50, 25), -48_000);
    assert_eq!(sample_for_master_frame(1, 0, 30), 1_600);
    assert_eq!(read_index(5, 100, false), Some(10));
    assert_eq!(read_index(50, 100, false), None);
    assert_eq!(read_index(-1, 100, false), None);
    assert_eq!(read_index(-1, 100, true), Some(98));
    assert_eq!(read_index(52, 100, true), Some(4));
    assert_eq!(read_index(0, 0, true), None);
    let reads = source_reads(1599, 1, 30, 6, false, 5);
    assert_eq!(reads, vec![None, Some(0), Some(2), Some(4), None]);
    assert_eq!(source_start(1599, 1, 30), -1);
    assert_eq!(source_start(0, 0, 0), 0);
}

#[test]
fn directives_become_commands() {
    match AudioCommand::from_directive(&directive("soundboard.play", r#"{"assetId":"a","gainDb":-3}"#)) {
        Ok(AudioCommand::Play { asset_id, gain_db }) => {
            assert_eq!(asset_id, "a");
            assert_eq!(gain_db, Some(Number::Negative(-3)));
        }
        other => panic!("{other:?}"),
    }
    let err = |c: &str| AudioCommand::from_directive(&directive(c, "{}")).unwrap_err().message();
    assert_eq!(err("soundboard.play"), "invalid directive: soundboard.play needs assetId");
    assert_eq!(err("audio.bus.set"), "invalid directive: audio.bus.set needs bus");
    assert_eq!(err("guest.mute"), "invalid directive: guest.mute needs guestId");
    assert_eq!(err("view.take"), "invalid directive: view.take is not an audio directive");
    assert!(matches!(
        AudioCommand::from_directive(&directive("audio.duck", r#"{"enabled":true}"#)),
        Ok(AudioCommand::Duck { enabled: true, depth_db: None, .. })
    ));
    assert!(matches!(
        AudioCommand::from_directive(&directive("soundboard.stop", r#"{"playbackId":7}"#)),
        Ok(AudioCommand::Stop { playback_id: Some(7), asset_id: None })
    ));
}

#[test]
fn commands_do_only_what_they_can() {
    let mut library: StrMap<u8> = StrMap::new();
    library.insert("stab", 1);
    let play = |a: &str| AudioCommand::Play { asset_id: a.to_string(), gain_db: None };
    assert!(matches!(apply(play("stab"), &library), GraphAction::Trigger { .. }));
    assert!(matches!(apply(play("other"), &library), GraphAction::Nothing));
    let set = |bus: &str, guest: Option<&str>| AudioCommand::BusSet {
        bus: bus.to_string(),
        guest_id: guest.map(|g| g.to_string()),
        gain_db: None,
        muted: Some(true),
    };
    assert!(matches!(
        apply(set("guestReturn", Some("ann")), &library),
        GraphAction::SetGuest { guest_id, .. } if guest_id == "ann"
    ));
    assert!(matches!(apply(set("guestReturn", None), &library), GraphAction::Nothing));
    assert!(matches!(
        apply(set("music", Some("ann")), &library),
        GraphAction::SetBus { bus: BusId::Music, .. }
    ));
    assert!(matches!(apply(set("nowhere", None), &library), GraphAction::Nothing));
    let take = |a: Option<&str>| AudioCommand::TakeItem {
        item_ref: "A1".to_string(),
        asset_id: a.map(|s| s.to_string()),
        t0: 9,
        mode: "follow".to_string(),
        ramp_ms: None,
        crossfade_frames: 12,
    };
    assert!(matches!(
        apply(take(Some("stab")), &library),
        GraphAction::SwapClip { asset_id: Some(_), t0: 9, .. }
    ));
    assert!(matches!(
        apply(take(Some("gone")), &library),
        GraphAction::SwapClip { asset_id: None, .. }
    ));
    assert!(matches!(apply(take(None), &library), GraphAction::SwapClip { asset_id: None, .. }));
}

#[test]
fn a_take_comes_up_by_its_mode() {
    let level = |m: &str, f: u64| take_level(m, f);
    assert_eq!(level("mute", 9), TakeLevel { muted: true, ramp: RampLength::Asked });
    assert_eq!(level("cut", 9), TakeLevel { muted: false, ramp: RampLength::Asked });
    assert_eq!(level("crossfade", 9), TakeLevel { muted: false, ramp: RampLength::Longer });
    assert_eq!(level("follow", 9), TakeLevel { muted: false, ramp: RampLength::Crossfade });
    assert_eq!(level("follow", 0), TakeLevel { muted: false, ramp: RampLength::Asked });
}

#[test]
fn a_flood_of_commands_is_taken_in_batches() {
    let mut pending: Vec<AudioCommand> = (0..100).map(|_| AudioCommand::StopAll).collect();
    pending.push(AudioCommand::GuestMute { guest_id: "g".to_string(), muted: true });
    assert_eq!(take_batch(&mut pending).len(), MAX_COMMANDS_PER_CYCLE);
    let rest = take_batch(&mut pending);
    assert_eq!(rest.len(), 37);
    assert!(matches!(rest[36], AudioCommand::GuestMute { .. }));
    assert!(pending.is_empty());
}

#[test]
fn a_null_sink_counts_what_it_takes() {
    let mut s = NullSink::new(1600);
    assert_eq!(s.block_frames(), 1600);
    assert!(s.write(3200));
    s.fail_next = true;
    assert!(!s.write(3200));
    assert!(s.write(3200));
    assert_eq!((s.blocks, s.frames), (2, 3200));
}

#[test]
fn meters_cover_a_window_of_blocks() {
    assert_eq!(block_frames_at(30), 1600);
    assert_eq!(block_frames_at(0), 48_000);
    assert_eq!(blocks_per(1600, 1000), 30);
    assert_eq!(blocks_per(1920, 1000), 25);
    assert_eq!(blocks_per(48_000, 1), 1);
    let mut w = MeterWindow::new(1600, 100);
    assert_eq!(w.per_window, 3);
    let rolls: Vec<bool> = (0..6).map(|_| w.roll()).collect();
    assert_eq!(rolls, vec![false, false, true, false, false, true]);
}

#[test]
fn a_driver_that_falls_behind_starts_over() {
    let mut p = Pace { next_ns: 100 };
    assert_eq!(p.wait_ns(60), 40);
    assert_eq!(p.wait_ns(160), 0);
    assert!(!p.advance(120, 33));
    assert_eq!(p.next_ns, 133);
    assert!(p.advance(500, 33));
    assert_eq!(p.next_ns, 533);
}

#[test]
fn the_sound_is_measured_against_the_picture() {
    let mut g = AudioGraph::new(30);
    assert_eq!(g.house_frame_rate(), 30);
    for _ in 0..60 {
        g.note_rendered(1600);
    }
    assert_eq!(g.rendered_samples(), 96_000);
    assert_eq!(g.drift_samples(60), 0);
    assert_eq!(g.drift_samples(61), -1600);
    assert_eq!(g.drift_samples(0), 96_000);
    assert_eq!(g.underruns(), 0);
    g.note_underrun();
    assert_eq!(g.underruns(), 1);
}

#[test]
fn guests_are_listed_by_name() {
    let mut g = AudioGraph::new(60);
    g.upsert_guest("zoe", Vec::new());
    g.upsert_guest("ana", Vec::new());
    assert_eq!(g.guest_ids(), vec!["ana".to_string(), "zoe".to_string()]);
}

use nbe::channel::{
    authorization, Backoff, ConnectionGate, Ended, EngineConfig, GateDecision, Inbound,
    RenderChannel,
};
use nbe::json::{parse, Json};
use nbe::protocol::{DirectiveFrame, EngineFrame, ResyncReason, RESYNC};

fn empty() -> Json {
    parse("{}").unwrap()
}

fn mk(command: &str, seq: u64, sv: u64) -> DirectiveFrame {
    DirectiveFrame {
        v: "0.4".to_string(),
        seq,
        state_version: sv,
        command: command.to_string(),
        target: empty(),
        payload: empty(),
    }
}

#[test]
fn gate_blocks_all_until_resync() {
    let mut g = ConnectionGate::new();
    assert_eq!(g.classify(&mk("view.take", 0, 1), 0), GateDecision::WaitForResync);
}

#[test]
fn gate_accepts_after_resync_and_tracks_seq() {
    let mut g = ConnectionGate::new();
    g.on_resync(&mk(RESYNC, 0, 10));
    assert_eq!(g.classify(&mk("show.start", 1, 11), 10), GateDecision::Accept);
    assert_eq!(g.classify(&mk("show.stop", 2, 12), 11), GateDecision::Accept);
}

#[test]
fn gate_rejects_stale_stateversion() {
    let mut g = ConnectionGate::new();
    g.on_resync(&mk(RESYNC, 0, 10));
    assert_eq!(g.classify(&mk("view.take", 1, 5), 10), GateDecision::StaleStateVersion);
}

#[test]
fn gate_detects_seq_gap_and_never_guesses() {
    let mut g = ConnectionGate::new();
    g.on_resync(&mk(RESYNC, 0, 10));
    assert_eq!(g.classify(&mk("show.stop", 3, 11), 10), GateDecision::SeqGap);
}

#[test]
fn a_fresh_gate_forgets_prior_connection() {
    let mut g1 = ConnectionGate::new();
    g1.on_resync(&mk(RESYNC, 0, 20));
    g1.classify(&mk("show.start", 1, 21), 20);
    let mut g2 = ConnectionGate::new();
    assert_eq!(g1.classify(&mk("view.take", 2, 22), 20), GateDecision::Accept);
    assert_eq!(g2.classify(&mk("view.take", 5, 30), 20), GateDecision::WaitForResync);
}

#[test]
fn a_gap_is_answered_with_a_request_and_does_not_move_the_gate() {
    let mut c = RenderChannel::new(EngineConfig::default());
    assert!(matches!(c.on_frame(&mk("show.start", 1, 11), 0), Inbound::Drop));
    assert!(matches!(c.on_frame(&mk(RESYNC, 4, 10), 0), Inbound::ApplySnapshot));
    assert!(matches!(
        c.on_frame(&mk("show.start", 6, 11), 10),
        Inbound::Send(EngineFrame::ResyncRequest { reason: ResyncReason::SeqGap })
    ));
    assert!(matches!(c.on_frame(&mk("show.start", 5, 9), 10), Inbound::Drop));
    assert!(matches!(c.on_frame(&mk("show.start", 5, 11), 10), Inbound::Apply));
    assert!(matches!(c.on_frame(&mk("show.start", 6, 12), 11), Inbound::Apply));
    assert!(matches!(c.on_frame(&mk(RESYNC, 0, 30), 12), Inbound::ApplySnapshot));
    assert!(matches!(c.on_frame(&mk("show.start", 1, 31), 30), Inbound::Apply));
}

#[test]
fn the_defaults_reach_a_local_control_plane() {
    let c = RenderChannel::new(EngineConfig::default());
    assert_eq!(c.cfg().control_plane_url, "ws://127.0.0.1:8462/nbe/v0.3");
    assert_eq!(c.cfg().token, "");
    assert_eq!(c.cfg().house_rate, 30);
    assert_eq!(c.cfg().telemetry_interval_ms, 1000);
    assert_eq!(authorization("abc"), "Bearer abc");
}

#[test]
fn pauses_double_and_start_over() {
    let mut b = Backoff::new();
    let failed = Ended::Failed { connected_ms: 0 };
    let waits: Vec<u64> = (0..9).map(|_| b.after(failed)).collect();
    assert_eq!(waits, vec![100, 200, 400, 800, 1600, 3200, 6400, 10_000, 10_000]);
    assert_eq!(b.after(Ended::Failed { connected_ms: 10_000 }), 100);
    assert_eq!(b.after(failed), 200);
    assert_eq!(b.after(Ended::Cleanly), 100);
}

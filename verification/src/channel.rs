//! The channel to the control plane: which directives are applied, and how
//! long to wait before connecting again.

use crate::protocol::{DirectiveFrame, DirectiveView, EngineFrame, EngineFrameView, ResyncReason, RESYNC};
use crate::text::str_eq;
use vstd::prelude::*;

verus! {

/// The first pause before connecting again, in milliseconds.
pub const FIRST_DELAY_MS: u64 = 100;

/// The longest pause before connecting again, in milliseconds.
pub const MAX_DELAY_MS: u64 = 10_000;

/// How to reach the control plane.
#[derive(Debug)]
pub struct EngineConfig {
    pub control_plane_url: String,
    pub token: String,
    pub house_rate: u32,
    /// Milliseconds between telemetry ticks.
    pub telemetry_interval_ms: u64,
}

impl Default for EngineConfig {
    fn default() -> (c: EngineConfig)
        ensures
            c.control_plane_url@ == "ws://127.0.0.1:8462/nbe/v0.3"@,
            c.token@ == Seq::<char>::empty(),
            c.house_rate == 30,
            c.telemetry_interval_ms == 1000,
    {
        let c: EngineConfig = EngineConfig {
            control_plane_url: "ws://127.0.0.1:8462/nbe/v0.3".to_owned(),
            token: "".to_owned(),
            house_rate: 30,
            telemetry_interval_ms: 1000,
        };
        proof {
            reveal_strlit("");
        }
        assert(c.token@ =~= Seq::<char>::empty());
        c
    }
}

/// Admission on one connection. Nothing passes before a snapshot; after it,
/// only what follows without a gap.
#[derive(Debug)]
pub struct ConnectionGate {
    resynced: bool,
    expected_seq: Option<u64>,
}

/// Admission, as contracts speak of it: the number that must come next, once a
/// snapshot has arrived.
pub enum GateView {
    Waiting,
    Expecting(int),
}

/// What is decided about a directive.
#[derive(Debug, Clone, Copy, PartialEq, Eq, Structural)]
pub enum GateDecision {
    Accept,
    WaitForResync,
    StaleStateVersion,
    SeqGap,
}

impl View for ConnectionGate {
    type V = GateView;

    closed spec fn view(&self) -> GateView {
        if !self.resynced {
            GateView::Waiting
        } else {
            match self.expected_seq {
                Some(n) => GateView::Expecting(n as int),
                None => GateView::Expecting(u64::MAX + 1),
            }
        }
    }
}

/// The decision about a directive, where `applied` is the last applied state
/// version.
pub open spec fn decision(gate: GateView, d: DirectiveView, applied: u64) -> GateDecision {
    match gate {
        GateView::Waiting => GateDecision::WaitForResync,
        GateView::Expecting(n) => if d.state_version <= applied {
            GateDecision::StaleStateVersion
        } else if d.seq != n {
            GateDecision::SeqGap
        } else {
            GateDecision::Accept
        },
    }
}

/// Admission after a decision: only a directive that passes changes it.
pub open spec fn gate_after(gate: GateView, d: DirectiveView, applied: u64) -> GateView {
    if decision(gate, d, applied) is Accept {
        GateView::Expecting(d.seq + 1)
    } else {
        gate
    }
}

impl ConnectionGate {
    /// Admission on a new connection.
    pub fn new() -> (g: ConnectionGate)
        ensures
            g@ is Waiting,
    {
        ConnectionGate { resynced: false, expected_seq: None }
    }

    /// A snapshot has arrived.
    pub fn on_resync(&mut self, frame: &DirectiveFrame)
        ensures
            final(self)@ == GateView::Expecting(frame@.seq + 1),
    {
        self.resynced = true;
        self.expected_seq = frame.seq.checked_add(1);
    }

    /// Decide about a directive.
    pub fn classify(&mut self, frame: &DirectiveFrame, applied_state_version: u64) -> (r:
        GateDecision)
        ensures
            r == decision(old(self)@, frame@, applied_state_version),
            final(self)@ == gate_after(old(self)@, frame@, applied_state_version),
    {
        if !self.resynced {
            return GateDecision::WaitForResync;
        }
        if frame.state_version <= applied_state_version {
            return GateDecision::StaleStateVersion;
        }
        match self.expected_seq {
            Some(expect) => {
                if frame.seq != expect {
                    return GateDecision::SeqGap;
                }
                self.expected_seq = expect.checked_add(1);
            },
            None => return GateDecision::SeqGap,
        }
        GateDecision::Accept
    }
}

/// What to do with a directive that arrived.
#[derive(Debug)]
pub enum Inbound {
    /// Apply it; the connection ends if that fails.
    ApplySnapshot,
    /// Apply it; a failure is only reported.
    Apply,
    /// Leave it.
    Drop,
    /// Leave it, and send this: a gap is never guessed over.
    Send(EngineFrame),
}

/// An inbound action, as contracts speak of it.
pub enum InboundView {
    ApplySnapshot,
    Apply,
    Drop,
    Send(EngineFrameView),
}

impl View for Inbound {
    type V = InboundView;

    open spec fn view(&self) -> InboundView {
        match *self {
            Inbound::ApplySnapshot => InboundView::ApplySnapshot,
            Inbound::Apply => InboundView::Apply,
            Inbound::Drop => InboundView::Drop,
            Inbound::Send(f) => InboundView::Send(f@),
        }
    }
}

/// What to do with a directive that arrived: a snapshot always passes, the rest
/// as admission decides.
pub open spec fn inbound_of(gate: GateView, d: DirectiveView, applied: u64) -> InboundView {
    if d.command == RESYNC@ {
        InboundView::ApplySnapshot
    } else {
        match decision(gate, d, applied) {
            GateDecision::Accept => InboundView::Apply,
            GateDecision::SeqGap => InboundView::Send(
                EngineFrameView::ResyncRequest { reason: ResyncReason::SeqGap },
            ),
            _ => InboundView::Drop,
        }
    }
}

/// Admission after a directive arrived.
pub open spec fn gate_then(gate: GateView, d: DirectiveView, applied: u64) -> GateView {
    if d.command == RESYNC@ {
        GateView::Expecting(d.seq + 1)
    } else {
        gate_after(gate, d, applied)
    }
}

/// The engine's side of the channel: its configuration, and what
/// the connection it has lets pass.
#[derive(Debug)]
pub struct RenderChannel {
    cfg: EngineConfig,
    gate: ConnectionGate,
}

impl RenderChannel {
    /// Admission on this connection.
    pub closed spec fn gate(self) -> GateView {
        self.gate@
    }

    /// How the control plane is reached.
    pub closed spec fn config(self) -> EngineConfig {
        self.cfg
    }

    /// A channel for one connection.
    pub fn new(cfg: EngineConfig) -> (c: RenderChannel)
        ensures
            c.gate() is Waiting,
            c.config() == cfg,
    {
        RenderChannel { cfg, gate: ConnectionGate::new() }
    }

    /// How the control plane is reached.
    pub fn cfg(&self) -> (c: &EngineConfig)
        ensures
            *c == self.config(),
    {
        &self.cfg
    }

    /// Decide what to do with a directive that arrived, where `applied` is the
    /// last applied state version.
    pub fn on_frame(&mut self, frame: &DirectiveFrame, applied: u64) -> (r: Inbound)
        ensures
            r@ == inbound_of(old(self).gate(), frame@, applied),
            final(self).gate() == gate_then(old(self).gate(), frame@, applied),
            final(self).config() == old(self).config(),
    {
        if str_eq(frame.command.as_str(), RESYNC) {
            self.gate.on_resync(frame);
            return Inbound::ApplySnapshot;
        }
        match self.gate.classify(frame, applied) {
            GateDecision::Accept => Inbound::Apply,
            GateDecision::SeqGap => Inbound::Send(
                EngineFrame::ResyncRequest { reason: ResyncReason::SeqGap },
            ),
            GateDecision::WaitForResync => Inbound::Drop,
            GateDecision::StaleStateVersion => Inbound::Drop,
        }
    }
}

/// The authorization header's value.
pub fn authorization(token: &str) -> (s: String)
    ensures
        s@ == "Bearer "@ + token@,
{
    let mut s: String = "Bearer ".to_owned();
    s.append(token);
    s
}

/// How a connection ended.
#[derive(Debug, Clone, Copy, PartialEq, Eq, Structural)]
pub enum Ended {
    /// In order.
    Cleanly,
    /// With an error, after so many milliseconds.
    Failed { connected_ms: u64 },
}

/// How long to wait before connecting again.
#[derive(Debug, Clone, Copy, PartialEq, Eq, Structural)]
pub struct Backoff {
    delay_ms: u64,
}

impl Backoff {
    /// The pause that stands, in milliseconds.
    pub closed spec fn delay(self) -> u64 {
        self.delay_ms
    }

    /// The first pause.
    pub fn new() -> (b: Backoff)
        ensures
            b.delay() == FIRST_DELAY_MS,
    {
        Backoff { delay_ms: FIRST_DELAY_MS }
    }

    /// The milliseconds to wait after a connection ended. One that held for as
    /// long as the pause starts over; the pause doubles for the next time, up to
    /// its bound.
    pub fn after(&mut self, ended: Ended) -> (wait_ms: u64)
        requires
            old(self).delay() <= MAX_DELAY_MS,
        ensures
            wait_ms == pause(old(self).delay(), ended),
            final(self).delay() == doubled(wait_ms),
            final(self).delay() <= MAX_DELAY_MS,
    {
        match ended {
            Ended::Cleanly => {
                self.delay_ms = FIRST_DELAY_MS;
            },
            Ended::Failed { connected_ms } => {
                if connected_ms >= self.delay_ms {
                    self.delay_ms = FIRST_DELAY_MS;
                }
            },
        }
        let wait: u64 = self.delay_ms;
        self.delay_ms = if wait * 2 < MAX_DELAY_MS {
            wait * 2
        } else {
            MAX_DELAY_MS
        };
        wait
    }
}

/// The pause after a connection ended.
pub open spec fn pause(delay: u64, ended: Ended) -> u64 {
    match ended {
        Ended::Cleanly => FIRST_DELAY_MS,
        Ended::Failed { connected_ms } => if connected_ms >= delay {
            FIRST_DELAY_MS
        } else {
            delay
        },
    }
}

/// Twice a pause, up to the bound.
pub open spec fn doubled(wait: u64) -> u64 {
    if wait * 2 < MAX_DELAY_MS {
        (wait * 2) as u64
    } else {
        MAX_DELAY_MS
    }
}

/// The directives that pass, of those that arrive on one connection, by their
/// numbers. `applied` is the last applied state version at each.
pub open spec fn passed(gate: GateView, ds: Seq<DirectiveView>, applied: Seq<u64>) -> Seq<u64>
    decreases ds.len(),
{
    if ds.len() == 0 {
        Seq::empty()
    } else {
        let rest = passed(
            gate_then(gate, ds[0], applied[0]),
            ds.drop_first(),
            applied.drop_first(),
        );
        if inbound_of(gate, ds[0], applied[0]) is Apply || inbound_of(gate, ds[0], applied[0])
            is ApplySnapshot {
            seq![ds[0].seq] + rest
        } else {
            rest
        }
    }
}

/// Nothing but a snapshot passes on a fresh connection.
pub proof fn law_nothing_passes_before_a_snapshot(d: DirectiveView, applied: u64)
    requires
        d.command != RESYNC@,
    ensures
        inbound_of(GateView::Waiting, d, applied) is Drop,
        gate_then(GateView::Waiting, d, applied) is Waiting,
{
}

/// Between snapshots, what passes is numbered without a gap, from the number
/// after the snapshot's.
pub proof fn law_no_gap_passes(n: int, ds: Seq<DirectiveView>, applied: Seq<u64>)
    requires
        applied.len() == ds.len(),
        forall|i: int| 0 <= i < ds.len() ==> (#[trigger] ds[i]).command != RESYNC@,
    ensures
        forall|i: int|
            0 <= i < passed(GateView::Expecting(n), ds, applied).len() ==> #[trigger] passed(
                GateView::Expecting(n),
                ds,
                applied,
            )[i] == n + i,
    decreases ds.len(),
{
    if ds.len() > 0 {
        let gate = GateView::Expecting(n);
        assert(ds[0].command != RESYNC@);
        assert forall|i: int| 0 <= i < ds.drop_first().len() implies (
        #[trigger] ds.drop_first()[i]).command != RESYNC@ by {
            assert(ds[i + 1].command != RESYNC@);
        }
        if inbound_of(gate, ds[0], applied[0]) is Apply {
            law_no_gap_passes(n + 1, ds.drop_first(), applied.drop_first());
            assert(gate_then(gate, ds[0], applied[0]) == GateView::Expecting(n + 1));
            let rest = passed(GateView::Expecting(n + 1), ds.drop_first(), applied.drop_first());
            let all = passed(gate, ds, applied);
            assert(all =~= seq![ds[0].seq] + rest);
            assert forall|i: int| 0 <= i < all.len() implies #[trigger] all[i] == n + i by {
                if i > 0 {
                    assert(all[i] == rest[i - 1]);
                }
            }
        } else {
            law_no_gap_passes(n, ds.drop_first(), applied.drop_first());
            assert(gate_then(gate, ds[0], applied[0]) == gate);
            assert(passed(gate, ds, applied) == passed(
                gate,
                ds.drop_first(),
                applied.drop_first(),
            ));
        }
    }
}

/// A directive that is no newer than what was applied never passes.
pub proof fn law_stale_never_passes(gate: GateView, d: DirectiveView, applied: u64)
    requires
        d.command != RESYNC@,
        d.state_version <= applied,
    ensures
        inbound_of(gate, d, applied) is Drop,
        gate_then(gate, d, applied) == gate,
{
}

/// While every connection fails at once, the pauses double up to the bound.
pub proof fn law_pauses_double(delay: u64)
    requires
        FIRST_DELAY_MS <= delay <= MAX_DELAY_MS,
    ensures
        pause(delay, Ended::Failed { connected_ms: 0 }) == delay,
        doubled(delay) == if 2 * delay <= MAX_DELAY_MS {
            2 * delay
        } else {
            MAX_DELAY_MS as int
        },
        FIRST_DELAY_MS <= doubled(delay) <= MAX_DELAY_MS,
{
}

} // verus!

//! The frames that cross the render channel.

use crate::json::{Json, JsonView};
use vstd::prelude::*;

verus! {

/// The command of a full snapshot.
pub const RESYNC: &'static str = "show.resync";

/// A directive from the control plane.
#[derive(Debug)]
pub struct DirectiveFrame {
    pub v: String,
    pub seq: u64,
    pub state_version: u64,
    pub command: String,
    pub target: Json,
    pub payload: Json,
}

/// A directive, as contracts speak of it.
pub struct DirectiveView {
    pub seq: u64,
    pub state_version: u64,
    pub command: Seq<char>,
    pub target: JsonView,
    pub payload: JsonView,
}

impl View for DirectiveFrame {
    type V = DirectiveView;

    open spec fn view(&self) -> DirectiveView {
        DirectiveView {
            seq: self.seq,
            state_version: self.state_version,
            command: self.command@,
            target: self.target@,
            payload: self.payload@,
        }
    }
}

/// What happened to an item.
#[derive(Debug, Clone, Copy, PartialEq, Eq, Structural)]
pub enum ItemEvent {
    End,
    DecodeError,
}

/// Why a snapshot is asked for.
#[derive(Debug, Clone, Copy, PartialEq, Eq, Structural)]
pub enum ResyncReason {
    SeqGap,
}

/// A frame from the engine.
#[derive(Debug)]
pub enum EngineFrame {
    AppliedStateVersion { state_version: u64 },
    ItemEvent { item_ref: String, event: ItemEvent, detail: Option<String> },
    ResyncRequest { reason: ResyncReason },
}

/// A frame from the engine, as contracts speak of it.
pub enum EngineFrameView {
    AppliedStateVersion { state_version: u64 },
    ItemEvent { item_ref: Seq<char>, event: ItemEvent, detail: Option<Seq<char>> },
    ResyncRequest { reason: ResyncReason },
}

impl View for EngineFrame {
    type V = EngineFrameView;

    open spec fn view(&self) -> EngineFrameView {
        match *self {
            EngineFrame::AppliedStateVersion { state_version } =>
                EngineFrameView::AppliedStateVersion { state_version },
            EngineFrame::ItemEvent { item_ref, event, detail } => EngineFrameView::ItemEvent {
                item_ref: item_ref@,
                event,
                detail: match detail {
                    Some(d) => Some(d@),
                    None => None,
                },
            },
            EngineFrame::ResyncRequest { reason } => EngineFrameView::ResyncRequest { reason },
        }
    }
}

/// The frames of a queue.
pub open spec fn frame_views(frames: Seq<EngineFrame>) -> Seq<EngineFrameView> {
    Seq::new(frames.len(), |i: int| frames[i]@)
}

} // verus!

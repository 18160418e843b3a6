//! The record thread: what it does with what reaches it, and how a take ends.

use super::session::SessionError;
use super::writer::RecordingWriter;
use super::{RecordError, RecordParams};
use crate::encode::EncodedUnit;
use crate::text::{decimal, push_decimal};
use vstd::prelude::*;
use vstd::string::*;

verus! {

/// Frames that may wait for the record thread.
pub const RECORD_CHANNEL_BOUND: usize = 2;

/// How long a stop waits for a take to finish, in milliseconds.
pub const RECORD_STOP_TIMEOUT_MS: u64 = 1_500;

/// Bits per second of the recorded video.
pub const RECORD_BITRATE: u32 = 8_000_000;

/// What a take is told.
#[derive(Debug, Clone, Copy, PartialEq, Eq, Structural)]
pub enum ControlMsg {
    /// Finish the file.
    Stop,
    /// End without finishing: the file stays as it is.
    Abandon,
}

/// How a take ended: the path of its file, or why there is none.
pub type SessionResult = Result<String, SessionError>;

/// What waiting for a take's report gave.
pub enum WaitOutcome {
    /// The report.
    Reported(SessionResult),
    /// Nothing came in time.
    TimedOut,
    /// The take is gone without a report.
    Gone,
}

/// A channel's receiving end.
#[verifier::external_type_specification]
#[verifier::external_body]
#[verifier::reject_recursive_types(T)]
pub struct ExReceiver<T>(std::sync::mpsc::Receiver<T>);

/// `std::sync::mpsc::Receiver::recv_timeout`: the next message, or that none
/// came in time, or that the sender is gone. Which it is depends on time and
/// on the other side.
#[verifier::external_body]
fn wait_for(rx: &std::sync::mpsc::Receiver<SessionResult>, timeout_ms: u64) -> (r: WaitOutcome) {
    match rx.recv_timeout(std::time::Duration::from_millis(timeout_ms)) {
        Ok(result) => WaitOutcome::Reported(result),
        Err(std::sync::mpsc::RecvTimeoutError::Timeout) => WaitOutcome::TimedOut,
        Err(std::sync::mpsc::RecvTimeoutError::Disconnected) => WaitOutcome::Gone,
    }
}

/// Whether `r` is what the outcome of a wait means. A take that did not
/// report, for whatever reason, is a timeout: the file is kept as it is.
pub open spec fn report_matches(outcome: WaitOutcome, timeout_ms: u64, r: SessionResult) -> bool {
    match outcome {
        WaitOutcome::Reported(result) => r == result,
        WaitOutcome::TimedOut => r matches Err(SessionError::Timeout(e)) && e@
            == "record thread did not finish within "@ + decimal(timeout_ms as nat)
            + " ms; file kept as-is"@,
        WaitOutcome::Gone => r matches Err(SessionError::Timeout(e)) && e@
            == "record thread gone without reporting; file kept as-is"@,
    }
}

/// What the outcome of a wait means.
pub fn report_of(outcome: WaitOutcome, timeout_ms: u64) -> (r: SessionResult)
    ensures
        report_matches(outcome, timeout_ms, r),
{
    match outcome {
        WaitOutcome::Reported(result) => result,
        WaitOutcome::TimedOut => {
            let mut s: String = "record thread did not finish within ".to_owned();
            push_decimal(&mut s, timeout_ms);
            s.append(" ms; file kept as-is");
            Err(SessionError::Timeout(s))
        },
        WaitOutcome::Gone => Err(
            SessionError::Timeout(
                "record thread gone without reporting; file kept as-is".to_owned(),
            ),
        ),
    }
}

/// Wait for a take's report. It is passed on as it came; where none came, the
/// answer is a timeout.
pub fn await_done(rx: &std::sync::mpsc::Receiver<SessionResult>, timeout_ms: u64) -> (r:
    SessionResult)
    ensures
        exists|outcome: WaitOutcome| #[trigger] report_matches(outcome, timeout_ms, r),
{
    let outcome: WaitOutcome = wait_for(rx, timeout_ms);
    report_of(outcome, timeout_ms)
}

/// A take as the record thread drives it.
pub struct Drive {
    pub params: RecordParams,
    /// The stream's parameter sets, once they are known.
    pub sets: Option<(Vec<u8>, Vec<u8>)>,
    /// Why no encoder could be opened.
    pub setup_err: Option<String>,
    /// The file, once there is content for it.
    pub writer: Option<RecordingWriter>,
    pub video_units: u64,
    pub keyframe_seen: bool,
    /// Frames that were shed here.
    pub skipped: u64,
}

/// What the thread does next.
#[derive(Debug, Clone, Copy, PartialEq, Eq, Structural)]
pub enum DriveStep {
    /// Handle the frame, then drain the audio.
    HandleFrame,
    /// Finish the take.
    Finish,
    /// Give the take up.
    GiveUp,
    /// Wait a moment for a frame, then drain the audio.
    Wait,
    /// The session was dropped without a word: keep what was written.
    Dropped,
}

/// What the frame queue gave.
#[derive(Debug, Clone, Copy, PartialEq, Eq, Structural)]
pub enum FrameQueue {
    /// A frame.
    Frame,
    /// Nothing yet.
    Empty,
    /// The session is gone.
    Gone,
}

/// What the thread does next. Frames that were handed over come before a stop;
/// a session that is gone still has its last word heard, if it was a stop.
pub open spec fn next_step(frames: FrameQueue, control: Option<ControlMsg>) -> DriveStep {
    match frames {
        FrameQueue::Frame => DriveStep::HandleFrame,
        FrameQueue::Empty => match control {
            Some(ControlMsg::Stop) => DriveStep::Finish,
            Some(ControlMsg::Abandon) => DriveStep::GiveUp,
            None => DriveStep::Wait,
        },
        FrameQueue::Gone => match control {
            Some(ControlMsg::Stop) => DriveStep::Finish,
            _ => DriveStep::Dropped,
        },
    }
}

/// What the thread does next. `control` is what the control queue holds; it is
/// not taken from the queue while there are frames.
pub fn drive_step(frames: FrameQueue, control: Option<ControlMsg>) -> (s: DriveStep)
    ensures
        s == next_step(frames, control),
{
    match frames {
        FrameQueue::Frame => DriveStep::HandleFrame,
        FrameQueue::Empty => match control {
            Some(ControlMsg::Stop) => DriveStep::Finish,
            Some(ControlMsg::Abandon) => DriveStep::GiveUp,
            None => DriveStep::Wait,
        },
        FrameQueue::Gone => match control {
            Some(ControlMsg::Stop) => DriveStep::Finish,
            _ => DriveStep::Dropped,
        },
    }
}

/// The report of a take whose session was dropped.
pub fn dropped_report() -> (r: SessionResult)
    ensures
        r matches Err(SessionError::Record(RecordError::Input(e))) && e@
            == "record pipeline dropped mid-take; prior fragments kept as-is"@,
{
    Err(
        SessionError::Record(
            RecordError::Input(
                "record pipeline dropped mid-take; prior fragments kept as-is".to_owned(),
            ),
        ),
    )
}

impl Drive {
    /// A take that has recorded nothing.
    pub fn new(
        params: RecordParams,
        sets: Option<(Vec<u8>, Vec<u8>)>,
        setup_err: Option<String>,
    ) -> (d: Drive)
        ensures
            d == (Drive {
                params,
                sets,
                setup_err,
                writer: None,
                video_units: 0,
                keyframe_seen: false,
                skipped: 0,
            }),
    {
        Drive {
            params,
            sets,
            setup_err,
            writer: None,
            video_units: 0,
            keyframe_seen: false,
            skipped: 0,
        }
    }

    /// A frame that could not be encoded is shed and counted; the take lives
    /// on.
    pub fn count_skip(&mut self)
        requires
            old(self).skipped < u64::MAX,
        ensures
            *final(self) == (Drive { skipped: (old(self).skipped + 1) as u64, ..*old(self) }),
    {
        self.skipped = self.skipped + 1;
    }

    /// Note the stream's parameter sets: the first ones count.
    pub fn capture_sets(&mut self, sps: Vec<u8>, pps: Vec<u8>)
        ensures
            *final(self) == (Drive {
                sets: if old(self).sets is Some {
                    old(self).sets
                } else {
                    Some((sps, pps))
                },
                ..*old(self)
            }),
    {
        if self.sets.is_none() {
            self.sets = Some((sps, pps));
        }
    }

    /// One more unit, for a take whose file is open: what it returns is to be
    /// appended to the file.
    pub fn push_video(&mut self, unit: &EncodedUnit) -> (r: Result<Vec<u8>, SessionError>)
        requires
            old(self).writer matches Some(w) && w.wf() && w@.has_room(),
            old(self).video_units < u64::MAX,
        ensures
            old(self).writer matches Some(before) && final(self).writer matches Some(after) && ({
                let pushed = before@.video_pushed(unit.data@, unit.pts, unit.is_keyframe);
                &&& after.wf()
                &&& after@ == pushed.0
                &&& match (r, pushed.1) {
                    (Ok(bytes), Ok(b)) => bytes@ == b && final(self).video_units == old(
                        self).video_units + 1 && final(self).keyframe_seen == (old(
                        self).keyframe_seen || unit.is_keyframe),
                    (Err(SessionError::Record(RecordError::Input(e))), Err(why)) => e@ == why
                        && final(self).video_units == old(self).video_units && final(
                        self).keyframe_seen == old(self).keyframe_seen,
                    _ => false,
                }
            }),
            *final(self) == (Drive {
                writer: final(self).writer,
                video_units: final(self).video_units,
                keyframe_seen: final(self).keyframe_seen,
                ..*old(self)
            }),
    {
        let mut w: RecordingWriter = match self.writer.take() {
            Some(w) => w,
            None => return Err(SessionError::Record(RecordError::Input("no video units".to_owned()))),
        };
        let r: Result<Vec<u8>, RecordError> = w.push_video(unit);
        self.writer = Some(w);
        match r {
            Ok(bytes) => {
                self.video_units = self.video_units + 1;
                if unit.is_keyframe {
                    self.keyframe_seen = true;
                }
                Ok(bytes)
            },
            Err(e) => Err(SessionError::Record(e)),
        }
    }

    /// Whether the take can be finished, or why not: without units there is
    /// no recording, and the missing encoder is the reason where there was
    /// one; without a keyframe nothing can be decoded.
    pub fn finish_verdict(&self) -> (r: Result<(), SessionError>)
        ensures
            if self.video_units == 0 {
                match self.setup_err {
                    Some(why) => r matches Err(SessionError::NoEncoder(e)) && e@ == why@,
                    None => r matches Err(SessionError::Record(RecordError::Input(e))) && e@
                        == "no video units"@,
                }
            } else if !self.keyframe_seen {
                r matches Err(SessionError::Record(RecordError::Input(e))) && e@
                    == "no keyframe observed; refusing undecodable recording"@
            } else if self.writer is None {
                r matches Err(SessionError::Record(RecordError::Input(e))) && e@
                    == "no video units"@
            } else {
                r is Ok
            },
    {
        if self.video_units == 0 {
            return match &self.setup_err {
                Some(why) => Err(SessionError::NoEncoder(why.clone())),
                None => Err(
                    SessionError::Record(RecordError::Input("no video units".to_owned())),
                ),
            };
        }
        if !self.keyframe_seen {
            return Err(
                SessionError::Record(
                    RecordError::Input(
                        "no keyframe observed; refusing undecodable recording".to_owned(),
                    ),
                ),
            );
        }
        if self.writer.is_none() {
            return Err(SessionError::Record(RecordError::Input("no video units".to_owned())));
        }
        Ok(())
    }
}

/// No frame that was handed over is lost to a stop: while there is one, it is
/// handled first.
pub proof fn law_frames_come_before_a_stop(control: Option<ControlMsg>)
    ensures
        next_step(FrameQueue::Frame, control) == DriveStep::HandleFrame,
{
}

} // verus!

//! The audio driver: commands in batches, meters in windows, blocks in time.

use crate::audio::{CHANNELS, SAMPLE_RATE};
use crate::audio_control::{AudioCommand, CommandView};
use vstd::prelude::*;

verus! {

/// Commands of one cycle at most: a flood of them must not cost a block.
pub const MAX_COMMANDS_PER_CYCLE: usize = 64;

/// The time a meter covers, in milliseconds.
pub const DEFAULT_METER_WINDOW_MS: u64 = 1000;

/// A sink that takes blocks and counts them.
#[derive(Debug)]
pub struct NullSink {
    pub blocks: u64,
    pub frames: u64,
    pub block_frames: usize,
    /// Refuse the next block.
    pub fail_next: bool,
}

impl NullSink {
    /// A sink that has taken nothing.
    pub fn new(block_frames: usize) -> (s: NullSink)
        ensures
            s.blocks == 0,
            s.frames == 0,
            !s.fail_next,
            s.block_frames == block_frames,
    {
        NullSink { blocks: 0, frames: 0, block_frames, fail_next: false }
    }

    /// Take a block of so many samples; false says that it was refused.
    pub fn write(&mut self, samples: usize) -> (taken: bool)
        ensures
            taken == !old(self).fail_next,
            !final(self).fail_next,
            final(self).block_frames == old(self).block_frames,
            final(self).blocks == if taken {
                old(self).blocks.wrapping_add(1)
            } else {
                old(self).blocks
            },
            final(self).frames == if taken {
                old(self).frames.wrapping_add((samples / CHANNELS) as u64)
            } else {
                old(self).frames
            },
    {
        if self.fail_next {
            self.fail_next = false;
            return false;
        }
        self.blocks = self.blocks.wrapping_add(1);
        self.frames = self.frames.wrapping_add((samples / CHANNELS) as u64);
        true
    }

    /// Sample frames of a block.
    pub fn block_frames(&self) -> (n: usize)
        ensures
            n == self.block_frames,
    {
        self.block_frames
    }
}

/// How many commands a cycle takes.
pub open spec fn batch_len(pending: int) -> int {
    if pending <= MAX_COMMANDS_PER_CYCLE {
        pending
    } else {
        MAX_COMMANDS_PER_CYCLE as int
    }
}

/// Take a cycle's commands: the oldest, up to the bound. The rest stay.
pub fn take_batch(pending: &mut Vec<AudioCommand>) -> (batch: Vec<AudioCommand>)
    ensures
        batch@ == old(pending)@.take(batch_len(old(pending)@.len() as int)),
        final(pending)@ == old(pending)@.skip(batch_len(old(pending)@.len() as int)),
{
    let n: usize = if pending.len() <= MAX_COMMANDS_PER_CYCLE {
        pending.len()
    } else {
        MAX_COMMANDS_PER_CYCLE
    };
    let ghost all = pending@;
    let mut rest: Vec<AudioCommand> = pending.split_off(n);
    std::mem::swap(pending, &mut rest);
    assert(rest@ =~= all.take(n as int));
    assert(pending@ =~= all.skip(n as int));
    rest
}

/// Every command is taken once, in the order it came.
pub proof fn law_no_command_is_lost(pending: Seq<CommandView>)
    ensures
        pending.take(batch_len(pending.len() as int)) + pending.skip(
            batch_len(pending.len() as int),
        ) == pending,
        pending.len() > 0 ==> pending.skip(batch_len(pending.len() as int)).len() < pending.len(),
{
    let n = batch_len(pending.len() as int);
    assert(pending.take(n) + pending.skip(n) =~= pending);
}

/// The sample frames of a block, at a house rate: one frame of the show.
pub fn block_frames_at(house_rate: u32) -> (n: usize)
    ensures
        n == SAMPLE_RATE / (if house_rate == 0 {
            1u32
        } else {
            house_rate
        }),
{
    let rate: u32 = if house_rate == 0 {
        1
    } else {
        house_rate
    };
    (SAMPLE_RATE / rate) as usize
}

/// Blocks that span a window of milliseconds, to the nearest, and at least one.
pub open spec fn blocks_in(block_frames: usize, window_ms: u64) -> int {
    if block_frames == 0 {
        if window_ms == 0 {
            1
        } else {
            u32::MAX as int
        }
    } else {
        let n = (96 * window_ms + block_frames) / (2 * block_frames);
        if n < 1 {
            1
        } else if n > u32::MAX {
            u32::MAX as int
        } else {
            n
        }
    }
}

/// Blocks that span a window.
pub fn blocks_per(block_frames: usize, window_ms: u64) -> (n: u32)
    ensures
        n == blocks_in(block_frames, window_ms),
{
    if block_frames == 0 {
        return if window_ms == 0 {
            1
        } else {
            u32::MAX
        };
    }
    let n: u128 = (96 * (window_ms as u128) + block_frames as u128) / (2 * (
    block_frames as u128));
    if n < 1 {
        1
    } else if n > 0xffff_ffff {
        u32::MAX
    } else {
        n as u32
    }
}

/// The window a meter covers: peaks are held across it and published at its
/// end.
#[derive(Debug, Clone, Copy, PartialEq, Eq, Structural)]
pub struct MeterWindow {
    pub blocks: u32,
    pub per_window: u32,
}

impl MeterWindow {
    /// A window that has just begun.
    pub fn new(block_frames: usize, window_ms: u64) -> (w: MeterWindow)
        ensures
            w.blocks == 0,
            w.per_window == blocks_in(block_frames, window_ms),
    {
        MeterWindow { blocks: 0, per_window: blocks_per(block_frames, window_ms) }
    }

    /// A block has been measured; true says that the window ends with it.
    pub fn roll(&mut self) -> (publish: bool)
        requires
            old(self).blocks < u32::MAX,
        ensures
            publish == (old(self).blocks + 1 >= old(self).per_window),
            final(self).per_window == old(self).per_window,
            final(self).blocks == if publish {
                0
            } else {
                old(self).blocks + 1
            },
    {
        self.blocks = self.blocks + 1;
        if self.blocks >= self.per_window {
            self.blocks = 0;
            true
        } else {
            false
        }
    }
}

/// When the next block is due, in nanoseconds.
#[derive(Debug, Clone, Copy, PartialEq, Eq, Structural)]
pub struct Pace {
    pub next_ns: u128,
}

impl Pace {
    /// How long to wait for the next block.
    pub fn wait_ns(&self, now_ns: u128) -> (ns: u128)
        ensures
            ns == if self.next_ns > now_ns {
                self.next_ns - now_ns
            } else {
                0
            },
    {
        if self.next_ns > now_ns {
            self.next_ns - now_ns
        } else {
            0
        }
    }

    /// A block was rendered. Where the next is overdue already the pace starts
    /// over from now, and true says that a block was missed.
    pub fn advance(&mut self, now_ns: u128, block_ns: u64) -> (missed: bool)
        requires
            old(self).next_ns + block_ns <= u128::MAX,
            now_ns + block_ns <= u128::MAX,
        ensures
            missed == (old(self).next_ns + block_ns < now_ns),
            final(self).next_ns == if missed {
                now_ns + block_ns
            } else {
                old(self).next_ns + block_ns
            },
    {
        self.next_ns = self.next_ns + block_ns as u128;
        if self.next_ns < now_ns {
            self.next_ns = now_ns + block_ns as u128;
            true
        } else {
            false
        }
    }
}

} // verus!

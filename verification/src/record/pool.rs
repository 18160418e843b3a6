//! Surface-pool sizing: every holder of a surface is counted.
//!
//! A consumer holds, at worst, every frame its channel can queue and the one
//! its thread is encoding. The pool holds what its consumers hold, and the
//! surface being drawn. Two consumers may hold different frames, so their
//! holds add up.

use vstd::prelude::*;

verus! {

/// The surface being drawn.
pub const DRAWN_ONE: usize = 1;

/// The surface a consumer is encoding.
pub const IN_ENCODER: usize = 1;

/// Surfaces one consumer can hold at once.
pub fn consumer_in_flight(channel_bound: usize) -> (n: usize)
    requires
        channel_bound + IN_ENCODER <= usize::MAX,
    ensures
        n == channel_bound + IN_ENCODER,
{
    channel_bound + IN_ENCODER
}

/// Surfaces of a pool that a recording and a stream share.
pub fn shared_pool_size(record_bound: usize, stream_bound: usize) -> (n: usize)
    requires
        record_bound + stream_bound + 3 <= usize::MAX,
    ensures
        n == (record_bound + IN_ENCODER) + (stream_bound + IN_ENCODER) + DRAWN_ONE,
{
    consumer_in_flight(record_bound) + consumer_in_flight(stream_bound) + DRAWN_ONE
}

/// Surfaces of a pool that a stream has to itself.
pub fn stream_pool_size(stream_bound: usize) -> (n: usize)
    requires
        stream_bound + 2 <= usize::MAX,
    ensures
        n == (stream_bound + IN_ENCODER) + DRAWN_ONE,
{
    consumer_in_flight(stream_bound) + DRAWN_ONE
}

/// However the two consumers fill their queues and encoders, a surface is left
/// to draw into.
pub proof fn law_a_surface_is_always_left(record_bound: int, stream_bound: int, record_held: int, stream_held: int)
    requires
        0 <= record_held <= record_bound + IN_ENCODER,
        0 <= stream_held <= stream_bound + IN_ENCODER,
    ensures
        record_held + stream_held < (record_bound + IN_ENCODER) + (stream_bound + IN_ENCODER)
            + DRAWN_ONE,
{
}

} // verus!

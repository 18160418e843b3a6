//! The audio tap: a bounded ring between the mix and a writer.
//!
//! The ring holds interleaved stereo. When it is full the oldest frames leave
//! first, and only whole frames enter or leave, so what is drained always
//! starts on a left sample. Every sample that is dropped is counted.
//!
//! A sample is the bits of its IEEE 754 form: the tap moves samples and never
//! computes with them.

use vstd::prelude::*;

verus! {

/// Samples per frame.
pub const CHANNELS: usize = 2;

/// Five seconds of stereo at 48 kHz.
pub const DEFAULT_CAPACITY_SAMPLES: usize = 480_000;

/// What a tap holds.
pub struct TapState {
    /// Oldest first.
    pub samples: Seq<u32>,
    pub capacity: int,
    /// Samples dropped, counted in 64 bits.
    pub dropped: int,
}

/// A count that has grown by `n`.
pub open spec fn counted(dropped: int, n: int) -> int {
    (dropped + n) % 0x1_0000_0000_0000_0000
}

impl TapState {
    /// Whole frames in a whole number of frames.
    pub open spec fn aligned(self) -> bool {
        &&& self.capacity >= CHANNELS
        &&& self.capacity % CHANNELS as int == 0
        &&& self.samples.len() <= self.capacity
        &&& self.samples.len() % CHANNELS as nat == 0
    }

    /// The tap after `more` came in: the newest samples that fit, the others
    /// and a trailing half frame counted.
    pub open spec fn pushed(self, more: Seq<u32>) -> TapState {
        let whole = more.len() - more.len() % CHANNELS as nat;
        let all = self.samples + more.subrange(0, whole);
        let over = if all.len() > self.capacity {
            all.len() - self.capacity
        } else {
            0
        };
        TapState {
            samples: all.subrange(over, all.len() as int),
            dropped: counted(self.dropped, more.len() - whole + over),
            ..self
        }
    }
}

/// A bounded ring of interleaved stereo samples.
pub struct AudioTap {
    buf: Vec<u32>,
    start: usize,
    len: usize,
    dropped: u64,
}

/// The sample `i` places behind the oldest.
spec fn slot(start: int, i: int, capacity: int) -> int {
    if start + i < capacity {
        start + i
    } else {
        start + i - capacity
    }
}

impl View for AudioTap {
    type V = TapState;

    closed spec fn view(&self) -> TapState {
        TapState {
            samples: Seq::new(
                self.len as nat,
                |i: int| self.buf@[slot(self.start as int, i, self.buf@.len() as int)],
            ),
            capacity: self.buf@.len() as int,
            dropped: self.dropped as int,
        }
    }
}

impl AudioTap {
    /// The ring's indices are in range and hold whole frames.
    pub closed spec fn wf(self) -> bool {
        &&& self@.aligned()
        &&& self.start < self.buf@.len()
        &&& self.len <= self.buf@.len()
    }

    /// A well-formed tap holds whole stereo frames.
    pub proof fn law_a_tap_holds_whole_frames(self)
        requires
            self.wf(),
        ensures
            self@.aligned(),
    {
    }

    /// A tap of the default capacity.
    pub fn new() -> (t: AudioTap)
        ensures
            t.wf(),
            t@ == (TapState {
                samples: Seq::empty(),
                capacity: DEFAULT_CAPACITY_SAMPLES as int,
                dropped: 0,
            }),
    {
        Self::with_capacity(DEFAULT_CAPACITY_SAMPLES)
    }

    /// A tap of `capacity_samples`, rounded down to whole frames, at least one.
    pub fn with_capacity(capacity_samples: usize) -> (t: AudioTap)
        ensures
            t.wf(),
            t@ == (TapState {
                samples: Seq::empty(),
                capacity: if capacity_samples < CHANNELS {
                    CHANNELS as int
                } else {
                    capacity_samples - capacity_samples % CHANNELS
                },
                dropped: 0,
            }),
    {
        let capacity: usize = if capacity_samples < CHANNELS {
            CHANNELS
        } else {
            capacity_samples - capacity_samples % CHANNELS
        };
        let mut buf: Vec<u32> = Vec::with_capacity(capacity);
        let mut i: usize = 0;
        while i < capacity
            invariant
                i <= capacity,
                buf@.len() == i,
            decreases capacity - i,
        {
            buf.push(0);
            i = i + 1;
        }
        let t: AudioTap = AudioTap { buf, start: 0, len: 0, dropped: 0 };
        assert(t@.samples =~= Seq::empty());
        t
    }

    /// Samples the ring can hold.
    pub fn capacity(&self) -> (n: usize)
        ensures
            n == self@.capacity,
    {
        self.buf.len()
    }

    /// Samples the ring holds.
    pub fn len(&self) -> (n: usize)
        ensures
            n == self@.samples.len(),
    {
        self.len
    }

    /// Whether the ring holds nothing.
    pub fn is_empty(&self) -> (r: bool)
        ensures
            r == (self@.samples.len() == 0),
    {
        self.len == 0
    }

    /// Samples dropped so far.
    pub fn dropped(&self) -> (n: u64)
        ensures
            n == self@.dropped,
    {
        self.dropped
    }

    fn count(&mut self, n: u64)
        ensures
            final(self)@ == (TapState { dropped: counted(old(self)@.dropped, n as int), ..old(self)@ }),
            final(self).buf == old(self).buf,
            final(self).start == old(self).start,
            final(self).len == old(self).len,
    {
        self.dropped = ((self.dropped as u128 + n as u128) % 0x1_0000_0000_0000_0000) as u64;
        assert(self@.samples =~= old(self)@.samples);
    }

    /// Where the sample `i` places behind the oldest lies.
    fn place(&self, i: usize) -> (p: usize)
        requires
            self.start < self.buf@.len(),
            i <= self.buf@.len(),
        ensures
            p == slot(self.start as int, i as int, self.buf@.len() as int),
            i < self.buf@.len() ==> p < self.buf@.len(),
    {
        let capacity: usize = self.buf.len();
        if i < capacity - self.start {
            self.start + i
        } else {
            i - (capacity - self.start)
        }
    }

    /// Make room for one frame, then store it.
    fn push_frame(&mut self, left: u32, right: u32)
        requires
            old(self).wf(),
        ensures
            final(self).wf(),
            final(self)@ == old(self)@.pushed(seq![left, right]),
    {
        let ghost before = self@;
        let capacity: usize = self.buf.len();
        let ghost full = before.samples.len() + 2 > before.capacity;
        if self.len > capacity - CHANNELS {
            let two: usize = self.place(CHANNELS);
            let ghost s0 = self@.samples;
            self.start = if two == capacity {
                0
            } else {
                two
            };
            self.len = self.len - CHANNELS;
            assert(self@.samples =~= s0.subrange(2, s0.len() as int));
            self.count(2);
        }
        let ghost mid = self@.samples;
        let a: usize = self.place(self.len);
        self.buf.set(a, left);
        self.len = self.len + 1;
        assert(self@.samples =~= mid.push(left));
        let b: usize = self.place(self.len);
        self.buf.set(b, right);
        self.len = self.len + 1;
        assert(self@.samples =~= mid.push(left).push(right));
        proof {
            let more = seq![left, right];
            assert(more.subrange(0, 2) =~= more);
            let all = before.samples + more;
            if full {
                assert(self@.samples =~= all.subrange(2, all.len() as int));
            } else {
                assert(self@.samples =~= all.subrange(0, all.len() as int));
                assert(counted(before.dropped, 0) == before.dropped);
            }
        }
    }

    /// Copy samples into the ring. The oldest frames leave when it is full; a
    /// trailing half frame is counted and not stored.
    pub fn push(&mut self, samples: &[u32])
        requires
            old(self).wf(),
        ensures
            final(self).wf(),
            final(self)@ == old(self)@.pushed(samples@),
    {
        let ghost before = self@;
        let n: usize = samples.len();
        let whole: usize = n - n % CHANNELS;
        let mut i: usize = 0;
        proof {
            lemma_push_nothing(before);
            assert(samples@.subrange(0, 0) =~= Seq::<u32>::empty());
        }
        while i < whole
            invariant
                self.wf(),
                before.aligned(),
                n == samples@.len(),
                whole == n - n % CHANNELS,
                i <= whole,
                i % 2 == 0,
                self@ == before.pushed(samples@.subrange(0, i as int)),
            decreases whole - i,
        {
            self.push_frame(samples[i], samples[i + 1]);
            proof {
                let frame = seq![samples@[i as int], samples@[i + 1]];
                lemma_push_split(before, samples@.subrange(0, i as int), frame);
                assert(samples@.subrange(0, i as int) + frame =~= samples@.subrange(0, i + 2));
            }
            i = i + CHANNELS;
        }
        if whole < n {
            let ghost mid = self@;
            self.count(1);
            proof {
                lemma_push_tail(before, samples@);
            }
        } else {
            assert(samples@.subrange(0, whole as int) =~= samples@);
        }
    }

    /// Take everything the ring holds.
    pub fn drain(&mut self) -> (out: Vec<u32>)
        requires
            old(self).wf(),
        ensures
            final(self).wf(),
            out@ == old(self)@.samples,
            final(self)@ == (TapState { samples: Seq::empty(), ..old(self)@ }),
    {
        let mut out: Vec<u32> = Vec::with_capacity(self.len);
        let mut i: usize = 0;
        while i < self.len
            invariant
                self.wf(),
                *self == *old(self),
                i <= self.len,
                out@ == self@.samples.take(i as int),
            decreases self.len - i,
        {
            out.push(self.buf[self.place(i)]);
            i = i + 1;
            assert(out@ =~= self@.samples.take(i as int));
        }
        assert(self@.samples.take(i as int) =~= self@.samples);
        self.len = 0;
        assert(self@.samples =~= Seq::empty());
        out
    }

    /// Move everything the ring holds into another one, oldest first.
    pub fn hand_over(&mut self, to: &mut AudioTap)
        requires
            old(self).wf(),
            old(to).wf(),
        ensures
            final(self).wf(),
            final(to).wf(),
            final(to)@ == old(to)@.pushed(old(self)@.samples),
            final(self)@ == (TapState { samples: Seq::empty(), ..old(self)@ }),
    {
        let ghost held = self@.samples;
        let ghost before = to@;
        let mut i: usize = 0;
        proof {
            lemma_push_nothing(before);
            assert(held.subrange(0, 0) =~= Seq::<u32>::empty());
        }
        while i < self.len
            invariant
                self.wf(),
                to.wf(),
                *self == *old(self),
                held == self@.samples,
                before.aligned(),
                i <= self.len,
                i % 2 == 0,
                self.len % 2 == 0,
                to@ == before.pushed(held.subrange(0, i as int)),
            decreases self.len - i,
        {
            let left: u32 = self.buf[self.place(i)];
            let right: u32 = self.buf[self.place(i + 1)];
            to.push_frame(left, right);
            proof {
                let frame = seq![left, right];
                lemma_push_split(before, held.subrange(0, i as int), frame);
                assert(held.subrange(0, i as int) + frame =~= held.subrange(0, i + 2));
            }
            i = i + CHANNELS;
        }
        assert(held.subrange(0, held.len() as int) =~= held);
        self.len = 0;
        assert(self@.samples =~= Seq::empty());
    }

    /// Drop everything the ring holds, and count it.
    pub fn clear(&mut self)
        requires
            old(self).wf(),
        ensures
            final(self).wf(),
            final(self)@ == (TapState {
                samples: Seq::empty(),
                dropped: counted(old(self)@.dropped, old(self)@.samples.len() as int),
                ..old(self)@
            }),
    {
        let n: u64 = self.len as u64;
        self.count(n);
        self.len = 0;
        assert(self@.samples =~= Seq::empty());
    }
}

impl Default for AudioTap {
    fn default() -> (t: AudioTap)
        ensures
            t.wf(),
            t@.samples.len() == 0,
            t@.capacity == DEFAULT_CAPACITY_SAMPLES,
            t@.dropped == 0,
    {
        AudioTap::new()
    }
}

proof fn lemma_push_nothing(t: TapState)
    requires
        t.aligned(),
        0 <= t.dropped < 0x1_0000_0000_0000_0000,
    ensures
        t.pushed(Seq::empty()) == t,
{
    assert(Seq::<u32>::empty().subrange(0, 0) =~= Seq::empty());
    assert(t.samples + Seq::<u32>::empty() =~= t.samples);
    assert(t.samples.subrange(0, t.samples.len() as int) =~= t.samples);
}

/// Pushing frames in two goes is pushing them in one.
proof fn lemma_push_split(t: TapState, a: Seq<u32>, b: Seq<u32>)
    requires
        t.aligned(),
        a.len() % 2 == 0,
        b.len() % 2 == 0,
    ensures
        t.pushed(a).pushed(b) == t.pushed(a + b),
{
    let one = t.samples + a;
    let two = t.pushed(a).samples + b;
    let all = t.samples + (a + b);
    assert(a.subrange(0, a.len() as int) =~= a);
    assert(b.subrange(0, b.len() as int) =~= b);
    assert((a + b).subrange(0, (a + b).len() as int) =~= a + b);
    assert(t.pushed(a).pushed(b).samples =~= t.pushed(a + b).samples);
    let x = t.dropped;
    let p = t.pushed(a).dropped;
    let over_a = if one.len() > t.capacity {
        one.len() - t.capacity
    } else {
        0
    };
    let over_b = if two.len() > t.capacity {
        two.len() - t.capacity
    } else {
        0
    };
    let over = if all.len() > t.capacity {
        all.len() - t.capacity
    } else {
        0
    };
    assert(over == over_a + over_b);
    assert((x + over_a) % 0x1_0000_0000_0000_0000 == p);
    vstd::arithmetic::div_mod::lemma_add_mod_noop(x + over_a, over_b, 0x1_0000_0000_0000_0000);
    vstd::arithmetic::div_mod::lemma_add_mod_noop(
        p,
        over_b,
        0x1_0000_0000_0000_0000,
    );
    assert(p % 0x1_0000_0000_0000_0000 == p);
}

/// A trailing half frame only adds to the count.
proof fn lemma_push_tail(t: TapState, samples: Seq<u32>)
    requires
        t.aligned(),
        samples.len() % 2 == 1,
    ensures
        ({
            let whole = samples.subrange(0, samples.len() - 1);
            let p = t.pushed(whole);
            t.pushed(samples) == (TapState { dropped: counted(p.dropped, 1), ..p })
        }),
{
    let whole = samples.subrange(0, samples.len() - 1);
    assert(whole.subrange(0, whole.len() as int) =~= whole);
    let all = t.samples + whole;
    let over = if all.len() > t.capacity {
        all.len() - t.capacity
    } else {
        0
    };
    vstd::arithmetic::div_mod::lemma_add_mod_noop(
        t.dropped + over,
        1,
        0x1_0000_0000_0000_0000,
    );
    let p = t.pushed(whole).dropped;
    vstd::arithmetic::div_mod::lemma_add_mod_noop(p, 1, 0x1_0000_0000_0000_0000);
    assert(p % 0x1_0000_0000_0000_0000 == p);
}

/// A drain never re-pairs the channels: whatever was pushed, the ring holds
/// whole frames and is the tail, from an even place on, of what came in.
pub proof fn law_drains_stay_stereo_aligned(t: TapState, more: Seq<u32>)
    requires
        t.aligned(),
    ensures
        t.pushed(more).aligned(),
        ({
            let all = t.samples + more.subrange(0, more.len() - more.len() % 2);
            let from = all.len() - t.pushed(more).samples.len();
            from % 2 == 0 && t.pushed(more).samples == all.subrange(from, all.len() as int)
        }),
{
    let all = t.samples + more.subrange(0, more.len() - more.len() % 2);
    assert(all.len() % 2 == 0);
}

/// The newest samples are never lost to older ones: a push that fits the ring
/// is there in full at the end.
pub proof fn law_the_present_is_kept(t: TapState, more: Seq<u32>)
    requires
        t.aligned(),
        more.len() <= t.capacity,
        more.len() % 2 == 0,
    ensures
        ({
            let s = t.pushed(more).samples;
            s.len() >= more.len() && s.subrange(s.len() - more.len(), s.len() as int) == more
        }),
{
    let s = t.pushed(more).samples;
    assert(more.subrange(0, more.len() as int) =~= more);
    assert(s.subrange(s.len() - more.len(), s.len() as int) =~= more);
}

} // verus!

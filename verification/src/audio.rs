//! The audio graph's routing: what is mixed into what, and which sample of a
//! source is heard at which frame. There is one clock: a source is read where
//! its item's position puts it, never from a cursor of its own.

use crate::text::{
    before, comes_before, lemma_before_total, lemma_before_transitive, rising, str_eq, string_views,
};
use vstd::prelude::*;
use vstd::string::*;

verus! {

/// Sample frames per second.
pub const SAMPLE_RATE: u32 = 48_000;

/// Samples of one sample frame.
pub const CHANNELS: usize = 2;

/// The buses, by the names that directives use.
#[derive(Debug, Clone, Copy, PartialEq, Eq, PartialOrd, Ord, Structural)]
pub enum BusId {
    Mic,
    Clip,
    Music,
    Sfx,
    Guest,
    Master,
    GuestReturn,
    Ifb,
}

impl BusId {
    /// The name of a bus.
    pub open spec fn name(self) -> Seq<char> {
        match self {
            BusId::Mic => "mic"@,
            BusId::Clip => "clip"@,
            BusId::Music => "music"@,
            BusId::Sfx => "sfx"@,
            BusId::Guest => "guest"@,
            BusId::Master => "master"@,
            BusId::GuestReturn => "guestReturn"@,
            BusId::Ifb => "ifb"@,
        }
    }

    /// The place of a bus in the order of buses.
    pub open spec fn place(self) -> int {
        match self {
            BusId::Mic => 0,
            BusId::Clip => 1,
            BusId::Music => 2,
            BusId::Sfx => 3,
            BusId::Guest => 4,
            BusId::Master => 5,
            BusId::GuestReturn => 6,
            BusId::Ifb => 7,
        }
    }

    /// The place of a bus in the order of buses.
    pub fn index(self) -> (i: usize)
        ensures
            i == self.place(),
    {
        match self {
            BusId::Mic => 0,
            BusId::Clip => 1,
            BusId::Music => 2,
            BusId::Sfx => 3,
            BusId::Guest => 4,
            BusId::Master => 5,
            BusId::GuestReturn => 6,
            BusId::Ifb => 7,
        }
    }

    /// The name of a bus.
    pub fn as_str(&self) -> (s: &'static str)
        ensures
            s@ == self.name(),
    {
        match self {
            BusId::Mic => "mic",
            BusId::Clip => "clip",
            BusId::Music => "music",
            BusId::Sfx => "sfx",
            BusId::Guest => "guest",
            BusId::Master => "master",
            BusId::GuestReturn => "guestReturn",
            BusId::Ifb => "ifb",
        }
    }

    /// The bus of a name.
    pub fn parse(s: &str) -> (r: Option<BusId>)
        ensures
            match r {
                Some(b) => b.name() == s@,
                None => forall|b: BusId| #[trigger] b.name() != s@,
            },
    {
        if str_eq(s, "mic") {
            Some(BusId::Mic)
        } else if str_eq(s, "clip") {
            Some(BusId::Clip)
        } else if str_eq(s, "music") {
            Some(BusId::Music)
        } else if str_eq(s, "sfx") {
            Some(BusId::Sfx)
        } else if str_eq(s, "guest") {
            Some(BusId::Guest)
        } else if str_eq(s, "master") {
            Some(BusId::Master)
        } else if str_eq(s, "guestReturn") {
            Some(BusId::GuestReturn)
        } else if str_eq(s, "ifb") {
            Some(BusId::Ifb)
        } else {
            None
        }
    }

    /// Whether a bus is mixed into the program. Returns are outputs: mixing
    /// them in would close a loop.
    pub open spec fn in_program(self) -> bool {
        self is Mic || self is Clip || self is Music || self is Sfx || self is Guest
    }

    /// Whether a bus is mixed into the program.
    pub fn feeds_master(&self) -> (r: bool)
        ensures
            r == self.in_program(),
    {
        match self {
            BusId::Mic => true,
            BusId::Clip => true,
            BusId::Music => true,
            BusId::Sfx => true,
            BusId::Guest => true,
            BusId::Master => false,
            BusId::GuestReturn => false,
            BusId::Ifb => false,
        }
    }
}

/// No two buses share a name.
pub proof fn law_bus_names_differ(a: BusId, b: BusId)
    requires
        a.name() == b.name(),
    ensures
        a == b,
{
    reveal_strlit("mic");
    reveal_strlit("clip");
    reveal_strlit("music");
    reveal_strlit("sfx");
    reveal_strlit("guest");
    reveal_strlit("master");
    reveal_strlit("guestReturn");
    reveal_strlit("ifb");
    assert("mic"@[0] == 'm' && "mic"@.len() == 3);
    assert("ifb"@[0] == 'i' && "ifb"@.len() == 3);
    assert("sfx"@[0] == 's' && "sfx"@.len() == 3);
    assert("clip"@.len() == 4);
    assert("music"@[0] == 'm' && "music"@.len() == 5);
    assert("guest"@[0] == 'g' && "guest"@.len() == 5);
    assert("master"@.len() == 6);
    assert("guestReturn"@.len() == 11);
}

/// A quotient rounded toward zero.
pub open spec fn quotient(n: int, d: int) -> int {
    if n >= 0 {
        n / d
    } else {
        -((-n) / d)
    }
}

/// The sample frame a source that started at `t0` is at.
pub open spec fn sample_at(frame: u64, t0: u64, rate: u32) -> int {
    quotient((frame - t0) * SAMPLE_RATE, rate as int)
}

/// Frames are counted within this bound, so that their samples fit.
pub open spec fn countable(frame: u64) -> bool {
    frame <= 96_076_792_050_570
}

/// The sample frame of a source at a frame of the master clock.
pub fn sample_for_master_frame(frame: u64, t0: u64, house_frame_rate: u32) -> (s: i64)
    requires
        house_frame_rate > 0,
        countable(frame),
        countable(t0),
    ensures
        s == sample_at(frame, t0, house_frame_rate),
{
    let rate: u64 = house_frame_rate as u64;
    if frame >= t0 {
        let n: u64 = (frame - t0) * 48_000;
        assert(0 <= n / rate <= n) by (nonlinear_arith)
            requires
                rate > 0,
        ;
        (n / rate) as i64
    } else {
        let n: u64 = (t0 - frame) * 48_000;
        assert(0 <= n / rate <= n) by (nonlinear_arith)
            requires
                rate > 0,
        ;
        assert((frame - t0) * SAMPLE_RATE == -n);
        -((n / rate) as i64)
    }
}

/// Where the first sample of a sample frame is in a source of `total` samples;
/// none when it is not in it. A loop has every sample frame in it.
pub open spec fn read_at(pos: int, total: int, looping: bool) -> Option<int> {
    if total <= 0 {
        None
    } else if looping {
        Some((pos * CHANNELS) % total)
    } else if pos < 0 || pos * CHANNELS >= total {
        None
    } else {
        Some(pos * CHANNELS)
    }
}

/// Where the first sample of a sample frame is in a source.
pub fn read_index(pos: i64, total: usize, looping: bool) -> (r: Option<usize>)
    ensures
        match r {
            Some(i) => read_at(pos as int, total as int, looping) == Some(i as int) && i < total,
            None => read_at(pos as int, total as int, looping) is None,
        },
{
    if total == 0 {
        return None;
    }
    if looping {
        let t: u128 = total as u128;
        if pos >= 0 {
            let n: u128 = (pos as u128) * 2;
            return Some((n % t) as usize);
        }
        let n: u128 = ((-(pos as i128)) as u128) * 2;
        let r: u128 = n % t;
        proof {
            let p = pos as int * 2;
            let d = total as int;
            let q = n as int / d;
            assert(n as int == d * q + r) by (nonlinear_arith)
                requires
                    q == n as int / d,
                    r as int == n as int % d,
                    d > 0,
            ;
            if r == 0 {
                assert(p == d * (-q) + 0) by (nonlinear_arith)
                    requires
                        p == -(n as int),
                        n as int == d * q,
                ;
                vstd::arithmetic::div_mod::lemma_fundamental_div_mod_converse(p, d, -q, 0);
            } else {
                assert(p == d * (-q - 1) + (d - r)) by (nonlinear_arith)
                    requires
                        p == -(n as int),
                        n as int == d * q + r,
                ;
                vstd::arithmetic::div_mod::lemma_fundamental_div_mod_converse(p, d, -q - 1, d - r);
            }
        }
        if r == 0 {
            Some(0)
        } else {
            Some((t - r) as usize)
        }
    } else if pos < 0 {
        None
    } else {
        let n: u128 = (pos as u128) * 2;
        if n >= total as u128 {
            None
        } else {
            Some(n as usize)
        }
    }
}

/// A source of a bus. Samples and tones are held elsewhere, under a number.
#[derive(Debug, Clone, Copy, PartialEq, Eq, Structural)]
pub enum Source {
    /// Stereo samples, `total` of them, on air since frame `t0`.
    Pcm { samples: u64, total: usize, t0: u64, looping: bool },
    /// A generated tone.
    Tone { tone: u64 },
}

/// For each of `frames` sample frames from `base` on, where a source of samples
/// is read.
pub open spec fn reads_of(
    base: int,
    t0: u64,
    rate: u32,
    total: int,
    looping: bool,
    frames: int,
) -> Seq<Option<int>> {
    let start = source_start_of(base, t0, rate);
    Seq::new(frames as nat, |f: int| read_at(start + f, total, looping))
}

/// Places in a source, as contracts speak of them.
pub open spec fn places(v: Seq<Option<usize>>) -> Seq<Option<int>> {
    Seq::new(
        v.len(),
        |i: int|
            match v[i] {
                Some(k) => Some(k as int),
                None => None,
            },
    )
}

/// The sample frame of a source that falls on `base`, counted from where the
/// source began.
pub open spec fn source_start_of(base: int, t0: u64, rate: u32) -> int {
    base - quotient(
        t0 * SAMPLE_RATE,
        if rate == 0 {
            1
        } else {
            rate as int
        },
    )
}

/// The sample frame of a source that falls on `base`, counted from where the
/// source began.
pub fn source_start(base: i64, t0: u64, house_rate: u32) -> (start: i64)
    requires
        countable(t0),
        -0x3fff_ffff_ffff_ffff <= base <= 0x3fff_ffff_ffff_ffff,
    ensures
        start == source_start_of(base as int, t0, house_rate),
        -0x7fff_ffff_ffff_ffff <= start <= 0x3fff_ffff_ffff_ffff,
{
    let rate: u32 = if house_rate == 0 {
        1
    } else {
        house_rate
    };
    let began: i64 = sample_for_master_frame(t0, 0, rate);
    assert(0 <= began <= 0x3fff_ffff_ffff_ffff) by {
        let n = t0 * SAMPLE_RATE;
        assert(0 <= n / (rate as int) <= n) by (nonlinear_arith)
            requires
                rate > 0,
                n >= 0,
        ;
    }
    base - began
}

/// For each sample frame of a block, where a source of samples is read.
pub fn source_reads(
    base: i64,
    t0: u64,
    house_rate: u32,
    total: usize,
    looping: bool,
    frames: usize,
) -> (out: Vec<Option<usize>>)
    requires
        countable(t0),
        -0x3fff_ffff_ffff_ffff <= base <= 0x3fff_ffff_ffff_ffff,
        frames <= 0x7fff_ffff,
    ensures
        places(out@) == reads_of(base as int, t0, house_rate, total as int, looping, frames as int),
{
    let start: i64 = source_start(base, t0, house_rate);
    let mut out: Vec<Option<usize>> = Vec::new();
    let mut f: usize = 0;
    while f < frames
        invariant
            f <= frames <= 0x7fff_ffff,
            out@.len() == f,
            -0x7fff_ffff_ffff_ffff <= start <= 0x3fff_ffff_ffff_ffff,
            forall|k: int|
                0 <= k < f ==> places(out@)[k] == read_at(start + k, total as int, looping),
        decreases frames - f,
    {
        let r: Option<usize> = read_index(start + f as i64, total, looping);
        let ghost done = places(out@);
        out.push(r);
        assert forall|k: int| 0 <= k < f + 1 implies places(out@)[k] == read_at(
            start + k,
            total as int,
            looping,
        ) by {
            if k < f {
                assert(done[k] == places(out@)[k]);
            }
        }
        f = f + 1;
    }
    assert(places(out@) =~= reads_of(
        base as int,
        t0,
        house_rate,
        total as int,
        looping,
        frames as int,
    ));
    out
}

/// What is mixed.
#[derive(Debug)]
pub enum Feed {
    /// A bus and its sources; a bus without any only moves its gain on.
    Bus(BusId, Option<Vec<Source>>),
    /// The soundboard's voices, on the effects bus.
    Voices,
    /// A guest and the guest's sources.
    Guest(String, Vec<Source>),
}

/// A feed, as contracts speak of it.
pub enum FeedView {
    Bus(BusId, Option<Seq<Source>>),
    Voices,
    Guest(Seq<char>, Seq<Source>),
}

/// The sources of a bus.
pub open spec fn sources_view(v: Option<Vec<Source>>) -> Option<Seq<Source>> {
    match v {
        Some(v) => Some(v@),
        None => None,
    }
}

impl View for Feed {
    type V = FeedView;

    open spec fn view(&self) -> FeedView {
        match *self {
            Feed::Bus(b, v) => FeedView::Bus(b, sources_view(v)),
            Feed::Voices => FeedView::Voices,
            Feed::Guest(g, v) => FeedView::Guest(g@, v@),
        }
    }
}

/// The feeds of a vector.
pub open spec fn feed_views(v: Seq<Feed>) -> Seq<FeedView> {
    Seq::new(v.len(), |i: int| v[i]@)
}

/// A soundboard voice: it plays once.
#[derive(Debug)]
pub struct Voice {
    pub playback_id: u64,
    pub asset_id: String,
    /// Samples of the voice, and how many of them have played.
    pub total: usize,
    pub position: usize,
    pub stopping: bool,
}

/// A voice, as contracts speak of it.
pub struct VoiceView {
    pub playback_id: u64,
    pub asset_id: Seq<char>,
    pub total: usize,
    pub position: usize,
    pub stopping: bool,
}

impl View for Voice {
    type V = VoiceView;

    open spec fn view(&self) -> VoiceView {
        VoiceView {
            playback_id: self.playback_id,
            asset_id: self.asset_id@,
            total: self.total,
            position: self.position,
            stopping: self.stopping,
        }
    }
}

/// The voices of a vector.
pub open spec fn voice_views(v: Seq<Voice>) -> Seq<VoiceView> {
    Seq::new(v.len(), |i: int| v[i]@)
}

/// Sources that wait for their bus to fall silent. The level they come up at
/// and the length of the ramp are carried as they are, as bits.
#[derive(Debug)]
pub struct PendingSwap {
    pub bus: BusId,
    pub sources: Vec<Source>,
    pub level: u32,
    pub ramp: u32,
}

/// A waiting swap, as contracts speak of it.
pub struct SwapView {
    pub bus: BusId,
    pub sources: Seq<Source>,
    pub level: u32,
    pub ramp: u32,
}

impl View for PendingSwap {
    type V = SwapView;

    open spec fn view(&self) -> SwapView {
        SwapView { bus: self.bus, sources: self.sources@, level: self.level, ramp: self.ramp }
    }
}

/// The swaps of a vector.
pub open spec fn swap_views(v: Seq<PendingSwap>) -> Seq<SwapView> {
    Seq::new(v.len(), |i: int| v[i]@)
}

/// The graph's routing.
#[derive(Debug)]
pub struct AudioGraph {
    /// The sources of each bus, by its place.
    sources: Vec<Option<Vec<Source>>>,
    /// The guests and their sources, in the order of their names.
    guests: Vec<(String, Vec<Source>)>,
    voices: Vec<Voice>,
    next_playback_id: u64,
    pending: Vec<PendingSwap>,
    house_frame_rate: u32,
    rendered: u64,
    underruns: u64,
}

/// The graph's routing, as contracts speak of it.
pub struct GraphView {
    pub sources: Seq<Option<Seq<Source>>>,
    pub guests: Seq<(Seq<char>, Seq<Source>)>,
    pub voices: Seq<VoiceView>,
    pub next_playback_id: u64,
    pub pending: Seq<SwapView>,
    /// Frames per second of the house.
    pub house_frame_rate: u32,
    /// Sample frames mixed so far.
    pub rendered: u64,
    /// Blocks that came too late, or that the output refused.
    pub underruns: u64,
}

/// Guests, as contracts speak of them.
pub open spec fn guest_views(v: Seq<(String, Vec<Source>)>) -> Seq<(Seq<char>, Seq<Source>)> {
    Seq::new(v.len(), |i: int| (v[i].0@, v[i].1@))
}

/// The names of guests.
pub open spec fn guest_names(g: Seq<(Seq<char>, Seq<Source>)>) -> Seq<Seq<char>> {
    Seq::new(g.len(), |i: int| g[i].0)
}

impl GraphView {
    /// Every bus has its place, and the guests stand in the order of their names.
    pub open spec fn wf(self) -> bool {
        self.sources.len() == 8 && rising(guest_names(self.guests))
    }
}

/// The buses that are mixed into the program, with their sources.
pub open spec fn bus_feeds(g: GraphView) -> Seq<FeedView> {
    seq![
        FeedView::Bus(BusId::Mic, g.sources[0]),
        FeedView::Bus(BusId::Clip, g.sources[1]),
        FeedView::Bus(BusId::Music, g.sources[2]),
        FeedView::Bus(BusId::Sfx, g.sources[3]),
        FeedView::Bus(BusId::Guest, g.sources[4]),
    ]
}

/// The first `n` guests, without `except`.
pub open spec fn guest_feeds(
    guests: Seq<(Seq<char>, Seq<Source>)>,
    except: Option<Seq<char>>,
    n: int,
) -> Seq<FeedView>
    decreases n,
{
    if n <= 0 {
        Seq::empty()
    } else {
        let rest = guest_feeds(guests, except, n - 1);
        if except == Some(guests[n - 1].0) {
            rest
        } else {
            rest.push(FeedView::Guest(guests[n - 1].0, guests[n - 1].1))
        }
    }
}

/// What is mixed into the program, in order.
pub open spec fn program_of(g: GraphView) -> Seq<FeedView> {
    bus_feeds(g) + (if g.voices.len() > 0 {
        seq![FeedView::Voices]
    } else {
        Seq::empty()
    }) + guest_feeds(g.guests, None, g.guests.len() as int)
}

/// The buses a guest hears: the program's, as far as they have sources.
pub open spec fn heard_buses(g: GraphView, n: int) -> Seq<FeedView>
    decreases n,
{
    if n <= 0 {
        Seq::empty()
    } else {
        let rest = heard_buses(g, n - 1);
        if g.sources[n - 1] is Some {
            rest.push(bus_feeds(g)[n - 1])
        } else {
            rest
        }
    }
}

/// What a guest hears: the program without that guest.
pub open spec fn return_of(g: GraphView, guest: Seq<char>) -> Seq<FeedView> {
    heard_buses(g, 4) + guest_feeds(g.guests, Some(guest), g.guests.len() as int)
}

/// Where a guest of this name belongs.
pub open spec fn guest_place(
    guests: Seq<(Seq<char>, Seq<Source>)>,
    name: Seq<char>,
    i: int,
) -> int
    decreases guests.len() - i,
{
    if 0 <= i < guests.len() && comes_before(guests[i].0, name, 0) {
        guest_place(guests, name, i + 1)
    } else {
        i
    }
}

/// The guests with one more, or with other sources for one of them.
pub open spec fn with_guest(
    guests: Seq<(Seq<char>, Seq<Source>)>,
    name: Seq<char>,
    sources: Seq<Source>,
) -> Seq<(Seq<char>, Seq<Source>)> {
    let at = guest_place(guests, name, 0);
    if at < guests.len() && guests[at].0 == name {
        guests.update(at, (name, sources))
    } else {
        guests.insert(at, (name, sources))
    }
}

/// Whether a request to stop means this voice.
pub open spec fn meant(v: VoiceView, playback_id: Option<u64>, asset_id: Option<Seq<char>>) -> bool {
    match (playback_id, asset_id) {
        (Some(id), _) => v.playback_id == id,
        (None, Some(a)) => v.asset_id == a,
        (None, None) => false,
    }
}

/// The voices once those that `stop` names are stopping.
pub open spec fn stopped(voices: Seq<VoiceView>, stop: spec_fn(VoiceView) -> bool) -> Seq<VoiceView> {
    voices.map_values(
        |v: VoiceView|
            if stop(v) {
                VoiceView { stopping: true, ..v }
            } else {
                v
            },
    )
}

/// How many of the first `n` voices begin to stop.
pub open spec fn stops(voices: Seq<VoiceView>, stop: spec_fn(VoiceView) -> bool, n: int) -> int
    decreases n,
{
    if n <= 0 {
        0
    } else {
        stops(voices, stop, n - 1) + if stop(voices[n - 1]) && !voices[n - 1].stopping {
            1int
        } else {
            0
        }
    }
}

/// Whether a voice plays on after `frames` more sample frames: it has samples
/// left, and has not faded out.
pub open spec fn plays_on(v: VoiceView, frames: int, silent: bool) -> bool {
    v.position + frames * CHANNELS < v.total && !(v.stopping && silent)
}

/// The first `n` voices after a block.
pub open spec fn after_block(
    voices: Seq<VoiceView>,
    frames: int,
    silent: Seq<bool>,
    n: int,
) -> Seq<VoiceView>
    decreases n,
{
    if n <= 0 {
        Seq::empty()
    } else {
        let rest = after_block(voices, frames, silent, n - 1);
        let v = voices[n - 1];
        if plays_on(v, frames, silent[n - 1]) {
            rest.push(VoiceView { position: (v.position + frames * CHANNELS) as usize, ..v })
        } else {
            rest
        }
    }
}

/// The swaps among the first `n` that still wait.
pub open spec fn waiting(pending: Seq<SwapView>, silent: Seq<bool>, n: int) -> Seq<SwapView>
    decreases n,
{
    if n <= 0 {
        Seq::empty()
    } else {
        let rest = waiting(pending, silent, n - 1);
        if silent[pending[n - 1].bus.place()] {
            rest
        } else {
            rest.push(pending[n - 1])
        }
    }
}

/// The swaps among the first `n` that are done.
pub open spec fn done(pending: Seq<SwapView>, silent: Seq<bool>, n: int) -> Seq<SwapView>
    decreases n,
{
    if n <= 0 {
        Seq::empty()
    } else {
        let rest = done(pending, silent, n - 1);
        if silent[pending[n - 1].bus.place()] {
            rest.push(pending[n - 1])
        } else {
            rest
        }
    }
}

/// The sources once the first `n` swaps of `swaps` are made.
pub open spec fn swapped(
    sources: Seq<Option<Seq<Source>>>,
    swaps: Seq<SwapView>,
    n: int,
) -> Seq<Option<Seq<Source>>>
    decreases n,
{
    if n <= 0 {
        sources
    } else {
        swapped(sources, swaps, n - 1).update(swaps[n - 1].bus.place(), Some(swaps[n - 1].sources))
    }
}

impl View for AudioGraph {
    type V = GraphView;

    closed spec fn view(&self) -> GraphView {
        GraphView {
            sources: self.sources@.map_values(|v: Option<Vec<Source>>| sources_view(v)),
            guests: guest_views(self.guests@),
            voices: voice_views(self.voices@),
            next_playback_id: self.next_playback_id,
            pending: swap_views(self.pending@),
            house_frame_rate: self.house_frame_rate,
            rendered: self.rendered,
            underruns: self.underruns,
        }
    }
}

fn copy_sources(v: &Vec<Source>) -> (out: Vec<Source>)
    ensures
        out@ == v@,
{
    let mut out: Vec<Source> = Vec::new();
    let n: usize = v.len();
    let mut i: usize = 0;
    while i < n
        invariant
            i <= n == v@.len(),
            out@ == v@.take(i as int),
        decreases n - i,
    {
        out.push(v[i]);
        i = i + 1;
        assert(v@.take(i as int) =~= v@.take(i - 1).push(v@[i - 1]));
    }
    assert(v@.take(i as int) =~= v@);
    out
}

impl AudioGraph {
    /// A graph with nothing on it.
    pub fn new(house_frame_rate: u32) -> (g: AudioGraph)
        ensures
            g@.wf(),
            g@ == (GraphView {
                sources: Seq::new(8, |i: int| None),
                guests: Seq::empty(),
                voices: Seq::empty(),
                next_playback_id: 1,
                pending: Seq::empty(),
                house_frame_rate,
                rendered: 0,
                underruns: 0,
            }),
    {
        let mut sources: Vec<Option<Vec<Source>>> = Vec::new();
        let mut i: usize = 0;
        while i < 8
            invariant
                i <= 8,
                sources@.len() == i,
                forall|k: int| 0 <= k < i ==> (#[trigger] sources@[k]) is None,
            decreases 8 - i,
        {
            sources.push(None);
            i = i + 1;
        }
        let g: AudioGraph = AudioGraph {
            sources,
            guests: Vec::new(),
            voices: Vec::new(),
            next_playback_id: 1,
            pending: Vec::new(),
            house_frame_rate,
            rendered: 0,
            underruns: 0,
        };
        assert(g@.sources =~= Seq::new(8, |i: int| None::<Seq<Source>>));
        assert(g@.guests =~= Seq::empty());
        assert(g@.voices =~= Seq::empty());
        assert(g@.pending =~= Seq::empty());
        g
    }

    /// Give a bus its sources.
    pub fn set_source(&mut self, id: BusId, sources: Vec<Source>)
        requires
            old(self)@.wf(),
        ensures
            final(self)@ == (GraphView {
                sources: old(self)@.sources.update(id.place(), Some(sources@)),
                ..old(self)@
            }),
    {
        let ghost before = self@;
        self.sources.set(id.index(), Some(sources));
        assert(self@.sources =~= before.sources.update(id.place(), Some(sources@)));
    }

    /// Exchange a bus's sources through silence: at once where the bus is
    /// silent already, else once it has faded. True says that it was at once.
    pub fn swap_source_through_silence(
        &mut self,
        id: BusId,
        sources: Vec<Source>,
        level: u32,
        ramp: u32,
        silent: bool,
    ) -> (now: bool)
        requires
            old(self)@.wf(),
        ensures
            now == silent,
            final(self)@ == if silent {
                GraphView {
                    sources: old(self)@.sources.update(id.place(), Some(sources@)),
                    ..old(self)@
                }
            } else {
                GraphView {
                    pending: old(self)@.pending.push(
                        SwapView { bus: id, sources: sources@, level, ramp },
                    ),
                    ..old(self)@
                }
            },
    {
        if silent {
            self.set_source(id, sources);
            true
        } else {
            let ghost before = self@;
            let p: PendingSwap = PendingSwap { bus: id, sources, level, ramp };
            self.pending.push(p);
            assert(self@.pending =~= before.pending.push(p@));
            false
        }
    }

    /// Make the swaps whose bus has fallen silent; `silent` says it of each bus
    /// by its place. The swaps that were made.
    pub fn service_pending_swaps(&mut self, silent: &[bool; 8]) -> (made: Vec<PendingSwap>)
        requires
            old(self)@.wf(),
        ensures
            swap_views(made@) == done(
                old(self)@.pending,
                silent@,
                old(self)@.pending.len() as int,
            ),
            final(self)@ == (GraphView {
                sources: swapped(
                    old(self)@.sources,
                    swap_views(made@),
                    swap_views(made@).len() as int,
                ),
                pending: waiting(
                    old(self)@.pending,
                    silent@,
                    old(self)@.pending.len() as int,
                ),
                ..old(self)@
            }),
    {
        let ghost start = self@;
        let mut made: Vec<PendingSwap> = Vec::new();
        let mut i: usize = 0;
        let ghost mut k: int = 0;
        proof {
            assert(swap_views(made@) =~= Seq::empty());
            assert(self@.pending.skip(0) =~= start.pending);
        }
        while i < self.pending.len()
            invariant
                i <= self.pending@.len(),
                0 <= k <= start.pending.len(),
                start.wf(),
                self.pending@.len() - i == start.pending.len() - k,
                self@ == (GraphView {
                    sources: self@.sources,
                    pending: self@.pending,
                    ..start
                }),
                self@.pending.len() == self.pending@.len(),
                self@.sources.len() == 8,
                self@.pending.take(i as int) == waiting(start.pending, silent@, k),
                forall|j: int|
                    i <= j < self@.pending.len() ==> #[trigger] self@.pending[j]
                        == start.pending[j - i + k],
                swap_views(made@) == done(start.pending, silent@, k),
                self@.sources == swapped(
                    start.sources,
                    swap_views(made@),
                    swap_views(made@).len() as int,
                ),
            decreases self.pending@.len() - i,
        {
            let ghost was = self@;
            let ghost made_was = swap_views(made@);
            assert(self@.pending[i as int] == self.pending@[i as int]@);
            assert(self@.pending[i as int] == start.pending[k]);
            let bus: BusId = self.pending[i].bus;
            let ready: bool = silent[bus.index()];
            if ready {
                let p: PendingSwap = self.pending.remove(i);
                let copy: Vec<Source> = copy_sources(&p.sources);
                let ghost gone = self@;
                assert(self@.pending =~= was.pending.remove(i as int));
                self.set_source(bus, copy);
                made.push(p);
                proof {
                    assert(swap_views(made@) =~= made_was.push(start.pending[k]));
                    assert(self@.pending.take(i as int) =~= was.pending.take(i as int));
                    lemma_swapped_prefix(
                        start.sources,
                        made_was,
                        swap_views(made@),
                        made_was.len() as int,
                    );
                    assert forall|j: int| i <= j < self@.pending.len() implies #[trigger]
                        self@.pending[j] == start.pending[j - i + (k + 1)] by {
                        assert(was.pending[j + 1] == start.pending[j + 1 - i + k]);
                    }
                }
            } else {
                proof {
                    assert(was.pending.take(i + 1) =~= was.pending.take(i as int).push(
                        was.pending[i as int],
                    ));
                }
                i = i + 1;
            }
            proof {
                k = k + 1;
            }
        }
        proof {
            assert(self@.pending.take(i as int) =~= self@.pending);
        }
        made
    }

    /// Add a guest, or give one other sources.
    pub fn upsert_guest(&mut self, guest_id: &str, sources: Vec<Source>)
        requires
            old(self)@.wf(),
        ensures
            final(self)@ == (GraphView {
                guests: with_guest(old(self)@.guests, guest_id@, sources@),
                ..old(self)@
            }),
            final(self)@.wf(),
    {
        let ghost start = self@;
        let mut at: usize = 0;
        while at < self.guests.len() && before(self.guests[at].0.as_str(), guest_id)
            invariant
                *self == *old(self),
                start == self@,
                at <= self.guests@.len(),
                guest_place(start.guests, guest_id@, 0) == guest_place(
                    start.guests,
                    guest_id@,
                    at as int,
                ),
            decreases self.guests@.len() - at,
        {
            assert(start.guests[at as int].0 == self.guests@[at as int].0@);
            at = at + 1;
        }
        proof {
            if at < self.guests@.len() {
                assert(start.guests[at as int].0 == self.guests@[at as int].0@);
            }
            lemma_with_guest(start.guests, guest_id@, sources@);
        }
        if at < self.guests.len() && str_eq(self.guests[at].0.as_str(), guest_id) {
            self.guests.set(at, (guest_id.to_owned(), sources));
            assert(self@.guests =~= start.guests.update(at as int, (guest_id@, sources@)));
        } else {
            self.guests.insert(at, (guest_id.to_owned(), sources));
            assert(self@.guests =~= start.guests.insert(at as int, (guest_id@, sources@)));
        }
    }

    /// Start a soundboard voice; its number.
    pub fn trigger(&mut self, asset_id: &str, total: usize) -> (id: u64)
        requires
            old(self)@.wf(),
        ensures
            id == old(self)@.next_playback_id,
            final(self)@ == (GraphView {
                voices: old(self)@.voices.push(
                    VoiceView {
                        playback_id: id,
                        asset_id: asset_id@,
                        total,
                        position: 0,
                        stopping: false,
                    },
                ),
                next_playback_id: id.wrapping_add(1),
                ..old(self)@
            }),
    {
        let ghost before = self@;
        let id: u64 = self.next_playback_id;
        self.next_playback_id = id.wrapping_add(1);
        let v: Voice = Voice {
            playback_id: id,
            asset_id: asset_id.to_owned(),
            total,
            position: 0,
            stopping: false,
        };
        self.voices.push(v);
        assert(self@.voices =~= before.voices.push(v@));
        id
    }

    /// Stop a voice, or every voice of an asset; how many begin to.
    pub fn stop_voice(&mut self, playback_id: Option<u64>, asset_id: Option<&str>) -> (n: usize)
        ensures
            n == stops(
                old(self)@.voices,
                |v: VoiceView| meant(v, playback_id, crate::json::text_view(asset_id)),
                old(self)@.voices.len() as int,
            ),
            final(self)@ == (GraphView {
                voices: stopped(
                    old(self)@.voices,
                    |v: VoiceView| meant(v, playback_id, crate::json::text_view(asset_id)),
                ),
                ..old(self)@
            }),
    {
        let ghost start = self@;
        let ghost asset = crate::json::text_view(asset_id);
        let ghost stop = |v: VoiceView| meant(v, playback_id, asset);
        let len: usize = self.voices.len();
        let mut n: usize = 0;
        let mut i: usize = 0;
        while i < len
            invariant
                i <= len == self.voices@.len(),
                n <= i,
                asset == crate::json::text_view(asset_id),
                stop == (|v: VoiceView| meant(v, playback_id, asset)),
                n == stops(start.voices, stop, i as int),
                self@ == (GraphView { voices: self@.voices, ..start }),
                start.voices.len() == len,
                forall|k: int|
                    0 <= k < i ==> #[trigger] self@.voices[k] == stopped(start.voices, stop)[k],
                forall|k: int| i <= k < len ==> #[trigger] self@.voices[k] == start.voices[k],
            decreases len - i,
        {
            let ghost was = self@;
            assert(was.voices[i as int] == self.voices@[i as int]@);
            let v: &Voice = &self.voices[i];
            let hit: bool = match (playback_id, asset_id) {
                (Some(id), _) => v.playback_id == id,
                (None, Some(a)) => str_eq(v.asset_id.as_str(), a),
                (None, None) => false,
            };
            if hit && !v.stopping {
                self.begin_stop(i);
                n = n + 1;
            }
            i = i + 1;
        }
        assert(self@.voices =~= stopped(start.voices, stop));
        n
    }

    fn begin_stop(&mut self, i: usize)
        requires
            i < old(self)@.voices.len(),
        ensures
            final(self)@ == (GraphView {
                voices: old(self)@.voices.update(
                    i as int,
                    VoiceView { stopping: true, ..old(self)@.voices[i as int] },
                ),
                ..old(self)@
            }),
            final(self).voices@.len() == old(self).voices@.len(),
    {
        let ghost start = self@;
        let v: &Voice = &self.voices[i];
        let w: Voice = Voice {
            playback_id: v.playback_id,
            asset_id: v.asset_id.as_str().to_owned(),
            total: v.total,
            position: v.position,
            stopping: true,
        };
        self.voices.set(i, w);
        assert(self@.voices =~= start.voices.update(i as int, w@));
    }

    /// Stop every voice; how many begin to.
    pub fn stop_all_voices(&mut self) -> (n: usize)
        ensures
            n == stops(
                old(self)@.voices,
                |v: VoiceView| true,
                old(self)@.voices.len() as int,
            ),
            final(self)@ == (GraphView {
                voices: stopped(old(self)@.voices, |v: VoiceView| true),
                ..old(self)@
            }),
    {
        let ghost start = self@;
        let ghost stop = |v: VoiceView| true;
        let len: usize = self.voices.len();
        let mut n: usize = 0;
        let mut i: usize = 0;
        while i < len
            invariant
                i <= len == self.voices@.len(),
                n <= i,
                stop == (|v: VoiceView| true),
                n == stops(start.voices, stop, i as int),
                self@ == (GraphView { voices: self@.voices, ..start }),
                start.voices.len() == len,
                forall|k: int|
                    0 <= k < i ==> #[trigger] self@.voices[k] == stopped(start.voices, stop)[k],
                forall|k: int| i <= k < len ==> #[trigger] self@.voices[k] == start.voices[k],
            decreases len - i,
        {
            assert(self@.voices[i as int] == self.voices@[i as int]@);
            if !self.voices[i].stopping {
                self.begin_stop(i);
                n = n + 1;
            }
            i = i + 1;
        }
        assert(self@.voices =~= stopped(start.voices, stop));
        n
    }

    /// Voices that play.
    pub fn active_voices(&self) -> (n: usize)
        ensures
            n == self@.voices.len(),
    {
        self.voices.len()
    }

    /// A voice that plays.
    pub fn voice(&self, i: usize) -> (v: &Voice)
        requires
            i < self@.voices.len(),
        ensures
            v@ == self@.voices[i as int],
    {
        &self.voices[i]
    }

    /// A block of sample frames has played. `silent` says of each voice whether
    /// it has faded out.
    pub fn finish_block(&mut self, frames: usize, silent: &Vec<bool>)
        requires
            silent@.len() == old(self)@.voices.len(),
        ensures
            final(self)@ == (GraphView {
                voices: after_block(
                    old(self)@.voices,
                    frames as int,
                    silent@,
                    old(self)@.voices.len() as int,
                ),
                ..old(self)@
            }),
    {
        let ghost start = self@;
        let len: usize = self.voices.len();
        let mut i: usize = 0;
        let mut kept: usize = 0;
        assert(self@.voices.skip(0) =~= start.voices);
        while i < len
            invariant
                kept <= i <= len == start.voices.len(),
                len == silent@.len(),
                self.voices@.len() - kept == len - i,
                self@ == (GraphView { voices: self@.voices, ..start }),
                self@.voices.take(kept as int) == after_block(
                    start.voices,
                    frames as int,
                    silent@,
                    i as int,
                ),
                self@.voices.skip(kept as int) == start.voices.skip(i as int),
            decreases len - i,
        {
            let ghost was = self@.voices;
            let mut v: Voice = self.voices.remove(kept);
            assert(was.skip(kept as int)[0] == v@);
            assert(start.voices.skip(i as int)[0] == start.voices[i as int]);
            assert(self@.voices =~= was.remove(kept as int));
            let end: u128 = v.position as u128 + (frames as u128) * 2;
            if end < v.total as u128 && !(v.stopping && silent[i]) {
                let ghost without = self@.voices;
                v.position = end as usize;
                self.voices.insert(kept, v);
                assert(self@.voices =~= without.insert(kept as int, v@));
                kept = kept + 1;
                assert(self@.voices.take(kept as int) =~= was.take(kept - 1).push(v@));
            } else {
                assert(self@.voices.take(kept as int) =~= was.take(kept as int));
            }
            i = i + 1;
            assert(self@.voices.skip(kept as int) =~= start.voices.skip(i as int)) by {
                assert forall|k: int| 0 <= k < len - i implies self@.voices.skip(
                    kept as int,
                )[k] == start.voices.skip(i as int)[k] by {
                    assert(start.voices.skip(i - 1)[k + 1] == start.voices[i + k]);
                }
            }
        }
        assert(self@.voices.take(kept as int) =~= self@.voices);
    }

    fn bus_feed(&self, id: BusId) -> (f: Feed)
        requires
            self@.wf(),
            id.place() < 5,
        ensures
            f@ == FeedView::Bus(id, self@.sources[id.place()]),
    {
        match &self.sources[id.index()] {
            Some(v) => Feed::Bus(id, Some(copy_sources(v))),
            None => Feed::Bus(id, None),
        }
    }

    fn push_guests(&self, out: &mut Vec<Feed>, except: Option<&str>)
        ensures
            feed_views(final(out)@) == feed_views(old(out)@) + guest_feeds(
                self@.guests,
                crate::json::text_view(except),
                self@.guests.len() as int,
            ),
    {
        let ghost head = feed_views(out@);
        let ghost skip = crate::json::text_view(except);
        let len: usize = self.guests.len();
        let mut i: usize = 0;
        assert(feed_views(out@) =~= head + guest_feeds(self@.guests, skip, 0));
        while i < len
            invariant
                i <= len == self.guests@.len(),
                skip == crate::json::text_view(except),
                feed_views(out@) == head + guest_feeds(self@.guests, skip, i as int),
            decreases len - i,
        {
            let ghost was = feed_views(out@);
            assert(self@.guests[i as int] == (self.guests@[i as int].0@, self.guests@[i as int].1@));
            let own: bool = match except {
                Some(g) => str_eq(self.guests[i].0.as_str(), g),
                None => false,
            };
            if !own {
                let f: Feed = Feed::Guest(
                    self.guests[i].0.as_str().to_owned(),
                    copy_sources(&self.guests[i].1),
                );
                out.push(f);
                assert(feed_views(out@) =~= was.push(f@));
                assert(was.push(f@) =~= head + guest_feeds(self@.guests, skip, i + 1));
            } else {
                assert(was =~= head + guest_feeds(self@.guests, skip, i + 1));
            }
            i = i + 1;
        }
    }

    /// What is mixed into the program, in order.
    pub fn program_feeds(&self) -> (out: Vec<Feed>)
        requires
            self@.wf(),
        ensures
            feed_views(out@) == program_of(self@),
    {
        let mut out: Vec<Feed> = Vec::new();
        out.push(self.bus_feed(BusId::Mic));
        out.push(self.bus_feed(BusId::Clip));
        out.push(self.bus_feed(BusId::Music));
        out.push(self.bus_feed(BusId::Sfx));
        out.push(self.bus_feed(BusId::Guest));
        assert(feed_views(out@) =~= bus_feeds(self@));
        if self.voices.len() > 0 {
            let ghost was = feed_views(out@);
            out.push(Feed::Voices);
            assert(feed_views(out@) =~= was + seq![FeedView::Voices]);
        } else {
            assert(feed_views(out@) =~= bus_feeds(self@) + Seq::<FeedView>::empty());
        }
        self.push_guests(&mut out, None);
        out
    }

    /// What a guest hears, in order.
    pub fn return_feeds(&self, guest_id: &str) -> (out: Vec<Feed>)
        requires
            self@.wf(),
        ensures
            feed_views(out@) == return_of(self@, guest_id@),
    {
        let mut out: Vec<Feed> = Vec::new();
        let heard: [BusId; 4] = [BusId::Mic, BusId::Clip, BusId::Music, BusId::Sfx];
        assert(feed_views(out@) =~= heard_buses(self@, 0));
        let mut i: usize = 0;
        while i < 4
            invariant
                i <= 4,
                self@.wf(),
                heard@ == seq![BusId::Mic, BusId::Clip, BusId::Music, BusId::Sfx],
                feed_views(out@) == heard_buses(self@, i as int),
            decreases 4 - i,
        {
            let ghost was = feed_views(out@);
            let b: BusId = heard[i];
            assert(b.place() == i);
            let f: Feed = self.bus_feed(b);
            let some: bool = match &f {
                Feed::Bus(_, Some(_)) => true,
                _ => false,
            };
            assert(bus_feeds(self@)[i as int] == f@);
            if some {
                out.push(f);
                assert(feed_views(out@) =~= was.push(f@));
            }
            i = i + 1;
        }
        self.push_guests(&mut out, Some(guest_id));
        out
    }
}

proof fn lemma_swapped_prefix(
    sources: Seq<Option<Seq<Source>>>,
    a: Seq<SwapView>,
    b: Seq<SwapView>,
    n: int,
)
    requires
        0 <= n <= a.len(),
        a.len() <= b.len(),
        forall|i: int| 0 <= i < n ==> a[i] == b[i],
    ensures
        swapped(sources, a, n) == swapped(sources, b, n),
    decreases n,
{
    if n > 0 {
        lemma_swapped_prefix(sources, a, b, n - 1);
    }
}

proof fn lemma_guest_place(guests: Seq<(Seq<char>, Seq<Source>)>, name: Seq<char>, i: int)
    requires
        0 <= i <= guests.len(),
    ensures
        i <= guest_place(guests, name, i) <= guests.len(),
        forall|k: int|
            i <= k < guest_place(guests, name, i) ==> comes_before((#[trigger] guests[k]).0, name, 0),
        guest_place(guests, name, i) < guests.len() ==> !comes_before(
            guests[guest_place(guests, name, i)].0,
            name,
            0,
        ),
    decreases guests.len() - i,
{
    if i < guests.len() && comes_before(guests[i].0, name, 0) {
        lemma_guest_place(guests, name, i + 1);
    }
}

proof fn lemma_with_guest(
    guests: Seq<(Seq<char>, Seq<Source>)>,
    name: Seq<char>,
    sources: Seq<Source>,
)
    requires
        rising(guest_names(guests)),
    ensures
        rising(guest_names(with_guest(guests, name, sources))),
{
    lemma_guest_place(guests, name, 0);
    let at = guest_place(guests, name, 0);
    let names = guest_names(guests);
    let after = guest_names(with_guest(guests, name, sources));
    if at < guests.len() && guests[at].0 == name {
        assert(after =~= names);
    } else {
        assert(after =~= names.insert(at, name));
        if at < guests.len() {
            lemma_before_total(names[at], name, 0);
            assert(comes_before(name, names[at], 0));
        }
        assert forall|i: int, j: int| 0 <= i < j < after.len() implies comes_before(
            #[trigger] after[i],
            #[trigger] after[j],
            0,
        ) by {
            if i == at {
                if j - 1 > at {
                    assert(comes_before(names[at], names[j - 1], 0));
                    lemma_before_transitive(name, names[at], names[j - 1], 0);
                }
            } else if j == at {
                assert(names[i] == guests[i].0);
            } else {
                let a = if i < at {
                    i
                } else {
                    i - 1
                };
                let b = if j < at {
                    j
                } else {
                    j - 1
                };
                assert(comes_before(names[a], names[b], 0));
            }
        }
    }
}

proof fn lemma_guest_feeds(
    guests: Seq<(Seq<char>, Seq<Source>)>,
    except: Option<Seq<char>>,
    n: int,
)
    requires
        0 <= n <= guests.len(),
    ensures
        forall|i: int|
            0 <= i < guest_feeds(guests, except, n).len() ==> (#[trigger] guest_feeds(
                guests,
                except,
                n,
            )[i] matches FeedView::Guest(g, _) && except != Some(g)),
        forall|k: int|
            0 <= k < n && except != Some((#[trigger] guests[k]).0) ==> guest_feeds(
                guests,
                except,
                n,
            ).contains(FeedView::Guest(guests[k].0, guests[k].1)),
    decreases n,
{
    if n > 0 {
        lemma_guest_feeds(guests, except, n - 1);
        let rest = guest_feeds(guests, except, n - 1);
        let all = guest_feeds(guests, except, n);
        assert forall|k: int| 0 <= k < n && except != Some((#[trigger] guests[k]).0) implies all.contains(
            FeedView::Guest(guests[k].0, guests[k].1),
        ) by {
            let f = FeedView::Guest(guests[k].0, guests[k].1);
            if k == n - 1 {
                assert(all[rest.len() as int] == f);
            } else {
                assert(rest.contains(f));
                let p = choose|p: int| 0 <= p < rest.len() && rest[p] == f;
                assert(all[p] == f);
            }
        }
    }
}

proof fn lemma_heard_buses(g: GraphView, n: int)
    requires
        0 <= n <= 4,
        g.sources.len() == 8,
    ensures
        forall|i: int|
            0 <= i < heard_buses(g, n).len() ==> (#[trigger] heard_buses(
                g,
                n,
            )[i] matches FeedView::Bus(b, s) && b.in_program() && s is Some),
    decreases n,
{
    if n > 0 {
        lemma_heard_buses(g, n - 1);
    }
}

/// A guest never hears itself: nothing of its own is in what it is sent.
pub proof fn law_a_guest_never_hears_itself(g: GraphView, guest: Seq<char>)
    requires
        g.wf(),
    ensures
        forall|i: int|
            0 <= i < return_of(g, guest).len() ==> match #[trigger] return_of(g, guest)[i] {
                FeedView::Guest(name, _) => name != guest,
                FeedView::Bus(b, _) => b.in_program() && b != BusId::Guest,
                FeedView::Voices => false,
            },
{
    lemma_heard_buses(g, 4);
    lemma_guest_feeds(g.guests, Some(guest), g.guests.len() as int);
    let a = heard_buses(g, 4);
    let b = guest_feeds(g.guests, Some(guest), g.guests.len() as int);
    assert forall|i: int| 0 <= i < return_of(g, guest).len() implies match #[trigger] return_of(
        g,
        guest,
    )[i] {
        FeedView::Guest(name, _) => name != guest,
        FeedView::Bus(b, _) => b.in_program() && b != BusId::Guest,
        FeedView::Voices => false,
    } by {
        if i < a.len() {
            assert(return_of(g, guest)[i] == a[i]);
            lemma_heard_not_guest(g, 4, i);
        } else {
            assert(return_of(g, guest)[i] == b[i - a.len()]);
        }
    }
}

proof fn lemma_heard_not_guest(g: GraphView, n: int, i: int)
    requires
        0 <= n <= 4,
        0 <= i < heard_buses(g, n).len(),
    ensures
        heard_buses(g, n)[i] matches FeedView::Bus(b, _) && b.place() < n,
    decreases n,
{
    if n > 0 {
        let rest = heard_buses(g, n - 1);
        if i < rest.len() {
            lemma_heard_not_guest(g, n - 1, i);
            assert(heard_buses(g, n)[i] == rest[i]);
        }
    }
}

/// Every other guest is heard, with the sources it has; and everyone is in the
/// program.
pub proof fn law_every_other_guest_is_heard(g: GraphView, guest: Seq<char>, k: int)
    requires
        g.wf(),
        0 <= k < g.guests.len(),
    ensures
        g.guests[k].0 != guest ==> return_of(g, guest).contains(
            FeedView::Guest(g.guests[k].0, g.guests[k].1),
        ),
        program_of(g).contains(FeedView::Guest(g.guests[k].0, g.guests[k].1)),
{
    let f = FeedView::Guest(g.guests[k].0, g.guests[k].1);
    lemma_guest_feeds(g.guests, Some(guest), g.guests.len() as int);
    lemma_guest_feeds(g.guests, None, g.guests.len() as int);
    let head = heard_buses(g, 4);
    let tail = guest_feeds(g.guests, Some(guest), g.guests.len() as int);
    if g.guests[k].0 != guest {
        assert(tail.contains(f));
        let p = choose|p: int| 0 <= p < tail.len() && tail[p] == f;
        assert(return_of(g, guest)[head.len() + p] == f);
    }
    let all = guest_feeds(g.guests, None, g.guests.len() as int);
    assert(all.contains(f));
    let p = choose|p: int| 0 <= p < all.len() && all[p] == f;
    assert(program_of(g)[program_of(g).len() - all.len() + p] == f);
}

/// No output is ever mixed into the program.
pub proof fn law_no_output_feeds_the_program(g: GraphView)
    requires
        g.wf(),
    ensures
        forall|i: int|
            0 <= i < program_of(g).len() ==> (#[trigger] program_of(g)[i] matches FeedView::Bus(
                b,
                _,
            ) ==> b.in_program()),
{
    lemma_guest_feeds(g.guests, None, g.guests.len() as int);
    let tail = guest_feeds(g.guests, None, g.guests.len() as int);
    let head = program_of(g).len() - tail.len();
    assert forall|i: int| 0 <= i < program_of(g).len() implies (#[trigger] program_of(
        g,
    )[i] matches FeedView::Bus(b, _) ==> b.in_program()) by {
        if i >= head {
            assert(program_of(g)[i] == tail[i - head]);
        } else if i < 5 {
            assert(program_of(g)[i] == bus_feeds(g)[i]);
        }
    }
}

proof fn lemma_done_silent(pending: Seq<SwapView>, silent: Seq<bool>, n: int)
    requires
        0 <= n <= pending.len(),
    ensures
        forall|i: int|
            0 <= i < done(pending, silent, n).len() ==> silent[(#[trigger] done(
                pending,
                silent,
                n,
            )[i]).bus.place()],
        done(pending, silent, n).len() + waiting(pending, silent, n).len() == n,
    decreases n,
{
    if n > 0 {
        lemma_done_silent(pending, silent, n - 1);
    }
}

proof fn lemma_swapped_elsewhere(
    sources: Seq<Option<Seq<Source>>>,
    swaps: Seq<SwapView>,
    n: int,
    place: int,
)
    requires
        0 <= n <= swaps.len(),
        sources.len() == 8,
        0 <= place < 8,
        forall|i: int| 0 <= i < n ==> (#[trigger] swaps[i]).bus.place() != place,
    ensures
        swapped(sources, swaps, n).len() == 8,
        swapped(sources, swaps, n)[place] == sources[place],
    decreases n,
{
    if n > 0 {
        lemma_swapped_elsewhere(sources, swaps, n - 1, place);
    }
}

/// What a bus plays is never exchanged while it is heard: only a bus that has
/// fallen silent gets other sources, and every swap is either made or waits.
pub proof fn law_swaps_wait_for_silence(g: GraphView, silent: Seq<bool>, bus: BusId)
    requires
        g.wf(),
        silent.len() == 8,
        !silent[bus.place()],
    ensures
        ({
            let n = g.pending.len() as int;
            let made = done(g.pending, silent, n);
            &&& swapped(g.sources, made, made.len() as int)[bus.place()] == g.sources[bus.place()]
            &&& made.len() + waiting(g.pending, silent, n).len() == n
        }),
{
    let n = g.pending.len() as int;
    let made = done(g.pending, silent, n);
    lemma_done_silent(g.pending, silent, n);
    assert forall|i: int| 0 <= i < made.len() implies (#[trigger] made[i]).bus.place()
        != bus.place() by {
        assert(silent[made[i].bus.place()]);
    }
    lemma_swapped_elsewhere(g.sources, made, made.len() as int, bus.place());
}

/// A frame and its sound agree: a source is read at the sample its own frame
/// count puts it at, whatever was played before.
pub proof fn law_sound_keeps_to_the_frame(frame: u64, t0: u64, rate: u32)
    requires
        rate > 0,
        t0 <= frame,
        SAMPLE_RATE as int % rate as int == 0,
    ensures
        sample_at(frame, 0, rate) - sample_at(t0, 0, rate) == sample_at(frame, t0, rate),
        sample_at(frame, t0, rate) == (frame - t0) * (SAMPLE_RATE as int / rate as int),
{
    let q = SAMPLE_RATE as int / rate as int;
    let d = rate as int;
    assert(SAMPLE_RATE as int == q * d) by (nonlinear_arith)
        requires
            q == 48000int / d,
            48000int % d == 0,
            d > 0,
            SAMPLE_RATE as int == 48000,
    ;
    lemma_exact(frame as int, q, d);
    lemma_exact(t0 as int, q, d);
    lemma_exact(frame - t0, q, d);
    assert(frame * q - t0 * q == (frame - t0) * q) by (nonlinear_arith);
}

proof fn lemma_exact(n: int, q: int, d: int)
    requires
        n >= 0,
        d > 0,
        q >= 0,
        q * d == 48000,
    ensures
        quotient(n * 48000, d) == n * q,
{
    assert(n * 48000 == (n * q) * d) by (nonlinear_arith)
        requires
            q * d == 48000,
    ;
    assert((n * q) * d / d == n * q) by (nonlinear_arith)
        requires
            d > 0,
    ;
    assert(n * 48000 >= 0);
}

/// How many sample frames the sound is ahead of a frame of the master clock.
pub open spec fn drift_of(g: GraphView, frame: u64) -> int {
    g.rendered - sample_at(frame, 0, g.house_frame_rate)
}

impl AudioGraph {
    /// Frames per second of the house.
    pub fn house_frame_rate(&self) -> (r: u32)
        ensures
            r == self@.house_frame_rate,
    {
        self.house_frame_rate
    }

    /// The guests, in the order of their names.
    pub fn guest_ids(&self) -> (ids: Vec<String>)
        ensures
            string_views(ids@) == guest_names(self@.guests),
    {
        let mut ids: Vec<String> = Vec::new();
        let n: usize = self.guests.len();
        let mut i: usize = 0;
        assert(string_views(ids@) =~= guest_names(self@.guests).take(0));
        while i < n
            invariant
                i <= n == self.guests@.len(),
                string_views(ids@) == guest_names(self@.guests).take(i as int),
            decreases n - i,
        {
            let ghost was = string_views(ids@);
            ids.push(self.guests[i].0.as_str().to_owned());
            assert(string_views(ids@) =~= was.push(self.guests@[i as int].0@));
            i = i + 1;
            assert(string_views(ids@) =~= guest_names(self@.guests).take(i as int));
        }
        assert(guest_names(self@.guests).take(n as int) =~= guest_names(self@.guests));
        ids
    }

    /// So many sample frames have been mixed.
    pub fn note_rendered(&mut self, frames: usize)
        ensures
            final(self)@ == (GraphView {
                rendered: old(self)@.rendered.wrapping_add(frames as u64),
                ..old(self)@
            }),
    {
        self.rendered = self.rendered.wrapping_add(frames as u64);
    }

    /// Sample frames mixed so far.
    pub fn rendered_samples(&self) -> (n: u64)
        ensures
            n == self@.rendered,
    {
        self.rendered
    }

    /// A block came too late, or the output refused it.
    pub fn note_underrun(&mut self)
        ensures
            final(self)@ == (GraphView {
                underruns: old(self)@.underruns.wrapping_add(1),
                ..old(self)@
            }),
    {
        self.underruns = self.underruns.wrapping_add(1);
    }

    /// Blocks that came too late, or that the output refused.
    pub fn underruns(&self) -> (n: u64)
        ensures
            n == self@.underruns,
    {
        self.underruns
    }

    /// How many sample frames the sound is ahead of the picture.
    pub fn drift_samples(&self, master_frame: u64) -> (n: i128)
        requires
            self@.house_frame_rate > 0,
            countable(master_frame),
        ensures
            n == drift_of(self@, master_frame),
    {
        let expected: i64 = sample_for_master_frame(master_frame, 0, self.house_frame_rate);
        self.rendered as i128 - expected as i128
    }
}

/// Where a frame is a whole number of sample frames, mixing one block a frame
/// keeps the sound in step with the picture.
pub proof fn law_a_block_a_frame_keeps_in_step(g: GraphView, frame: u64, block: u64)
    requires
        g.house_frame_rate > 0,
        block * g.house_frame_rate == SAMPLE_RATE,
        g.rendered == frame * block,
    ensures
        drift_of(g, frame) == 0,
{
    let rate = g.house_frame_rate as int;
    let n = frame * SAMPLE_RATE;
    assert(n == (frame * block) * rate) by (nonlinear_arith)
        requires
            n == frame * SAMPLE_RATE,
            block * rate == SAMPLE_RATE,
    ;
    assert(n / rate == frame * block) by (nonlinear_arith)
        requires
            n == (frame * block) * rate,
            rate > 0,
    ;
    assert(frame * SAMPLE_RATE >= 0) by (nonlinear_arith);
}

/// Whether two graphs differ at most in what one guest sends.
pub open spec fn same_but_for(a: GraphView, b: GraphView, guest: Seq<char>) -> bool {
    &&& a.sources == b.sources
    &&& a.guests.len() == b.guests.len()
    &&& forall|i: int|
        0 <= i < a.guests.len() ==> (#[trigger] a.guests[i]).0 == b.guests[i].0 && (a.guests[i].0
            != guest ==> a.guests[i] == b.guests[i])
}

proof fn lemma_same_guest_feeds(a: GraphView, b: GraphView, guest: Seq<char>, n: int)
    requires
        same_but_for(a, b, guest),
        0 <= n <= a.guests.len(),
    ensures
        guest_feeds(a.guests, Some(guest), n) == guest_feeds(b.guests, Some(guest), n),
    decreases n,
{
    if n > 0 {
        lemma_same_guest_feeds(a, b, guest, n - 1);
        assert(a.guests[n - 1].0 == b.guests[n - 1].0);
    }
}

/// What a guest hears is the same whatever the guest sends.
pub proof fn law_what_a_guest_sends_never_reaches_its_return(
    a: GraphView,
    b: GraphView,
    guest: Seq<char>,
)
    requires
        same_but_for(a, b, guest),
    ensures
        return_of(a, guest) == return_of(b, guest),
{
    lemma_same_guest_feeds(a, b, guest, a.guests.len() as int);
    lemma_same_heard(a, b, 4);
}

proof fn lemma_same_heard(a: GraphView, b: GraphView, n: int)
    requires
        a.sources == b.sources,
    ensures
        heard_buses(a, n) == heard_buses(b, n),
    decreases n,
{
    if n > 0 {
        lemma_same_heard(a, b, n - 1);
    }
}

} // verus!

//! Transitions between items, counted in frames of the master clock.

use crate::scene::opt_text;
use vstd::prelude::*;

verus! {

/// Frozen layers a transition may carry beneath it.
pub const MAX_UNDERLAY_LAYERS: usize = 8;

/// A share of one: `num` of `den` parts.
#[derive(Debug, Clone, Copy, PartialEq, Eq, Structural)]
pub struct Ratio {
    pub num: u64,
    pub den: u64,
}

/// Kinds of transitions that are drawn.
#[derive(Debug, Clone, Copy, PartialEq, Eq, Structural)]
pub enum TransitionKind {
    Cut,
    Mix,
}

/// A layer of an interrupted mix, at the strength it had.
#[derive(Debug)]
pub struct FrozenLayer {
    pub item: String,
    pub alpha: Ratio,
    /// The frame the item went on air.
    pub t0: u64,
}

/// What an interrupted mix showed, beneath the one that interrupts it.
#[derive(Debug)]
pub struct Underlay {
    pub layers: Vec<FrozenLayer>,
}

/// A transition between two items.
#[derive(Debug)]
pub struct Transition {
    pub from_item: Option<String>,
    /// The frame the outgoing item went on air.
    pub from_start_frame: u64,
    pub to_item: String,
    pub kind: TransitionKind,
    pub duration_frames: u64,
    /// The first frame on which the transition shows.
    pub start_frame: u64,
    pub underlay: Option<Underlay>,
}

/// One item on air, as contracts speak of it.
pub struct ShownView {
    pub item: Option<Seq<char>>,
    pub alpha: Ratio,
    pub t0: u64,
}

/// A frozen layer, as contracts speak of it.
pub struct FrozenView {
    pub item: Seq<char>,
    pub alpha: Ratio,
    pub t0: u64,
}

impl View for FrozenLayer {
    type V = FrozenView;

    open spec fn view(&self) -> FrozenView {
        FrozenView { item: self.item@, alpha: self.alpha, t0: self.t0 }
    }
}

impl View for Underlay {
    type V = Seq<FrozenView>;

    open spec fn view(&self) -> Seq<FrozenView> {
        Seq::new(self.layers@.len(), |i: int| self.layers@[i]@)
    }
}

/// A transition, as contracts speak of it.
pub struct TransitionView {
    pub from_item: Option<Seq<char>>,
    pub from_start_frame: u64,
    pub to_item: Seq<char>,
    pub kind: TransitionKind,
    pub duration_frames: u64,
    pub start_frame: u64,
    pub underlay: Option<Seq<FrozenView>>,
}

impl View for Transition {
    type V = TransitionView;

    open spec fn view(&self) -> TransitionView {
        TransitionView {
            from_item: opt_text(self.from_item),
            from_start_frame: self.from_start_frame,
            to_item: self.to_item@,
            kind: self.kind,
            duration_frames: self.duration_frames,
            start_frame: self.start_frame,
            underlay: match self.underlay {
                Some(u) => Some(u@),
                None => None,
            },
        }
    }
}

/// All of one.
pub open spec fn whole() -> Ratio {
    Ratio { num: 1, den: 1 }
}

/// None of one.
pub open spec fn nothing() -> Ratio {
    Ratio { num: 0, den: 1 }
}

impl TransitionView {
    /// How far the transition is: nothing before it starts, all once it is
    /// complete, and in between the frames gone out of those it takes. A cut
    /// takes none.
    pub open spec fn progress(self, frame: u64) -> Ratio {
        if frame < self.start_frame {
            nothing()
        } else if self.kind is Cut || frame - self.start_frame >= self.duration_frames {
            whole()
        } else {
            Ratio { num: (frame - self.start_frame) as u64, den: self.duration_frames }
        }
    }

    /// Whether the transition is over.
    pub open spec fn complete(self, frame: u64) -> bool {
        frame >= self.start_frame && (self.kind is Cut || frame - self.start_frame
            >= self.duration_frames)
    }
}

impl Transition {
    /// How far the transition is.
    pub fn progress(&self, frame: u64) -> (r: Ratio)
        ensures
            r == self@.progress(frame),
    {
        if frame < self.start_frame {
            return Ratio { num: 0, den: 1 };
        }
        let cut: bool = match self.kind {
            TransitionKind::Cut => true,
            TransitionKind::Mix => false,
        };
        let elapsed: u64 = frame - self.start_frame;
        if cut || elapsed >= self.duration_frames {
            Ratio { num: 1, den: 1 }
        } else {
            Ratio { num: elapsed, den: self.duration_frames }
        }
    }

    /// Whether the transition is over.
    pub fn is_complete(&self, frame: u64) -> (r: bool)
        ensures
            r == self@.complete(frame),
    {
        let p: Ratio = self.progress(frame);
        p.num >= p.den
    }
}

/// Layers within the bound: past it the oldest goes, but never the lowest.
pub open spec fn capped(layers: Seq<FrozenView>) -> Seq<FrozenView>
    decreases layers.len(),
{
    if layers.len() <= MAX_UNDERLAY_LAYERS {
        layers
    } else {
        capped(layers.remove(1))
    }
}

/// What a mix in flight shows at `frame`, lowest first.
pub open spec fn blend(old: TransitionView, frame: u64) -> Seq<FrozenView> {
    let base = match old.underlay {
        Some(u) => u,
        None => match old.from_item {
            Some(item) => seq![FrozenView { item, alpha: whole(), t0: old.from_start_frame }],
            None => Seq::empty(),
        },
    };
    let now = old.progress(frame);
    if now.num > 0 {
        base.push(FrozenView { item: old.to_item, alpha: now, t0: old.start_frame })
    } else {
        base
    }
}

/// What a take carries beneath it: the blend it interrupts, when it is a mix
/// that interrupts a mix, and there is something to see of it.
pub open spec fn frozen_under(
    old: Option<TransitionView>,
    kind: TransitionKind,
    frame: u64,
) -> Option<Seq<FrozenView>> {
    match old {
        Some(t) => if kind is Mix && t.kind is Mix && !t.complete(frame) {
            let layers = capped(blend(t, frame));
            if layers.len() == 0 {
                None
            } else {
                Some(layers)
            }
        } else {
            None
        },
        None => None,
    }
}

/// The text of an underlay.
pub open spec fn underlay_view(u: Option<Underlay>) -> Option<Seq<FrozenView>> {
    match u {
        Some(u) => Some(u@),
        None => None,
    }
}

/// The view of a transition that may be none.
pub open spec fn transition_view(t: Option<Transition>) -> Option<TransitionView> {
    match t {
        Some(t) => Some(t@),
        None => None,
    }
}

fn copy_layers(layers: &Vec<FrozenLayer>) -> (out: Vec<FrozenLayer>)
    ensures
        (Underlay { layers: out })@ == (Underlay { layers: *layers })@,
{
    let mut out: Vec<FrozenLayer> = Vec::new();
    let n: usize = layers.len();
    let mut i: usize = 0;
    while i < n
        invariant
            i <= n == layers@.len(),
            out@.len() == i,
            forall|k: int| 0 <= k < i ==> (#[trigger] out@[k])@ == layers@[k]@,
        decreases n - i,
    {
        let l: &FrozenLayer = &layers[i];
        out.push(FrozenLayer { item: l.item.as_str().to_owned(), alpha: l.alpha, t0: l.t0 });
        i = i + 1;
    }
    assert((Underlay { layers: out })@ =~= (Underlay { layers: *layers })@);
    out
}

/// Freeze what is on air for a take to start from.
pub fn freeze(old: &Option<Transition>, kind: TransitionKind, frame: u64) -> (u: Option<Underlay>)
    ensures
        underlay_view(u) == frozen_under(transition_view(*old), kind, frame),
{
    let t: &Transition = match old {
        Some(t) => t,
        None => return None,
    };
    match (kind, t.kind) {
        (TransitionKind::Mix, TransitionKind::Mix) => {},
        _ => return None,
    }
    if t.is_complete(frame) {
        return None;
    }
    let mut layers: Vec<FrozenLayer> = match &t.underlay {
        Some(u) => copy_layers(&u.layers),
        None => Vec::new(),
    };
    let based: bool = match &t.underlay {
        Some(_) => true,
        None => false,
    };
    if !based {
        match &t.from_item {
            Some(from) => layers.push(
                FrozenLayer {
                    item: from.as_str().to_owned(),
                    alpha: Ratio { num: 1, den: 1 },
                    t0: t.from_start_frame,
                },
            ),
            None => {},
        }
    }
    let now: Ratio = t.progress(frame);
    if now.num > 0 {
        layers.push(
            FrozenLayer { item: t.to_item.as_str().to_owned(), alpha: now, t0: t.start_frame },
        );
    }
    assert((Underlay { layers })@ =~= blend(t@, frame));
    while layers.len() > MAX_UNDERLAY_LAYERS
        invariant
            capped((Underlay { layers })@) == capped(blend(t@, frame)),
        decreases layers@.len(),
    {
        let ghost before = (Underlay { layers })@;
        layers.remove(1);
        assert((Underlay { layers })@ =~= before.remove(1));
    }
    if layers.len() == 0 {
        None
    } else {
        Some(Underlay { layers })
    }
}

/// Progress never leaves the range of a share, and only grows.
pub proof fn law_progress_only_grows(t: TransitionView, earlier: u64, later: u64)
    requires
        earlier <= later,
    ensures
        t.progress(earlier).den > 0,
        t.progress(earlier).num <= t.progress(earlier).den,
        t.progress(earlier).num * t.progress(later).den <= t.progress(later).num * t.progress(
            earlier,
        ).den,
        t.complete(earlier) ==> t.complete(later),
        t.complete(earlier) <==> t.progress(earlier).num == t.progress(earlier).den,
{
    let a = t.progress(earlier);
    let b = t.progress(later);
    assert(a.num * b.den <= b.num * a.den) by (nonlinear_arith)
        requires
            a.num == 0 || (b.num == 1 && b.den == 1 && a.num <= a.den) || (a.num <= b.num && a.den
                == b.den),
    ;
}

/// A cut is a mix that takes no frames.
pub proof fn law_cut_is_a_mix_of_no_length(cut: TransitionView, mix: TransitionView, frame: u64)
    requires
        cut.kind is Cut,
        mix.kind is Mix,
        mix.duration_frames == 0,
        cut.start_frame == mix.start_frame,
    ensures
        cut.progress(frame) == mix.progress(frame),
        cut.complete(frame) == mix.complete(frame),
{
}

/// The bound on frozen layers holds, and the lowest layer is never dropped.
pub proof fn law_underlay_is_bounded(layers: Seq<FrozenView>)
    ensures
        capped(layers).len() <= MAX_UNDERLAY_LAYERS,
        layers.len() > 0 ==> capped(layers).len() > 0 && capped(layers)[0] == layers[0],
        layers.len() > 0 ==> capped(layers).last() == layers.last(),
    decreases layers.len(),
{
    if layers.len() > MAX_UNDERLAY_LAYERS {
        law_underlay_is_bounded(layers.remove(1));
    }
}

/// A cut snaps: it carries nothing beneath it, whatever it interrupts.
pub proof fn law_cut_carries_nothing(old: Option<TransitionView>, frame: u64)
    ensures
        frozen_under(old, TransitionKind::Cut, frame) is None,
{
}

} // verus!

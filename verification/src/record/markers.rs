//! Markers of a take: kept in the order they came, written in the order of
//! their frames.

use vstd::prelude::*;

verus! {

/// One marker. The frame orders chapters; the timecode is kept as it came.
#[derive(Debug, PartialEq, Eq)]
pub struct Marker {
    pub name: String,
    pub frame: u64,
    pub timecode: Option<String>,
}

/// A marker, as contracts speak of it.
pub struct MarkerView {
    pub name: Seq<char>,
    pub frame: u64,
    pub timecode: Option<Seq<char>>,
}

impl View for Marker {
    type V = MarkerView;

    open spec fn view(&self) -> MarkerView {
        MarkerView {
            name: self.name@,
            frame: self.frame,
            timecode: match self.timecode {
                Some(t) => Some(t@),
                None => None,
            },
        }
    }
}

impl Marker {
    /// A copy of a marker.
    pub fn copied(&self) -> (m: Marker)
        ensures
            m@ == self@,
    {
        Marker {
            name: self.name.clone(),
            frame: self.frame,
            timecode: match &self.timecode {
                Some(t) => Some(t.clone()),
                None => None,
            },
        }
    }
}

/// The markers of a vector.
pub open spec fn views(markers: Seq<Marker>) -> Seq<MarkerView> {
    Seq::new(markers.len(), |i: int| markers[i]@)
}

/// The markers of the current take.
pub struct MarkerStore {
    markers: Vec<Marker>,
}

impl View for MarkerStore {
    type V = Seq<MarkerView>;

    closed spec fn view(&self) -> Seq<MarkerView> {
        views(self.markers@)
    }
}

impl MarkerStore {
    /// A store with no markers.
    pub fn new() -> (s: MarkerStore)
        ensures
            s@ == Seq::<MarkerView>::empty(),
    {
        let s: MarkerStore = MarkerStore { markers: Vec::new() };
        assert(s@ =~= Seq::empty());
        s
    }

    /// Keep one more marker.
    pub fn add(&mut self, marker: Marker)
        ensures
            final(self)@ == old(self)@.push(marker@),
    {
        self.markers.push(marker);
        assert(self@ =~= old(self)@.push(marker@));
    }

    /// The markers, in the order they came.
    pub fn list(&self) -> (v: Vec<Marker>)
        ensures
            views(v@) == self@,
    {
        let mut v: Vec<Marker> = Vec::new();
        let mut i: usize = 0;
        while i < self.markers.len()
            invariant
                i <= self.markers@.len(),
                views(v@) == self@.take(i as int),
            decreases self.markers@.len() - i,
        {
            let ghost before = views(v@);
            v.push(self.markers[i].copied());
            i = i + 1;
            proof {
                assert(views(v@) =~= before.push(self.markers@[i - 1]@));
                assert(self@.take(i as int) =~= self@.take(i - 1).push(self@[i - 1]));
            }
        }
        assert(self@.take(i as int) =~= self@);
        v
    }

    /// Forget every marker.
    pub fn clear(&mut self)
        ensures
            final(self)@ == Seq::<MarkerView>::empty(),
    {
        self.markers.clear();
        assert(self@ =~= Seq::empty());
    }
}

/// How many leading markers of `sorted` come no later than `frame`.
pub open spec fn place_of(sorted: Seq<MarkerView>, frame: u64, from: int) -> int
    decreases sorted.len() - from,
{
    if 0 <= from < sorted.len() && sorted[from].frame <= frame {
        place_of(sorted, frame, from + 1)
    } else {
        from
    }
}

/// Markers ordered by frame; those of one frame stay in the order they came.
pub open spec fn by_frame(markers: Seq<MarkerView>) -> Seq<MarkerView>
    decreases markers.len(),
{
    if markers.len() == 0 {
        Seq::empty()
    } else {
        let sorted = by_frame(markers.drop_last());
        sorted.insert(place_of(sorted, markers.last().frame, 0), markers.last())
    }
}

proof fn lemma_place(sorted: Seq<MarkerView>, frame: u64, from: int)
    requires
        0 <= from <= sorted.len(),
    ensures
        from <= place_of(sorted, frame, from) <= sorted.len(),
        forall|i: int| from <= i < place_of(sorted, frame, from) ==> sorted[i].frame <= frame,
        place_of(sorted, frame, from) < sorted.len() ==> sorted[place_of(sorted, frame, from)].frame
            > frame,
    decreases sorted.len() - from,
{
    if from < sorted.len() && sorted[from].frame <= frame {
        lemma_place(sorted, frame, from + 1);
    }
}

/// The markers ordered by frame, for the chapter list.
pub fn chapters(markers: &[Marker]) -> (out: Vec<Marker>)
    ensures
        views(out@) == by_frame(views(markers@)),
{
    let ghost all = views(markers@);
    let mut out: Vec<Marker> = Vec::new();
    let mut i: usize = 0;
    assert(views(out@) =~= by_frame(all.take(0)));
    while i < markers.len()
        invariant
            i <= markers@.len(),
            all == views(markers@),
            views(out@) == by_frame(all.take(i as int)),
        decreases markers@.len() - i,
    {
        let ghost sorted = views(out@);
        let frame: u64 = markers[i].frame;
        let mut k: usize = 0;
        while k < out.len() && out[k].frame <= frame
            invariant
                k <= out@.len(),
                sorted == views(out@),
                place_of(sorted, frame, 0) == place_of(sorted, frame, k as int),
            decreases out@.len() - k,
        {
            assert(sorted[k as int] == out@[k as int]@);
            k = k + 1;
        }
        proof {
            if k < out@.len() {
                assert(sorted[k as int] == out@[k as int]@);
            }
        }
        let ghost before = out@;
        out.insert(k, markers[i].copied());
        i = i + 1;
        proof {
            let t = all.take(i as int);
            assert(t.drop_last() =~= all.take(i - 1));
            assert(t.last() == markers@[i - 1]@);
            assert(views(out@) =~= sorted.insert(k as int, markers@[i - 1]@));
        }
    }
    assert(all.take(i as int) =~= all);
    out
}

/// Chapters are in frame order.
pub proof fn law_chapters_are_ordered(markers: Seq<MarkerView>)
    ensures
        forall|i: int, j: int|
            0 <= i <= j < by_frame(markers).len() ==> by_frame(markers)[i].frame <= by_frame(
                markers,
            )[j].frame,
    decreases markers.len(),
{
    if markers.len() > 0 {
        let sorted = by_frame(markers.drop_last());
        let last = markers.last();
        law_chapters_are_ordered(markers.drop_last());
        lemma_place(sorted, last.frame, 0);
        let p = place_of(sorted, last.frame, 0);
        let out = sorted.insert(p, last);
        assert forall|i: int, j: int| 0 <= i <= j < out.len() implies out[i].frame <= out[j].frame by {
            if j < p {
                assert(out[i] == sorted[i] && out[j] == sorted[j]);
            } else if i > p {
                assert(out[i] == sorted[i - 1] && out[j] == sorted[j - 1]);
            } else if i == p && j > p {
                assert(out[j] == sorted[j - 1]);
                assert(sorted[p].frame <= sorted[j - 1].frame);
            } else if i < p && j > p {
                assert(out[i] == sorted[i] && out[j] == sorted[j - 1]);
            } else if i < p && j == p {
                assert(out[i] == sorted[i]);
            }
        }
    }
}

/// Chapters are the markers: none is lost, none is added.
pub proof fn law_chapters_lose_nothing(markers: Seq<MarkerView>)
    ensures
        by_frame(markers).to_multiset() == markers.to_multiset(),
    decreases markers.len(),
{
    broadcast use vstd::seq_lib::group_to_multiset_ensures;

    if markers.len() > 0 {
        let sorted = by_frame(markers.drop_last());
        let last = markers.last();
        law_chapters_lose_nothing(markers.drop_last());
        lemma_place(sorted, last.frame, 0);
        let p = place_of(sorted, last.frame, 0);
        vstd::seq_lib::to_multiset_insert(sorted, p, last);
        assert(markers =~= markers.drop_last().push(last));
        vstd::seq_lib::to_multiset_build(markers.drop_last(), last);
    } else {
        assert(markers =~= Seq::empty());
    }
}

/// The markers of `s` on frame `f`, in order.
pub open spec fn on_frame(s: Seq<MarkerView>, f: u64) -> Seq<MarkerView> {
    s.filter(|m: MarkerView| m.frame == f)
}

/// Markers of one frame stay in the order they came.
pub proof fn law_chapters_keep_arrival_order(markers: Seq<MarkerView>, f: u64)
    ensures
        on_frame(by_frame(markers), f) == on_frame(markers, f),
    decreases markers.len(),
{
    let pred = |m: MarkerView| m.frame == f;
    if markers.len() > 0 {
        let head = markers.drop_last();
        let sorted = by_frame(head);
        let last = markers.last();
        law_chapters_keep_arrival_order(head, f);
        law_chapters_are_ordered(head);
        lemma_place(sorted, last.frame, 0);
        let p = place_of(sorted, last.frame, 0);
        let a = sorted.subrange(0, p);
        let b = sorted.subrange(p, sorted.len() as int);
        assert(sorted =~= a + b);
        assert(sorted.insert(p, last) =~= a + seq![last] + b);
        assert(markers =~= head + seq![last]);
        Seq::filter_distributes_over_add(a, b, pred);
        Seq::filter_distributes_over_add(a, seq![last], pred);
        Seq::filter_distributes_over_add(a + seq![last], b, pred);
        Seq::filter_distributes_over_add(head, seq![last], pred);
        if last.frame == f {
            assert(b.filter(pred) =~= Seq::empty()) by {
                assert forall|i: int| 0 <= i < b.len() implies !pred(#[trigger] b[i]) by {
                    assert(b[i] == sorted[p + i]);
                    assert(sorted[p].frame <= sorted[p + i].frame);
                }
                lemma_filter_none(b, pred);
            }
        } else {
            assert(seq![last].filter(pred) =~= Seq::empty()) by {
                lemma_filter_none(seq![last], pred);
            }
        }
        assert(on_frame(by_frame(markers), f) =~= on_frame(markers, f));
    } else {
        assert(by_frame(markers) =~= markers);
    }
}

proof fn lemma_filter_none(s: Seq<MarkerView>, pred: spec_fn(MarkerView) -> bool)
    requires
        forall|i: int| 0 <= i < s.len() ==> !pred(#[trigger] s[i]),
    ensures
        s.filter(pred) == Seq::<MarkerView>::empty(),
    decreases s.len(),
{
    reveal(Seq::filter);
    if s.len() > 0 {
        assert(!pred(s[s.len() - 1]));
        assert forall|i: int| 0 <= i < s.drop_last().len() implies !pred(
            #[trigger] s.drop_last()[i],
        ) by {
            assert(s.drop_last()[i] == s[i]);
        }
        lemma_filter_none(s.drop_last(), pred);
    }
}

/// Where `c` last is among the first `to` characters; -1 where it is not.
pub open spec fn last_of(s: Seq<char>, c: char, to: int) -> int
    decreases to,
{
    if to <= 0 || to > s.len() {
        -1
    } else if s[to - 1] == c {
        to - 1
    } else {
        last_of(s, c, to - 1)
    }
}

/// Whether every system takes the path apart in the same places.
pub open spec fn portable(path: Seq<char>) -> bool {
    &&& !(path.len() > 1 && path[0] == '/' && path[1] == '/')
    &&& forall|i: int| 0 <= i < path.len() ==> path[i] != '\\' && path[i] != ':'
}

/// The path with another extension. What is behind the last point of the file
/// name is replaced; a name without a point, or with one at its start alone, has
/// the extension added; a path without a file name stays as it is. `None` is a
/// path that this says nothing of.
pub open spec fn extended(path: Seq<char>, extension: Seq<char>) -> Option<Seq<char>> {
    let start = last_of(path, '/', path.len() as int) + 1;
    let name = path.skip(start);
    let dot = last_of(name, '.', name.len() as int);
    if !portable(path) || name == seq!['.'] {
        None
    } else if name.len() == 0 {
        if path.len() <= 1 {
            Some(path)
        } else {
            None
        }
    } else if name == seq!['.', '.'] {
        Some(path)
    } else if dot <= 0 {
        Some(path + seq!['.'] + extension)
    } else if dot == 1 && name[0] == '.' {
        None
    } else {
        Some(path.take(start + dot + 1) + extension)
    }
}

/// Whether no system takes a character of this text for a separator.
pub open spec fn without_separators(s: Seq<char>) -> bool {
    forall|i: int| 0 <= i < s.len() ==> s[i] != '/' && s[i] != '\\'
}

/// `std::path::Path::with_extension`: what is behind the last point of the file
/// name is replaced; a name without a point, or with one at its start alone, has
/// the extension added; a path that is empty, that is the root, or that ends in
/// two points has no file name and stays as it is. Nothing is said of a path
/// that ends in a separator or in a single point, of a name that begins with two
/// points and has no other, or of a path that not every system takes apart in
/// the same places. An extension that is empty, or that holds a separator, is
/// not asked for.
#[verifier::external_body]
fn replace_extension(path: &str, extension: &str) -> (s: String)
    requires
        extension@.len() > 0,
        without_separators(extension@),
    ensures
        extended(path@, extension@) matches Some(e) ==> s@ == e,
{
    std::path::Path::new(path).with_extension(extension).to_string_lossy().into_owned()
}

/// The file beside a recording that holds its markers.
pub fn sidecar_path(video_path: &str) -> (s: String)
    ensures
        extended(video_path@, "markers.json"@) matches Some(e) ==> s@ == e,
{
    proof {
        reveal_strlit("markers.json");
    }
    replace_extension(video_path, "markers.json")
}

} // verus!

//! What an item shows, and what is heard of it.

use crate::scene::{
    element_views, full_rect, is_positive, opt_text, texts, ElementSpec, ElementView, Fill,
    IndexView, Number, PackageIndex, Rect,
};
use crate::strmap::StrMap;
use crate::text::{before, comes_before, lemma_insert_rising, rising, str_eq, string_views};
use vstd::prelude::*;
use vstd::string::*;

verus! {

/// What one element puts into a frame.
#[derive(Debug)]
pub enum LayerSource {
    /// A solid fill.
    Solid(Fill),
    /// A decoded image, by the id of its asset.
    Image(String),
    /// A decoded video, by the id of its asset. The clock decides the frame.
    Video { asset_id: String, looping: bool },
}

/// One layer of a picture.
#[derive(Debug)]
pub struct Layer {
    pub source: LayerSource,
    pub rect: Rect,
    pub opacity: Option<Number>,
    pub z: i64,
}

/// What one bus shows: layers, lowest first.
#[derive(Debug)]
pub struct ResolvedScene {
    pub layers: Vec<Layer>,
}

/// A layer's source, as contracts speak of it.
pub enum SourceView {
    Solid(Fill),
    Image(Seq<char>),
    Video { asset_id: Seq<char>, looping: bool },
}

/// A layer, as contracts speak of it.
pub struct LayerView {
    pub source: SourceView,
    pub rect: Rect,
    pub opacity: Option<Number>,
    pub z: i64,
}

impl View for LayerSource {
    type V = SourceView;

    open spec fn view(&self) -> SourceView {
        match *self {
            LayerSource::Solid(f) => SourceView::Solid(f),
            LayerSource::Image(a) => SourceView::Image(a@),
            LayerSource::Video { asset_id, looping } => SourceView::Video {
                asset_id: asset_id@,
                looping,
            },
        }
    }
}

impl View for Layer {
    type V = LayerView;

    open spec fn view(&self) -> LayerView {
        LayerView { source: self.source@, rect: self.rect, opacity: self.opacity, z: self.z }
    }
}

impl View for ResolvedScene {
    type V = Seq<LayerView>;

    open spec fn view(&self) -> Seq<LayerView> {
        Seq::new(self.layers@.len(), |i: int| self.layers@[i]@)
    }
}

impl ResolvedScene {
    /// Whether nothing is drawn.
    pub fn is_empty(&self) -> (r: bool)
        ensures
            r == (self@.len() == 0),
    {
        self.layers.len() == 0
    }
}

/// The text of a name in a table.
pub open spec fn looked_up(m: Map<Seq<char>, Seq<char>>, key: Seq<char>) -> Option<Seq<char>> {
    if m.dom().contains(key) {
        Some(m[key])
    } else {
        None
    }
}

/// Whether an element is on screen: visible, and not fully transparent.
pub open spec fn is_drawn(e: ElementView) -> bool {
    e.visible && match e.opacity {
        None => true,
        Some(n) => is_positive(n),
    }
}

/// The drawn ones among the first `n` elements, in their order.
pub open spec fn drawn_among(elements: Seq<ElementView>, n: int) -> Seq<ElementView>
    decreases n,
{
    if n <= 0 {
        Seq::empty()
    } else if is_drawn(elements[n - 1]) {
        drawn_among(elements, n - 1).push(elements[n - 1])
    } else {
        drawn_among(elements, n - 1)
    }
}

/// The elements an item puts on screen. A slate draws a fill of its own and
/// none of its scene.
pub open spec fn drawn(idx: IndexView, item: Seq<char>) -> Seq<ElementView> {
    if looked_up(idx.items.kind, item) == Some("slate"@) {
        Seq::empty()
    } else {
        match looked_up(idx.items.scene, item) {
            None => Seq::empty(),
            Some(scene) => if idx.scenes.dom().contains(scene) {
                drawn_among(idx.scenes[scene], idx.scenes[scene].len() as int)
            } else {
                Seq::empty()
            },
        }
    }
}

/// Whether an asset is moving picture, which may carry a sound track.
pub open spec fn carries_sound(idx: IndexView, asset: Seq<char>) -> bool {
    looked_up(idx.assets.kind, asset) == Some("video"@) || looked_up(idx.assets.kind, asset)
        == Some("alphaVideo"@)
}

/// The layer an element makes, if it makes one.
pub open spec fn layer_of(idx: IndexView, e: ElementView) -> Option<LayerView> {
    let layer = |source: SourceView| Some(
        LayerView { source, rect: e.rect, opacity: e.opacity, z: e.z },
    );
    if e.kind == "graphic"@ {
        layer(
            SourceView::Solid(
                match e.color {
                    Some(c) => Fill::Named(c),
                    None => Fill::Placeholder,
                },
            ),
        )
    } else if e.kind == "clip"@ || e.kind == "videoLoop"@ {
        match e.asset_id {
            None => None,
            Some(a) => if looked_up(idx.assets.kind, a) == Some("image"@)
                && idx.images.dom().contains(a) {
                layer(SourceView::Image(a))
            } else if carries_sound(idx, a) {
                layer(SourceView::Video { asset_id: a, looping: e.kind == "videoLoop"@ })
            } else {
                None
            },
        }
    } else {
        None
    }
}

/// The layers of the first `n` elements.
pub open spec fn layers_among(idx: IndexView, elements: Seq<ElementView>, n: int) -> Seq<LayerView>
    decreases n,
{
    if n <= 0 {
        Seq::empty()
    } else {
        let below = layers_among(idx, elements, n - 1);
        match layer_of(idx, elements[n - 1]) {
            Some(l) => below.push(l),
            None => below,
        }
    }
}

/// What an item shows. No item, and an item with nothing to draw, is an empty
/// picture.
pub open spec fn resolved(idx: IndexView, item: Option<Seq<char>>) -> Seq<LayerView> {
    match item {
        None => Seq::empty(),
        Some(item) => if looked_up(idx.items.kind, item) == Some("slate"@) {
            seq![
                LayerView {
                    source: SourceView::Solid(Fill::Slate),
                    rect: full_rect(),
                    opacity: None,
                    z: 0,
                },
            ]
        } else {
            layers_among(idx, drawn(idx, item), drawn(idx, item).len() as int)
        },
    }
}

/// Whether an element's sound is the item's sound: a clip, not muted, meant for
/// the clip bus, of an asset that can carry sound.
pub open spec fn is_heard(idx: IndexView, e: ElementView) -> bool {
    e.kind == "clip"@ && !e.audio_muted && e.audio_bus == "clip"@ && match e.asset_id {
        Some(a) => carries_sound(idx, a),
        None => false,
    }
}

/// The first heard element from `i` on; the length when none is.
pub open spec fn first_heard(idx: IndexView, elements: Seq<ElementView>, i: int) -> int
    decreases elements.len() - i,
{
    if i < 0 || i >= elements.len() || is_heard(idx, elements[i]) {
        i
    } else {
        first_heard(idx, elements, i + 1)
    }
}

/// The asset whose sound an item plays: that of the lowest heard element it
/// draws. An item whose policy is to mute plays none.
pub open spec fn item_sound(idx: IndexView, item: Seq<char>) -> Option<Seq<char>> {
    if looked_up(idx.items.policy, item) == Some("mute"@) {
        None
    } else {
        let e = drawn(idx, item);
        let i = first_heard(idx, e, 0);
        if i < e.len() {
            e[i].asset_id
        } else {
            None
        }
    }
}

/// The sound of every item that has a scene and a sound.
pub open spec fn item_sounds(idx: IndexView) -> Map<Seq<char>, Seq<char>> {
    Map::new(
        |item: Seq<char>|
            idx.items.scene.dom().contains(item) && item_sound(idx, item) is Some,
        |item: Seq<char>| item_sound(idx, item)->0,
    )
}

/// Whether an element of `elements` uses `asset`.
pub open spec fn uses_asset(elements: Seq<ElementView>, asset: Seq<char>) -> bool {
    exists|i: int| 0 <= i < elements.len() && (#[trigger] elements[i]).asset_id == Some(asset)
}

/// Whether an item refers to a scene that uses `asset`.
pub open spec fn item_uses(idx: IndexView, item: Seq<char>, asset: Seq<char>) -> bool {
    &&& idx.items.scene.dom().contains(item)
    &&& idx.scenes.dom().contains(idx.items.scene[item])
    &&& uses_asset(idx.scenes[idx.items.scene[item]], asset)
}

impl PackageIndex {
    /// Whether a table gives `key` the text `want`.
    fn says(table: &StrMap<String>, key: &str, want: &str) -> (r: bool)
        ensures
            r == (looked_up(texts(table@), key@) == Some(want@)),
    {
        match table.get(key) {
            Some(s) => str_eq(s.as_str(), want),
            None => false,
        }
    }

    fn asset_is_picture_with_audio(&self, asset_id: &str) -> (r: bool)
        ensures
            r == carries_sound(self@, asset_id@),
    {
        Self::says(&self.asset_kind, asset_id, "video") || Self::says(
            &self.asset_kind,
            asset_id,
            "alphaVideo",
        )
    }

    /// The elements an item puts on screen, lowest first: the one walk that both
    /// picture and sound come from.
    fn drawn_elements(&self, item_ref: &str) -> (out: Vec<&ElementSpec>)
        ensures
            out@.len() == drawn(self@, item_ref@).len(),
            forall|i: int| 0 <= i < out@.len() ==> (#[trigger] out@[i])@ == drawn(self@, item_ref@)[i],
    {
        let mut out: Vec<&ElementSpec> = Vec::new();
        if Self::says(&self.item_kind, item_ref, "slate") {
            return out;
        }
        let scene: &String = match self.item_scene.get(item_ref) {
            Some(s) => s,
            None => return out,
        };
        let elements: &Vec<ElementSpec> = match self.scenes.get(scene.as_str()) {
            Some(e) => e,
            None => return out,
        };
        let ghost all = element_views(elements@);
        let n: usize = elements.len();
        let mut i: usize = 0;
        while i < n
            invariant
                i <= n == elements@.len(),
                all == element_views(elements@),
                out@.len() == drawn_among(all, i as int).len(),
                forall|k: int|
                    0 <= k < out@.len() ==> (#[trigger] out@[k])@ == drawn_among(all, i as int)[k],
            decreases n - i,
        {
            let e: &ElementSpec = &elements[i];
            assert(all[i as int] == e@);
            let shows: bool = match e.opacity {
                None => true,
                Some(Number::Unsigned(n)) => n > 0,
                Some(Number::Negative(n)) => n > 0,
                Some(Number::Fraction(r)) => 0x3690_0000_0000_0000 < r.bits && r.bits
                    <= 0x7ff0_0000_0000_0000,
            };
            if e.visible && shows {
                out.push(e);
            }
            i = i + 1;
        }
        out
    }

    fn layer_for(&self, e: &ElementSpec) -> (r: Option<Layer>)
        ensures
            match r {
                Some(l) => layer_of(self@, e@) == Some(l@),
                None => layer_of(self@, e@) is None,
            },
    {
        let kind: &str = e.kind.as_str();
        proof {
            reveal_strlit("graphic");
            reveal_strlit("clip");
            reveal_strlit("videoLoop");
        }
        let source: LayerSource = if str_eq(kind, "graphic") {
            LayerSource::Solid(
                match e.color {
                    Some(c) => Fill::Named(c),
                    None => Fill::Placeholder,
                },
            )
        } else if str_eq(kind, "clip") || str_eq(kind, "videoLoop") {
            let asset: &str = match &e.asset_id {
                Some(a) => a.as_str(),
                None => return None,
            };
            if Self::says(&self.asset_kind, asset, "image") && self.images.has(asset) {
                LayerSource::Image(asset.to_owned())
            } else if self.asset_is_picture_with_audio(asset) {
                LayerSource::Video { asset_id: asset.to_owned(), looping: str_eq(kind, "videoLoop") }
            } else {
                return None;
            }
        } else {
            return None;
        };
        Some(Layer { source, rect: e.rect, opacity: e.opacity, z: e.z })
    }

    /// What an item shows.
    pub fn resolve(&self, item_ref: Option<&str>) -> (scene: ResolvedScene)
        ensures
            scene@ == resolved(
                self@,
                match item_ref {
                    Some(i) => Some(i@),
                    None => None,
                },
            ),
    {
        let mut layers: Vec<Layer> = Vec::new();
        let item: &str = match item_ref {
            Some(i) => i,
            None => {
                let scene: ResolvedScene = ResolvedScene { layers };
                assert(scene@ =~= Seq::empty());
                return scene;
            },
        };
        if Self::says(&self.item_kind, item, "slate") {
            layers.push(
                Layer {
                    source: LayerSource::Solid(Fill::Slate),
                    rect: Rect { x: None, y: None, w: None, h: None },
                    opacity: None,
                    z: 0,
                },
            );
            let scene: ResolvedScene = ResolvedScene { layers };
            assert(scene@ =~= resolved(self@, Some(item@)));
            return scene;
        }
        let elements: Vec<&ElementSpec> = self.drawn_elements(item);
        let ghost all = drawn(self@, item@);
        let n: usize = elements.len();
        let mut i: usize = 0;
        while i < n
            invariant
                i <= n == elements@.len(),
                n == all.len(),
                forall|k: int| 0 <= k < n ==> (#[trigger] elements@[k])@ == all[k],
                (Seq::new(layers@.len(), |k: int| layers@[k]@)) =~= layers_among(
                    self@,
                    all,
                    i as int,
                ),
            decreases n - i,
        {
            assert(elements@[i as int]@ == all[i as int]);
            match self.layer_for(elements[i]) {
                Some(l) => layers.push(l),
                None => {},
            }
            i = i + 1;
        }
        ResolvedScene { layers }
    }

    /// The asset whose sound a take of the item puts on the clip bus.
    pub fn item_audio_asset(&self, item_ref: &str) -> (r: Option<String>)
        ensures
            opt_text(r) == item_sound(self@, item_ref@),
    {
        if Self::says(&self.item_audio_policy, item_ref, "mute") {
            return None;
        }
        let elements: Vec<&ElementSpec> = self.drawn_elements(item_ref);
        let ghost all = drawn(self@, item_ref@);
        let n: usize = elements.len();
        let mut i: usize = 0;
        while i < n
            invariant
                i <= n == elements@.len(),
                n == all.len(),
                forall|k: int| 0 <= k < n ==> (#[trigger] elements@[k])@ == all[k],
                first_heard(self@, all, 0) == first_heard(self@, all, i as int),
                looked_up(self@.items.policy, item_ref@) != Some("mute"@),
                all == drawn(self@, item_ref@),
            decreases n - i,
        {
            let e: &ElementSpec = elements[i];
            assert(e@ == all[i as int]);
            if str_eq(e.kind.as_str(), "clip") && !e.audio_muted && str_eq(
                e.audio_bus.as_str(),
                "clip",
            ) {
                match &e.asset_id {
                    Some(a) => {
                        if self.asset_is_picture_with_audio(a.as_str()) {
                            return Some(a.as_str().to_owned());
                        }
                    },
                    None => {},
                }
            }
            i = i + 1;
        }
        None
    }

    /// The sound of every item, for takes to look up.
    pub fn item_audio_map(&self) -> (m: StrMap<String>)
        requires
            self.wf(),
        ensures
            m.wf(),
            texts(m@) == item_sounds(self@),
    {
        let mut m: StrMap<String> = StrMap::new();
        let n: usize = self.item_scene.len();
        let ghost listed = self.item_scene.listed();
        proof {
            self.item_scene.lemma_listed();
        }
        let mut i: usize = 0;
        while i < n
            invariant
                i <= n == listed.len(),
                listed == self.item_scene.listed(),
                self.wf(),
                m.wf(),
                forall|k: int| 0 <= k < n ==> self@.items.scene.dom().contains(
                    (#[trigger] listed[k]).0,
                ),
                forall|k: int, l: int|
                    0 <= k < l < n ==> (#[trigger] listed[k]).0 != (#[trigger] listed[l]).0,
                forall|key: Seq<char>| #[trigger] m@.dom().contains(key) ==> exists|k: int|
                    0 <= k < i && (#[trigger] listed[k]).0 == key,
                forall|k: int|
                    0 <= k < i ==> m@.dom().contains((#[trigger] listed[k]).0) == (item_sound(
                        self@,
                        listed[k].0,
                    ) is Some),
                forall|k: int|
                    0 <= k < i && m@.dom().contains((#[trigger] listed[k]).0) ==> item_sound(
                        self@,
                        listed[k].0,
                    ) == Some(m@[listed[k].0]@),
            decreases n - i,
        {
            let item: &str = self.item_scene.key_at(i);
            let ghost m0 = m@;
            match self.item_audio_asset(item) {
                Some(asset) => {
                    m.insert(item, asset);
                    proof {
                        assert(listed[i as int].0 == item@);
                        assert forall|key: Seq<char>| #[trigger] m@.dom().contains(
                            key,
                        ) implies exists|k: int|
                            0 <= k < i + 1 && (#[trigger] listed[k]).0 == key by {
                            if key != item@ {
                                assert(m0.dom().contains(key));
                            }
                        }
                        assert forall|k: int| 0 <= k < i + 1 implies m@.dom().contains(
                            (#[trigger] listed[k]).0,
                        ) == (item_sound(self@, listed[k].0) is Some) by {
                            assert(k == i || listed[k].0 != listed[i as int].0);
                        }
                        assert forall|k: int|
                            0 <= k < i + 1 && m@.dom().contains(
                                (#[trigger] listed[k]).0,
                            ) implies item_sound(self@, listed[k].0) == Some(
                            m@[listed[k].0]@,
                        ) by {
                            assert(k == i || listed[k].0 != listed[i as int].0);
                        }
                    }
                },
                None => {
                    proof {
                        if m@.dom().contains(item@) {
                            let k = choose|k: int|
                                0 <= k < i && (#[trigger] listed[k]).0 == item@;
                            assert(listed[k].0 != listed[i as int].0);
                        }
                    }
                },
            }
            i = i + 1;
        }
        assert(texts(m@) =~= item_sounds(self@)) by {
            assert forall|key: Seq<char>|
                texts(m@).dom().contains(key) == item_sounds(self@).dom().contains(key) by {
                if m@.dom().contains(key) {
                    let k = choose|k: int| 0 <= k < n && (#[trigger] listed[k]).0 == key;
                    assert(self@.items.scene.dom().contains(listed[k].0));
                }
                if item_sounds(self@).dom().contains(key) {
                    assert(self.item_scene@.dom().contains(key));
                    let k = choose|k: int| 0 <= k < n && (#[trigger] listed[k]).0 == key;
                    assert(m@.dom().contains(listed[k].0));
                }
            }
            assert forall|key: Seq<char>| texts(m@).dom().contains(key) implies texts(m@)[key]
                == item_sounds(self@)[key] by {
                let k = choose|k: int| 0 <= k < n && (#[trigger] listed[k]).0 == key;
                assert(m@.dom().contains(listed[k].0));
            }
        }
        m
    }

    fn scene_uses(&self, scene: &str, asset_id: &str) -> (r: bool)
        ensures
            r == (self@.scenes.dom().contains(scene@) && uses_asset(
                self@.scenes[scene@],
                asset_id@,
            )),
    {
        let elements: &Vec<ElementSpec> = match self.scenes.get(scene) {
            Some(e) => e,
            None => return false,
        };
        let ghost all = element_views(elements@);
        let n: usize = elements.len();
        let mut i: usize = 0;
        while i < n
            invariant
                i <= n == elements@.len(),
                all == element_views(elements@),
                all == self@.scenes[scene@],
                self@.scenes.dom().contains(scene@),
                forall|k: int| 0 <= k < i ==> (#[trigger] all[k]).asset_id != Some(asset_id@),
            decreases n - i,
        {
            assert(all[i as int] == elements@[i as int]@);
            match &elements[i].asset_id {
                Some(a) => {
                    if str_eq(a.as_str(), asset_id) {
                        assert(all[i as int].asset_id == Some(asset_id@));
                        return true;
                    }
                },
                None => {},
            }
            i = i + 1;
        }
        false
    }

    /// The items that would show an asset, in the order of their names.
    pub fn items_using_asset(&self, asset_id: &str) -> (items: Vec<String>)
        requires
            self.wf(),
        ensures
            rising(string_views(items@)),
            forall|item: Seq<char>|
                string_views(items@).contains(item) <==> item_uses(self@, item, asset_id@),
    {
        let mut items: Vec<String> = Vec::new();
        let n: usize = self.item_scene.len();
        let ghost listed = self.item_scene.listed();
        proof {
            self.item_scene.lemma_listed();
        }
        let mut i: usize = 0;
        while i < n
            invariant
                i <= n == listed.len(),
                listed == self.item_scene.listed(),
                self.wf(),
                forall|k: int| 0 <= k < n ==> self.item_scene@.dom().contains(
                    (#[trigger] listed[k]).0,
                ) && self.item_scene@[listed[k].0] == listed[k].1,
                forall|k: int, l: int|
                    0 <= k < l < n ==> (#[trigger] listed[k]).0 != (#[trigger] listed[l]).0,
                rising(string_views(items@)),
                forall|item: Seq<char>| #[trigger]
                    string_views(items@).contains(item) <==> exists|k: int|
                        0 <= k < i && (#[trigger] listed[k]).0 == item && item_uses(
                            self@,
                            item,
                            asset_id@,
                        ),
            decreases n - i,
        {
            let item: &str = self.item_scene.key_at(i);
            let scene: &String = self.item_scene.value_at(i);
            let ghost v0 = string_views(items@);
            assert(self.item_scene@.dom().contains(listed[i as int].0));
            assert(self@.items.scene[item@] == scene@);
            let uses: bool = self.scene_uses(scene.as_str(), asset_id);
            assert(uses == item_uses(self@, item@, asset_id@));
            if uses {
                let mut at: usize = 0;
                assert(!v0.contains(item@)) by {
                    if v0.contains(item@) {
                        let k = choose|k: int| 0 <= k < i && (#[trigger] listed[k]).0 == item@;
                        assert(listed[k].0 != listed[i as int].0);
                    }
                }
                while at < items.len() && before(items[at].as_str(), item)
                    invariant
                        at <= items@.len(),
                        v0 == string_views(items@),
                        forall|k: int| 0 <= k < at ==> comes_before(#[trigger] v0[k], item@, 0),
                    decreases items@.len() - at,
                {
                    assert(v0[at as int] == items@[at as int]@);
                    at = at + 1;
                }
                let ghost fits: bool = at < items@.len() ==> !comes_before(
                    items@[at as int]@,
                    item@,
                    0,
                );
                let name: String = item.to_owned();
                items.insert(at, name);
                proof {
                    let v1 = string_views(items@);
                    assert(v1 =~= v0.insert(at as int, item@));
                    lemma_insert_rising(v0, at as int, item@);
                    assert forall|x: Seq<char>| #[trigger] v1.contains(x) <==> exists|k: int|
                        0 <= k < i + 1 && (#[trigger] listed[k]).0 == x && item_uses(
                            self@,
                            x,
                            asset_id@,
                        ) by {
                        if v1.contains(x) {
                            let p = choose|p: int| 0 <= p < v1.len() && v1[p] == x;
                            if p == at {
                                assert(listed[i as int].0 == x);
                            } else {
                                let q = if p < at {
                                    p
                                } else {
                                    p - 1
                                };
                                assert(v0[q] == x);
                                assert(v0.contains(x));
                            }
                        }
                        if exists|k: int|
                            0 <= k < i + 1 && (#[trigger] listed[k]).0 == x && item_uses(
                                self@,
                                x,
                                asset_id@,
                            ) {
                            let k = choose|k: int|
                                0 <= k < i + 1 && (#[trigger] listed[k]).0 == x && item_uses(
                                    self@,
                                    x,
                                    asset_id@,
                                );
                            if k == i {
                                assert(v1[at as int] == x);
                            } else {
                                assert(v0.contains(x));
                                let p = choose|p: int| 0 <= p < v0.len() && v0[p] == x;
                                let q = if p < at {
                                    p
                                } else {
                                    p + 1
                                };
                                assert(v1[q] == x);
                            }
                        }
                    }
                }
            } else {
                proof {
                    assert forall|x: Seq<char>| #[trigger] v0.contains(x) <==> exists|k: int|
                        0 <= k < i + 1 && (#[trigger] listed[k]).0 == x && item_uses(
                            self@,
                            x,
                            asset_id@,
                        ) by {
                        if exists|k: int|
                            0 <= k < i + 1 && (#[trigger] listed[k]).0 == x && item_uses(
                                self@,
                                x,
                                asset_id@,
                            ) {
                            let k = choose|k: int|
                                0 <= k < i + 1 && (#[trigger] listed[k]).0 == x && item_uses(
                                    self@,
                                    x,
                                    asset_id@,
                                );
                            assert(k < i);
                            assert(listed[k].0 == x);
                        }
                    }
                }
            }
            i = i + 1;
        }
        proof {
            assert forall|item: Seq<char>|
                string_views(items@).contains(item) <==> item_uses(self@, item, asset_id@) by {
                if item_uses(self@, item, asset_id@) {
                    assert(self.item_scene@.dom().contains(item));
                    let k = choose|k: int| 0 <= k < n && (#[trigger] listed[k]).0 == item;
                    assert(0 <= k < n && listed[k].0 == item);
                }
            }
        }
        items
    }
}

} // verus!

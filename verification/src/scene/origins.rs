//! Where what is shown comes from: every layer from an element of the item's
//! scene, every element from its members in the package.

use crate::json::{JsonView, Real};
use crate::manifest::QualityProfile;
use crate::scene::picture::{
    drawn, drawn_among, first_heard, is_heard, item_sound, item_sounds, layer_of, layers_among,
    resolved, LayerView, SourceView,
};
use crate::scene::{
    array_at, asset_tables, declared_budget, element_of, hex_rgb, hex_value, image_files, index_of,
    is_hex, is_positive, item_tables, number_at, ordered_elements, period_of, quality_of, rect_at,
    scene_table, with_picture, z_place, ElementView, Fill, IndexView, Number,
};
use vstd::prelude::*;
use vstd::string::*;

verus! {

/// Whether a layer is what an element puts on screen: at its place, its height and
/// its strength, and filled with what the element names.
pub open spec fn shows(idx: IndexView, l: LayerView, e: ElementView) -> bool {
    &&& l.rect == e.rect
    &&& l.opacity == e.opacity
    &&& l.z == e.z
    &&& match l.source {
        SourceView::Solid(Fill::Named(c)) => e.kind == "graphic"@ && e.color == Some(c),
        SourceView::Solid(Fill::Placeholder) => e.kind == "graphic"@ && e.color is None,
        SourceView::Solid(Fill::Slate) => false,
        SourceView::Image(a) => {
            &&& e.kind == "clip"@ || e.kind == "videoLoop"@
            &&& e.asset_id == Some(a)
            &&& idx.images.dom().contains(a)
            &&& idx.assets.kind.dom().contains(a)
            &&& idx.assets.kind[a] == "image"@
        },
        SourceView::Video { asset_id, looping } => {
            &&& if looping {
                e.kind == "videoLoop"@
            } else {
                e.kind == "clip"@
            }
            &&& e.asset_id == Some(asset_id)
            &&& idx.assets.kind.dom().contains(asset_id)
            &&& idx.assets.kind[asset_id] == "video"@ || idx.assets.kind[asset_id] == "alphaVideo"@
        },
    }
}

/// Whether an element can be seen: it is visible, and its opacity, where it names
/// one, is above zero.
pub open spec fn can_be_seen(e: ElementView) -> bool {
    e.visible && (e.opacity matches Some(n) ==> is_positive(n))
}

proof fn lemma_drawn_from(elements: Seq<ElementView>, n: int, k: int)
    requires
        0 <= n <= elements.len(),
        0 <= k < drawn_among(elements, n).len(),
    ensures
        exists|i: int|
            0 <= i < n && #[trigger] elements[i] == drawn_among(elements, n)[k] && can_be_seen(
                elements[i],
            ),
    decreases n,
{
    let all = drawn_among(elements, n);
    let below = drawn_among(elements, n - 1);
    if k < below.len() && all[k] == below[k] {
        lemma_drawn_from(elements, n - 1, k);
        let i = choose|i: int|
            0 <= i < n - 1 && #[trigger] elements[i] == below[k] && can_be_seen(elements[i]);
        assert(elements[i] == all[k]);
    } else {
        assert(elements[n - 1] == all[k]);
    }
}

proof fn lemma_drawn_to(elements: Seq<ElementView>, n: int, i: int)
    requires
        0 <= i < n <= elements.len(),
        can_be_seen(elements[i]),
    ensures
        exists|k: int|
            0 <= k < drawn_among(elements, n).len() && #[trigger] drawn_among(elements, n)[k]
                == elements[i],
    decreases n,
{
    let all = drawn_among(elements, n);
    let below = drawn_among(elements, n - 1);
    if i == n - 1 {
        assert(all[below.len() as int] == elements[i]);
    } else {
        lemma_drawn_to(elements, n - 1, i);
        let k = choose|k: int| 0 <= k < below.len() && #[trigger] below[k] == elements[i];
        assert(all[k] == elements[i]);
    }
}

proof fn lemma_layers_from(idx: IndexView, elements: Seq<ElementView>, n: int, k: int)
    requires
        0 <= n <= elements.len(),
        0 <= k < layers_among(idx, elements, n).len(),
    ensures
        exists|i: int|
            0 <= i < n && shows(idx, layers_among(idx, elements, n)[k], #[trigger] elements[i]),
    decreases n,
{
    let all = layers_among(idx, elements, n);
    let below = layers_among(idx, elements, n - 1);
    if k < below.len() {
        lemma_layers_from(idx, elements, n - 1, k);
        let i = choose|i: int|
            0 <= i < n - 1 && shows(idx, below[k], #[trigger] elements[i]);
        assert(all[k] == below[k]);
        assert(shows(idx, all[k], elements[i]));
    } else {
        reveal_strlit("graphic");
        reveal_strlit("clip");
        reveal_strlit("videoLoop");
        assert("clip"@.len() == 4 && "videoLoop"@.len() == 9 && "graphic"@.len() == 7);
        assert(layer_of(idx, elements[n - 1]) == Some(all[k]));
        assert(shows(idx, all[k], elements[n - 1]));
    }
}

/// Every layer that an item shows, unless it is a slate, comes from an element of
/// the item's own scene that can be seen, and carries that element's rectangle,
/// opacity and height unchanged, over what the element names.
pub proof fn law_a_layer_shows_its_element(idx: IndexView, item: Seq<char>, k: int)
    requires
        !(idx.items.kind.dom().contains(item) && idx.items.kind[item] == "slate"@),
        0 <= k < resolved(idx, Some(item)).len(),
    ensures
        idx.items.scene.dom().contains(item),
        idx.scenes.dom().contains(idx.items.scene[item]),
        exists|i: int|
            0 <= i < idx.scenes[idx.items.scene[item]].len() && can_be_seen(
                #[trigger] idx.scenes[idx.items.scene[item]][i],
            ) && shows(
                idx,
                resolved(idx, Some(item))[k],
                idx.scenes[idx.items.scene[item]][i],
            ),
{
    let seen = drawn(idx, item);
    lemma_layers_from(idx, seen, seen.len() as int, k);
    let j = choose|j: int|
        0 <= j < seen.len() && shows(idx, resolved(idx, Some(item))[k], #[trigger] seen[j]);
    let elements = idx.scenes[idx.items.scene[item]];
    lemma_drawn_from(elements, elements.len() as int, j);
    let i = choose|i: int|
        0 <= i < elements.len() && #[trigger] elements[i] == seen[j] && can_be_seen(elements[i]);
    assert(shows(idx, resolved(idx, Some(item))[k], elements[i]));
}

/// An element that can be seen is shown, where it is a graphic, a picture that was
/// read, or a video.
pub proof fn law_a_seen_element_has_its_layer(idx: IndexView, item: Seq<char>, i: int)
    requires
        !(idx.items.kind.dom().contains(item) && idx.items.kind[item] == "slate"@),
        idx.items.scene.dom().contains(item),
        idx.scenes.dom().contains(idx.items.scene[item]),
        0 <= i < idx.scenes[idx.items.scene[item]].len(),
        ({
            let e = idx.scenes[idx.items.scene[item]][i];
            &&& can_be_seen(e)
            &&& e.kind == "graphic"@ || ((e.kind == "clip"@ || e.kind == "videoLoop"@) && (
            e.asset_id matches Some(a) && idx.assets.kind.dom().contains(a) && (
            idx.assets.kind[a] == "video"@ || idx.assets.kind[a] == "alphaVideo"@ || (
            idx.assets.kind[a] == "image"@ && idx.images.dom().contains(a)))))
        }),
    ensures
        exists|k: int|
            0 <= k < resolved(idx, Some(item)).len() && shows(
                idx,
                #[trigger] resolved(idx, Some(item))[k],
                idx.scenes[idx.items.scene[item]][i],
            ),
{
    let elements = idx.scenes[idx.items.scene[item]];
    let e = elements[i];
    lemma_drawn_to(elements, elements.len() as int, i);
    let seen = drawn(idx, item);
    let j = choose|j: int| 0 <= j < seen.len() && #[trigger] seen[j] == e;
    reveal_strlit("graphic");
    reveal_strlit("clip");
    reveal_strlit("videoLoop");
    assert("clip"@.len() == 4 && "videoLoop"@.len() == 9 && "graphic"@.len() == 7);
    assert(layer_of(idx, e) is Some);
    let l = layer_of(idx, e)->0;
    assert(shows(idx, l, e));
    lemma_layer_among(idx, seen, j, seen.len() as int);
    let shown = resolved(idx, Some(item));
    let k = choose|k: int| 0 <= k < shown.len() && #[trigger] shown[k] == l;
    assert(shows(idx, shown[k], e));
}

proof fn lemma_layer_among(idx: IndexView, elements: Seq<ElementView>, k: int, n: int)
    requires
        0 <= k < n <= elements.len(),
        layer_of(idx, elements[k]) is Some,
    ensures
        exists|p: int|
            0 <= p < layers_among(idx, elements, n).len() && #[trigger] layers_among(
                idx,
                elements,
                n,
            )[p] == layer_of(idx, elements[k])->0,
    decreases n,
{
    let l = layer_of(idx, elements[k])->0;
    let below = layers_among(idx, elements, n - 1);
    let all = layers_among(idx, elements, n);
    if k == n - 1 {
        assert(all[below.len() as int] == l);
    } else {
        lemma_layer_among(idx, elements, k, n - 1);
        let p = choose|p: int| 0 <= p < below.len() && #[trigger] below[p] == l;
        assert(all[p] == l);
    }
}

/// A slate is one opaque fill over the whole picture, whatever its scene holds;
/// without an item nothing is shown.
pub proof fn law_a_slate_covers_the_picture(idx: IndexView, item: Seq<char>)
    requires
        idx.items.kind.dom().contains(item),
        idx.items.kind[item] == "slate"@,
    ensures
        resolved(idx, Some(item)).len() == 1,
        resolved(idx, Some(item))[0].source == SourceView::Solid(Fill::Slate),
        resolved(idx, Some(item))[0].opacity is None,
        resolved(idx, Some(item))[0].rect.x is None,
        resolved(idx, Some(item))[0].rect.y is None,
        resolved(idx, Some(item))[0].rect.w is None,
        resolved(idx, Some(item))[0].rect.h is None,
        resolved(idx, None).len() == 0,
{
}

/// A transform that is left out is the whole picture, and each side is the number
/// its own member holds.
pub proof fn law_a_rectangle_has_its_sides(j: JsonView, key: Seq<char>)
    ensures
        j.member(key) is None ==> rect_at(j, key).x is None && rect_at(j, key).y is None && rect_at(
            j,
            key,
        ).w is None && rect_at(j, key).h is None,
        j.member(key) matches Some(t) ==> {
            &&& rect_at(j, key).x == number_at(t, "x"@)
            &&& rect_at(j, key).y == number_at(t, "y"@)
            &&& rect_at(j, key).w == number_at(t, "w"@)
            &&& rect_at(j, key).h == number_at(t, "h"@)
        },
{
}

/// A number is read as it was written, and what is not a number is none.
pub proof fn law_numbers_are_kept(j: JsonView, key: Seq<char>)
    ensures
        j.member(key) matches Some(JsonView::Unsigned(n)) ==> number_at(j, key) == Some(
            Number::Unsigned(n),
        ),
        j.member(key) matches Some(JsonView::Negative(n)) ==> number_at(j, key) == Some(
            Number::Negative(n),
        ),
        j.member(key) matches Some(JsonView::Fraction(r)) ==> number_at(j, key) == Some(
            Number::Fraction(r),
        ),
        number_at(j, key) is Some ==> (j.member(key) matches Some(v) && (v is Unsigned
            || v is Negative || v is Fraction)),
{
}

/// An element is what its members say: it has a name and a kind or is none; it is
/// visible, sounds on the clip bus, is not muted and lies at height zero unless it
/// says otherwise; and its color is the one under its fields.
pub proof fn law_an_element_is_what_it_says(j: JsonView)
    ensures
        element_of(j) is Some <==> j.text_at("id"@) is Some && j.text_at("kind"@) is Some,
        element_of(j) matches Some(e) ==> {
            &&& j.text_at("id"@) == Some(e.id)
            &&& j.text_at("kind"@) == Some(e.kind)
            &&& e.asset_id == j.text_at("assetId"@)
            &&& e.opacity == number_at(j, "opacity"@)
            &&& e.rect == rect_at(j, "transform"@)
            &&& e.visible <==> j.boolean_at("visible"@) != Some(false)
            &&& j.member("z"@) is None ==> e.z == 0
            &&& j.member("z"@) matches Some(JsonView::Negative(n)) ==> e.z == n
            &&& j.member("z"@) matches Some(JsonView::Unsigned(n)) ==> n <= i64::MAX ==> e.z == n
            &&& j.member("audio"@) is None ==> e.audio_bus == "clip"@ && !e.audio_muted
            &&& j.member("audio"@) matches Some(a) ==> {
                &&& a.text_at("bus"@) matches Some(b) ==> e.audio_bus == b
                &&& a.text_at("bus"@) is None ==> e.audio_bus == "clip"@
                &&& e.audio_muted <==> a.boolean_at("muted"@) == Some(true)
            }
            &&& e.color is Some ==> (j.member("fields"@) matches Some(f) && f.text_at(
                "color"@,
            ) is Some)
            &&& j.member("fields"@) matches Some(f) ==> (f.text_at("color"@) matches Some(c)
                ==> e.color == hex_rgb(c))
        },
{
}

/// The value of a hexadecimal digit is its place among the sixteen, in either case.
pub proof fn law_a_digit_has_its_value(c: char)
    ensures
        is_hex(c) ==> 0 <= hex_value(c) < 16,
        is_hex(c) && hex_value(c) < 10 ==> c as int == 48 + hex_value(c),
        is_hex(c) && hex_value(c) >= 10 ==> c as int == 55 + hex_value(c) || c as int == 87
            + hex_value(c),
        is_hex(c) <==> 48 <= c as int <= 57 || 65 <= c as int <= 70 || 97 <= c as int <= 102,
{
}

/// A color is three pairs of digits behind a number sign: red, then green, then
/// blue, the first digit of each pair worth sixteen.
pub proof fn law_a_color_is_its_digits(s: Seq<char>)
    ensures
        hex_rgb(s) matches Some(c) ==> {
            &&& s.len() == 7
            &&& s[0] == '#'
            &&& s[1] == '+' ==> c.r == hex_value(s[2])
            &&& s[1] != '+' ==> c.r == 16 * hex_value(s[1]) + hex_value(s[2])
            &&& c.g == 16 * hex_value(s[3]) + hex_value(s[4])
            &&& c.b == 16 * hex_value(s[5]) + hex_value(s[6])
        },
        s.len() == 7 && s[0] == '#' && (forall|i: int| 1 <= i < 7 ==> is_hex(#[trigger] s[i]))
            ==> hex_rgb(s) is Some,
        hex_rgb(s) is Some ==> forall|i: int| 2 <= i < 7 ==> is_hex(#[trigger] s[i]),
{
    if hex_rgb(s) is Some {
        if s[1] != '+' {
            law_a_digit_has_its_value(s[1]);
        }
        law_a_digit_has_its_value(s[2]);
        law_a_digit_has_its_value(s[3]);
        law_a_digit_has_its_value(s[4]);
        law_a_digit_has_its_value(s[5]);
        law_a_digit_has_its_value(s[6]);
    }
    if s.len() == 7 && s[0] == '#' && (forall|i: int| 1 <= i < 7 ==> is_hex(#[trigger] s[i])) {
        assert(is_hex(s[1]) && is_hex(s[2]) && is_hex(s[3]) && is_hex(s[4]) && is_hex(s[5])
            && is_hex(s[6]));
    }
}

/// Each profile has one name, and no other text is a profile.
pub proof fn law_a_profile_has_one_name(s: Seq<char>)
    ensures
        quality_of(s) == Some(QualityProfile::Potato) <==> s == "potato"@,
        quality_of(s) == Some(QualityProfile::Consumer) <==> s == "consumer"@,
        quality_of(s) == Some(QualityProfile::Pro) <==> s == "pro"@,
        quality_of(s) == Some(QualityProfile::Reference) <==> s == "reference"@,
{
    reveal_strlit("potato");
    reveal_strlit("consumer");
    reveal_strlit("pro");
    reveal_strlit("reference");
    assert("potato"@.len() == 6 && "consumer"@.len() == 8 && "pro"@.len() == 3
        && "reference"@.len() == 9);
}

/// Zero, what is below it, and what is no number are not positive; whatever is
/// above a positive fraction is, up to the infinite.
pub proof fn law_positive_is_above_zero(a: Real, b: Real)
    ensures
        !is_positive(Number::Unsigned(0)),
        forall|n: u64| n > 0 ==> #[trigger] is_positive(Number::Unsigned(n)),
        forall|n: i64| n <= 0 ==> !#[trigger] is_positive(Number::Negative(n)),
        a.bits == 0 ==> !is_positive(Number::Fraction(a)),
        a.bits >= 0x8000_0000_0000_0000 ==> !is_positive(Number::Fraction(a)),
        a.bits > 0x7ff0_0000_0000_0000 ==> !is_positive(Number::Fraction(a)),
        is_positive(Number::Fraction(a)) && a.bits <= b.bits <= 0x7ff0_0000_0000_0000
            ==> is_positive(Number::Fraction(b)),
        a.bits == 0x36a0_0000_0000_0000 ==> is_positive(Number::Fraction(a)),
        a.bits == 0x3690_0000_0000_0000 ==> !is_positive(Number::Fraction(a)),
{
}

/// Whether an asset of a package is complete: a name, a kind and a source.
pub open spec fn is_asset(a: JsonView, id: Seq<char>) -> bool {
    a.text_at("id"@) == Some(id) && a.text_at("kind"@) is Some && a.text_at("source"@) is Some
}

/// The tables know an asset just where a complete one of its name was given, and
/// the last one of the name counts.
pub proof fn law_the_last_asset_of_a_name_counts(assets: Seq<JsonView>, n: int, i: int, id: Seq<char>)
    requires
        0 <= i < n <= assets.len(),
        is_asset(assets[i], id),
        forall|j: int| i < j < n ==> !is_asset(#[trigger] assets[j], id),
    ensures
        asset_tables(assets, n).kind.dom().contains(id),
        assets[i].text_at("kind"@) == Some(asset_tables(assets, n).kind[id]),
        asset_tables(assets, n).source.dom().contains(id),
        assets[i].text_at("source"@) == Some(asset_tables(assets, n).source[id]),
    decreases n,
{
    if i < n - 1 {
        assert(!is_asset(assets[n - 1], id));
        law_the_last_asset_of_a_name_counts(assets, n - 1, i, id);
    }
}

/// The tables know no asset that was not given.
pub proof fn law_no_asset_comes_from_nowhere(assets: Seq<JsonView>, n: int, id: Seq<char>)
    requires
        0 <= n <= assets.len(),
    ensures
        asset_tables(assets, n).kind.dom().contains(id) ==> exists|i: int|
            0 <= i < n && is_asset(#[trigger] assets[i], id),
        asset_tables(assets, n).source.dom().contains(id) ==> exists|i: int|
            0 <= i < n && is_asset(#[trigger] assets[i], id),
        asset_tables(assets, n).period.dom().contains(id) ==> exists|i: int|
            0 <= i < n && is_asset(#[trigger] assets[i], id),
    decreases n,
{
    if n > 0 {
        law_no_asset_comes_from_nowhere(assets, n - 1, id);
        if is_asset(assets[n - 1], id) {
        }
    }
}

/// The period of an asset is the last one that an asset of its name declares, as
/// the loop's own count of frames.
pub proof fn law_the_last_period_counts(assets: Seq<JsonView>, n: int, i: int, id: Seq<char>, frames: u64)
    requires
        0 <= i < n <= assets.len(),
        is_asset(assets[i], id),
        assets[i].member("loop"@) matches Some(l) && l.unsigned_at("periodFrames"@) == Some(frames),
        frames <= u32::MAX,
        forall|j: int|
            i < j < n && is_asset(#[trigger] assets[j], id) ==> (assets[j].member("loop"@) matches Some(
                l,
            ) ==> l.unsigned_at("periodFrames"@) is None),
    ensures
        asset_tables(assets, n).period.dom().contains(id),
        asset_tables(assets, n).period[id] == frames,
    decreases n,
{
    if i < n - 1 {
        law_the_last_period_counts(assets, n - 1, i, id, frames);
        if is_asset(assets[n - 1], id) {
            assert(period_of(assets[n - 1]) is None);
        }
    }
}

/// What an item says of itself is what the tables say of it, unless a later item
/// of the same name says it too: its scene, its kind, and how it sounds, which is
/// like a clip where it says nothing.
pub proof fn law_the_last_item_of_a_name_counts(items: Seq<JsonView>, n: int, i: int, id: Seq<char>)
    requires
        0 <= i < n <= items.len(),
        items[i].text_at("id"@) == Some(id),
        forall|j: int| i < j < n ==> (#[trigger] items[j]).text_at("id"@) != Some(id),
    ensures
        ({
            let t = item_tables(items, n);
            &&& items[i].text_at("sceneRef"@) matches Some(s) ==> t.scene.dom().contains(id)
                && t.scene[id] == s
            &&& items[i].text_at("kind"@) matches Some(k) ==> t.kind.dom().contains(id)
                && t.kind[id] == k
            &&& t.policy.dom().contains(id)
            &&& items[i].text_at("audioPolicy"@) matches Some(p) ==> t.policy[id] == p
            &&& items[i].text_at("audioPolicy"@) is None ==> t.policy[id] == "clip"@
        }),
    decreases n,
{
    if i < n - 1 {
        assert(items[n - 1].text_at("id"@) != Some(id));
        law_the_last_item_of_a_name_counts(items, n - 1, i, id);
    }
}

/// The tables hold of an item only what an item of its name said.
pub proof fn law_no_item_comes_from_nowhere(items: Seq<JsonView>, n: int, id: Seq<char>)
    requires
        0 <= n <= items.len(),
    ensures
        item_tables(items, n).scene.dom().contains(id) ==> exists|i: int|
            0 <= i < n && (#[trigger] items[i]).text_at("id"@) == Some(id) && items[i].text_at(
                "sceneRef"@,
            ) == Some(item_tables(items, n).scene[id]),
        item_tables(items, n).kind.dom().contains(id) ==> exists|i: int|
            0 <= i < n && (#[trigger] items[i]).text_at("id"@) == Some(id) && items[i].text_at(
                "kind"@,
            ) == Some(item_tables(items, n).kind[id]),
        item_tables(items, n).policy.dom().contains(id) ==> exists|i: int|
            0 <= i < n && (#[trigger] items[i]).text_at("id"@) == Some(id),
    decreases n,
{
    if n > 0 {
        law_no_item_comes_from_nowhere(items, n - 1, id);
        let t = item_tables(items, n - 1);
        let last = items[n - 1];
        assert(last == items[n - 1]);
    }
}

/// A scene's elements are those under its name, and the last scene of a name
/// counts.
pub proof fn law_the_last_scene_of_a_name_counts(scenes: Seq<JsonView>, n: int, i: int, id: Seq<char>)
    requires
        0 <= i < n <= scenes.len(),
        scenes[i].text_at("id"@) == Some(id),
        forall|j: int| i < j < n ==> (#[trigger] scenes[j]).text_at("id"@) != Some(id),
    ensures
        scene_table(scenes, n).dom().contains(id),
        scene_table(scenes, n)[id] == ordered_elements(
            array_at(scenes[i], "elements"@),
            array_at(scenes[i], "elements"@).len() as int,
        ),
    decreases n,
{
    if i < n - 1 {
        assert(scenes[n - 1].text_at("id"@) != Some(id));
        law_the_last_scene_of_a_name_counts(scenes, n - 1, i, id);
    }
}

/// Every ordered element is one that the scene lists.
pub proof fn law_no_element_comes_from_nowhere(items: Seq<JsonView>, n: int, k: int)
    requires
        0 <= n <= items.len(),
        0 <= k < ordered_elements(items, n).len(),
    ensures
        exists|i: int|
            0 <= i < n && element_of(#[trigger] items[i]) == Some(ordered_elements(items, n)[k]),
    decreases n,
{
    let all = ordered_elements(items, n);
    let below = ordered_elements(items, n - 1);
    match element_of(items[n - 1]) {
        None => {
            law_no_element_comes_from_nowhere(items, n - 1, k);
            let i = choose|i: int| 0 <= i < n - 1 && element_of(#[trigger] items[i]) == Some(below[k]);
            assert(element_of(items[i]) == Some(all[k]));
        },
        Some(e) => {
            lemma_place_within(below, e.z, 0);
            let p = z_place(below, e.z, 0);
            if k == p {
                assert(element_of(items[n - 1]) == Some(all[k]));
            } else {
                let j = if k < p {
                    k
                } else {
                    k - 1
                };
                assert(all[k] == below[j]);
                law_no_element_comes_from_nowhere(items, n - 1, j);
                let i = choose|i: int|
                    0 <= i < n - 1 && element_of(#[trigger] items[i]) == Some(below[j]);
                assert(element_of(items[i]) == Some(all[k]));
            }
        },
    }
}

proof fn lemma_place_within(ordered: Seq<ElementView>, z: i64, i: int)
    requires
        0 <= i <= ordered.len(),
    ensures
        i <= z_place(ordered, z, i) <= ordered.len(),
    decreases ordered.len() - i,
{
    if i < ordered.len() && ordered[i].z <= z {
        lemma_place_within(ordered, z, i + 1);
    }
}

/// The image files of a package are those of its complete assets that are images,
/// each with its own source.
pub proof fn law_image_files_are_the_images(assets: Seq<JsonView>, n: int)
    requires
        0 <= n <= assets.len(),
    ensures
        forall|i: int, id: Seq<char>|
            0 <= i < n && #[trigger] is_asset(assets[i], id) && assets[i].text_at("kind"@) == Some(
                "image"@,
            ) ==> image_files(assets, n).contains((id, assets[i].text_at("source"@)->0)),
        forall|k: int|
            0 <= k < image_files(assets, n).len() ==> exists|i: int|
                0 <= i < n && is_asset(#[trigger] assets[i], (#[trigger] image_files(assets, n)[k]).0)
                    && assets[i].text_at("kind"@) == Some("image"@) && assets[i].text_at("source"@)
                    == Some(image_files(assets, n)[k].1),
    decreases n,
{
    if n > 0 {
        law_image_files_are_the_images(assets, n - 1);
        let rest = image_files(assets, n - 1);
        let all = image_files(assets, n);
        assert forall|i: int, id: Seq<char>|
            0 <= i < n && #[trigger] is_asset(assets[i], id) && assets[i].text_at("kind"@) == Some(
                "image"@,
            ) implies all.contains((id, assets[i].text_at("source"@)->0)) by {
            let x = (id, assets[i].text_at("source"@)->0);
            if i == n - 1 {
                assert(all[rest.len() as int] == x);
            } else {
                assert(rest.contains(x));
                let k = choose|k: int| 0 <= k < rest.len() && rest[k] == x;
                assert(all[k] == x);
            }
        }
        assert forall|k: int| 0 <= k < all.len() implies exists|i: int|
            0 <= i < n && is_asset(#[trigger] assets[i], (#[trigger] all[k]).0)
                && assets[i].text_at("kind"@) == Some("image"@) && assets[i].text_at("source"@)
                == Some(all[k].1) by {
            if k < rest.len() {
                assert(all[k] == rest[k]);
                let i = choose|i: int|
                    0 <= i < n - 1 && is_asset(#[trigger] assets[i], rest[k].0)
                        && assets[i].text_at("kind"@) == Some("image"@) && assets[i].text_at(
                        "source"@,
                    ) == Some(rest[k].1);
                assert(is_asset(assets[i], all[k].0));
            } else {
                assert(is_asset(assets[n - 1], all[k].0));
            }
        }
    }
}

/// The memory of a loop is the last that an asset of its name declares, in the MiB
/// it names.
pub proof fn law_the_last_budget_counts(assets: Seq<JsonView>, n: int, i: int, id: Seq<char>, mib: u64)
    requires
        0 <= i < n <= assets.len(),
        assets[i].text_at("id"@) == Some(id),
        assets[i].member("loop"@) matches Some(l) && l.unsigned_at("vramBudgetMib"@) == Some(mib),
        mib <= u32::MAX,
        forall|j: int|
            i < j < n && (#[trigger] assets[j]).text_at("id"@) == Some(id) ==> (assets[j].member(
                "loop"@,
            ) matches Some(l) ==> (l.unsigned_at("vramBudgetMib"@) matches Some(m) ==> m
                > u32::MAX)),
    ensures
        declared_budget(assets, id, n) == Some(mib as u32),
    decreases n,
{
    if i < n - 1 {
        law_the_last_budget_counts(assets, n - 1, i, id, mib);
    }
}

/// A budget is never made up.
pub proof fn law_a_budget_was_declared(assets: Seq<JsonView>, id: Seq<char>, n: int)
    requires
        0 <= n <= assets.len(),
    ensures
        declared_budget(assets, id, n) matches Some(b) ==> exists|i: int|
            0 <= i < n && (#[trigger] assets[i]).text_at("id"@) == Some(id) && (assets[i].member(
                "loop"@,
            ) matches Some(l) && l.unsigned_at("vramBudgetMib"@) == Some(b as u64)),
    decreases n,
{
    if n > 0 {
        law_a_budget_was_declared(assets, id, n - 1);
        let last = assets[n - 1];
        assert(last == assets[n - 1]);
    }
}

/// A package's index is read from its assets, its scenes and the items of its
/// rundown, with the profile it asks for and the frame rate of its video.
pub proof fn law_an_index_is_read_from_its_package(m: JsonView)
    ensures
        ({
            let idx = index_of(m);
            let assets = array_at(m, "assets"@);
            let scenes = array_at(m, "scenes"@);
            &&& idx.assets == asset_tables(assets, assets.len() as int)
            &&& idx.scenes == scene_table(scenes, scenes.len() as int)
            &&& m.member("rundown"@) matches Some(r) ==> idx.items == item_tables(
                array_at(r, "items"@),
                array_at(r, "items"@).len() as int,
            )
            &&& idx.images.dom() =~= Set::empty()
            &&& m.text_at("qualityProfile"@) matches Some(q) ==> idx.requested_quality
                == quality_of(q)
            &&& m.text_at("qualityProfile"@) is None ==> idx.requested_quality is None
            &&& m.member("show"@) matches Some(s) ==> (s.member("video"@) matches Some(v) ==> (
            v.unsigned_at("frameRate"@) matches Some(r) ==> r <= u32::MAX
                ==> idx.declared_house_rate == Some(r as u32)))
            &&& idx.declared_house_rate is Some ==> (m.member("show"@) matches Some(s) && (s.member(
                "video"@,
            ) matches Some(v) && v.unsigned_at("frameRate"@) is Some))
        }),
{
}

/// A picture that was read is found under its asset, and changes nothing else; one
/// that could not be read changes nothing.
pub proof fn law_a_picture_is_found_again(
    idx: IndexView,
    id: Seq<char>,
    p: (u32, u32, Seq<u8>),
    other: Seq<char>,
)
    requires
        other != id,
    ensures
        with_picture(idx, id, Some(p)).images.dom().contains(id),
        with_picture(idx, id, Some(p)).images[id] == p,
        with_picture(idx, id, Some(p)).images.dom().contains(other)
            == idx.images.dom().contains(other),
        idx.images.dom().contains(other) ==> with_picture(idx, id, Some(p)).images[other]
            == idx.images[other],
        with_picture(idx, id, Some(p)).scenes == idx.scenes,
        with_picture(idx, id, Some(p)).items == idx.items,
        with_picture(idx, id, Some(p)).assets == idx.assets,
        with_picture(idx, id, None) == idx,
{
}

proof fn lemma_none_heard_before(idx: IndexView, elements: Seq<ElementView>, from: int, k: int)
    requires
        0 <= from <= k < first_heard(idx, elements, from),
        from <= elements.len(),
    ensures
        k < elements.len(),
        !is_heard(idx, elements[k]),
    decreases elements.len() - from,
{
    if from < elements.len() && !is_heard(idx, elements[from]) && from < k {
        lemma_none_heard_before(idx, elements, from + 1, k);
    }
}

/// Whether an element sounds: a clip that is not muted, for the clip bus, of an
/// asset that is a video.
pub open spec fn sounds(idx: IndexView, e: ElementView) -> bool {
    &&& e.kind == "clip"@
    &&& !e.audio_muted
    &&& e.audio_bus == "clip"@
    &&& e.asset_id matches Some(a) && idx.assets.kind.dom().contains(a) && (idx.assets.kind[a]
        == "video"@ || idx.assets.kind[a] == "alphaVideo"@)
}

/// An item that is not muted plays the sound of the lowest element on screen that
/// sounds, and is silent where none does.
pub proof fn law_the_lowest_sounding_element_is_heard(idx: IndexView, item: Seq<char>, k: int)
    requires
        !(idx.items.policy.dom().contains(item) && idx.items.policy[item] == "mute"@),
        0 <= k < drawn(idx, item).len(),
        sounds(idx, drawn(idx, item)[k]),
        forall|j: int| 0 <= j < k ==> !sounds(idx, #[trigger] drawn(idx, item)[j]),
    ensures
        item_sound(idx, item) == drawn(idx, item)[k].asset_id,
        idx.items.scene.dom().contains(item) ==> item_sounds(idx).dom().contains(item)
            && drawn(idx, item)[k].asset_id == Some(item_sounds(idx)[item]),
{
    let all = drawn(idx, item);
    let i = first_heard(idx, all, 0);
    assert(is_heard(idx, all[k]));
    if i > k {
        lemma_none_heard_before(idx, all, 0, k);
    }
    lemma_first_heard_is_heard(idx, all, 0);
    if i < k {
        assert(sounds(idx, all[i]));
    }
}

proof fn lemma_first_heard_is_heard(idx: IndexView, elements: Seq<ElementView>, i: int)
    requires
        0 <= i <= elements.len(),
    ensures
        i <= first_heard(idx, elements, i) <= elements.len(),
        first_heard(idx, elements, i) < elements.len() ==> is_heard(
            idx,
            elements[first_heard(idx, elements, i)],
        ),
    decreases elements.len() - i,
{
    if i < elements.len() && !is_heard(idx, elements[i]) {
        lemma_first_heard_is_heard(idx, elements, i + 1);
    }
}

/// Where no element on screen sounds, the item is silent.
pub proof fn law_no_sounding_element_no_sound(idx: IndexView, item: Seq<char>)
    requires
        forall|j: int| 0 <= j < drawn(idx, item).len() ==> !sounds(idx, #[trigger] drawn(idx, item)[j]),
    ensures
        item_sound(idx, item) is None,
        !item_sounds(idx).dom().contains(item),
{
    let all = drawn(idx, item);
    lemma_first_heard_is_heard(idx, all, 0);
    let i = first_heard(idx, all, 0);
    if i < all.len() {
        assert(sounds(idx, all[i]));
    }
}

} // verus!

//! What holds of every package's pictures and sounds.

use crate::json::JsonView;
use crate::scene::picture::{
    carries_sound, drawn, drawn_among, first_heard, is_drawn, is_heard, item_sound, layer_of,
    layers_among, looked_up, resolved, SourceView,
};
use crate::scene::{
    array_at, element_of, index_of, ordered_elements, scene_table, z_place, ElementView, IndexView,
};
use vstd::prelude::*;
use vstd::string::*;

verus! {

/// Whether elements stand lowest first.
pub open spec fn by_height(elements: Seq<ElementView>) -> bool {
    forall|i: int, j: int|
        0 <= i <= j < elements.len() ==> (#[trigger] elements[i]).z <= (#[trigger] elements[j]).z
}

proof fn lemma_place(elements: Seq<ElementView>, z: i64, i: int)
    requires
        0 <= i <= elements.len(),
    ensures
        i <= z_place(elements, z, i) <= elements.len(),
        forall|k: int| i <= k < z_place(elements, z, i) ==> (#[trigger] elements[k]).z <= z,
        z_place(elements, z, i) < elements.len() ==> elements[z_place(elements, z, i)].z > z,
    decreases elements.len() - i,
{
    if i < elements.len() && elements[i].z <= z {
        lemma_place(elements, z, i + 1);
    }
}

/// A scene's elements are drawn lowest first, and no element of the scene is
/// lost in ordering them.
pub proof fn law_elements_stand_by_height(items: Seq<JsonView>, n: int)
    requires
        0 <= n <= items.len(),
    ensures
        by_height(ordered_elements(items, n)),
        forall|i: int|
            0 <= i < n && element_of(#[trigger] items[i]) is Some ==> ordered_elements(
                items,
                n,
            ).contains(element_of(items[i])->0),
    decreases n,
{
    if n > 0 {
        law_elements_stand_by_height(items, n - 1);
        let below = ordered_elements(items, n - 1);
        let all = ordered_elements(items, n);
        match element_of(items[n - 1]) {
            None => {},
            Some(e) => {
                lemma_place(below, e.z, 0);
                let p = z_place(below, e.z, 0);
                assert(all == below.insert(p, e));
                assert forall|i: int, j: int| 0 <= i <= j < all.len() implies (
                #[trigger] all[i]).z <= (#[trigger] all[j]).z by {
                    let a = if i < p {
                        i
                    } else {
                        i - 1
                    };
                    let b = if j < p {
                        j
                    } else {
                        j - 1
                    };
                    if i != p && j != p {
                        assert(below[a].z <= below[b].z);
                    } else if i == p && j > p {
                        assert(below[p].z <= below[b].z);
                    }
                }
                assert forall|i: int|
                    0 <= i < n && element_of(#[trigger] items[i]) is Some implies all.contains(
                    element_of(items[i])->0,
                ) by {
                    let x = element_of(items[i])->0;
                    if i == n - 1 {
                        assert(all[p] == x);
                    } else {
                        assert(below.contains(x));
                        let k = choose|k: int| 0 <= k < below.len() && below[k] == x;
                        assert(all[if k < p {
                            k
                        } else {
                            k + 1
                        }] == x);
                    }
                }
            },
        }
    }
}

proof fn lemma_scenes_by_height(scenes: Seq<JsonView>, n: int, id: Seq<char>)
    requires
        0 <= n <= scenes.len(),
        scene_table(scenes, n).dom().contains(id),
    ensures
        by_height(scene_table(scenes, n)[id]),
    decreases n,
{
    if n > 0 {
        let s = scenes[n - 1];
        if s.text_at("id"@) == Some(id) {
            let items = array_at(s, "elements"@);
            law_elements_stand_by_height(items, items.len() as int);
        } else {
            lemma_scenes_by_height(scenes, n - 1, id);
        }
    }
}

proof fn lemma_drawn_among(elements: Seq<ElementView>, n: int)
    requires
        0 <= n <= elements.len(),
        by_height(elements),
    ensures
        by_height(drawn_among(elements, n)),
        forall|k: int|
            0 <= k < drawn_among(elements, n).len() ==> is_drawn(
                #[trigger] drawn_among(elements, n)[k],
            ) && (n > 0 ==> drawn_among(elements, n)[k].z <= elements[n - 1].z),
    decreases n,
{
    if n > 0 {
        lemma_drawn_among(elements, n - 1);
        if n > 1 {
            assert(elements[n - 2].z <= elements[n - 1].z);
        }
    }
}

proof fn lemma_layers_by_height(idx: IndexView, elements: Seq<ElementView>, n: int)
    requires
        0 <= n <= elements.len(),
        by_height(elements),
    ensures
        forall|i: int, j: int|
            0 <= i <= j < layers_among(idx, elements, n).len() ==> (#[trigger] layers_among(
                idx,
                elements,
                n,
            )[i]).z <= (#[trigger] layers_among(idx, elements, n)[j]).z,
        n > 0 ==> forall|k: int|
            0 <= k < layers_among(idx, elements, n).len() ==> (#[trigger] layers_among(
                idx,
                elements,
                n,
            )[k]).z <= elements[n - 1].z,
    decreases n,
{
    if n > 0 {
        lemma_layers_by_height(idx, elements, n - 1);
        if n > 1 {
            assert(elements[n - 2].z <= elements[n - 1].z);
        }
    }
}

/// Whatever an item of a package shows, it shows lowest first.
pub proof fn law_layers_are_drawn_lowest_first(manifest: JsonView, item: Option<Seq<char>>)
    ensures
        forall|i: int, j: int|
            0 <= i <= j < resolved(index_of(manifest), item).len() ==> (#[trigger] resolved(
                index_of(manifest),
                item,
            )[i]).z <= (#[trigger] resolved(index_of(manifest), item)[j]).z,
{
    let idx = index_of(manifest);
    match item {
        None => {},
        Some(i) => {
            let all = drawn(idx, i);
            assert(by_height(all)) by {
                match looked_up(idx.items.scene, i) {
                    Some(scene) => {
                        if looked_up(idx.items.kind, i) != Some("slate"@)
                            && idx.scenes.dom().contains(scene) {
                            let scenes = array_at(manifest, "scenes"@);
                            lemma_scenes_by_height(scenes, scenes.len() as int, scene);
                            lemma_drawn_among(idx.scenes[scene], idx.scenes[scene].len() as int);
                        }
                    },
                    None => {},
                }
            }
            lemma_layers_by_height(idx, all, all.len() as int);
        },
    }
}

proof fn lemma_first_heard(idx: IndexView, elements: Seq<ElementView>, i: int)
    requires
        0 <= i <= elements.len(),
    ensures
        i <= first_heard(idx, elements, i) <= elements.len(),
        first_heard(idx, elements, i) < elements.len() ==> is_heard(
            idx,
            elements[first_heard(idx, elements, i)],
        ),
    decreases elements.len() - i,
{
    if i < elements.len() && !is_heard(idx, elements[i]) {
        lemma_first_heard(idx, elements, i + 1);
    }
}

proof fn lemma_layer_kept(idx: IndexView, elements: Seq<ElementView>, k: int, n: int)
    requires
        0 <= k < n <= elements.len(),
        layer_of(idx, elements[k]) is Some,
    ensures
        layers_among(idx, elements, n).contains(layer_of(idx, elements[k])->0),
    decreases n,
{
    let l = layer_of(idx, elements[k])->0;
    let below = layers_among(idx, elements, n - 1);
    let all = layers_among(idx, elements, n);
    if k == n - 1 {
        assert(all[below.len() as int] == l);
    } else {
        lemma_layer_kept(idx, elements, k, n - 1);
        let p = choose|p: int| 0 <= p < below.len() && below[p] == l;
        assert(all[p] == l);
    }
}

/// Sound comes from the picture: the asset whose sound an item plays is one
/// that the item draws, as a video that plays once.
pub proof fn law_sound_comes_from_the_picture(idx: IndexView, item: Seq<char>, asset: Seq<char>)
    requires
        item_sound(idx, item) == Some(asset),
    ensures
        carries_sound(idx, asset),
        exists|k: int|
            0 <= k < resolved(idx, Some(item)).len() && (#[trigger] resolved(
                idx,
                Some(item),
            )[k]).source == (SourceView::Video { asset_id: asset, looping: false }),
{
    reveal_strlit("graphic");
    reveal_strlit("clip");
    reveal_strlit("videoLoop");
    reveal_strlit("image");
    reveal_strlit("video");
    reveal_strlit("alphaVideo");
    assert("graphic"@.len() == 7);
    assert("clip"@.len() == 4);
    assert("videoLoop"@.len() == 9);
    assert("image"@[0] == 'i');
    assert("video"@[0] == 'v');
    assert("alphaVideo"@[0] == 'a');
    let all = drawn(idx, item);
    lemma_first_heard(idx, all, 0);
    let i = first_heard(idx, all, 0);
    let l = layer_of(idx, all[i])->0;
    lemma_layer_kept(idx, all, i, all.len() as int);
    let shown = resolved(idx, Some(item));
    let k = choose|k: int| 0 <= k < shown.len() && shown[k] == l;
    assert(shown[k].source == (SourceView::Video { asset_id: asset, looping: false }));
}

/// A slate is silent, and so is an item that is muted and one that shows
/// nothing.
pub proof fn law_no_picture_no_sound(idx: IndexView, item: Seq<char>)
    requires
        looked_up(idx.items.kind, item) == Some("slate"@) || looked_up(idx.items.policy, item)
            == Some("mute"@) || drawn(idx, item).len() == 0,
    ensures
        item_sound(idx, item) is None,
{
}

} // verus!

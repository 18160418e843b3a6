//! Loading a show.

use crate::directive::engine::{
    invalid, DirectiveHandler, EngineView, FallbackSlate, Package, PackageView,
};
use crate::directive::take::{read_unsigned_in, text_in, unsigned_in};
use crate::directive::{outcome, DirectiveError, ErrorView};
use crate::json::{parse, parsed_text, Json, JsonView};
use crate::protocol::{DirectiveFrame, DirectiveView, EngineFrame, EngineFrameView, ItemEvent};
use crate::scene::picture::{item_sounds, item_uses, looked_up};
use crate::scene::{
    array_at, array_member, image_reads_as, index_of, json_views, pair_views, picture_view,
    with_picture, DecodedImage, IndexView, PackageIndex,
};
use crate::strmap::StrMap;
use crate::text::{chars_of, lemma_rising_unique, rising, str_eq, string_views};
use vstd::prelude::*;
use vstd::string::*;

verus! {

/// A manifest's file.
#[derive(Debug)]
pub enum ManifestFile {
    /// The file cannot be opened.
    Unreadable(String),
    /// The file is not text.
    Garbled(String),
    Text(String),
}

/// What was read of a package besides its manifest.
pub struct ShowFiles {
    /// The fallback's file, or its name and why it cannot be read.
    pub fallback: Result<Vec<u8>, String>,
    /// The image files that could be read, by asset.
    pub images: Vec<(String, Vec<u8>)>,
    /// The videos that could not be decoded: the asset, and a stable token.
    pub failures: Vec<(String, String)>,
    pub overlay_enter_frames: StrMap<u64>,
    pub overlay_exit_frames: StrMap<u64>,
}

/// What was read of a package, as contracts speak of it.
pub struct FilesView {
    pub fallback: Result<Seq<u8>, Seq<char>>,
    pub images: Seq<(Seq<char>, Seq<u8>)>,
    pub failures: Seq<(Seq<char>, Seq<char>)>,
    pub overlay_enter_frames: Map<Seq<char>, u64>,
    pub overlay_exit_frames: Map<Seq<char>, u64>,
}

/// Named files, as contracts speak of them.
pub open spec fn file_views(v: Seq<(String, Vec<u8>)>) -> Seq<(Seq<char>, Seq<u8>)> {
    Seq::new(v.len(), |i: int| (v[i].0@, v[i].1@))
}

impl View for ShowFiles {
    type V = FilesView;

    open spec fn view(&self) -> FilesView {
        FilesView {
            fallback: match self.fallback {
                Ok(b) => Ok(b@),
                Err(e) => Err(e@),
            },
            images: file_views(self.images@),
            failures: pair_views(self.failures@),
            overlay_enter_frames: self.overlay_enter_frames@,
            overlay_exit_frames: self.overlay_exit_frames@,
        }
    }
}

/// A path below a directory: an absolute path stands for itself.
pub open spec fn joined(root: Seq<char>, path: Seq<char>) -> Seq<char> {
    if path.len() > 0 && path[0] == '/' || root.len() == 0 {
        path
    } else if root.last() == '/' {
        root + path
    } else {
        root + "/"@ + path
    }
}

/// A path below a directory.
pub fn join_path(root: &str, path: &str) -> (s: String)
    ensures
        s@ == joined(root@, path@),
{
    let r: Vec<char> = chars_of(root);
    let p: Vec<char> = chars_of(path);
    if (p.len() > 0 && p[0] == '/') || r.len() == 0 {
        path.to_owned()
    } else if r[r.len() - 1] == '/' {
        root.to_owned().concat(path)
    } else {
        root.to_owned().concat("/").concat(path)
    }
}

/// The first of the assets from `i` on that has this id; the length when none
/// has.
pub open spec fn asset_named(assets: Seq<JsonView>, id: Seq<char>, i: int) -> int
    decreases assets.len() - i,
{
    if i < 0 || i >= assets.len() || assets[i].text_at("id"@) == Some(id) {
        i
    } else {
        asset_named(assets, id, i + 1)
    }
}

/// Where the fallback's file is, by the manifest.
pub open spec fn fallback_of(manifest: JsonView) -> Result<Seq<char>, ErrorView> {
    match text_in(manifest, "show"@, "fallbackAssetId"@) {
        None => Err(ErrorView::Invalid("manifest has no fallbackAssetId"@)),
        Some(id) => {
            let assets = array_at(manifest, "assets"@);
            let i = asset_named(assets, id, 0);
            if i < assets.len() {
                match assets[i].text_at("source"@) {
                    Some(s) => Ok(s),
                    None => Err(ErrorView::Invalid("fallback asset has no source"@)),
                }
            } else {
                Err(ErrorView::Invalid("fallback asset has no source"@))
            }
        },
    }
}

/// Where the fallback's file is, by the manifest.
pub fn fallback_source(manifest: &Json) -> (r: Result<String, DirectiveError>)
    ensures
        match r {
            Ok(s) => fallback_of(manifest@) == Ok::<Seq<char>, ErrorView>(s@),
            Err(e) => fallback_of(manifest@) == Err::<Seq<char>, ErrorView>(e@),
        },
{
    let id: &str = match manifest.get("show") {
        Some(show) => match show.str_at("fallbackAssetId") {
            Some(id) => id,
            None => return Err(invalid("manifest has no fallbackAssetId")),
        },
        None => return Err(invalid("manifest has no fallbackAssetId")),
    };
    let assets: &Vec<Json> = match array_member(manifest, "assets") {
        Some(a) => a,
        None => return Err(invalid("fallback asset has no source")),
    };
    let ghost all = json_views(assets@);
    let n: usize = assets.len();
    let mut i: usize = 0;
    while i < n
        invariant
            i <= n == assets@.len(),
            all == json_views(assets@),
            all == array_at(manifest@, "assets"@),
            text_in(manifest@, "show"@, "fallbackAssetId"@) == Some(id@),
            asset_named(all, id@, 0) == asset_named(all, id@, i as int),
        decreases n - i,
    {
        let a: &Json = &assets[i];
        assert(all[i as int] == a@);
        let found: bool = match a.str_at("id") {
            Some(x) => str_eq(x, id),
            None => false,
        };
        if found {
            return match a.str_at("source") {
                Some(s) => Ok(s.to_owned()),
                None => Err(invalid("fallback asset has no source")),
            };
        }
        i = i + 1;
    }
    Err(invalid("fallback asset has no source"))
}

/// Where recordings go, by the manifest.
pub open spec fn record_dir_of(manifest: JsonView, root: Seq<char>) -> Option<Seq<char>> {
    match manifest.member("show"@) {
        Some(show) => match show.member("outputs"@) {
            Some(outputs) => match text_in(outputs, "record"@, "directory"@) {
                Some(d) => Some(joined(root, d)),
                None => None,
            },
            None => None,
        },
        None => None,
    }
}

/// Where recordings go, by the manifest.
pub fn record_directory(manifest: &Json, root: &str) -> (r: Option<String>)
    ensures
        crate::scene::opt_text(r) == record_dir_of(manifest@, root@),
{
    match manifest.get("show") {
        Some(show) => match show.get("outputs") {
            Some(outputs) => match outputs.get("record") {
                Some(record) => match record.str_at("directory") {
                    Some(d) => Some(join_path(root, d)),
                    None => None,
                },
                None => None,
            },
            None => None,
        },
        None => None,
    }
}

/// A video of a package.
#[derive(Debug)]
pub struct VideoAsset {
    pub asset_id: String,
    pub source: String,
    /// The loop period the package declares, in frames.
    pub declared_period: Option<u32>,
}

/// Whether a package holds this video.
pub open spec fn is_video_of(idx: IndexView, v: VideoAsset) -> bool {
    &&& looked_up(idx.assets.kind, v.asset_id@) == Some("video"@) || looked_up(
        idx.assets.kind,
        v.asset_id@,
    ) == Some("alphaVideo"@)
    &&& looked_up(idx.assets.source, v.asset_id@) == Some(v.source@)
    &&& v.declared_period == if idx.assets.period.dom().contains(v.asset_id@) {
        Some(idx.assets.period[v.asset_id@])
    } else {
        None
    }
}

/// Whether a package has a video under this id.
pub open spec fn has_video(idx: IndexView, id: Seq<char>) -> bool {
    (looked_up(idx.assets.kind, id) == Some("video"@) || looked_up(idx.assets.kind, id) == Some(
        "alphaVideo"@,
    )) && idx.assets.source.dom().contains(id)
}

/// The videos a package asks to be decoded: each once.
pub fn video_assets(idx: &PackageIndex) -> (out: Vec<VideoAsset>)
    requires
        idx.wf(),
    ensures
        forall|i: int| 0 <= i < out@.len() ==> is_video_of(idx@, #[trigger] out@[i]),
        forall|i: int, j: int|
            0 <= i < j < out@.len() ==> (#[trigger] out@[i]).asset_id@ != (
            #[trigger] out@[j]).asset_id@,
        forall|id: Seq<char>| #[trigger]
            has_video(idx@, id) ==> exists|i: int|
                0 <= i < out@.len() && (#[trigger] out@[i]).asset_id@ == id,
{
    let mut out: Vec<VideoAsset> = Vec::new();
    let n: usize = idx.asset_kind.len();
    let ghost listed = idx.asset_kind.listed();
    proof {
        idx.asset_kind.lemma_listed();
    }
    let mut k: usize = 0;
    while k < n
        invariant
            k <= n == listed.len(),
            listed == idx.asset_kind.listed(),
            idx.wf(),
            forall|i: int|
                0 <= i < n ==> idx.asset_kind@.dom().contains((#[trigger] listed[i]).0)
                    && idx.asset_kind@[listed[i].0] == listed[i].1,
            forall|i: int, j: int|
                0 <= i < j < n ==> (#[trigger] listed[i]).0 != (#[trigger] listed[j]).0,
            forall|i: int| 0 <= i < out@.len() ==> is_video_of(idx@, #[trigger] out@[i]),
            forall|i: int|
                0 <= i < out@.len() ==> exists|j: int|
                    0 <= j < k && (#[trigger] listed[j]).0 == (#[trigger] out@[i]).asset_id@,
            forall|i: int, j: int|
                0 <= i < j < out@.len() ==> (#[trigger] out@[i]).asset_id@ != (
                #[trigger] out@[j]).asset_id@,
            forall|j: int|
                0 <= j < k && has_video(idx@, (#[trigger] listed[j]).0) ==> exists|i: int|
                    0 <= i < out@.len() && (#[trigger] out@[i]).asset_id@ == listed[j].0,
        decreases n - k,
    {
        let id: &str = idx.asset_kind.key_at(k);
        let kind: &String = idx.asset_kind.value_at(k);
        let ghost was = out@;
        assert(idx.asset_kind@.dom().contains(listed[k as int].0));
        assert(idx@.assets.kind[id@] == kind@);
        if str_eq(kind.as_str(), "video") || str_eq(kind.as_str(), "alphaVideo") {
            match idx.asset_source.get(id) {
                Some(source) => {
                    let declared_period: Option<u32> = match idx.declared_loop_period.get(id) {
                        Some(p) => Some(*p),
                        None => None,
                    };
                    out.push(
                        VideoAsset {
                            asset_id: id.to_owned(),
                            source: source.as_str().to_owned(),
                            declared_period,
                        },
                    );
                },
                None => {},
            }
        }
        proof {
            assert(forall|i: int| 0 <= i < was.len() ==> out@[i] == was[i]);
            assert forall|i: int| 0 <= i < out@.len() implies exists|j: int|
                0 <= j < k + 1 && (#[trigger] listed[j]).0 == (#[trigger] out@[i]).asset_id@ by {
                if i < was.len() {
                    let j = choose|j: int|
                        0 <= j < k && (#[trigger] listed[j]).0 == was[i].asset_id@;
                    assert(listed[j].0 == out@[i].asset_id@);
                } else {
                    assert(listed[k as int].0 == out@[i].asset_id@);
                }
            }
            assert forall|i: int, j: int| 0 <= i < j < out@.len() implies (
            #[trigger] out@[i]).asset_id@ != (#[trigger] out@[j]).asset_id@ by {
                if j == was.len() {
                    let p = choose|p: int|
                        0 <= p < k && (#[trigger] listed[p]).0 == was[i].asset_id@;
                    assert(listed[p].0 != listed[k as int].0);
                }
            }
            assert forall|j: int| 0 <= j < k + 1 && has_video(
                idx@,
                (#[trigger] listed[j]).0,
            ) implies exists|i: int| 0 <= i < out@.len() && (#[trigger] out@[i]).asset_id@
                == listed[j].0 by {
                if j < k {
                    let i = choose|i: int|
                        0 <= i < was.len() && (#[trigger] was[i]).asset_id@ == listed[j].0;
                    assert(out@[i].asset_id@ == listed[j].0);
                } else {
                    assert(out@[was.len() as int].asset_id@ == listed[j].0);
                }
            }
        }
        k = k + 1;
    }
    proof {
        assert forall|id: Seq<char>| #[trigger] has_video(idx@, id) implies exists|i: int|
            0 <= i < out@.len() && (#[trigger] out@[i]).asset_id@ == id by {
            assert(idx.asset_kind@.dom().contains(id));
            let j = choose|j: int| 0 <= j < n && (#[trigger] listed[j]).0 == id;
            assert(has_video(idx@, listed[j].0));
        }
    }
    out
}

/// The index once the pictures of the first `n` image files are in.
pub open spec fn with_images(
    idx: IndexView,
    images: Seq<(Seq<char>, Seq<u8>)>,
    pictures: Seq<Option<(u32, u32, Seq<u8>)>>,
    n: int,
) -> IndexView
    decreases n,
{
    if n <= 0 {
        idx
    } else {
        with_picture(with_images(idx, images, pictures, n - 1), images[n - 1].0, pictures[n - 1])
    }
}

/// Pictures, as contracts speak of them.
pub open spec fn picture_views(v: Seq<Option<DecodedImage>>) -> Seq<
    Option<(u32, u32, Seq<u8>)>,
> {
    Seq::new(v.len(), |i: int| picture_view(v[i]))
}

/// Whether each image file is read as its picture, four bytes to a pixel.
pub open spec fn read_as(
    images: Seq<(Seq<char>, Seq<u8>)>,
    pictures: Seq<Option<(u32, u32, Seq<u8>)>>,
) -> bool {
    &&& pictures.len() == images.len()
    &&& forall|i: int|
        0 <= i < images.len() ==> image_reads_as(images[i].1, #[trigger] pictures[i]) && (
        pictures[i] matches Some(p) ==> p.2.len() == 4 * p.0 * p.1)
}

/// Read the pictures in image files.
pub fn read_pictures(images: &Vec<(String, Vec<u8>)>) -> (pictures: Vec<Option<DecodedImage>>)
    ensures
        read_as(file_views(images@), picture_views(pictures@)),
{
    let mut pictures: Vec<Option<DecodedImage>> = Vec::new();
    let n: usize = images.len();
    let mut i: usize = 0;
    while i < n
        invariant
            i <= n == images@.len(),
            pictures@.len() == i,
            forall|k: int|
                0 <= k < i ==> image_reads_as(
                    images@[k].1@,
                    picture_view(#[trigger] pictures@[k]),
                ) && (pictures@[k] matches Some(p) ==> p.rgba@.len() == 4 * p.width * p.height),
        decreases n - i,
    {
        pictures.push(DecodedImage::decode(images[i].1.as_slice()));
        i = i + 1;
    }
    proof {
        let v = picture_views(pictures@);
        assert forall|k: int| 0 <= k < n implies image_reads_as(
            file_views(images@)[k].1,
            #[trigger] v[k],
        ) && (v[k] matches Some(p) ==> p.2.len() == 4 * p.0 * p.1) by {
            assert(v[k] == picture_view(pictures@[k]));
        }
    }
    pictures
}

/// The items that would show an asset, in the order of their names.
pub open spec fn users_of(idx: IndexView, asset: Seq<char>) -> Seq<Seq<char>> {
    choose|v: Seq<Seq<char>>|
        rising(v) && forall|item: Seq<char>| #[trigger] v.contains(item) <==> item_uses(idx, item, asset)
}

/// The frames that tell of a failure: one for each item.
pub open spec fn failure_frames(items: Seq<Seq<char>>, token: Seq<char>) -> Seq<EngineFrameView> {
    items.map_values(
        |item: Seq<char>|
            EngineFrameView::ItemEvent {
                item_ref: item,
                event: ItemEvent::DecodeError,
                detail: Some(token),
            },
    )
}

/// The engine once the first `n` failures are counted and told. One that no
/// item would show is counted on its own: nothing else would tell of it.
pub open spec fn failed(
    e: EngineView,
    idx: IndexView,
    failures: Seq<(Seq<char>, Seq<char>)>,
    n: int,
) -> EngineView
    decreases n,
{
    if n <= 0 {
        e
    } else {
        let rest = failed(e, idx, failures, n - 1);
        let users = users_of(idx, failures[n - 1].0);
        EngineView {
            decode_failures_total: rest.decode_failures_total.wrapping_add(1),
            unattributable_decode_failures_total: if users.len() == 0 {
                rest.unattributable_decode_failures_total.wrapping_add(1)
            } else {
                rest.unattributable_decode_failures_total
            },
            outgoing: rest.outgoing + failure_frames(users, failures[n - 1].1),
            ..rest
        }
    }
}

/// The engine when a load begins: the decoders are released, and no marker of
/// an earlier show is left.
pub open spec fn load_begun(e: EngineView) -> EngineView {
    EngineView { decode_epoch: e.decode_epoch.wrapping_add(1), markers: Seq::empty(), ..e }
}

/// The engine once a package is in.
pub open spec fn package_in(
    e: EngineView,
    path: Seq<char>,
    manifest: JsonView,
    source: Seq<char>,
    bytes: Seq<u8>,
    files: FilesView,
    pictures: Seq<Option<(u32, u32, Seq<u8>)>>,
) -> EngineView {
    let idx = with_images(index_of(manifest), files.images, pictures, files.images.len() as int);
    let told = failed(e, idx, files.failures, files.failures.len() as int);
    EngineView {
        fallback: Some((joined(path, source), bytes)),
        requested_quality: idx.requested_quality,
        record_dir: record_dir_of(manifest, path),
        item_audio: item_sounds(idx),
        package: Some(
            PackageView {
                index: idx,
                overlay_enter_frames: files.overlay_enter_frames,
                overlay_exit_frames: files.overlay_exit_frames,
            },
        ),
        package_generation: told.package_generation.wrapping_add(1),
        view_item: None,
        preview_item: None,
        transition: None,
        ..told
    }
}

/// What a load leads to, where the image files are read as `pictures`: the
/// engine after it, and its outcome. A package without its fallback in memory is
/// not loaded.
pub open spec fn loaded(
    e: EngineView,
    d: DirectiveView,
    manifest: Result<JsonView, ErrorView>,
    files: FilesView,
    pictures: Seq<Option<(u32, u32, Seq<u8>)>>,
) -> (EngineView, Result<(), ErrorView>) {
    let begun = load_begun(e);
    match d.payload.text_at("packagePath"@) {
        None => (begun, Err(ErrorView::Invalid("show.load missing packagePath"@))),
        Some(path) => {
            let named = EngineView { package_path: Some(path), ..begun };
            match manifest {
                Err(x) => (named, Err(x)),
                Ok(m) => match fallback_of(m) {
                    Err(x) => (named, Err(x)),
                    Ok(source) => match files.fallback {
                        Err(x) => (named, Err(ErrorView::FallbackMissing(x))),
                        Ok(bytes) => (
                            package_in(named, path, m, source, bytes, files, pictures),
                            Ok(()),
                        ),
                    },
                },
            }
        },
    }
}

/// A manifest as it was read, as contracts speak of it.
pub open spec fn manifest_view(m: Result<Json, DirectiveError>) -> Result<JsonView, ErrorView> {
    match m {
        Ok(j) => Ok(j@),
        Err(e) => Err(e@),
    }
}

/// The manifest in a file.
pub open spec fn manifest_of(file: ManifestFile) -> Result<JsonView, ErrorView> {
    match file {
        ManifestFile::Unreadable(s) => Err(ErrorView::Invalid("cannot open manifest: "@ + s@)),
        ManifestFile::Garbled(s) => Err(ErrorView::Invalid("manifest not valid JSON: "@ + s@)),
        ManifestFile::Text(t) => match parsed_text(t@) {
            Ok(j) => Ok(j),
            Err(s) => Err(ErrorView::Invalid("manifest not valid JSON: "@ + s)),
        },
    }
}

/// Read the manifest in a file.
pub fn read_manifest(file: &ManifestFile) -> (r: Result<Json, DirectiveError>)
    ensures
        manifest_view(r) == manifest_of(*file),
{
    match file {
        ManifestFile::Unreadable(s) => Err(
            DirectiveError::Invalid("cannot open manifest: ".to_owned().concat(s.as_str())),
        ),
        ManifestFile::Garbled(s) => Err(
            DirectiveError::Invalid("manifest not valid JSON: ".to_owned().concat(s.as_str())),
        ),
        ManifestFile::Text(t) => match parse(t.as_str()) {
            Ok(j) => Ok(j),
            Err(s) => Err(
                DirectiveError::Invalid("manifest not valid JSON: ".to_owned().concat(s.as_str())),
            ),
        },
    }
}

impl DirectiveHandler {
    fn tell_failure(&mut self, idx: &PackageIndex, asset: &str, token: &str)
        requires
            old(self).wf(),
            idx.wf(),
        ensures
            final(self).wf(),
            final(self)@ == ({
                let users = users_of(idx@, asset@);
                EngineView {
                    decode_failures_total: old(self)@.decode_failures_total.wrapping_add(1),
                    unattributable_decode_failures_total: if users.len() == 0 {
                        old(self)@.unattributable_decode_failures_total.wrapping_add(1)
                    } else {
                        old(self)@.unattributable_decode_failures_total
                    },
                    outgoing: old(self)@.outgoing + failure_frames(users, token@),
                    ..old(self)@
                }
            }),
    {
        let ghost start = self@;
        let items: Vec<String> = idx.items_using_asset(asset);
        let ghost users = users_of(idx@, asset@);
        proof {
            let v = string_views(items@);
            assert(rising(v) && forall|item: Seq<char>| #[trigger]
                v.contains(item) <==> item_uses(idx@, item, asset@));
            lemma_rising_unique(v, users);
        }
        self.decode_failures_total = self.decode_failures_total.wrapping_add(1);
        if items.len() == 0 {
            self.unattributable_decode_failures_total =
            self.unattributable_decode_failures_total.wrapping_add(1);
        }
        let ghost counted = self@;
        let ghost frames = failure_frames(users, token@);
        let n: usize = items.len();
        let mut i: usize = 0;
        assert(self@.outgoing =~= counted.outgoing + frames.take(0));
        while i < n
            invariant
                i <= n == items@.len(),
                users == string_views(items@),
                frames == failure_frames(users, token@),
                self.wf(),
                self@ == (EngineView {
                    outgoing: counted.outgoing + frames.take(i as int),
                    ..counted
                }),
            decreases n - i,
        {
            self.push_frame(
                EngineFrame::ItemEvent {
                    item_ref: items[i].as_str().to_owned(),
                    event: ItemEvent::DecodeError,
                    detail: Some(token.to_owned()),
                },
            );
            i = i + 1;
            proof {
                assert(users[i - 1] == items@[i - 1]@);
                assert(frames.take(i as int) =~= frames.take(i - 1).push(frames[i - 1]));
                assert(self@.outgoing =~= counted.outgoing + frames.take(i as int));
            }
        }
        assert(frames.take(i as int) =~= frames);
    }

    fn tell_failures(&mut self, idx: &PackageIndex, failures: &Vec<(String, String)>)
        requires
            old(self).wf(),
            idx.wf(),
        ensures
            final(self).wf(),
            final(self)@ == failed(
                old(self)@,
                idx@,
                pair_views(failures@),
                failures@.len() as int,
            ),
    {
        let ghost start = self@;
        let ghost all = pair_views(failures@);
        let n: usize = failures.len();
        let mut i: usize = 0;
        while i < n
            invariant
                i <= n == failures@.len(),
                all == pair_views(failures@),
                self.wf(),
                idx.wf(),
                self@ == failed(start, idx@, all, i as int),
            decreases n - i,
        {
            assert(all[i as int] == (failures@[i as int].0@, failures@[i as int].1@));
            self.tell_failure(idx, failures[i].0.as_str(), failures[i].1.as_str());
            i = i + 1;
        }
    }

    fn install(
        &mut self,
        path: &str,
        manifest: &Json,
        files: ShowFiles,
        pictures: Vec<Option<DecodedImage>>,
    )
        requires
            old(self).wf(),
            pictures@.len() == files.images@.len(),
            files.overlay_enter_frames.wf(),
            files.overlay_exit_frames.wf(),
        ensures
            final(self).wf(),
            final(self)@ == ({
                let idx = with_images(
                    index_of(manifest@),
                    files@.images,
                    picture_views(pictures@),
                    files@.images.len() as int,
                );
                let told = failed(old(self)@, idx, files@.failures, files@.failures.len() as int);
                EngineView {
                    requested_quality: idx.requested_quality,
                    record_dir: record_dir_of(manifest@, path@),
                    item_audio: item_sounds(idx),
                    package: Some(
                        PackageView {
                            index: idx,
                            overlay_enter_frames: files@.overlay_enter_frames,
                            overlay_exit_frames: files@.overlay_exit_frames,
                        },
                    ),
                    package_generation: told.package_generation.wrapping_add(1),
                    view_item: None,
                    preview_item: None,
                    transition: None,
                    ..told
                }
            }),
    {
        let mut idx: PackageIndex = PackageIndex::build(manifest);
        let ghost images = files@.images;
        let ghost views = picture_views(pictures@);
        let mut left: Vec<Option<DecodedImage>> = pictures;
        let n: usize = files.images.len();
        let mut i: usize = 0;
        while i < n
            invariant
                i <= n == files.images@.len() == left@.len() == pictures@.len(),
                images == files@.images,
                views == picture_views(pictures@),
                forall|k: int| i <= k < n ==> left@[k] == pictures@[k],
                idx.wf(),
                idx@ == with_images(index_of(manifest@), images, views, i as int),
            decreases n - i,
        {
            assert(images[i as int] == (files.images@[i as int].0@, files.images@[i as int].1@));
            assert(left@[i as int] == pictures@[i as int]);
            let mut picture: Option<DecodedImage> = None;
            std::mem::swap(&mut picture, &mut left[i]);
            idx.install_picture(files.images[i].0.as_str(), picture);
            i = i + 1;
        }
        self.requested_quality = idx.requested_quality;
        self.record_dir = record_directory(manifest, path);
        let ghost before = self@;
        self.tell_failures(&idx, &files.failures);
        proof {
            lemma_failed_keeps(old(self)@, before, idx@, files@.failures, files@.failures.len() as int);
        }
        self.item_audio = idx.item_audio_map();
        self.package = Some(
            Package {
                index: idx,
                overlay_enter_frames: files.overlay_enter_frames,
                overlay_exit_frames: files.overlay_exit_frames,
            },
        );
        self.package_generation = self.package_generation.wrapping_add(1);
        self.view_item = None;
        self.preview_item = None;
        self.transition = None;
    }

    /// Load a show, where `manifest` is its manifest and `pictures` are its
    /// images as they were read.
    pub fn load_with(
        &mut self,
        d: &DirectiveFrame,
        manifest: Result<Json, DirectiveError>,
        files: ShowFiles,
        pictures: Vec<Option<DecodedImage>>,
    ) -> (r: Result<(), DirectiveError>)
        requires
            old(self).wf(),
            pictures@.len() == files.images@.len(),
            files.overlay_enter_frames.wf(),
            files.overlay_exit_frames.wf(),
        ensures
            final(self).wf(),
            (final(self)@, outcome(r)) == loaded(
                old(self)@,
                d@,
                manifest_view(manifest),
                files@,
                picture_views(pictures@),
            ),
    {
        self.decode_epoch = self.decode_epoch.wrapping_add(1);
        self.markers.clear();
        let path: &str = match d.payload.str_at("packagePath") {
            Some(p) => p,
            None => return Err(invalid("show.load missing packagePath")),
        };
        self.package_path = Some(path.to_owned());
        let m: Json = match manifest {
            Ok(m) => m,
            Err(e) => return Err(e),
        };
        let source: String = match fallback_source(&m) {
            Ok(s) => s,
            Err(e) => return Err(e),
        };
        let ghost view = files@;
        let ShowFiles { fallback, images, failures, overlay_enter_frames, overlay_exit_frames } =
            files;
        let bytes: Vec<u8> = match fallback {
            Ok(b) => b,
            Err(s) => return Err(DirectiveError::FallbackMissing(s)),
        };
        let ghost named = self@;
        let rest: ShowFiles = ShowFiles {
            fallback: Ok(Vec::new()),
            images,
            failures,
            overlay_enter_frames,
            overlay_exit_frames,
        };
        self.install(path, &m, rest, pictures);
        self.fallback = Some(
            FallbackSlate { path: join_path(path, source.as_str()), bytes },
        );
        assert(self@ == package_in(
            named,
            path@,
            m@,
            source@,
            bytes@,
            view,
            picture_views(pictures@),
        ));
        Ok(())
    }

    /// Load a show from its files.
    pub fn on_show_load(&mut self, d: &DirectiveFrame, manifest: &ManifestFile, files: ShowFiles) -> (r:
        Result<(), DirectiveError>)
        requires
            old(self).wf(),
            files.overlay_enter_frames.wf(),
            files.overlay_exit_frames.wf(),
        ensures
            final(self).wf(),
            exists|pictures: Seq<Option<(u32, u32, Seq<u8>)>>|
                #[trigger] read_as(files@.images, pictures) && (final(self)@, outcome(r))
                    == loaded(old(self)@, d@, manifest_of(*manifest), files@, pictures),
    {
        let pictures: Vec<Option<DecodedImage>> = read_pictures(&files.images);
        let ghost views = picture_views(pictures@);
        assert(read_as(files@.images, views));
        self.load_with(d, read_manifest(manifest), files, pictures)
    }
}

proof fn lemma_failed_keeps(
    a: EngineView,
    b: EngineView,
    idx: IndexView,
    failures: Seq<(Seq<char>, Seq<char>)>,
    n: int,
)
    requires
        b == (EngineView {
            requested_quality: b.requested_quality,
            record_dir: b.record_dir,
            ..a
        }),
    ensures
        failed(b, idx, failures, n) == (EngineView {
            requested_quality: b.requested_quality,
            record_dir: b.record_dir,
            ..failed(a, idx, failures, n)
        }),
    decreases n,
{
    if n > 0 {
        lemma_failed_keeps(a, b, idx, failures, n - 1);
    }
}

/// Every failure to decode is counted, told or not.
pub proof fn law_every_failure_is_counted(
    e: EngineView,
    idx: IndexView,
    failures: Seq<(Seq<char>, Seq<char>)>,
    n: int,
)
    requires
        0 <= n <= failures.len(),
        e.decode_failures_total + n <= u64::MAX,
    ensures
        failed(e, idx, failures, n).decode_failures_total == e.decode_failures_total + n,
    decreases n,
{
    if n > 0 {
        law_every_failure_is_counted(e, idx, failures, n - 1);
    }
}

/// A load that fails leaves what is on air on air, and the package in place.
pub proof fn law_a_failed_load_keeps_the_picture(
    e: EngineView,
    d: DirectiveView,
    manifest: Result<JsonView, ErrorView>,
    files: FilesView,
    pictures: Seq<Option<(u32, u32, Seq<u8>)>>,
)
    requires
        loaded(e, d, manifest, files, pictures).1 is Err,
    ensures
        loaded(e, d, manifest, files, pictures).0.view_item == e.view_item,
        loaded(e, d, manifest, files, pictures).0.package == e.package,
        loaded(e, d, manifest, files, pictures).0.fallback == e.fallback,
        loaded(e, d, manifest, files, pictures).0.transition == e.transition,
{
}

/// A loaded show has its fallback in memory, and nothing of the show before it
/// on air.
pub proof fn law_a_loaded_show_starts_clean(
    e: EngineView,
    d: DirectiveView,
    manifest: Result<JsonView, ErrorView>,
    files: FilesView,
    pictures: Seq<Option<(u32, u32, Seq<u8>)>>,
)
    requires
        loaded(e, d, manifest, files, pictures).1 is Ok,
    ensures
        loaded(e, d, manifest, files, pictures).0.fallback is Some,
        loaded(e, d, manifest, files, pictures).0.view_item is None,
        loaded(e, d, manifest, files, pictures).0.preview_item is None,
        loaded(e, d, manifest, files, pictures).0.transition is None,
        loaded(e, d, manifest, files, pictures).0.markers.len() == 0,
{
    let m = manifest->Ok_0;
    let path = d.payload.text_at("packagePath"@)->0;
    let idx = with_images(index_of(m), files.images, pictures, files.images.len() as int);
    let named = EngineView { package_path: Some(path), ..load_begun(e) };
    lemma_failed_markers(named, idx, files.failures, files.failures.len() as int);
}

proof fn lemma_failed_markers(
    e: EngineView,
    idx: IndexView,
    failures: Seq<(Seq<char>, Seq<char>)>,
    n: int,
)
    ensures
        failed(e, idx, failures, n).markers == e.markers,
    decreases n,
{
    if n > 0 {
        lemma_failed_markers(e, idx, failures, n - 1);
    }
}

/// The longest animation that the first `n` elements declare under a key, in
/// frames.
pub open spec fn longest_animation(elements: Seq<JsonView>, key: Seq<char>, n: int) -> Option<u64>
    decreases n,
{
    if n <= 0 {
        None
    } else {
        let rest = longest_animation(elements, key, n - 1);
        match (rest, unsigned_in(elements[n - 1], key, "durationFrames"@)) {
            (Some(a), Some(b)) => Some(
                if a < b {
                    b
                } else {
                    a
                },
            ),
            (None, found) => found,
            (found, None) => found,
        }
    }
}

/// How long the animations of the first `n` overlays take, by overlay. One
/// that declares none is not listed.
pub open spec fn animation_table(overlays: Seq<JsonView>, key: Seq<char>, n: int) -> Map<
    Seq<char>,
    u64,
>
    decreases n,
{
    if n <= 0 {
        Map::empty()
    } else {
        let rest = animation_table(overlays, key, n - 1);
        let elements = array_at(overlays[n - 1], "elements"@);
        match (
            overlays[n - 1].text_at("id"@),
            longest_animation(elements, key, elements.len() as int),
        ) {
            (Some(id), Some(frames)) => rest.insert(id, frames),
            _ => rest,
        }
    }
}

fn longest_of(overlay: &Json, key: &str) -> (r: Option<u64>)
    ensures
        r == longest_animation(
            array_at(overlay@, "elements"@),
            key@,
            array_at(overlay@, "elements"@).len() as int,
        ),
{
    let elements: &Vec<Json> = match array_member(overlay, "elements") {
        Some(v) => v,
        None => return None,
    };
    let ghost all = json_views(elements@);
    let mut best: Option<u64> = None;
    let mut i: usize = 0;
    while i < elements.len()
        invariant
            i <= elements@.len(),
            all == json_views(elements@),
            best == longest_animation(all, key@, i as int),
        decreases elements@.len() - i,
    {
        match (best, read_unsigned_in(&elements[i], key, "durationFrames")) {
            (Some(a), Some(b)) => {
                if a < b {
                    best = Some(b);
                }
            },
            (None, found) => {
                best = found;
            },
            (Some(_), None) => {},
        }
        i = i + 1;
    }
    best
}

/// How long each overlay's longest animation takes, as a package declares it
/// under `key` in the overlay's elements.
pub fn overlay_frames(manifest: &Json, key: &str) -> (m: StrMap<u64>)
    ensures
        m.wf(),
        m@ == animation_table(
            array_at(manifest@, "overlays"@),
            key@,
            array_at(manifest@, "overlays"@).len() as int,
        ),
{
    let mut m: StrMap<u64> = StrMap::new();
    let overlays: &Vec<Json> = match array_member(manifest, "overlays") {
        Some(v) => v,
        None => return m,
    };
    let ghost all = json_views(overlays@);
    let mut i: usize = 0;
    while i < overlays.len()
        invariant
            i <= overlays@.len(),
            all == json_views(overlays@),
            m.wf(),
            m@ == animation_table(all, key@, i as int),
        decreases overlays@.len() - i,
    {
        let longest: Option<u64> = longest_of(&overlays[i], key);
        match (overlays[i].str_at("id"), longest) {
            (Some(id), Some(frames)) => {
                m.insert(id, frames);
            },
            _ => {},
        }
        i = i + 1;
    }
    m
}

} // verus!

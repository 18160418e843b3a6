//! Scenes: from a show's items to what is drawn and heard.
//!
//! One walk says what an item shows; both the picture and the sound of a take
//! come from it, so they cannot disagree.

use crate::json::{text_view, Json, JsonView, Real};
use crate::manifest::QualityProfile;
use crate::strmap::StrMap;
use crate::text::{chars_of, str_eq};
use vstd::prelude::*;
use vstd::string::*;

pub mod laws;
pub mod origins;
pub mod picture;
pub mod transition;

verus! {

/// A decoded image: rows of RGBA pixels, top to bottom.
#[derive(Debug)]
pub struct DecodedImage {
    pub width: u32,
    pub height: u32,
    pub rgba: Vec<u8>,
}

/// A picture, as contracts speak of it: its width, its height and its pixels.
pub open spec fn pixels_of(i: DecodedImage) -> (u32, u32, Seq<u8>) {
    (i.width, i.height, i.rgba@)
}

/// A picture that may be missing, as contracts speak of it.
pub open spec fn picture_view(r: Option<DecodedImage>) -> Option<(u32, u32, Seq<u8>)> {
    match r {
        Some(i) => Some(pixels_of(i)),
        None => None,
    }
}

/// Whether the `image` crate reads a file's bytes as this picture (width, height
/// and RGBA pixels), or as none when it is not an image it can read.
pub uninterp spec fn image_reads_as(
    bytes: Seq<u8>,
    picture: Option<(u32, u32, Seq<u8>)>,
) -> bool;

/// `image::load_from_memory`, then `DynamicImage::to_rgba8`: the picture in a
/// file's bytes is what the crate reads them as, four bytes to a pixel. The
/// crate picks the code that decodes a JPEG by the processor it runs on, so it
/// is not said that the same bytes are read as the same picture everywhere.
#[verifier::external_body]
fn load_image(bytes: &[u8]) -> (r: Option<DecodedImage>)
    ensures
        image_reads_as(bytes@, picture_view(r)),
        r matches Some(i) ==> i.rgba@.len() == 4 * i.width * i.height,
{
    let rgba = image::load_from_memory(bytes).ok()?.to_rgba8();
    Some(DecodedImage { width: rgba.width(), height: rgba.height(), rgba: rgba.into_raw() })
}

impl DecodedImage {
    /// A picture of one color.
    pub fn generated_slate(width: u32, height: u32, rgba: [u8; 4]) -> (i: DecodedImage)
        requires
            width * height * 4 <= u32::MAX,
        ensures
            i.width == width,
            i.height == height,
            i.rgba@.len() == width * height * 4,
            forall|k: int| 0 <= k < i.rgba@.len() ==> #[trigger] i.rgba@[k] == rgba@[k % 4],
    {
        let n: u32 = width * height;
        let mut px: Vec<u8> = Vec::new();
        let mut i: u32 = 0;
        while i < n
            invariant
                i <= n,
                px@.len() == 4 * i,
                forall|k: int| 0 <= k < px@.len() ==> #[trigger] px@[k] == rgba@[k % 4],
            decreases n - i,
        {
            px.push(rgba[0]);
            px.push(rgba[1]);
            px.push(rgba[2]);
            px.push(rgba[3]);
            i = i + 1;
        }
        DecodedImage { width, height, rgba: px }
    }

    /// The picture in a file's bytes, if there is one.
    pub fn decode(bytes: &[u8]) -> (r: Option<DecodedImage>)
        ensures
            image_reads_as(bytes@, picture_view(r)),
            r matches Some(i) ==> i.rgba@.len() == 4 * i.width * i.height,
    {
        load_image(bytes)
    }
}

/// A number as a package wrote it.
#[derive(Debug, Clone, Copy, PartialEq, Eq, Structural)]
pub enum Number {
    Unsigned(u64),
    Negative(i64),
    Fraction(Real),
}

/// The number in a JSON value.
pub open spec fn number_of(j: JsonView) -> Option<Number> {
    match j {
        JsonView::Unsigned(n) => Some(Number::Unsigned(n)),
        JsonView::Negative(n) => Some(Number::Negative(n)),
        JsonView::Fraction(r) => Some(Number::Fraction(r)),
        _ => None,
    }
}

/// Whether a number is positive, and still is in single precision: half the
/// smallest positive number of that precision and less rounds to zero.
pub open spec fn is_positive(n: Number) -> bool {
    match n {
        Number::Unsigned(n) => n > 0,
        Number::Negative(n) => n > 0,
        Number::Fraction(r) => 0x3690_0000_0000_0000 < r.bits <= 0x7ff0_0000_0000_0000,
    }
}

/// Where an element is drawn, in fractions of the picture. What a package
/// leaves out is the whole picture.
#[derive(Debug, Clone, Copy, PartialEq, Eq, Structural)]
pub struct Rect {
    pub x: Option<Number>,
    pub y: Option<Number>,
    pub w: Option<Number>,
    pub h: Option<Number>,
}

/// The whole picture.
pub open spec fn full_rect() -> Rect {
    Rect { x: None, y: None, w: None, h: None }
}

/// A color.
#[derive(Debug, Clone, Copy, PartialEq, Eq, Structural)]
pub struct Rgb {
    pub r: u8,
    pub g: u8,
    pub b: u8,
}

/// A fill.
#[derive(Debug, Clone, Copy, PartialEq, Eq, Structural)]
pub enum Fill {
    /// The color an element names.
    Named(Rgb),
    /// The color of a slate.
    Slate,
    /// The color of a graphic that names none.
    Placeholder,
}

/// One element of a scene.
#[derive(Debug)]
pub struct ElementSpec {
    pub id: String,
    pub kind: String,
    pub z: i64,
    pub visible: bool,
    pub asset_id: Option<String>,
    /// The bus the element's sound belongs on.
    pub audio_bus: String,
    pub audio_muted: bool,
    pub color: Option<Rgb>,
    pub rect: Rect,
    /// Opacity, one when it is not named.
    pub opacity: Option<Number>,
}

/// An element, as contracts speak of it.
pub struct ElementView {
    pub id: Seq<char>,
    pub kind: Seq<char>,
    pub z: i64,
    pub visible: bool,
    pub asset_id: Option<Seq<char>>,
    pub audio_bus: Seq<char>,
    pub audio_muted: bool,
    pub color: Option<Rgb>,
    pub rect: Rect,
    pub opacity: Option<Number>,
}

/// The text of an optional string.
pub open spec fn opt_text(s: Option<String>) -> Option<Seq<char>> {
    match s {
        Some(s) => Some(s@),
        None => None,
    }
}

impl View for ElementSpec {
    type V = ElementView;

    open spec fn view(&self) -> ElementView {
        ElementView {
            id: self.id@,
            kind: self.kind@,
            z: self.z,
            visible: self.visible,
            asset_id: opt_text(self.asset_id),
            audio_bus: self.audio_bus@,
            audio_muted: self.audio_muted,
            color: self.color,
            rect: self.rect,
            opacity: self.opacity,
        }
    }
}

/// Whether `c` is a hexadecimal digit.
pub open spec fn is_hex(c: char) -> bool {
    '0' <= c <= '9' || 'a' <= c <= 'f' || 'A' <= c <= 'F'
}

/// The value of a hexadecimal digit.
pub open spec fn hex_value(c: char) -> int {
    if '0' <= c <= '9' {
        c as int - '0' as int
    } else if 'a' <= c <= 'f' {
        c as int - 'a' as int + 10
    } else {
        c as int - 'A' as int + 10
    }
}

/// The digit at place `i`, where a sign counts as a leading zero.
pub open spec fn nibble(s: Seq<char>, i: int) -> int {
    if i == 1 && s[1] == '+' {
        0
    } else {
        hex_value(s[i])
    }
}

/// The color of `#rrggbb`. A plus sign may stand for the first digit.
pub open spec fn hex_rgb(s: Seq<char>) -> Option<Rgb> {
    if s.len() == 7 && s[0] == '#' && (is_hex(s[1]) || s[1] == '+') && is_hex(s[2]) && is_hex(s[3])
        && is_hex(s[4]) && is_hex(s[5]) && is_hex(s[6]) {
        Some(
            Rgb {
                r: (nibble(s, 1) * 16 + nibble(s, 2)) as u8,
                g: (nibble(s, 3) * 16 + nibble(s, 4)) as u8,
                b: (nibble(s, 5) * 16 + nibble(s, 6)) as u8,
            },
        )
    } else {
        None
    }
}

fn hex_digit(c: char) -> (r: Option<u8>)
    ensures
        r is Some <==> is_hex(c),
        r matches Some(v) ==> v == hex_value(c) && v < 16,
{
    if '0' <= c && c <= '9' {
        Some((c as u32 - 48) as u8)
    } else if 'a' <= c && c <= 'f' {
        Some((c as u32 - 87) as u8)
    } else if 'A' <= c && c <= 'F' {
        Some((c as u32 - 55) as u8)
    } else {
        None
    }
}

/// Read a color.
pub fn parse_hex_rgb(s: &str) -> (r: Option<Rgb>)
    ensures
        r == hex_rgb(s@),
{
    let c: Vec<char> = chars_of(s);
    if c.len() != 7 || c[0] != '#' {
        return None;
    }
    let first: Option<u8> = if c[1] == '+' {
        Some(0)
    } else {
        hex_digit(c[1])
    };
    match (first, hex_digit(c[2]), hex_digit(c[3]), hex_digit(c[4]), hex_digit(c[5]), hex_digit(c[6])) {
        (Some(a), Some(b), Some(d), Some(e), Some(f), Some(g)) => Some(
            Rgb { r: a * 16 + b, g: d * 16 + e, b: f * 16 + g },
        ),
        _ => None,
    }
}

/// The quality profile a package asks for.
pub open spec fn quality_of(s: Seq<char>) -> Option<QualityProfile> {
    if s == "potato"@ {
        Some(QualityProfile::Potato)
    } else if s == "consumer"@ {
        Some(QualityProfile::Consumer)
    } else if s == "pro"@ {
        Some(QualityProfile::Pro)
    } else if s == "reference"@ {
        Some(QualityProfile::Reference)
    } else {
        None
    }
}

/// Read a quality profile.
pub fn parse_quality(s: &str) -> (r: Option<QualityProfile>)
    ensures
        r == quality_of(s@),
{
    if str_eq(s, "potato") {
        Some(QualityProfile::Potato)
    } else if str_eq(s, "consumer") {
        Some(QualityProfile::Consumer)
    } else if str_eq(s, "pro") {
        Some(QualityProfile::Pro)
    } else if str_eq(s, "reference") {
        Some(QualityProfile::Reference)
    } else {
        None
    }
}

/// The number of the member called `key`.
pub open spec fn number_at(j: JsonView, key: Seq<char>) -> Option<Number> {
    match j.member(key) {
        Some(v) => number_of(v),
        None => None,
    }
}

/// Read the number of the member called `key`.
pub fn read_number(j: &Json, key: &str) -> (r: Option<Number>)
    ensures
        r == number_at(j@, key@),
{
    match j.get(key) {
        Some(Json::Unsigned(n)) => Some(Number::Unsigned(*n)),
        Some(Json::Negative(n)) => Some(Number::Negative(*n)),
        Some(Json::Fraction(r)) => Some(Number::Fraction(*r)),
        _ => None,
    }
}

/// Where a transform puts an element.
pub open spec fn rect_at(j: JsonView, key: Seq<char>) -> Rect {
    match j.member(key) {
        None => full_rect(),
        Some(t) => Rect {
            x: number_at(t, "x"@),
            y: number_at(t, "y"@),
            w: number_at(t, "w"@),
            h: number_at(t, "h"@),
        },
    }
}

/// Read where an element is drawn.
pub fn rect_of(transform: Option<&Json>) -> (r: Rect)
    ensures
        r == (match transform {
            None => full_rect(),
            Some(t) => Rect {
                x: number_at(t@, "x"@),
                y: number_at(t@, "y"@),
                w: number_at(t@, "w"@),
                h: number_at(t@, "h"@),
            },
        }),
{
    match transform {
        None => Rect { x: None, y: None, w: None, h: None },
        Some(t) => Rect {
            x: read_number(t, "x"),
            y: read_number(t, "y"),
            w: read_number(t, "w"),
            h: read_number(t, "h"),
        },
    }
}

/// The whole number of the member called `key`, of a whole number.
pub open spec fn integer_at(j: JsonView, key: Seq<char>) -> Option<i64> {
    match j.member(key) {
        Some(v) => v.integer(),
        None => None,
    }
}

/// The element in a JSON value; one without an id or a kind is none.
pub open spec fn element_of(e: JsonView) -> Option<ElementView> {
    match (e.text_at("id"@), e.text_at("kind"@)) {
        (Some(id), Some(kind)) => Some(
            ElementView {
                id,
                kind,
                z: match integer_at(e, "z"@) {
                    Some(z) => z,
                    None => 0,
                },
                visible: match e.boolean_at("visible"@) {
                    Some(b) => b,
                    None => true,
                },
                asset_id: e.text_at("assetId"@),
                audio_bus: match e.member("audio"@) {
                    Some(a) => match a.text_at("bus"@) {
                        Some(bus) => bus,
                        None => "clip"@,
                    },
                    None => "clip"@,
                },
                audio_muted: match e.member("audio"@) {
                    Some(a) => a.boolean_at("muted"@) == Some(true),
                    None => false,
                },
                color: match e.member("fields"@) {
                    Some(f) => match f.text_at("color"@) {
                        Some(c) => hex_rgb(c),
                        None => None,
                    },
                    None => None,
                },
                rect: rect_at(e, "transform"@),
                opacity: number_at(e, "opacity"@),
            },
        ),
        _ => None,
    }
}

/// A text of its own.
pub fn owned(s: Option<&str>) -> (r: Option<String>)
    ensures
        opt_text(r) == text_view(s),
{
    match s {
        Some(s) => Some(s.to_owned()),
        None => None,
    }
}

/// Read an element.
pub fn element_spec(e: &Json) -> (r: Option<ElementSpec>)
    ensures
        match r {
            Some(x) => element_of(e@) == Some(x@),
            None => element_of(e@) is None,
        },
{
    let id: &str = match e.str_at("id") {
        Some(s) => s,
        None => return None,
    };
    let kind: &str = match e.str_at("kind") {
        Some(s) => s,
        None => return None,
    };
    let z: i64 = match e.get("z") {
        Some(v) => match v.as_i64() {
            Some(z) => z,
            None => 0,
        },
        None => 0,
    };
    let visible: bool = match e.bool_at("visible") {
        Some(b) => b,
        None => true,
    };
    let mut audio_bus: String = "clip".to_owned();
    let mut audio_muted: bool = false;
    match e.get("audio") {
        Some(a) => {
            match a.str_at("bus") {
                Some(bus) => {
                    audio_bus = bus.to_owned();
                },
                None => {},
            }
            match a.bool_at("muted") {
                Some(m) => {
                    audio_muted = m;
                },
                None => {},
            }
        },
        None => {},
    }
    let mut color: Option<Rgb> = None;
    match e.get("fields") {
        Some(f) => {
            match f.str_at("color") {
                Some(c) => {
                    color = parse_hex_rgb(c);
                },
                None => {},
            }
        },
        None => {},
    }
    let x: ElementSpec = ElementSpec {
        id: id.to_owned(),
        kind: kind.to_owned(),
        z,
        visible,
        asset_id: owned(e.str_at("assetId")),
        audio_bus,
        audio_muted,
        color,
        rect: rect_of(e.get("transform")),
        opacity: read_number(e, "opacity"),
    };
    Some(x)
}

/// The elements of a vector.
pub open spec fn element_views(v: Seq<ElementSpec>) -> Seq<ElementView> {
    Seq::new(v.len(), |i: int| v[i]@)
}

/// How many leading elements of `ordered` lie no higher than `z`, from `i` on.
pub open spec fn z_place(ordered: Seq<ElementView>, z: i64, i: int) -> int
    decreases ordered.len() - i,
{
    if 0 <= i < ordered.len() && ordered[i].z <= z {
        z_place(ordered, z, i + 1)
    } else {
        i
    }
}

/// The elements among the first `n` values, lowest first; those of one height
/// stay in the order they came.
pub open spec fn ordered_elements(items: Seq<JsonView>, n: int) -> Seq<ElementView>
    decreases n,
{
    if n <= 0 {
        Seq::empty()
    } else {
        let below = ordered_elements(items, n - 1);
        match element_of(items[n - 1]) {
            None => below,
            Some(e) => below.insert(z_place(below, e.z, 0), e),
        }
    }
}

/// The items of an array member; none when there is no such array.
pub open spec fn array_at(j: JsonView, key: Seq<char>) -> Seq<JsonView> {
    match j.member(key) {
        Some(v) => match v.items() {
            Some(items) => items,
            None => Seq::empty(),
        },
        None => Seq::empty(),
    }
}

/// The views of a vector of values.
pub open spec fn json_views(v: Seq<Json>) -> Seq<JsonView> {
    Seq::new(v.len(), |i: int| v[i]@)
}

/// The items of an array member.
pub fn array_member<'a>(j: &'a Json, key: &str) -> (r: Option<&'a Vec<Json>>)
    ensures
        match r {
            Some(v) => json_views(v@) == array_at(j@, key@),
            None => array_at(j@, key@) == Seq::<JsonView>::empty(),
        },
{
    match j.get(key) {
        Some(a) => match a.as_array() {
            Some(v) => {
                assert(json_views(v@) =~= a@.items()->0);
                Some(v)
            },
            None => None,
        },
        None => None,
    }
}

fn read_elements(items: &Vec<Json>) -> (out: Vec<ElementSpec>)
    ensures
        element_views(out@) == ordered_elements(json_views(items@), items@.len() as int),
{
    let ghost all = json_views(items@);
    let mut out: Vec<ElementSpec> = Vec::new();
    let mut i: usize = 0;
    assert(element_views(out@) =~= Seq::empty());
    while i < items.len()
        invariant
            i <= items@.len(),
            all == json_views(items@),
            element_views(out@) == ordered_elements(all, i as int),
        decreases items@.len() - i,
    {
        let ghost below = element_views(out@);
        assert(all[i as int] == items@[i as int]@);
        match element_spec(&items[i]) {
            Some(e) => {
                let z: i64 = e.z;
                let mut k: usize = 0;
                while k < out.len() && out[k].z <= z
                    invariant
                        k <= out@.len(),
                        below == element_views(out@),
                        z_place(below, z, 0) == z_place(below, z, k as int),
                    decreases out@.len() - k,
                {
                    assert(below[k as int] == out@[k as int]@);
                    k = k + 1;
                }
                proof {
                    if k < out@.len() {
                        assert(below[k as int] == out@[k as int]@);
                    }
                }
                let ghost v = e@;
                out.insert(k, e);
                assert(element_views(out@) =~= below.insert(k as int, v));
            },
            None => {},
        }
        i = i + 1;
    }
    out
}

/// What is known of a package's assets.
pub struct AssetTables {
    pub kind: Map<Seq<char>, Seq<char>>,
    pub source: Map<Seq<char>, Seq<char>>,
    pub period: Map<Seq<char>, u32>,
}

/// The loop period an asset declares, held in 32 bits.
pub open spec fn period_of(asset: JsonView) -> Option<u32> {
    match asset.member("loop"@) {
        Some(l) => match l.unsigned_at("periodFrames"@) {
            Some(n) => Some((n % 0x1_0000_0000) as u32),
            None => None,
        },
        None => None,
    }
}

/// The tables of the first `n` assets. An asset needs an id, a kind and a
/// source; a later one of the same id counts.
pub open spec fn asset_tables(assets: Seq<JsonView>, n: int) -> AssetTables
    decreases n,
{
    if n <= 0 {
        AssetTables { kind: Map::empty(), source: Map::empty(), period: Map::empty() }
    } else {
        let t = asset_tables(assets, n - 1);
        let a = assets[n - 1];
        match (a.text_at("id"@), a.text_at("kind"@), a.text_at("source"@)) {
            (Some(id), Some(kind), Some(source)) => AssetTables {
                kind: t.kind.insert(id, kind),
                source: t.source.insert(id, source),
                period: match period_of(a) {
                    Some(p) => t.period.insert(id, p),
                    None => t.period,
                },
            },
            _ => t,
        }
    }
}

/// The image files among the first `n` assets: their ids and where they are.
pub open spec fn image_files(assets: Seq<JsonView>, n: int) -> Seq<(Seq<char>, Seq<char>)>
    decreases n,
{
    if n <= 0 {
        Seq::empty()
    } else {
        let rest = image_files(assets, n - 1);
        let a = assets[n - 1];
        match (a.text_at("id"@), a.text_at("kind"@), a.text_at("source"@)) {
            (Some(id), Some(kind), Some(source)) => if kind == "image"@ {
                rest.push((id, source))
            } else {
                rest
            },
            _ => rest,
        }
    }
}

/// Pairs of strings, as contracts speak of them.
pub open spec fn pair_views(v: Seq<(String, String)>) -> Seq<(Seq<char>, Seq<char>)> {
    Seq::new(v.len(), |i: int| (v[i].0@, v[i].1@))
}

/// The image files a package needs: their ids and where they are.
pub fn image_sources(manifest: &Json) -> (out: Vec<(String, String)>)
    ensures
        pair_views(out@) == image_files(
            array_at(manifest@, "assets"@),
            array_at(manifest@, "assets"@).len() as int,
        ),
{
    let mut out: Vec<(String, String)> = Vec::new();
    assert(pair_views(out@) =~= Seq::empty());
    let assets: &Vec<Json> = match array_member(manifest, "assets") {
        Some(a) => a,
        None => return out,
    };
    let ghost all = json_views(assets@);
    let n: usize = assets.len();
    let mut i: usize = 0;
    while i < n
        invariant
            i <= n == assets@.len(),
            all == json_views(assets@),
            pair_views(out@) == image_files(all, i as int),
        decreases n - i,
    {
        let a: &Json = &assets[i];
        assert(all[i as int] == a@);
        match (a.str_at("id"), a.str_at("kind"), a.str_at("source")) {
            (Some(id), Some(kind), Some(source)) => {
                if str_eq(kind, "image") {
                    let ghost was = pair_views(out@);
                    out.push((id.to_owned(), source.to_owned()));
                    assert(pair_views(out@) =~= was.push((id@, source@)));
                }
            },
            _ => {},
        }
        i = i + 1;
    }
    out
}

/// The memory a loop declares, where it fits the field that holds it.
pub open spec fn budget_of(asset: JsonView) -> Option<u32> {
    match asset.member("loop"@) {
        Some(l) => match l.unsigned_at("vramBudgetMib"@) {
            Some(n) => if n <= u32::MAX {
                Some(n as u32)
            } else {
                None
            },
            None => None,
        },
        None => None,
    }
}

/// The memory that the first `n` assets declare for an asset; the last one of
/// its id that declares any counts.
pub open spec fn declared_budget(assets: Seq<JsonView>, id: Seq<char>, n: int) -> Option<u32>
    decreases n,
{
    if n <= 0 {
        None
    } else {
        match (assets[n - 1].text_at("id"@), budget_of(assets[n - 1])) {
            (Some(i), Some(b)) => if i == id {
                Some(b)
            } else {
                declared_budget(assets, id, n - 1)
            },
            _ => declared_budget(assets, id, n - 1),
        }
    }
}

/// The memory a package declares for the loop of an asset, in MiB.
pub fn declared_loop_budget(manifest: &Json, asset_id: &str) -> (r: Option<u32>)
    ensures
        r == declared_budget(
            array_at(manifest@, "assets"@),
            asset_id@,
            array_at(manifest@, "assets"@).len() as int,
        ),
{
    let assets: &Vec<Json> = match array_member(manifest, "assets") {
        Some(a) => a,
        None => return None,
    };
    let ghost all = json_views(assets@);
    let mut n: usize = assets.len();
    while n > 0
        invariant
            n <= assets@.len(),
            all == json_views(assets@),
            all == array_at(manifest@, "assets"@),
            declared_budget(all, asset_id@, all.len() as int) == declared_budget(
                all,
                asset_id@,
                n as int,
            ),
        decreases n,
    {
        let a: &Json = &assets[n - 1];
        assert(all[n - 1] == a@);
        match (a.str_at("id"), a.get("loop")) {
            (Some(id), Some(l)) => {
                match l.u64_at("vramBudgetMib") {
                    Some(b) => {
                        if str_eq(id, asset_id) && b <= 0xffff_ffff {
                            return Some(b as u32);
                        }
                    },
                    None => {},
                }
            },
            _ => {},
        }
        n = n - 1;
    }
    None
}

/// What is known of a package's items.
pub struct ItemTables {
    pub scene: Map<Seq<char>, Seq<char>>,
    pub kind: Map<Seq<char>, Seq<char>>,
    pub policy: Map<Seq<char>, Seq<char>>,
}

/// The tables of the first `n` items.
pub open spec fn item_tables(items: Seq<JsonView>, n: int) -> ItemTables
    decreases n,
{
    if n <= 0 {
        ItemTables { scene: Map::empty(), kind: Map::empty(), policy: Map::empty() }
    } else {
        let t = item_tables(items, n - 1);
        let i = items[n - 1];
        match i.text_at("id"@) {
            None => t,
            Some(id) => ItemTables {
                scene: match i.text_at("sceneRef"@) {
                    Some(s) => t.scene.insert(id, s),
                    None => t.scene,
                },
                kind: match i.text_at("kind"@) {
                    Some(k) => t.kind.insert(id, k),
                    None => t.kind,
                },
                policy: t.policy.insert(
                    id,
                    match i.text_at("audioPolicy"@) {
                        Some(p) => p,
                        None => "clip"@,
                    },
                ),
            },
        }
    }
}

/// The scenes among the first `n` values.
pub open spec fn scene_table(scenes: Seq<JsonView>, n: int) -> Map<Seq<char>, Seq<ElementView>>
    decreases n,
{
    if n <= 0 {
        Map::empty()
    } else {
        let t = scene_table(scenes, n - 1);
        let s = scenes[n - 1];
        match s.text_at("id"@) {
            None => t,
            Some(id) => {
                let items = array_at(s, "elements"@);
                t.insert(id, ordered_elements(items, items.len() as int))
            },
        }
    }
}

/// The part of a package that drawing needs.
pub struct IndexView {
    pub items: ItemTables,
    pub scenes: Map<Seq<char>, Seq<ElementView>>,
    pub assets: AssetTables,
    /// The pictures that were read, by asset.
    pub images: Map<Seq<char>, (u32, u32, Seq<u8>)>,
    pub requested_quality: Option<QualityProfile>,
    pub declared_house_rate: Option<u32>,
}

/// The house rate a package declares, held in 32 bits.
pub open spec fn house_rate_of(manifest: JsonView) -> Option<u32> {
    match manifest.member("show"@) {
        None => None,
        Some(show) => match show.member("video"@) {
            None => None,
            Some(video) => match video.unsigned_at("frameRate"@) {
                Some(r) => Some((r % 0x1_0000_0000) as u32),
                None => None,
            },
        },
    }
}

/// The index of a package, before its images are read.
pub open spec fn index_of(manifest: JsonView) -> IndexView {
    let assets = array_at(manifest, "assets"@);
    let scenes = array_at(manifest, "scenes"@);
    let items = match manifest.member("rundown"@) {
        Some(r) => array_at(r, "items"@),
        None => Seq::empty(),
    };
    IndexView {
        items: item_tables(items, items.len() as int),
        scenes: scene_table(scenes, scenes.len() as int),
        assets: asset_tables(assets, assets.len() as int),
        images: Map::empty(),
        requested_quality: match manifest.text_at("qualityProfile"@) {
            Some(q) => quality_of(q),
            None => None,
        },
        declared_house_rate: house_rate_of(manifest),
    }
}

/// Pictures by asset, as contracts speak of them.
pub open spec fn picture_table(m: Map<Seq<char>, DecodedImage>) -> Map<
    Seq<char>,
    (u32, u32, Seq<u8>),
> {
    m.map_values(|i: DecodedImage| pixels_of(i))
}

/// The index with one more picture, if there is one.
pub open spec fn with_picture(
    idx: IndexView,
    id: Seq<char>,
    picture: Option<(u32, u32, Seq<u8>)>,
) -> IndexView {
    match picture {
        Some(p) => IndexView { images: idx.images.insert(id, p), ..idx },
        None => idx,
    }
}

/// The part of a package that drawing needs, indexed when it is loaded.
#[derive(Debug)]
pub struct PackageIndex {
    pub item_scene: StrMap<String>,
    pub item_kind: StrMap<String>,
    pub item_audio_policy: StrMap<String>,
    pub scenes: StrMap<Vec<ElementSpec>>,
    pub images: StrMap<DecodedImage>,
    pub asset_kind: StrMap<String>,
    pub requested_quality: Option<QualityProfile>,
    pub asset_source: StrMap<String>,
    pub declared_loop_period: StrMap<u32>,
    pub declared_house_rate: Option<u32>,
}

/// A map of strings, as contracts speak of it.
pub open spec fn texts(m: Map<Seq<char>, String>) -> Map<Seq<char>, Seq<char>> {
    m.map_values(|s: String| s@)
}

/// A map of scenes, as contracts speak of it.
pub open spec fn scene_views(m: Map<Seq<char>, Vec<ElementSpec>>) -> Map<
    Seq<char>,
    Seq<ElementView>,
> {
    m.map_values(|v: Vec<ElementSpec>| element_views(v@))
}

proof fn lemma_texts_insert(m: Map<Seq<char>, String>, key: Seq<char>, s: String)
    ensures
        texts(m.insert(key, s)) == texts(m).insert(key, s@),
{
    assert(texts(m.insert(key, s)) =~= texts(m).insert(key, s@));
}

impl View for PackageIndex {
    type V = IndexView;

    open spec fn view(&self) -> IndexView {
        IndexView {
            items: ItemTables {
                scene: texts(self.item_scene@),
                kind: texts(self.item_kind@),
                policy: texts(self.item_audio_policy@),
            },
            scenes: scene_views(self.scenes@),
            assets: AssetTables {
                kind: texts(self.asset_kind@),
                source: texts(self.asset_source@),
                period: self.declared_loop_period@,
            },
            images: picture_table(self.images@),
            requested_quality: self.requested_quality,
            declared_house_rate: self.declared_house_rate,
        }
    }
}

impl PackageIndex {
    /// Every table is well formed.
    pub open spec fn wf(self) -> bool {
        &&& self.item_scene.wf()
        &&& self.item_kind.wf()
        &&& self.item_audio_policy.wf()
        &&& self.scenes.wf()
        &&& self.images.wf()
        &&& self.asset_kind.wf()
        &&& self.asset_source.wf()
        &&& self.declared_loop_period.wf()
    }

    /// The index of nothing.
    pub fn empty() -> (idx: PackageIndex)
        ensures
            idx.wf(),
            idx@ == (IndexView {
                items: item_tables(Seq::empty(), 0),
                scenes: Map::empty(),
                assets: asset_tables(Seq::empty(), 0),
                images: Map::empty(),
                requested_quality: None,
                declared_house_rate: None,
            }),
    {
        let idx: PackageIndex = PackageIndex {
            item_scene: StrMap::new(),
            item_kind: StrMap::new(),
            item_audio_policy: StrMap::new(),
            scenes: StrMap::new(),
            images: StrMap::new(),
            asset_kind: StrMap::new(),
            requested_quality: None,
            asset_source: StrMap::new(),
            declared_loop_period: StrMap::new(),
            declared_house_rate: None,
        };
        assert(idx@.items.scene =~= Map::empty());
        assert(idx@.items.kind =~= Map::empty());
        assert(idx@.items.policy =~= Map::empty());
        assert(idx@.assets.kind =~= Map::empty());
        assert(idx@.assets.source =~= Map::empty());
        assert(idx@.scenes =~= Map::empty());
        assert(idx@.images =~= Map::empty());
        idx
    }

    fn index_assets(&mut self, assets: &Vec<Json>)
        requires
            old(self).wf(),
            old(self)@.assets == asset_tables(Seq::empty(), 0),
        ensures
            final(self).wf(),
            final(self)@ == (IndexView {
                assets: asset_tables(json_views(assets@), assets@.len() as int),
                ..old(self)@
            }),
    {
        let ghost all = json_views(assets@);
        let ghost start = self@;
        let mut i: usize = 0;
        while i < assets.len()
            invariant
                i <= assets@.len(),
                all == json_views(assets@),
                self.wf(),
                self@ == (IndexView { assets: asset_tables(all, i as int), ..start }),
            decreases assets@.len() - i,
        {
            let a: &Json = &assets[i];
            let ghost t = asset_tables(all, i as int);
            assert(all[i as int] == a@);
            match (a.str_at("id"), a.str_at("kind"), a.str_at("source")) {
                (Some(id), Some(kind), Some(source)) => {
                    let ghost k0 = self.asset_kind@;
                    let ghost s0 = self.asset_source@;
                    let kind_text: String = kind.to_owned();
                    let source_text: String = source.to_owned();
                    proof {
                        lemma_texts_insert(k0, id@, kind_text);
                        lemma_texts_insert(s0, id@, source_text);
                    }
                    self.asset_kind.insert(id, kind_text);
                    self.asset_source.insert(id, source_text);
                    match a.get("loop") {
                        Some(l) => {
                            match l.u64_at("periodFrames") {
                                Some(n) => {
                                    self.declared_loop_period.insert(
                                        id,
                                        (n % 0x1_0000_0000) as u32,
                                    );
                                },
                                None => {},
                            }
                        },
                        None => {},
                    }
                },
                _ => {},
            }
            i = i + 1;
        }
    }

    fn index_scenes(&mut self, scenes: &Vec<Json>)
        requires
            old(self).wf(),
            old(self)@.scenes == Map::<Seq<char>, Seq<ElementView>>::empty(),
        ensures
            final(self).wf(),
            final(self)@ == (IndexView {
                scenes: scene_table(json_views(scenes@), scenes@.len() as int),
                ..old(self)@
            }),
    {
        let ghost all = json_views(scenes@);
        let ghost start = self@;
        let mut i: usize = 0;
        while i < scenes.len()
            invariant
                i <= scenes@.len(),
                all == json_views(scenes@),
                self.wf(),
                self@ == (IndexView { scenes: scene_table(all, i as int), ..start }),
            decreases scenes@.len() - i,
        {
            let s: &Json = &scenes[i];
            assert(all[i as int] == s@);
            match s.str_at("id") {
                Some(id) => {
                    let elements: Vec<ElementSpec> = match array_member(s, "elements") {
                        Some(items) => read_elements(items),
                        None => Vec::new(),
                    };
                    let ghost items = array_at(s@, "elements"@);
                    assert(element_views(elements@) =~= ordered_elements(
                        items,
                        items.len() as int,
                    ));
                    let ghost m0 = self.scenes@;
                    self.scenes.insert(id, elements);
                    assert(scene_views(m0.insert(id@, elements)) =~= scene_views(m0).insert(
                        id@,
                        element_views(elements@),
                    ));
                },
                None => {},
            }
            i = i + 1;
        }
    }

    fn index_items(&mut self, items: &Vec<Json>)
        requires
            old(self).wf(),
            old(self)@.items == item_tables(Seq::empty(), 0),
        ensures
            final(self).wf(),
            final(self)@ == (IndexView {
                items: item_tables(json_views(items@), items@.len() as int),
                ..old(self)@
            }),
    {
        let ghost all = json_views(items@);
        let ghost start = self@;
        let mut i: usize = 0;
        while i < items.len()
            invariant
                i <= items@.len(),
                all == json_views(items@),
                self.wf(),
                self@ == (IndexView { items: item_tables(all, i as int), ..start }),
            decreases items@.len() - i,
        {
            let item: &Json = &items[i];
            assert(all[i as int] == item@);
            match item.str_at("id") {
                Some(id) => {
                    match item.str_at("kind") {
                        Some(kind) => {
                            let text: String = kind.to_owned();
                            proof {
                                lemma_texts_insert(self.item_kind@, id@, text);
                            }
                            self.item_kind.insert(id, text);
                        },
                        None => {},
                    }
                    let policy: String = match item.str_at("audioPolicy") {
                        Some(p) => p.to_owned(),
                        None => "clip".to_owned(),
                    };
                    proof {
                        lemma_texts_insert(self.item_audio_policy@, id@, policy);
                    }
                    self.item_audio_policy.insert(id, policy);
                    match item.str_at("sceneRef") {
                        Some(scene) => {
                            let text: String = scene.to_owned();
                            proof {
                                lemma_texts_insert(self.item_scene@, id@, text);
                            }
                            self.item_scene.insert(id, text);
                        },
                        None => {},
                    }
                },
                None => {},
            }
            i = i + 1;
        }
    }

    /// Index a package. Its images come later, one by one.
    pub fn build(manifest: &Json) -> (idx: PackageIndex)
        ensures
            idx.wf(),
            idx@ == index_of(manifest@),
    {
        let mut idx: PackageIndex = PackageIndex::empty();
        match manifest.str_at("qualityProfile") {
            Some(q) => {
                idx.requested_quality = parse_quality(q);
            },
            None => {},
        }
        match manifest.get("show") {
            Some(show) => {
                match show.get("video") {
                    Some(video) => {
                        match video.u64_at("frameRate") {
                            Some(r) => {
                                idx.declared_house_rate = Some((r % 0x1_0000_0000) as u32);
                            },
                            None => {},
                        }
                    },
                    None => {},
                }
            },
            None => {},
        }
        match array_member(manifest, "assets") {
            Some(assets) => idx.index_assets(assets),
            None => {},
        }
        match array_member(manifest, "scenes") {
            Some(scenes) => idx.index_scenes(scenes),
            None => {},
        }
        match manifest.get("rundown") {
            Some(rundown) => {
                match array_member(rundown, "items") {
                    Some(items) => idx.index_items(items),
                    None => {},
                }
            },
            None => {},
        }
        idx
    }

    /// Take an image asset's picture into the index, if there is one.
    pub fn install_picture(&mut self, id: &str, picture: Option<DecodedImage>)
        requires
            old(self).wf(),
        ensures
            final(self).wf(),
            final(self)@ == with_picture(old(self)@, id@, picture_view(picture)),
    {
        match picture {
            Some(i) => {
                let ghost before = self.images@;
                self.images.insert(id, i);
                assert(picture_table(self.images@) =~= picture_table(before).insert(
                    id@,
                    pixels_of(i),
                ));
            },
            None => {},
        }
    }

    /// Take an image asset's file into the index. What is not an image is left
    /// out; false says so.
    pub fn install_image(&mut self, id: &str, bytes: &[u8]) -> (taken: bool)
        requires
            old(self).wf(),
        ensures
            final(self).wf(),
            exists|p: Option<(u32, u32, Seq<u8>)>|
                #[trigger] image_reads_as(bytes@, p) && taken == (p is Some) && final(self)@
                    == with_picture(old(self)@, id@, p),
            taken ==> final(self)@.images[id@].2.len() == 4 * final(self)@.images[id@].0 * final(
                self)@.images[id@].1,
    {
        let picture: Option<DecodedImage> = DecodedImage::decode(bytes);
        let taken: bool = picture.is_some();
        let ghost p = picture_view(picture);
        self.install_picture(id, picture);
        assert(image_reads_as(bytes@, p));
        taken
    }
}

} // verus!

//! The show package: typed data, as a package declares it.
//!
//! Numbers with a fraction are carried, not computed with: see [`Real`].

use crate::json::{Json, Real};
use vstd::prelude::*;

verus! {

/// A show package: what is aired, from what, and how it is controlled.
#[derive(Debug)]
pub struct Manifest {
    pub manifest_version: String,
    pub network: Network,
    pub channel: Option<Channel>,
    pub show: Show,
    pub assets: Vec<Asset>,
    pub templates: Vec<GraphicTemplate>,
    pub rundown: Sequence,
    pub control: Control,
    pub features: Option<Features>,
    pub scenes: Vec<Scene>,
    pub overlays: Vec<Overlay>,
    pub transitions: Vec<TransitionPreset>,
    pub automation: Vec<AutomationRule>,
    pub plugins: Vec<Plugin>,
    pub quality_profile: Option<QualityProfile>,
}

/// How demanding a package is on the machine.
#[derive(Debug, Clone, Copy, PartialEq, Eq)]
pub enum QualityProfile {
    Potato,
    Consumer,
    Pro,
    Reference,
}

/// The network a show belongs to.
#[derive(Debug)]
pub struct Network {
    pub id: String,
    pub name: String,
    pub logo_asset_id: Option<String>,
    pub fallback_audio_asset_id: Option<String>,
}

/// The channel a show runs on.
#[derive(Debug)]
pub struct Channel {
    pub id: String,
    pub name: Option<String>,
    pub future_scheduler: Option<Json>,
}

/// The show itself.
#[derive(Debug)]
pub struct Show {
    pub id: String,
    pub title: String,
    pub episode_code: Option<String>,
    pub video: VideoSpec,
    pub audio: AudioSpec,
    pub transitions: Option<TransitionDefaults>,
    pub fallback_asset_id: String,
    pub outputs: Option<OutputDefaults>,
}

/// Program video.
#[derive(Debug)]
pub struct VideoSpec {
    pub width: u32,
    pub height: u32,
    pub frame_rate: FrameRate,
    pub color_space: ColorSpace,
    pub aspect_ratio: Option<String>,
}

/// House frame rates.
#[derive(Debug, Clone, Copy, PartialEq, Eq)]
pub enum FrameRate {
    Fps30,
    Fps60,
}

/// Program color spaces.
#[derive(Debug, Clone, Copy, PartialEq, Eq)]
pub enum ColorSpace {
    Rec709,
}

/// Program audio.
#[derive(Debug)]
pub struct AudioSpec {
    pub sample_rate: u32,
    pub loudness_target_lufs: Real,
    pub true_peak_dbtp: Real,
    pub default_language: Option<String>,
}

/// How items follow each other unless a take says otherwise.
#[derive(Debug, Clone, Copy, PartialEq, Eq, Default)]
pub enum DefaultTake {
    #[default]
    Cut,
    Mix,
}

/// Transition defaults of a show.
#[derive(Debug)]
pub struct TransitionDefaults {
    pub default_take: DefaultTake,
    pub mix_duration_frames: u32,
}

/// The outputs a show declares.
#[derive(Debug)]
pub struct OutputDefaults {
    pub record: Option<RecordOutput>,
    pub stream: Option<StreamOutput>,
    pub preview: Option<PreviewOutput>,
}

/// Recording to disk.
#[derive(Debug)]
pub struct RecordOutput {
    pub container: RecordContainer,
    pub directory: Option<String>,
    pub tap_path: Option<TapPathPreference>,
    pub isolation: Option<Json>,
}

/// Recording containers.
#[derive(Debug, Clone, Copy, PartialEq, Eq, Default)]
pub enum RecordContainer {
    #[default]
    FragmentedMp4,
    Matroska,
}

/// Streaming.
#[derive(Debug)]
pub struct StreamOutput {
    pub protocol: Option<StreamProtocol>,
    pub url: Option<String>,
    pub video_bitrate_kbps: Option<u32>,
    pub audio_bitrate_kbps: Option<u32>,
    pub tap_path: Option<TapPathPreference>,
}

/// Streaming transports.
#[derive(Debug, Clone, Copy, PartialEq, Eq)]
pub enum StreamProtocol {
    Rtmp,
    Srt,
    Whip,
}

/// The preview output.
#[derive(Debug)]
pub struct PreviewOutput {
    pub enabled: bool,
    pub protocol: PreviewProtocol,
    pub path: Option<String>,
}

/// Preview transports.
#[derive(Debug, Clone, Copy, PartialEq, Eq, Default)]
pub enum PreviewProtocol {
    #[default]
    Whep,
    Mjpeg,
}

/// A media asset.
#[derive(Debug)]
pub struct Asset {
    pub id: String,
    pub kind: AssetKind,
    pub source: String,
    pub sha256: Option<String>,
    pub format: Option<AssetFormat>,
    pub cadence: Cadence,
    pub source_frame_rate: Option<Real>,
    pub expected_duration_frames: Option<u32>,
    pub pulldown: Option<Pulldown>,
    pub loop_: Option<LoopMetadata>,
    pub loudness: Option<LoudnessReport>,
}

/// Kinds of assets.
#[derive(Debug, Clone, Copy, PartialEq, Eq)]
pub enum AssetKind {
    Video,
    AlphaVideo,
    Audio,
    Image,
    Font,
    Rss,
    Wasm,
    Wgsl,
}

/// Asset formats.
#[derive(Debug, Clone, Copy, PartialEq, Eq)]
pub enum AssetFormat {
    H264,
    Prores4444,
    HapAlpha,
    PngSequence,
    Aac,
    Pcm,
    Wav,
    Png,
    Svg,
    Ttf,
    Otf,
    Rss,
}

/// How a source of another rate is shown.
#[derive(Debug, Clone, Copy, PartialEq, Eq, Default)]
pub enum Cadence {
    #[default]
    Preserve,
    Interpolate,
}

/// How source frames repeat.
#[derive(Debug)]
pub enum Pulldown {
    Pattern { pattern: Vec<u32> },
    RepeatNthSourceFrame { n: u32 },
    RepeatOnePerNSourceFrames { n: u32 },
}

/// How an asset loops.
#[derive(Debug)]
pub struct LoopMetadata {
    pub period_frames: u32,
    pub t0_frames: u32,
    pub seamless: bool,
    pub cache_policy: CachePolicy,
    pub vram_budget_mib: Option<u32>,
    pub texture_format: TextureFormat,
}

/// Where a loop is asked to live.
#[derive(Debug, Clone, Copy, PartialEq, Eq, Default)]
pub enum CachePolicy {
    #[default]
    Auto,
    Vram,
    Stream,
}

/// The texture format a loop asks for.
#[derive(Debug, Clone, Copy, PartialEq, Eq, Default)]
pub enum TextureFormat {
    #[default]
    Auto,
    Nv12,
    Rgba8,
    Nv12Alpha,
    Bc7,
}

/// Measured loudness of an asset.
#[derive(Debug)]
pub struct LoudnessReport {
    pub integrated_lufs: Option<Real>,
    pub true_peak_dbtp: Option<Real>,
    pub loudness_range: Option<Real>,
    pub measured_by: Option<String>,
}

/// A graphic template.
#[derive(Debug)]
pub struct GraphicTemplate {
    pub id: String,
    pub kind: TemplateKind,
    pub font_asset_ids: Vec<String>,
    pub fields: Vec<TemplateField>,
}

/// Kinds of templates.
#[derive(Debug, Clone, Copy, PartialEq, Eq)]
pub enum TemplateKind {
    LowerThirdHeadline,
    LowerThirdName,
    BreakingBanner,
    Ticker,
    Generic,
}

/// A field of a template.
#[derive(Debug)]
pub struct TemplateField {
    pub name: String,
    pub label: Option<String>,
    pub multiline: bool,
    pub direction: TextDirection,
    pub max_length: Option<u32>,
}

/// Text directions.
#[derive(Debug, Clone, Copy, PartialEq, Eq, Default)]
pub enum TextDirection {
    #[default]
    Auto,
    Ltr,
    Rtl,
}

/// Where an element is drawn, in fractions of the picture.
#[derive(Debug)]
pub struct Transform {
    pub x: Real,
    pub y: Real,
    pub w: Real,
    pub h: Real,
    pub crop: Option<Crop>,
}

/// The part of a source that is drawn.
#[derive(Debug)]
pub struct Crop {
    pub u: Real,
    pub v: Real,
    pub w: Real,
    pub h: Real,
}

/// Chroma keying of an element.
#[derive(Debug)]
pub struct ChromaKey {
    pub enabled: bool,
    pub color: ChromaColor,
    pub custom_color_hex: Option<String>,
    pub tolerance: Option<Real>,
    pub softness: Option<Real>,
    pub spill_suppression: Option<Real>,
    pub edge_feather: Option<Real>,
    pub garbage_matte: Option<Transform>,
}

/// Key colors.
#[derive(Debug, Clone, Copy, PartialEq, Eq, Default)]
pub enum ChromaColor {
    #[default]
    Green,
    Blue,
    Custom,
}

/// The audio of an element.
#[derive(Debug)]
pub struct LayerAudio {
    pub bus: AudioBus,
    pub gain_db: Option<Real>,
    pub muted: bool,
}

/// Buses an element can feed.
#[derive(Debug, Clone, Copy, PartialEq, Eq, Default)]
pub enum AudioBus {
    #[default]
    Clip,
    Guest,
    Sfx,
    Music,
    Mic,
}

/// A clock element.
#[derive(Debug)]
pub struct ClockConfig {
    pub mode: ClockMode,
    pub timezone: String,
    pub format: ClockFormat,
    pub locale: Option<String>,
    pub blink_colon: bool,
}

/// What a clock shows.
#[derive(Debug, Clone, Copy, PartialEq, Eq, Default)]
pub enum ClockMode {
    #[default]
    Wall,
    ShowElapsed,
}

/// How a clock shows it.
#[derive(Debug, Clone, Copy, PartialEq, Eq, Default)]
pub enum ClockFormat {
    HhMm,
    #[default]
    HhMmSs,
    HhMmA,
    Locale,
}

/// Control surfaces.
#[derive(Debug)]
pub struct Control {
    pub bindings: Vec<ControlBinding>,
    pub companion: Option<Json>,
}

/// What a control does.
#[derive(Debug)]
pub struct ControlBinding {
    pub id: String,
    pub description: Option<String>,
    pub trigger: Option<BindingTrigger>,
    pub action: String,
    pub payload: Option<Json>,
}

/// What triggers a binding.
#[derive(Debug)]
pub struct BindingTrigger {
    pub kind: TriggerKind,
    pub page: Option<u32>,
    pub bank: Option<u32>,
    pub key: Option<String>,
}

/// Kinds of triggers.
#[derive(Debug, Clone, Copy, PartialEq, Eq)]
pub enum TriggerKind {
    CompanionKey,
    Hotkey,
    Midi,
    WebButton,
    Osc,
}

/// Optional features.
#[derive(Debug)]
pub struct Features {
    pub ndi: Option<NdiFeature>,
}

/// The NDI feature.
#[derive(Debug)]
pub struct NdiFeature {
    pub enabled: bool,
}

/// An element of a scene or overlay.
#[derive(Debug)]
pub struct Element {
    pub id: String,
    pub kind: ElementKind,
    pub z: i32,
    pub visible: bool,
    pub asset_id: Option<String>,
    pub feed_asset_id: Option<String>,
    pub camera_id: Option<String>,
    pub guest_id: Option<String>,
    pub template_id: Option<String>,
    pub fields: Option<Vec<(String, Json)>>,
    pub loop_: Option<LoopMetadata>,
    pub transform: Option<Transform>,
    pub opacity: Real,
    pub chroma_key: Option<ChromaKey>,
    pub audio: Option<LayerAudio>,
    pub clock: Option<ClockConfig>,
    pub scene_ref: Option<String>,
    pub plugin_id: Option<String>,
    pub children: Vec<String>,
    pub enter_animation: Option<Animation>,
    pub exit_animation: Option<Animation>,
}

/// Kinds of elements.
#[derive(Debug, Clone, Copy, PartialEq, Eq)]
pub enum ElementKind {
    VideoLoop,
    Clip,
    Camera,
    Guest,
    Graphic,
    Ticker,
    Clock,
    SceneRef,
    Group,
    Plugin,
}

/// How an element enters or leaves.
#[derive(Debug)]
pub struct Animation {
    pub duration_frames: Option<u32>,
    pub delay_frames: u32,
    pub easing: Easing,
    pub bezier: Option<(Real, Real, Real, Real)>,
}

/// Easing curves.
#[derive(Debug, Clone, Copy, PartialEq, Eq, Default)]
pub enum Easing {
    Linear,
    EaseIn,
    EaseOut,
    #[default]
    EaseInOut,
    CubicBezier,
    Spring,
}

/// A scene: elements in stacking order.
#[derive(Debug)]
pub struct Scene {
    pub id: String,
    pub name: Option<String>,
    pub base: Option<String>,
    pub merge_mode: MergeMode,
    pub elements: Vec<Element>,
    pub audio: Option<Vec<(String, Json)>>,
}

/// How a scene joins its base.
#[derive(Debug, Clone, Copy, PartialEq, Eq, Default)]
pub enum MergeMode {
    #[default]
    Inherit,
    Replace,
    Merge,
}

/// An overlay.
#[derive(Debug)]
pub struct Overlay {
    pub id: String,
    pub elements: Vec<Element>,
}

/// A named transition.
#[derive(Debug)]
pub struct TransitionPreset {
    pub id: String,
    pub kind: Option<TransitionKind>,
    pub duration_frames: Option<u32>,
    pub easing: Option<Easing>,
    pub element_overrides: Option<Vec<(String, Json)>>,
}

/// Kinds of transitions.
#[derive(Debug, Clone, Copy, PartialEq, Eq)]
pub enum TransitionKind {
    Cut,
    Mix,
    Wipe,
    Sting,
    Move,
    Dve,
}

/// An automation rule.
#[derive(Debug)]
pub struct AutomationRule {
    pub id: String,
    pub trigger: AutomationTrigger,
    pub conditions: Vec<Vec<(String, Json)>>,
    pub action: AutomationAction,
    pub enabled: bool,
}

/// What triggers a rule.
#[derive(Debug)]
pub struct AutomationTrigger {
    pub kind: AutomationTriggerKind,
    pub params: Option<Vec<(String, Json)>>,
}

/// Kinds of automation triggers.
#[derive(Debug, Clone, Copy, PartialEq, Eq)]
pub enum AutomationTriggerKind {
    MediaEnd,
    MediaStart,
    Timer,
    TimeOfDay,
    AudioLevel,
    Hotkey,
    RssKeyword,
    StreamHealth,
    StateChange,
}

/// What a rule does.
#[derive(Debug)]
pub struct AutomationAction {
    pub command: String,
    pub payload: Option<Vec<(String, Json)>>,
}

/// A run of items.
#[derive(Debug)]
pub struct Sequence {
    pub id: String,
    pub title: Option<String>,
    pub label: Option<String>,
    pub items: Vec<Item>,
}

/// One item of a sequence.
#[derive(Debug)]
pub struct Item {
    pub id: String,
    pub kind: ItemKind,
    pub scene_ref: Option<String>,
    pub sequence_ref: Option<String>,
    pub asset_id: Option<String>,
    pub source_id: Option<String>,
    pub duration_frames: Option<u32>,
    pub auto_follow: bool,
    pub audio_policy: AudioPolicy,
}

/// Kinds of items.
#[derive(Debug, Clone, Copy, PartialEq, Eq)]
pub enum ItemKind {
    SceneRef,
    SequenceRef,
    ClipRef,
    LiveRef,
    Slate,
}

/// What an item does to the music bed.
#[derive(Debug, Clone, Copy, PartialEq, Eq, Default)]
pub enum AudioPolicy {
    #[default]
    Clip,
    Bed,
    Mute,
}

/// A plugin.
#[derive(Debug)]
pub struct Plugin {
    pub id: String,
    pub kind: PluginKind,
    pub source: String,
    pub version: Option<String>,
    pub max_memory_mib: u32,
    pub permissions: Vec<PluginPermission>,
}

/// Kinds of plugins.
#[derive(Debug, Clone, Copy, PartialEq, Eq)]
pub enum PluginKind {
    Effect,
    Element,
}

/// What a plugin may use.
#[derive(Debug, Clone, Copy, PartialEq, Eq)]
pub enum PluginPermission {
    Network,
    Disk,
    Camera,
    Microphone,
}

/// Which way frames are asked to reach an encoder.
#[derive(Debug, Clone, Copy, PartialEq, Eq, Structural)]
pub enum TapPathPreference {
    /// Whatever the machine allows.
    Auto,
    /// Through memory.
    CpuReadback,
}

/// Loudness target of a show that names none: -16 LUFS.
pub fn default_loudness() -> (r: Real)
    ensures
        r.bits == 0xc030_0000_0000_0000,
{
    Real { bits: 0xc030_0000_0000_0000 }
}

/// True-peak ceiling of a show that names none: -1.5 dBTP.
pub fn default_true_peak() -> (r: Real)
    ensures
        r.bits == 0xbff8_0000_0000_0000,
{
    Real { bits: 0xbff8_0000_0000_0000 }
}

/// The number one: full width, height and opacity.
pub fn default_one() -> (r: Real)
    ensures
        r.bits == 0x3ff0_0000_0000_0000,
{
    Real { bits: 0x3ff0_0000_0000_0000 }
}

/// What is on unless it is switched off.
pub fn default_true() -> (r: bool)
    ensures
        r,
{
    true
}

/// Frames of a mix that names none.
pub fn default_mix_duration() -> (n: u32)
    ensures
        n == 15,
{
    15
}

/// Time zone of a clock that names none.
pub fn default_timezone() -> (s: String)
    ensures
        s@ == "local"@,
{
    "local".to_owned()
}

/// Memory of a plugin that names none, in MiB.
pub fn default_max_memory() -> (n: u32)
    ensures
        n == 64,
{
    64
}

impl Default for TransitionDefaults {
    fn default() -> (d: TransitionDefaults)
        ensures
            d.default_take is Cut,
            d.mix_duration_frames == 15,
    {
        TransitionDefaults { default_take: DefaultTake::Cut, mix_duration_frames: default_mix_duration() }
    }
}

/// The frame rate a number names: 60 is 60, everything else is 30.
pub open spec fn rate_from(v: u32) -> FrameRate {
    if v == 60 {
        FrameRate::Fps60
    } else {
        FrameRate::Fps30
    }
}

/// The frames per second of a rate.
pub open spec fn rate_value(f: FrameRate) -> u32 {
    match f {
        FrameRate::Fps30 => 30,
        FrameRate::Fps60 => 60,
    }
}

impl From<u32> for FrameRate {
    fn from(v: u32) -> (f: FrameRate) {
        if v == 60 {
            FrameRate::Fps60
        } else {
            FrameRate::Fps30
        }
    }
}

impl vstd::std_specs::convert::FromSpecImpl<u32> for FrameRate {
    open spec fn obeys_from_spec() -> bool {
        true
    }

    open spec fn from_spec(v: u32) -> FrameRate {
        rate_from(v)
    }
}

impl From<FrameRate> for u32 {
    fn from(f: FrameRate) -> (v: u32) {
        match f {
            FrameRate::Fps30 => 30,
            FrameRate::Fps60 => 60,
        }
    }
}

impl vstd::std_specs::convert::FromSpecImpl<FrameRate> for u32 {
    open spec fn obeys_from_spec() -> bool {
        true
    }

    open spec fn from_spec(f: FrameRate) -> u32 {
        rate_value(f)
    }
}

/// A rate survives being written as a number.
pub proof fn law_rate_reads_back(f: FrameRate)
    ensures
        rate_from(rate_value(f)) == f,
{
}

} // verus!

//! Audio directives, and what they do to the audio graph.

use crate::audio::{law_bus_names_differ, BusId};
use crate::directive::{DirectiveError, ErrorView};
use crate::json::Json;
use crate::protocol::{DirectiveFrame, DirectiveView};
use crate::scene::{number_at, opt_text, owned, read_number, Number};
use crate::strmap::StrMap;
use crate::text::str_eq;
use vstd::prelude::*;

verus! {

/// What is asked of the audio graph. A gain that is not named is unity.
#[derive(Debug)]
pub enum AudioCommand {
    Play { asset_id: String, gain_db: Option<Number> },
    Stop { playback_id: Option<u64>, asset_id: Option<String> },
    StopAll,
    BusSet {
        bus: String,
        guest_id: Option<String>,
        gain_db: Option<Number>,
        muted: Option<bool>,
    },
    Duck {
        enabled: bool,
        depth_db: Option<Number>,
        attack_ms: Option<Number>,
        release_ms: Option<Number>,
    },
    GuestMute { guest_id: String, muted: bool },
    /// A take: the item's sound goes on the clip bus.
    TakeItem {
        item_ref: String,
        /// The asset whose sound the item plays, if it plays one.
        asset_id: Option<String>,
        /// The frame the item goes on air.
        t0: u64,
        mode: String,
        /// The ramp that was asked for; the usual one when none was.
        ramp_ms: Option<Number>,
        /// Frames of the crossfade; none for a cut.
        crossfade_frames: u64,
    },
}

/// A command, as contracts speak of it.
pub enum CommandView {
    Play { asset_id: Seq<char>, gain_db: Option<Number> },
    Stop { playback_id: Option<u64>, asset_id: Option<Seq<char>> },
    StopAll,
    BusSet {
        bus: Seq<char>,
        guest_id: Option<Seq<char>>,
        gain_db: Option<Number>,
        muted: Option<bool>,
    },
    Duck {
        enabled: bool,
        depth_db: Option<Number>,
        attack_ms: Option<Number>,
        release_ms: Option<Number>,
    },
    GuestMute { guest_id: Seq<char>, muted: bool },
    TakeItem {
        item_ref: Seq<char>,
        asset_id: Option<Seq<char>>,
        t0: u64,
        mode: Seq<char>,
        ramp_ms: Option<Number>,
        crossfade_frames: u64,
    },
}

impl View for AudioCommand {
    type V = CommandView;

    open spec fn view(&self) -> CommandView {
        match *self {
            AudioCommand::Play { asset_id, gain_db } => CommandView::Play {
                asset_id: asset_id@,
                gain_db,
            },
            AudioCommand::Stop { playback_id, asset_id } => CommandView::Stop {
                playback_id,
                asset_id: opt_text(asset_id),
            },
            AudioCommand::StopAll => CommandView::StopAll,
            AudioCommand::BusSet { bus, guest_id, gain_db, muted } => CommandView::BusSet {
                bus: bus@,
                guest_id: opt_text(guest_id),
                gain_db,
                muted,
            },
            AudioCommand::Duck { enabled, depth_db, attack_ms, release_ms } => CommandView::Duck {
                enabled,
                depth_db,
                attack_ms,
                release_ms,
            },
            AudioCommand::GuestMute { guest_id, muted } => CommandView::GuestMute {
                guest_id: guest_id@,
                muted,
            },
            AudioCommand::TakeItem { item_ref, asset_id, t0, mode, ramp_ms, crossfade_frames } =>
                CommandView::TakeItem {
                    item_ref: item_ref@,
                    asset_id: opt_text(asset_id),
                    t0,
                    mode: mode@,
                    ramp_ms,
                    crossfade_frames,
                },
        }
    }
}

/// The commands of a vector.
pub open spec fn command_views(v: Seq<AudioCommand>) -> Seq<CommandView> {
    Seq::new(v.len(), |i: int| v[i]@)
}

/// The command an audio directive asks for.
pub open spec fn command_of(d: DirectiveView) -> Result<CommandView, ErrorView> {
    let p = d.payload;
    if d.command == "soundboard.play"@ {
        match p.text_at("assetId"@) {
            Some(asset_id) => Ok(
                CommandView::Play { asset_id, gain_db: number_at(p, "gainDb"@) },
            ),
            None => Err(ErrorView::Invalid("soundboard.play needs assetId"@)),
        }
    } else if d.command == "soundboard.stop"@ {
        Ok(
            CommandView::Stop {
                playback_id: p.unsigned_at("playbackId"@),
                asset_id: p.text_at("assetId"@),
            },
        )
    } else if d.command == "soundboard.stopAll"@ {
        Ok(CommandView::StopAll)
    } else if d.command == "audio.bus.set"@ {
        match p.text_at("bus"@) {
            Some(bus) => Ok(
                CommandView::BusSet {
                    bus,
                    guest_id: p.text_at("guestId"@),
                    gain_db: number_at(p, "gainDb"@),
                    muted: p.boolean_at("muted"@),
                },
            ),
            None => Err(ErrorView::Invalid("audio.bus.set needs bus"@)),
        }
    } else if d.command == "audio.duck"@ {
        Ok(
            CommandView::Duck {
                enabled: p.boolean_at("enabled"@) == Some(true),
                depth_db: number_at(p, "depthDb"@),
                attack_ms: number_at(p, "attackMs"@),
                release_ms: number_at(p, "releaseMs"@),
            },
        )
    } else if d.command == "guest.mute"@ {
        match p.text_at("guestId"@) {
            Some(guest_id) => Ok(
                CommandView::GuestMute { guest_id, muted: p.boolean_at("muted"@) == Some(true) },
            ),
            None => Err(ErrorView::Invalid("guest.mute needs guestId"@)),
        }
    } else {
        Err(ErrorView::Invalid(d.command + " is not an audio directive"@))
    }
}

fn flag(p: &Json, key: &str) -> (r: bool)
    ensures
        r == (p@.boolean_at(key@) == Some(true)),
{
    match p.bool_at(key) {
        Some(b) => b,
        None => false,
    }
}

fn invalid(why: &str) -> (e: DirectiveError)
    ensures
        e@ == ErrorView::Invalid(why@),
{
    DirectiveError::Invalid(why.to_owned())
}

impl AudioCommand {
    /// The command an audio directive asks for.
    pub fn from_directive(d: &DirectiveFrame) -> (r: Result<AudioCommand, DirectiveError>)
        ensures
            match r {
                Ok(c) => command_of(d@) == Ok::<CommandView, ErrorView>(c@),
                Err(e) => command_of(d@) == Err::<CommandView, ErrorView>(e@),
            },
    {
        let p: &Json = &d.payload;
        let command: &str = d.command.as_str();
        if str_eq(command, "soundboard.play") {
            match p.str_at("assetId") {
                Some(a) => Ok(
                    AudioCommand::Play {
                        asset_id: a.to_owned(),
                        gain_db: read_number(p, "gainDb"),
                    },
                ),
                None => Err(invalid("soundboard.play needs assetId")),
            }
        } else if str_eq(command, "soundboard.stop") {
            Ok(
                AudioCommand::Stop {
                    playback_id: p.u64_at("playbackId"),
                    asset_id: owned(p.str_at("assetId")),
                },
            )
        } else if str_eq(command, "soundboard.stopAll") {
            Ok(AudioCommand::StopAll)
        } else if str_eq(command, "audio.bus.set") {
            match p.str_at("bus") {
                Some(b) => Ok(
                    AudioCommand::BusSet {
                        bus: b.to_owned(),
                        guest_id: owned(p.str_at("guestId")),
                        gain_db: read_number(p, "gainDb"),
                        muted: p.bool_at("muted"),
                    },
                ),
                None => Err(invalid("audio.bus.set needs bus")),
            }
        } else if str_eq(command, "audio.duck") {
            Ok(
                AudioCommand::Duck {
                    enabled: flag(p, "enabled"),
                    depth_db: read_number(p, "depthDb"),
                    attack_ms: read_number(p, "attackMs"),
                    release_ms: read_number(p, "releaseMs"),
                },
            )
        } else if str_eq(command, "guest.mute") {
            match p.str_at("guestId") {
                Some(g) => Ok(
                    AudioCommand::GuestMute { guest_id: g.to_owned(), muted: flag(p, "muted") },
                ),
                None => Err(invalid("guest.mute needs guestId")),
            }
        } else {
            Err(
                DirectiveError::Invalid(
                    command.to_owned().concat(" is not an audio directive"),
                ),
            )
        }
    }
}

/// How long the clip bus takes to come up.
#[derive(Debug, Clone, Copy, PartialEq, Eq, Structural)]
pub enum RampLength {
    /// As long as was asked for.
    Asked,
    /// As long as the crossfade.
    Crossfade,
    /// The longer of the two.
    Longer,
}

/// What a take does to the clip bus.
#[derive(Debug, Clone, Copy, PartialEq, Eq, Structural)]
pub struct TakeLevel {
    /// The bus goes silent; else it comes up at unity.
    pub muted: bool,
    pub ramp: RampLength,
}

/// What a take does to the clip bus, by the mode of its sound.
pub open spec fn level_of(mode: Seq<char>, crossfade_frames: u64) -> TakeLevel {
    if mode == "mute"@ {
        TakeLevel { muted: true, ramp: RampLength::Asked }
    } else if mode == "crossfade"@ {
        TakeLevel { muted: false, ramp: RampLength::Longer }
    } else if mode == "cut"@ {
        TakeLevel { muted: false, ramp: RampLength::Asked }
    } else {
        TakeLevel {
            muted: false,
            ramp: if crossfade_frames > 0 {
                RampLength::Crossfade
            } else {
                RampLength::Asked
            },
        }
    }
}

/// What a take does to the clip bus.
pub fn take_level(mode: &str, crossfade_frames: u64) -> (t: TakeLevel)
    ensures
        t == level_of(mode@, crossfade_frames),
{
    if str_eq(mode, "mute") {
        TakeLevel { muted: true, ramp: RampLength::Asked }
    } else if str_eq(mode, "crossfade") {
        TakeLevel { muted: false, ramp: RampLength::Longer }
    } else if str_eq(mode, "cut") {
        TakeLevel { muted: false, ramp: RampLength::Asked }
    } else if crossfade_frames > 0 {
        TakeLevel { muted: false, ramp: RampLength::Crossfade }
    } else {
        TakeLevel { muted: false, ramp: RampLength::Asked }
    }
}

/// What is done to the graph.
#[derive(Debug)]
pub enum GraphAction {
    /// Nothing: what was named is not there.
    Nothing,
    Trigger { asset_id: String, gain_db: Option<Number> },
    StopVoice { playback_id: Option<u64>, asset_id: Option<String> },
    StopAll,
    /// Set what was named of a bus.
    SetBus { bus: BusId, gain_db: Option<Number>, muted: Option<bool> },
    /// Set what was named of a guest's bus, if there is such a guest.
    SetGuest { guest_id: String, gain_db: Option<Number>, muted: Option<bool> },
    SetDuck {
        enabled: bool,
        depth_db: Option<Number>,
        attack_ms: Option<Number>,
        release_ms: Option<Number>,
    },
    /// Put an asset on the clip bus, or clear the bus, through silence.
    SwapClip {
        asset_id: Option<String>,
        t0: u64,
        level: TakeLevel,
        ramp_ms: Option<Number>,
        crossfade_frames: u64,
    },
}

/// An action, as contracts speak of it.
pub enum ActionView {
    Nothing,
    Trigger { asset_id: Seq<char>, gain_db: Option<Number> },
    StopVoice { playback_id: Option<u64>, asset_id: Option<Seq<char>> },
    StopAll,
    SetBus { bus: BusId, gain_db: Option<Number>, muted: Option<bool> },
    SetGuest { guest_id: Seq<char>, gain_db: Option<Number>, muted: Option<bool> },
    SetDuck {
        enabled: bool,
        depth_db: Option<Number>,
        attack_ms: Option<Number>,
        release_ms: Option<Number>,
    },
    SwapClip {
        asset_id: Option<Seq<char>>,
        t0: u64,
        level: TakeLevel,
        ramp_ms: Option<Number>,
        crossfade_frames: u64,
    },
}

impl View for GraphAction {
    type V = ActionView;

    open spec fn view(&self) -> ActionView {
        match *self {
            GraphAction::Nothing => ActionView::Nothing,
            GraphAction::Trigger { asset_id, gain_db } => ActionView::Trigger {
                asset_id: asset_id@,
                gain_db,
            },
            GraphAction::StopVoice { playback_id, asset_id } => ActionView::StopVoice {
                playback_id,
                asset_id: opt_text(asset_id),
            },
            GraphAction::StopAll => ActionView::StopAll,
            GraphAction::SetBus { bus, gain_db, muted } => ActionView::SetBus {
                bus,
                gain_db,
                muted,
            },
            GraphAction::SetGuest { guest_id, gain_db, muted } => ActionView::SetGuest {
                guest_id: guest_id@,
                gain_db,
                muted,
            },
            GraphAction::SetDuck { enabled, depth_db, attack_ms, release_ms } =>
                ActionView::SetDuck { enabled, depth_db, attack_ms, release_ms },
            GraphAction::SwapClip { asset_id, t0, level, ramp_ms, crossfade_frames } =>
                ActionView::SwapClip {
                    asset_id: opt_text(asset_id),
                    t0,
                    level,
                    ramp_ms,
                    crossfade_frames,
                },
        }
    }
}

/// The bus of a name, if there is one.
pub open spec fn bus_named(name: Seq<char>) -> Option<BusId> {
    if exists|b: BusId| #[trigger] b.name() == name {
        Some(choose|b: BusId| #[trigger] b.name() == name)
    } else {
        None
    }
}

/// What a command does, where `resident` are the assets whose samples are in
/// memory. A return needs its guest, and a guest counts for nothing else; an
/// item without samples clears the clip bus, so that the one before is not
/// heard under it.
pub open spec fn action_of(c: CommandView, resident: Set<Seq<char>>) -> ActionView {
    match c {
        CommandView::Play { asset_id, gain_db } => if resident.contains(asset_id) {
            ActionView::Trigger { asset_id, gain_db }
        } else {
            ActionView::Nothing
        },
        CommandView::Stop { playback_id, asset_id } => ActionView::StopVoice {
            playback_id,
            asset_id,
        },
        CommandView::StopAll => ActionView::StopAll,
        CommandView::BusSet { bus, guest_id, gain_db, muted } => if bus == "guestReturn"@ {
            match guest_id {
                Some(guest_id) => ActionView::SetGuest { guest_id, gain_db, muted },
                None => ActionView::Nothing,
            }
        } else {
            match bus_named(bus) {
                Some(bus) => ActionView::SetBus { bus, gain_db, muted },
                None => ActionView::Nothing,
            }
        },
        CommandView::Duck { enabled, depth_db, attack_ms, release_ms } => ActionView::SetDuck {
            enabled,
            depth_db,
            attack_ms,
            release_ms,
        },
        CommandView::GuestMute { guest_id, muted } => ActionView::SetGuest {
            guest_id,
            gain_db: None,
            muted: Some(muted),
        },
        CommandView::TakeItem { item_ref, asset_id, t0, mode, ramp_ms, crossfade_frames } =>
            ActionView::SwapClip {
                asset_id: match asset_id {
                    Some(a) => if resident.contains(a) {
                        Some(a)
                    } else {
                        None
                    },
                    None => None,
                },
                t0,
                level: level_of(mode, crossfade_frames),
                ramp_ms,
                crossfade_frames,
            },
    }
}

/// What a command does to the graph, where `library` holds the assets whose
/// samples are in memory.
pub fn apply<V>(command: AudioCommand, library: &StrMap<V>) -> (a: GraphAction)
    ensures
        a@ == action_of(command@, library@.dom()),
{
    match command {
        AudioCommand::Play { asset_id, gain_db } => {
            if library.has(asset_id.as_str()) {
                GraphAction::Trigger { asset_id, gain_db }
            } else {
                GraphAction::Nothing
            }
        },
        AudioCommand::Stop { playback_id, asset_id } => GraphAction::StopVoice {
            playback_id,
            asset_id,
        },
        AudioCommand::StopAll => GraphAction::StopAll,
        AudioCommand::BusSet { bus, guest_id, gain_db, muted } => {
            if str_eq(bus.as_str(), "guestReturn") {
                match guest_id {
                    Some(guest_id) => GraphAction::SetGuest { guest_id, gain_db, muted },
                    None => GraphAction::Nothing,
                }
            } else {
                match BusId::parse(bus.as_str()) {
                    Some(b) => {
                        proof {
                            let named = bus_named(bus@)->0;
                            assert(b.name() == bus@);
                            assert(named.name() == bus@);
                            law_bus_names_differ(b, named);
                        }
                        GraphAction::SetBus { bus: b, gain_db, muted }
                    },
                    None => GraphAction::Nothing,
                }
            }
        },
        AudioCommand::Duck { enabled, depth_db, attack_ms, release_ms } => GraphAction::SetDuck {
            enabled,
            depth_db,
            attack_ms,
            release_ms,
        },
        AudioCommand::GuestMute { guest_id, muted } => GraphAction::SetGuest {
            guest_id,
            gain_db: None,
            muted: Some(muted),
        },
        AudioCommand::TakeItem { item_ref: _, asset_id, t0, mode, ramp_ms, crossfade_frames } => {
            let level: TakeLevel = take_level(mode.as_str(), crossfade_frames);
            let asset: Option<String> = match asset_id {
                Some(a) => {
                    if library.has(a.as_str()) {
                        Some(a)
                    } else {
                        None
                    }
                },
                None => None,
            };
            GraphAction::SwapClip { asset_id: asset, t0, level, ramp_ms, crossfade_frames }
        },
    }
}

/// A take always changes what the clip bus plays: the item's own sound, or
/// silence, but never what was on before.
pub proof fn law_a_take_replaces_the_clip(
    item_ref: Seq<char>,
    asset_id: Option<Seq<char>>,
    t0: u64,
    mode: Seq<char>,
    ramp_ms: Option<Number>,
    crossfade_frames: u64,
    resident: Set<Seq<char>>,
)
    ensures
        action_of(
            CommandView::TakeItem { item_ref, asset_id, t0, mode, ramp_ms, crossfade_frames },
            resident,
        ) matches ActionView::SwapClip { asset_id: played, t0: from, .. } && from == t0 && (
        played == asset_id || played is None),
{
}

} // verus!

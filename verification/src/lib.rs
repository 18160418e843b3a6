//! The decision logic of a broadcast playout engine: media framing, transport
//! protocols, show state and the rules by which directives are accepted.

pub mod aac;
pub mod audio;
pub mod audio_control;
pub mod audio_driver;
pub mod bytes;
pub mod channel;
pub mod clock;
pub mod decode;
pub mod directive;
pub mod encode;
pub mod gpu;
pub mod json;
pub mod loop_cache;
pub mod manifest;
pub mod preflight;
pub mod protocol;
pub mod record;
pub mod render;
pub mod scene;
pub mod strmap;
pub mod text;
pub mod validate;
pub mod zerocopy;

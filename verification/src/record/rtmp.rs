//! RTMP publishing: the values it carries, the chunks it travels in, the
//! dialog that opens a stream, and what is held while the peer is away.

pub mod amf0;
pub mod chunk;
pub mod chunk_laws;
pub mod dialog;
pub mod publisher;
pub mod url;

use vstd::prelude::*;
use vstd::string::*;

verus! {

/// Why a stream cannot be published.
#[derive(Debug, PartialEq, Eq)]
pub enum RtmpError {
    /// The endpoint is not a publish target.
    Parse(String),
    /// The connection failed.
    Io(String),
    /// The peer answered out of shape.
    Protocol(String),
}

impl RtmpError {
    /// What went wrong.
    pub open spec fn detail(self) -> Seq<char> {
        match self {
            RtmpError::Parse(s) => s@,
            RtmpError::Io(s) => s@,
            RtmpError::Protocol(s) => s@,
        }
    }

    /// The message an operator sees: a stable token, then what went wrong.
    pub fn message(&self) -> (s: String)
        ensures
            s@ == (if self is Parse {
                "E_BAD_PAYLOAD: "@
            } else {
                "E_NETWORK: "@
            }) + self.detail(),
    {
        match self {
            RtmpError::Parse(s) => "E_BAD_PAYLOAD: ".to_owned().concat(s.as_str()),
            RtmpError::Io(s) => "E_NETWORK: ".to_owned().concat(s.as_str()),
            RtmpError::Protocol(s) => "E_NETWORK: ".to_owned().concat(s.as_str()),
        }
    }
}

} // verus!

//! Recording and streaming outputs.

pub mod audio_tap;
pub mod boxes;
pub mod feed;
pub mod fragment;
pub mod laws;
pub mod markers;
pub mod pool;
pub mod readback;
pub mod rtmp;
pub mod session;
pub mod space;
pub mod stream;
pub mod stream_laws;
pub mod tap_path;
pub mod thread;
pub mod whole;
pub mod writer;

use crate::text::chars_of;
use vstd::prelude::*;
use vstd::string::*;

verus! {

/// Why a recording cannot start or go on. Each kind has a stable token.
#[derive(Debug, PartialEq, Eq)]
pub enum RecordError {
    /// The target volume refused the write.
    Disk(String),
    /// The AAC encoder refused.
    Aac(String),
    /// The inputs cannot become a recording.
    Input(String),
}

/// Parameters of one recording file.
#[derive(Debug, Clone)]
pub struct RecordParams {
    /// Where the file lands.
    pub directory: String,
    /// Show name, sanitized into the file name.
    pub show: String,
    /// Episode name, sanitized into the file name.
    pub episode: String,
    /// Start of the recording, sanitized into the file name.
    pub start_timestamp: String,
    /// Picture width, for the video sample entry.
    pub width: u32,
    /// Picture height, for the video sample entry.
    pub height: u32,
    /// Nominal frame rate: the duration of the last sample.
    pub fps: u32,
    /// Sequence parameter set of the stream's first keyframe.
    pub sps: Vec<u8>,
    /// Picture parameter set of the stream's first keyframe.
    pub pps: Vec<u8>,
}

impl RecordError {
    /// What went wrong.
    pub open spec fn detail(self) -> Seq<char> {
        match self {
            RecordError::Disk(s) => s@,
            RecordError::Aac(s) => s@,
            RecordError::Input(s) => s@,
        }
    }

    /// The token of a kind of error.
    pub open spec fn token(self) -> Seq<char> {
        match self {
            RecordError::Disk(_) => "E_DISK"@,
            RecordError::Aac(_) => "E_AAC_UNAVAILABLE"@,
            RecordError::Input(_) => "E_RECORD_INPUT"@,
        }
    }

    /// The stable token of an error.
    pub fn kind_token(&self) -> (s: &'static str)
        ensures
            s@ == self.token(),
    {
        match self {
            RecordError::Disk(_) => "E_DISK",
            RecordError::Aac(_) => "E_AAC_UNAVAILABLE",
            RecordError::Input(_) => "E_RECORD_INPUT",
        }
    }

    /// The message an operator sees: the token, then what went wrong.
    pub fn message(&self) -> (s: String)
        ensures
            s@ == self.token() + ": "@ + self.detail(),
    {
        let head: String = self.kind_token().to_owned().concat(": ");
        match self {
            RecordError::Disk(s) => head.concat(s.as_str()),
            RecordError::Aac(s) => head.concat(s.as_str()),
            RecordError::Input(s) => head.concat(s.as_str()),
        }
    }
}

/// A failed write.
pub fn disk(why: String) -> (e: RecordError)
    ensures
        e == RecordError::Disk(why),
{
    RecordError::Disk(why)
}

/// Whether a character may stand in a file name.
pub open spec fn file_char(c: char) -> bool {
    ||| 'a' <= c <= 'z'
    ||| 'A' <= c <= 'Z'
    ||| '0' <= c <= '9'
    ||| c == '-'
    ||| c == '_'
    ||| c == '.'
}

/// A name made safe for a file name: every other character becomes `_`, and
/// the empty name becomes a word.
pub open spec fn sanitized(s: Seq<char>) -> Seq<char> {
    if s.len() == 0 {
        "unnamed"@
    } else {
        s.map_values(
            |c: char|
                if file_char(c) {
                    c
                } else {
                    '_'
                },
        )
    }
}

/// Make a name safe for a file name.
pub fn sanitize_component(s: &str) -> (out: String)
    ensures
        out@ == sanitized(s@),
{
    let chars: Vec<char> = chars_of(s);
    if chars.len() == 0 {
        return "unnamed".to_owned();
    }
    let mut out: String = String::new();
    let mut i: usize = 0;
    while i < chars.len()
        invariant
            i <= chars@.len(),
            chars@ == s@,
            s@.len() > 0,
            out@ == sanitized(s@).take(i as int),
        decreases chars@.len() - i,
    {
        let c: char = chars[i];
        let safe: bool = ('a' <= c && c <= 'z') || ('A' <= c && c <= 'Z') || ('0' <= c && c <= '9')
            || c == '-' || c == '_' || c == '.';
        out.push(
            if safe {
                c
            } else {
                '_'
            },
        );
        i = i + 1;
        assert(out@ =~= sanitized(s@).take(i as int));
    }
    assert(out@ =~= sanitized(s@));
    out
}

/// The file name of a recording: show, episode and start, each made safe.
pub open spec fn filename_of(show: Seq<char>, episode: Seq<char>, start: Seq<char>) -> Seq<char> {
    sanitized(show) + "_"@ + sanitized(episode) + "_"@ + sanitized(start) + ".mp4"@
}

/// The file name of a recording.
pub fn recording_filename(params: &RecordParams) -> (name: String)
    ensures
        name@ == filename_of(params.show@, params.episode@, params.start_timestamp@),
{
    let show: String = sanitize_component(params.show.as_str());
    let episode: String = sanitize_component(params.episode.as_str());
    let start: String = sanitize_component(params.start_timestamp.as_str());
    show.concat("_").concat(episode.as_str()).concat("_").concat(start.as_str()).concat(".mp4")
}

/// A sanitized name is never empty, holds nothing but safe characters, and so
/// can neither leave its directory nor change when it is sanitized again.
pub proof fn law_sanitized_names_are_safe(s: Seq<char>)
    ensures
        sanitized(s).len() > 0,
        forall|i: int| 0 <= i < sanitized(s).len() ==> file_char(#[trigger] sanitized(s)[i]),
        sanitized(sanitized(s)) == sanitized(s),
{
    reveal_strlit("unnamed");
    assert forall|i: int| 0 <= i < sanitized(s).len() implies file_char(#[trigger] sanitized(s)[i]) by {
    }
    assert(sanitized(sanitized(s)) =~= sanitized(s));
}

/// A recording's file name holds no path separator.
pub proof fn law_filenames_stay_in_their_directory(show: Seq<char>, episode: Seq<char>, start: Seq<char>)
    ensures
        !filename_of(show, episode, start).contains('/'),
        !filename_of(show, episode, start).contains('\\'),
{
    law_sanitized_names_are_safe(show);
    law_sanitized_names_are_safe(episode);
    law_sanitized_names_are_safe(start);
    reveal_strlit("_");
    reveal_strlit(".mp4");
    let a = sanitized(show);
    let b = sanitized(episode);
    let c = sanitized(start);
    let name = filename_of(show, episode, start);
    assert forall|i: int| 0 <= i < name.len() implies file_char(#[trigger] name[i]) by {
        let n1 = a.len() as int;
        let n2 = n1 + 1 + b.len();
        let n3 = n2 + 1 + c.len();
        if i < n1 {
            assert(name[i] == a[i]);
        } else if i == n1 {
        } else if i < n2 {
            assert(name[i] == b[i - n1 - 1]);
        } else if i == n2 {
        } else if i < n3 {
            assert(name[i] == c[i - n2 - 1]);
        } else {
            assert(name[i] == ".mp4"@[i - n3]);
        }
    }
}

} // verus!

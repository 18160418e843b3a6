//! Directives: what the control plane asks for, and whether the engine does it.

use crate::record::session::SessionError;
use crate::record::stream::StreamError;
use crate::record::RecordError;
use crate::text::{
    chars_of, decimal, decimal_string, law_decimal_reads_back, str_eq, string_of, trim_space,
    trimmed,
};
use vstd::prelude::*;
use vstd::string::*;

pub mod dispatch;
pub mod engine;
pub mod laws;
pub mod load;
pub mod outputs;
pub mod overlay;
pub mod take;

verus! {

/// Why a directive was not applied.
#[derive(Debug, PartialEq, Eq)]
pub enum DirectiveError {
    NoPackage(String),
    FallbackMissing(String),
    Io(String),
    Invalid(String),
    ForbiddenState(String),
    NoHardwareEncoder(String),
    /// The take did not end in time; its file is left as it is.
    Timeout(String),
    /// The picture is larger than recording sustains.
    Unsupported(String),
    Disk(String),
}

/// An error, as contracts speak of it.
pub enum ErrorView {
    NoPackage(Seq<char>),
    FallbackMissing(Seq<char>),
    Io(Seq<char>),
    Invalid(Seq<char>),
    ForbiddenState(Seq<char>),
    NoHardwareEncoder(Seq<char>),
    Timeout(Seq<char>),
    Unsupported(Seq<char>),
    Disk(Seq<char>),
}

impl View for DirectiveError {
    type V = ErrorView;

    open spec fn view(&self) -> ErrorView {
        match *self {
            DirectiveError::NoPackage(s) => ErrorView::NoPackage(s@),
            DirectiveError::FallbackMissing(s) => ErrorView::FallbackMissing(s@),
            DirectiveError::Io(s) => ErrorView::Io(s@),
            DirectiveError::Invalid(s) => ErrorView::Invalid(s@),
            DirectiveError::ForbiddenState(s) => ErrorView::ForbiddenState(s@),
            DirectiveError::NoHardwareEncoder(s) => ErrorView::NoHardwareEncoder(s@),
            DirectiveError::Timeout(s) => ErrorView::Timeout(s@),
            DirectiveError::Unsupported(s) => ErrorView::Unsupported(s@),
            DirectiveError::Disk(s) => ErrorView::Disk(s@),
        }
    }
}

impl ErrorView {
    /// The message an operator sees.
    pub open spec fn text(self) -> Seq<char> {
        match self {
            ErrorView::NoPackage(s) => "no package loaded: "@ + s,
            ErrorView::FallbackMissing(s) => "fallback slate not resident: "@ + s,
            ErrorView::Io(s) => "io: "@ + s,
            ErrorView::Invalid(s) => "invalid directive: "@ + s,
            ErrorView::ForbiddenState(s) => "E_FORBIDDEN_STATE: "@ + s,
            ErrorView::NoHardwareEncoder(s) => "E_NO_HARDWARE_ENCODER: "@ + s,
            ErrorView::Timeout(s) => "E_RECORD_TIMEOUT: "@ + s,
            ErrorView::Unsupported(s) => "E_UNSUPPORTED: "@ + s,
            ErrorView::Disk(s) => "E_DISK: "@ + s,
        }
    }
}

impl DirectiveError {
    /// The message an operator sees.
    pub fn message(&self) -> (s: String)
        ensures
            s@ == self@.text(),
    {
        match self {
            DirectiveError::NoPackage(s) => "no package loaded: ".to_owned().concat(s.as_str()),
            DirectiveError::FallbackMissing(s) => "fallback slate not resident: ".to_owned().concat(
                s.as_str(),
            ),
            DirectiveError::Io(s) => "io: ".to_owned().concat(s.as_str()),
            DirectiveError::Invalid(s) => "invalid directive: ".to_owned().concat(s.as_str()),
            DirectiveError::ForbiddenState(s) => "E_FORBIDDEN_STATE: ".to_owned().concat(
                s.as_str(),
            ),
            DirectiveError::NoHardwareEncoder(s) => "E_NO_HARDWARE_ENCODER: ".to_owned().concat(
                s.as_str(),
            ),
            DirectiveError::Timeout(s) => "E_RECORD_TIMEOUT: ".to_owned().concat(s.as_str()),
            DirectiveError::Unsupported(s) => "E_UNSUPPORTED: ".to_owned().concat(s.as_str()),
            DirectiveError::Disk(s) => "E_DISK: ".to_owned().concat(s.as_str()),
        }
    }
}

/// A result, as contracts speak of it.
pub open spec fn outcome(r: Result<(), DirectiveError>) -> Result<(), ErrorView> {
    match r {
        Ok(()) => Ok(()),
        Err(e) => Err(e@),
    }
}

/// A file's error as a directive's: a disk keeps its own token.
pub open spec fn finish_err_of(e: RecordError) -> ErrorView {
    match e {
        RecordError::Disk(s) => ErrorView::Disk(s@),
        other => ErrorView::Invalid(other.token() + ": "@ + other.detail()),
    }
}

/// A file's error as a directive's.
pub fn finish_err(e: RecordError) -> (r: DirectiveError)
    ensures
        r@ == finish_err_of(e),
{
    match e {
        RecordError::Disk(msg) => DirectiveError::Disk(msg),
        other => DirectiveError::Invalid(other.message()),
    }
}

/// A take's error as a directive's: each keeps its own token.
pub open spec fn session_err_of(e: SessionError) -> ErrorView {
    match e {
        SessionError::NoEncoder(s) => ErrorView::NoHardwareEncoder(s@),
        SessionError::Timeout(s) => ErrorView::Timeout(s@),
        SessionError::Record(r) => finish_err_of(r),
    }
}

/// A take's error as a directive's.
pub fn session_err(e: SessionError) -> (r: DirectiveError)
    ensures
        r@ == session_err_of(e),
{
    match e {
        SessionError::NoEncoder(msg) => DirectiveError::NoHardwareEncoder(msg),
        SessionError::Timeout(msg) => DirectiveError::Timeout(msg),
        SessionError::Record(r) => finish_err(r),
    }
}

/// A stream's error as a directive's: its token stays in the message.
pub fn stream_err(e: StreamError) -> (r: DirectiveError)
    ensures
        r@ == ErrorView::Invalid(e.text()),
{
    DirectiveError::Invalid(e.message())
}

/// A url that was given: what is left of it without the space around it, unless
/// that is nothing.
pub open spec fn given(url: Option<Seq<char>>) -> Option<Seq<char>> {
    match url {
        Some(u) => if trimmed(u).len() > 0 {
            Some(trimmed(u))
        } else {
            None
        },
        None => None,
    }
}

/// A letter without its case.
pub open spec fn lower(c: char) -> char {
    if 'A' <= c <= 'Z' {
        ((c as u32 + 32) as u8) as char
    } else {
        c
    }
}

/// Whether a url names a publish target, in whatever case.
pub open spec fn is_publish_target(url: Seq<char>) -> bool {
    let scheme = seq!['r', 't', 'm', 'p', ':', '/', '/'];
    url.len() >= 7 && forall|i: int| 0 <= i < 7 ==> lower(#[trigger] url[i]) == scheme[i]
}

/// The target of a stream: the command's, or else the package's.
pub open spec fn stream_target(manifest_url: Option<Seq<char>>, command_url: Option<Seq<char>>) -> Result<
    Seq<char>,
    ErrorView,
> {
    let winner = match given(command_url) {
        Some(u) => Some(u),
        None => given(manifest_url),
    };
    match winner {
        None => Err(
            ErrorView::Invalid(
                "E_BAD_PAYLOAD: stream.start needs a publish target: neither outputs.stream.url nor the command's url supplied one"@,
            ),
        ),
        Some(u) => if is_publish_target(u) {
            Ok(u)
        } else {
            Err(
                ErrorView::Invalid(
                    "E_BAD_PAYLOAD: stream.start url is not an rtmp:// publish target: "@ + u,
                ),
            )
        },
    }
}

fn lowered(c: char) -> (r: char)
    ensures
        r == lower(c),
{
    if 'A' <= c && c <= 'Z' {
        ((c as u32 + 32) as u8) as char
    } else {
        c
    }
}

fn present(url: Option<&str>) -> (r: Option<Vec<char>>)
    ensures
        match r {
            Some(v) => given(crate::json::text_view(url)) == Some(v@),
            None => given(crate::json::text_view(url)) is None,
        },
{
    match url {
        Some(u) => {
            let v: Vec<char> = trim_space(chars_of(u).as_slice());
            if v.len() > 0 {
                Some(v)
            } else {
                None
            }
        },
        None => None,
    }
}

fn publish_target(url: &Vec<char>) -> (r: bool)
    ensures
        r == is_publish_target(url@),
{
    let scheme: [char; 7] = ['r', 't', 'm', 'p', ':', '/', '/'];
    assert(scheme@ =~= seq!['r', 't', 'm', 'p', ':', '/', '/']);
    if url.len() < 7 {
        return false;
    }
    let mut i: usize = 0;
    while i < 7
        invariant
            i <= 7 <= url@.len(),
            scheme@ == seq!['r', 't', 'm', 'p', ':', '/', '/'],
            forall|k: int| 0 <= k < i ==> lower(#[trigger] url@[k]) == scheme@[k],
        decreases 7 - i,
    {
        if lowered(url[i]) != scheme[i] {
            assert(lower(url@[i as int]) != scheme@[i as int]);
            return false;
        }
        i = i + 1;
    }
    true
}

/// The target of a stream: the command's url overrides the package's; one that
/// is missing or blank counts as silent, and what is left must be an rtmp
/// target.
pub fn resolve_stream_url(manifest_url: Option<&str>, command_url: Option<&str>) -> (r: Result<
    String,
    DirectiveError,
>)
    ensures
        match r {
            Ok(u) => stream_target(
                crate::json::text_view(manifest_url),
                crate::json::text_view(command_url),
            ) == Ok::<Seq<char>, ErrorView>(u@),
            Err(e) => stream_target(
                crate::json::text_view(manifest_url),
                crate::json::text_view(command_url),
            ) == Err::<Seq<char>, ErrorView>(e@),
        },
{
    let winner: Vec<char> = match present(command_url) {
        Some(u) => u,
        None => match present(manifest_url) {
            Some(u) => u,
            None => return Err(
                DirectiveError::Invalid(
                    "E_BAD_PAYLOAD: stream.start needs a publish target: neither outputs.stream.url nor the command's url supplied one".to_owned(),
                ),
            ),
        },
    };
    let text: String = string_of(winner.as_slice(), 0, winner.len());
    assert(text@ =~= winner@);
    if publish_target(&winner) {
        Ok(text)
    } else {
        Err(
            DirectiveError::Invalid(
                "E_BAD_PAYLOAD: stream.start url is not an rtmp:// publish target: ".to_owned().concat(
                    text.as_str(),
                ),
            ),
        )
    }
}

/// The widest picture that is recorded.
pub const MAX_RECORD_WIDTH: u32 = 1920;

/// The highest picture that is recorded.
pub const MAX_RECORD_HEIGHT: u32 = 1080;

/// What is said of a picture that is too large to record.
pub open spec fn too_large(width: u32, height: u32) -> Seq<char> {
    "record geometry "@ + decimal(width as nat) + "x"@ + decimal(height as nat)
        + " exceeds the 1920x1080 ceiling; 4K readback-alone (~48ms) exceeds any 30/60fps budget"@
}

/// Refuse a picture that is too large to record.
pub fn check_record_resolution(width: u32, height: u32) -> (r: Result<(), DirectiveError>)
    ensures
        outcome(r) == if width > MAX_RECORD_WIDTH || height > MAX_RECORD_HEIGHT {
            Err(ErrorView::Unsupported(too_large(width, height)))
        } else {
            Ok(())
        },
{
    if width > MAX_RECORD_WIDTH || height > MAX_RECORD_HEIGHT {
        let s: String = "record geometry ".to_owned().concat(
            decimal_string(width as u64).as_str(),
        ).concat("x").concat(decimal_string(height as u64).as_str()).concat(
            " exceeds the 1920x1080 ceiling; 4K readback-alone (~48ms) exceeds any 30/60fps budget",
        );
        return Err(DirectiveError::Unsupported(s));
    }
    Ok(())
}

/// The names of takes that were given none.
#[derive(Debug)]
pub struct Timestamps {
    pub taken: u64,
}

/// The name of the `n`th take, started at a time in milliseconds.
pub open spec fn timestamp_of(millis: u64, n: u64) -> Seq<char> {
    "session-"@ + decimal(millis as nat) + "-"@ + decimal(n as nat)
}

impl Timestamps {
    /// No take yet.
    pub fn new() -> (t: Timestamps)
        ensures
            t.taken == 0,
    {
        Timestamps { taken: 0 }
    }

    /// A name for a take that starts now.
    pub fn default_timestamp(&mut self, millis: u64) -> (s: String)
        ensures
            s@ == timestamp_of(millis, old(self).taken),
            final(self).taken == old(self).taken.wrapping_add(1),
    {
        let s: String = "session-".to_owned().concat(decimal_string(millis).as_str()).concat(
            "-",
        ).concat(decimal_string(self.taken).as_str());
        self.taken = self.taken.wrapping_add(1);
        s
    }
}

/// Two takes never share a name, however fast they follow each other.
pub proof fn law_takes_have_names_of_their_own(millis: u64, n: u64, later: u64, m: u64)
    requires
        n != m,
    ensures
        timestamp_of(millis, n) != timestamp_of(later, m),
{
    reveal_strlit("-");
    law_decimal_reads_back(n as nat);
    law_decimal_reads_back(m as nat);
    let a = timestamp_of(millis, n);
    let b = timestamp_of(later, m);
    if a == b {
        let x = decimal(n as nat);
        let y = decimal(m as nat);
        let len = a.len();
        assert forall|k: int| 0 <= k < x.len() implies x[k] == #[trigger] a[len - x.len() + k] by {}
        assert forall|k: int| 0 <= k < y.len() implies y[k] == #[trigger] b[len - y.len() + k] by {}
        assert(a[len - x.len() - 1] == '-');
        assert(b[len - y.len() - 1] == '-');
        if x.len() == y.len() {
            assert forall|k: int| 0 <= k < x.len() implies x[k] == y[k] by {
                assert(a[len - x.len() + k] == b[len - y.len() + k]);
            }
            assert(x =~= y);
        } else if x.len() < y.len() {
            let k = y.len() - x.len() - 1;
            assert(y[k] == b[len - y.len() + k]);
        } else {
            let k = x.len() - y.len() - 1;
            assert(x[k] == a[len - x.len() + k]);
        }
    }
}

/// The item on air and which playing of it this is, so that a later take stops
/// the end of an earlier one from being told.
#[derive(Debug)]
pub struct PlaybackTracker {
    current: Option<(String, u64)>,
}

impl View for PlaybackTracker {
    type V = Option<(Seq<char>, u64)>;

    closed spec fn view(&self) -> Option<(Seq<char>, u64)> {
        match self.current {
            Some(c) => Some((c.0@, c.1)),
            None => None,
        }
    }
}

/// The number of the next playing.
pub open spec fn next_generation(current: Option<(Seq<char>, u64)>) -> u64 {
    match current {
        Some(c) => c.1.wrapping_add(1),
        None => 0,
    }
}

impl PlaybackTracker {
    /// Nothing plays.
    pub fn new() -> (t: PlaybackTracker)
        ensures
            t@ is None,
    {
        PlaybackTracker { current: None }
    }

    /// An item starts to play; which playing it is.
    pub fn begin(&mut self, item_ref: &str) -> (generation: u64)
        ensures
            generation == next_generation(old(self)@),
            final(self)@ == Some((item_ref@, generation)),
    {
        let generation: u64 = match &self.current {
            Some(c) => c.1.wrapping_add(1),
            None => 0,
        };
        self.current = Some((item_ref.to_owned(), generation));
        generation
    }

    /// Whether this playing of an item still goes on.
    pub fn is_current(&self, item_ref: &str, generation: u64) -> (r: bool)
        ensures
            r == (self@ == Some((item_ref@, generation))),
    {
        match &self.current {
            Some(c) => str_eq(c.0.as_str(), item_ref) && c.1 == generation,
            None => false,
        }
    }
}

/// A new take ends the playing before it, even of the same item.
pub proof fn law_a_take_ends_the_one_before(
    before: Option<(Seq<char>, u64)>,
    item: Seq<char>,
    generation: u64,
    next: Seq<char>,
)
    requires
        before == Some((item, generation)),
    ensures
        Some((next, next_generation(before))) != Some((item, generation)),
{
}

/// The tracker after the first `n` of these items have begun, one after the
/// other.
pub open spec fn begun(start: Option<(Seq<char>, u64)>, items: Seq<Seq<char>>, n: int) -> Option<
    (Seq<char>, u64),
>
    decreases n,
{
    if n <= 0 {
        start
    } else {
        let before = begun(start, items, n - 1);
        Some((items[n - 1], next_generation(before)))
    }
}

proof fn lemma_generations_count(start: (Seq<char>, u64), items: Seq<Seq<char>>, n: int)
    requires
        0 <= n <= items.len(),
        n <= u64::MAX,
    ensures
        begun(Some(start), items, n) matches Some(c) && c.1 == (if start.1 + n <= u64::MAX {
            start.1 + n
        } else {
            start.1 + n - u64::MAX - 1
        }),
    decreases n,
{
    if n > 0 {
        lemma_generations_count(start, items, n - 1);
    }
}

/// Once another playing has begun, whatever began in between, an earlier one is
/// not current, not even of the same item; the last one is. This holds for as
/// many playings as there are numbers for them, also where the count goes round.
pub proof fn law_a_superseded_playing_is_over(
    before: Option<(Seq<char>, u64)>,
    item: Seq<char>,
    later: Seq<Seq<char>>,
)
    requires
        0 < later.len() <= u64::MAX,
    ensures
        ({
            let first = (item, next_generation(before));
            let now = begun(Some(first), later, later.len() as int);
            &&& now matches Some(c) && c.0 == later.last() && c.1 != first.1
            &&& now != Some(first)
        }),
{
    lemma_generations_count((item, next_generation(before)), later, later.len() as int);
}

} // verus!

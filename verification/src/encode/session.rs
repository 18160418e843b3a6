//! Encoding sessions: what they accept, and what becomes of what the encoder
//! hands back.

use crate::encode::{EncodedUnit, Pts};
use crate::text::{decimal, decimal_string, signed_decimal, signed_string};
use vstd::prelude::*;
use vstd::string::*;

verus! {

/// Why video cannot be encoded: there is nothing to fall back to.
#[derive(Debug, PartialEq, Eq)]
pub enum EncodeError {
    NoHardwareEncoder(String),
}

impl EncodeError {
    /// The message an operator sees.
    pub open spec fn text(self) -> Seq<char> {
        match self {
            EncodeError::NoHardwareEncoder(s) => "E_NO_HARDWARE_ENCODER: "@ + s@,
        }
    }

    /// What went wrong.
    pub open spec fn detail(self) -> Seq<char> {
        match self {
            EncodeError::NoHardwareEncoder(s) => s@,
        }
    }

    /// The stable token of an error.
    pub fn kind_token(&self) -> (s: &'static str)
        ensures
            s@ == "E_NO_HARDWARE_ENCODER"@,
    {
        "E_NO_HARDWARE_ENCODER"
    }

    /// The message an operator sees.
    pub fn message(&self) -> (s: String)
        ensures
            s@ == self.text(),
    {
        match self {
            EncodeError::NoHardwareEncoder(s) => "E_NO_HARDWARE_ENCODER: ".to_owned().concat(
                s.as_str(),
            ),
        }
    }
}

/// A refusal.
pub fn no_hardware(detail: String) -> (e: EncodeError)
    ensures
        e.detail() == detail@,
{
    EncodeError::NoHardwareEncoder(detail)
}

/// A geometry, as messages write it.
pub open spec fn geometry(width: u32, height: u32) -> Seq<char> {
    decimal(width as nat) + "x"@ + decimal(height as nat)
}

/// A geometry, as messages write it.
pub fn geometry_string(width: u32, height: u32) -> (s: String)
    ensures
        s@ == geometry(width, height),
{
    decimal_string(width as u64).concat("x").concat(decimal_string(height as u64).as_str())
}

/// Why a session is refused before the encoder is asked.
pub open spec fn refusal_of(
    width: u32,
    height: u32,
    fps: u32,
    bitrate: u32,
    force_software: bool,
) -> Option<Seq<char>> {
    if force_software {
        Some("software encode refused: this encoder is hardware-only, no CPU fallback exists"@)
    } else if width == 0 || height == 0 {
        Some("refusing zero-sized encode "@ + geometry(width, height))
    } else if width > 0x7fff_ffff || height > 0x7fff_ffff {
        Some("refusing implausible encode geometry "@ + geometry(width, height))
    } else if fps == 0 || fps > 0x7fff_ffff {
        Some("refusing encode frame rate "@ + decimal(fps as nat))
    } else if bitrate > 0x7fff_ffff {
        Some("refusing encode bit rate "@ + decimal(bitrate as nat))
    } else {
        None
    }
}

/// What the encoder handed back.
pub enum Output {
    /// It failed, with this status.
    Failed(i32),
    /// Nothing.
    Nothing,
    Sample {
        pts: Pts,
        is_keyframe: bool,
        /// The first and the second parameter set of its description.
        sets: Option<(Vec<u8>, Vec<u8>)>,
        payload: Payload,
    },
}

/// The bytes of a sample.
pub enum Payload {
    /// It has none.
    Missing,
    /// They could not be copied.
    Stuck,
    Bytes(Vec<u8>),
}

/// An encoding session.
#[derive(Debug)]
pub struct EncodeSession {
    pub width: u32,
    pub height: u32,
    pub fps: u32,
    pub frame_index: u64,
    /// The place of the last frame whose place was given.
    pub last_pts_index: Option<u64>,
    pub finished: bool,
    /// Every unit the encoder handed back, in its order.
    pub units: Vec<EncodedUnit>,
    /// How many of them were told already.
    pub delivered: usize,
    /// The first failure of the encoder.
    pub first_error: Option<String>,
    pub param_sets: Option<(Vec<u8>, Vec<u8>)>,
}

/// A frame for the encoder: its place, and whether it has to be a keyframe.
#[derive(Debug, Clone, Copy, PartialEq, Eq, Structural)]
pub struct Submission {
    pub pts_index: u64,
    pub force_keyframe: bool,
}

/// Whether bytes are a parameter set of a type.
pub open spec fn is_set(b: Seq<u8>, want: int) -> bool {
    0 < b.len() <= 0x10_0000 && b[0] as int % 32 == want
}

fn set_of(b: &Vec<u8>, want: u8) -> (r: bool)
    ensures
        r == is_set(b@, want as int),
{
    b.len() > 0 && b.len() <= 0x10_0000 && b[0] % 32 == want
}

/// What is said of a sample without bytes.
pub open spec fn output_error(o: Output) -> Option<Seq<char>> {
    match o {
        Output::Failed(status) => Some(
            "compression callback reported OSStatus "@ + signed_decimal(status as int),
        ),
        Output::Nothing => None,
        Output::Sample { pts, is_keyframe, sets, payload } => match payload {
            Payload::Missing => Some("compressed sample carried no data buffer"@),
            Payload::Stuck => Some("could not copy compressed sample bytes"@),
            Payload::Bytes(b) => if b@.len() == 0 {
                Some("compressed sample carried an empty data buffer"@)
            } else {
                None
            },
        },
    }
}

/// The unit of a sample, if it has one.
pub open spec fn output_unit(o: Output) -> Option<EncodedUnit> {
    match o {
        Output::Sample { pts, is_keyframe, sets, payload } => match payload {
            Payload::Bytes(b) => if b@.len() == 0 {
                None
            } else {
                Some(EncodedUnit { data: b, pts, is_keyframe })
            },
            _ => None,
        },
        _ => None,
    }
}

/// Parameter sets, as contracts speak of them.
pub open spec fn sets_view(s: Option<(Vec<u8>, Vec<u8>)>) -> Option<(Seq<u8>, Seq<u8>)> {
    match s {
        Some(p) => Some((p.0@, p.1@)),
        None => None,
    }
}

/// The parameter sets a sample gives: a keyframe's, where both are what they
/// should be.
pub open spec fn output_sets(o: Output) -> Option<(Seq<u8>, Seq<u8>)> {
    match o {
        Output::Sample { pts, is_keyframe, sets, payload } => match sets {
            Some(s) => if is_keyframe && is_set(s.0@, 7) && is_set(s.1@, 8) {
                Some((s.0@, s.1@))
            } else {
                None
            },
            None => None,
        },
        _ => None,
    }
}

/// Whether `a` is shown no later than `b`.
pub open spec fn no_later(a: Pts, b: Pts) -> bool {
    a.index * b.effective_rate() <= b.index * a.effective_rate()
}

/// How many leading units of `sorted` are shown no later than `p`.
pub open spec fn unit_place(sorted: Seq<EncodedUnit>, p: Pts, i: int) -> int
    decreases sorted.len() - i,
{
    if 0 <= i < sorted.len() && no_later(sorted[i].pts, p) {
        unit_place(sorted, p, i + 1)
    } else {
        i
    }
}

/// The first `n` units in the order they are shown; those of one time stay in
/// the order they came.
pub open spec fn by_time(units: Seq<EncodedUnit>, n: int) -> Seq<EncodedUnit>
    decreases n,
{
    if n <= 0 {
        Seq::empty()
    } else {
        let rest = by_time(units, n - 1);
        rest.insert(unit_place(rest, units[n - 1].pts, 0), units[n - 1])
    }
}

fn shown_no_later(a: Pts, b: Pts) -> (r: bool)
    ensures
        r == no_later(a, b),
{
    let ra: u128 = if a.rate == 0 {
        1
    } else {
        a.rate as u128
    };
    let rb: u128 = if b.rate == 0 {
        1
    } else {
        b.rate as u128
    };
    assert(a.index * rb <= 0xffff_ffff_ffff_ffff * 0xffff_ffff && b.index * ra
        <= 0xffff_ffff_ffff_ffff * 0xffff_ffff) by (nonlinear_arith)
        requires
            a.index <= 0xffff_ffff_ffff_ffff,
            b.index <= 0xffff_ffff_ffff_ffff,
            ra <= 0xffff_ffff,
            rb <= 0xffff_ffff,
    ;
    (a.index as u128) * rb <= (b.index as u128) * ra
}

/// Whether the picture's bytes are this many.
pub open spec fn picture_bytes(width: u32, height: u32) -> int {
    width * height * 4
}

/// What is said of a picture of the wrong size.
pub open spec fn wrong_size(width: u32, height: u32, got: int) -> Seq<char> {
    "expected "@ + decimal(picture_bytes(width, height) as nat) + " bytes of RGBA for "@ + geometry(
        width,
        height,
    ) + ", got "@ + decimal(got as nat)
}

impl EncodeSession {
    /// A session, unless it is refused before the encoder is asked.
    pub fn open_with_options(
        width: u32,
        height: u32,
        fps: u32,
        bitrate: u32,
        force_software: bool,
    ) -> (r: Result<EncodeSession, EncodeError>)
        ensures
            match r {
                Ok(s) => {
                    &&& refusal_of(width, height, fps, bitrate, force_software) is None
                    &&& s.width == width && s.height == height && s.fps == fps
                    &&& s.frame_index == 0 && s.last_pts_index is None && !s.finished
                    &&& s.units@.len() == 0 && s.delivered == 0
                    &&& s.first_error is None && s.param_sets is None
                },
                Err(e) => refusal_of(width, height, fps, bitrate, force_software) == Some(
                    e.detail(),
                ),
            },
    {
        if force_software {
            return Err(
                no_hardware(
                    "software encode refused: this encoder is hardware-only, no CPU fallback exists".to_owned(),
                ),
            );
        }
        if width == 0 || height == 0 {
            return Err(
                no_hardware(
                    "refusing zero-sized encode ".to_owned().concat(
                        geometry_string(width, height).as_str(),
                    ),
                ),
            );
        }
        if width > 0x7fff_ffff || height > 0x7fff_ffff {
            return Err(
                no_hardware(
                    "refusing implausible encode geometry ".to_owned().concat(
                        geometry_string(width, height).as_str(),
                    ),
                ),
            );
        }
        if fps == 0 || fps > 0x7fff_ffff {
            return Err(
                no_hardware(
                    "refusing encode frame rate ".to_owned().concat(
                        decimal_string(fps as u64).as_str(),
                    ),
                ),
            );
        }
        if bitrate > 0x7fff_ffff {
            return Err(
                no_hardware(
                    "refusing encode bit rate ".to_owned().concat(
                        decimal_string(bitrate as u64).as_str(),
                    ),
                ),
            );
        }
        Ok(
            EncodeSession {
                width,
                height,
                fps,
                frame_index: 0,
                last_pts_index: None,
                finished: false,
                units: Vec::new(),
                delivered: 0,
                first_error: None,
                param_sets: None,
            },
        )
    }

    /// A session, unless it is refused before the encoder is asked.
    pub fn open(width: u32, height: u32, fps: u32, bitrate: u32) -> (r: Result<
        EncodeSession,
        EncodeError,
    >)
        ensures
            match r {
                Ok(s) => {
                    &&& refusal_of(width, height, fps, bitrate, false) is None
                    &&& s.width == width && s.height == height && s.fps == fps
                    &&& s.frame_index == 0 && s.last_pts_index is None && !s.finished
                    &&& s.units@.len() == 0 && s.delivered == 0
                    &&& s.first_error is None && s.param_sets is None
                },
                Err(e) => refusal_of(width, height, fps, bitrate, false) == Some(e.detail()),
            },
    {
        Self::open_with_options(width, height, fps, bitrate, false)
    }

    /// The frame to submit for a picture of so many bytes.
    pub fn encode_rgba(&self, bytes: usize) -> (r: Result<Submission, EncodeError>)
        ensures
            match r {
                Ok(s) => {
                    &&& bytes == picture_bytes(self.width, self.height)
                    &&& !self.finished
                    &&& s == (Submission {
                        pts_index: self.frame_index,
                        force_keyframe: self.frame_index == 0,
                    })
                },
                Err(e) => if bytes != picture_bytes(self.width, self.height) {
                    e.detail() == wrong_size(self.width, self.height, bytes as int)
                } else {
                    self.finished && e.detail() == "encode session is already finished"@
                },
            },
    {
        assert(self.width * self.height <= 0xffff_ffff * 0xffff_ffff) by (nonlinear_arith)
            requires
                self.width <= 0xffff_ffff,
                self.height <= 0xffff_ffff,
        ;
        let expected: u128 = (self.width as u128) * (self.height as u128) * 4;
        if bytes as u128 != expected {
            let s: String = "expected ".to_owned().concat(wide_decimal(expected).as_str()).concat(
                " bytes of RGBA for ",
            ).concat(geometry_string(self.width, self.height).as_str()).concat(", got ").concat(
                decimal_string(bytes as u64).as_str(),
            );
            return Err(no_hardware(s));
        }
        if self.finished {
            return Err(no_hardware("encode session is already finished".to_owned()));
        }
        Ok(Submission { pts_index: self.frame_index, force_keyframe: self.frame_index == 0 })
    }

    /// The frame to submit at a given place: places only go up.
    pub fn encode_pixel_buffer_at(&self, pts_index: u64, bgra: bool, width: usize, height: usize) -> (r:
        Result<Submission, EncodeError>)
        ensures
            match r {
                Ok(s) => {
                    &&& self.last_pts_index matches Some(last) ==> pts_index > last
                    &&& !self.finished && bgra && width == self.width && height == self.height
                    &&& s == (Submission { pts_index, force_keyframe: self.frame_index == 0 })
                },
                Err(e) => if self.last_pts_index matches Some(last) && pts_index <= last {
                    e.detail() == "pts index "@ + decimal(pts_index as nat) + " does not follow "@
                        + decimal(self.last_pts_index->0 as nat)
                        + "; refusing a non-increasing timeline"@
                } else if self.finished {
                    e.detail() == "encode session is already finished"@
                } else {
                    buffer_refusal(bgra, width, height, self.width, self.height) == Some(e.detail())
                },
            },
    {
        match self.last_pts_index {
            Some(last) => {
                if pts_index <= last {
                    let s: String = "pts index ".to_owned().concat(
                        decimal_string(pts_index).as_str(),
                    ).concat(" does not follow ").concat(decimal_string(last).as_str()).concat(
                        "; refusing a non-increasing timeline",
                    );
                    return Err(no_hardware(s));
                }
            },
            None => {},
        }
        if self.finished {
            return Err(no_hardware("encode session is already finished".to_owned()));
        }
        match check_zero_copy_buffer(bgra, width, height, self.width, self.height) {
            Ok(()) => {},
            Err(e) => return Err(e),
        }
        Ok(Submission { pts_index, force_keyframe: self.frame_index == 0 })
    }

    /// The frame to submit for a surface, at its own count.
    pub fn encode_pixel_buffer(&self, bgra: bool, width: usize, height: usize) -> (r: Result<
        Submission,
        EncodeError,
    >)
        ensures
            match r {
                Ok(s) => {
                    &&& !self.finished && bgra && width == self.width && height == self.height
                    &&& s == (Submission {
                        pts_index: self.frame_index,
                        force_keyframe: self.frame_index == 0,
                    })
                },
                Err(e) => if self.finished {
                    e.detail() == "encode session is already finished"@
                } else {
                    buffer_refusal(bgra, width, height, self.width, self.height) == Some(e.detail())
                },
            },
    {
        if self.finished {
            return Err(no_hardware("encode session is already finished".to_owned()));
        }
        match check_zero_copy_buffer(bgra, width, height, self.width, self.height) {
            Ok(()) => {},
            Err(e) => return Err(e),
        }
        Ok(Submission { pts_index: self.frame_index, force_keyframe: self.frame_index == 0 })
    }

    /// The encoder has taken a frame; `given` says that its place was given.
    /// The units that were handed back since the last time.
    pub fn submitted(&mut self, s: Submission, given: bool) -> (fresh: Vec<EncodedUnit>)
        requires
            old(self).delivered <= old(self).units@.len(),
            old(self).frame_index < u64::MAX,
        ensures
            *final(self) == (EncodeSession {
                frame_index: (old(self).frame_index + 1) as u64,
                last_pts_index: if given {
                    Some(s.pts_index)
                } else {
                    old(self).last_pts_index
                },
                delivered: old(self).units@.len() as usize,
                ..*old(self)
            }),
            same_units(fresh@, old(self).units@.skip(old(self).delivered as int)),
    {
        self.frame_index = self.frame_index + 1;
        if given {
            self.last_pts_index = Some(s.pts_index);
        }
        self.take_new_units()
    }

    /// The units that were handed back since the last time.
    pub fn take_new_units(&mut self) -> (fresh: Vec<EncodedUnit>)
        requires
            old(self).delivered <= old(self).units@.len(),
        ensures
            *final(self) == (EncodeSession {
                delivered: old(self).units@.len() as usize,
                ..*old(self)
            }),
            same_units(fresh@, old(self).units@.skip(old(self).delivered as int)),
    {
        let n: usize = self.units.len();
        let from: usize = self.delivered;
        let mut fresh: Vec<EncodedUnit> = Vec::new();
        let mut i: usize = from;
        while i < n
            invariant
                *self == *old(self),
                from == self.delivered,
                from <= i <= n == self.units@.len(),
                fresh@.len() == i - from,
                forall|k: int|
                    0 <= k < fresh@.len() ==> same_unit(
                        #[trigger] fresh@[k],
                        self.units@[from + k],
                    ),
            decreases n - i,
        {
            fresh.push(copy_unit(&self.units[i]));
            i = i + 1;
        }
        self.delivered = n;
        fresh
    }

    /// The encoder handed something back. The first failure is kept, the first
    /// parameter sets are kept, and every unit is.
    pub fn on_output(&mut self, o: Output)
        ensures
            final(self).units@ == (match output_unit(o) {
                Some(u) => old(self).units@.push(u),
                None => old(self).units@,
            }),
            match (old(self).first_error, output_error(o)) {
                (Some(e), _) => final(self).first_error == Some(e),
                (None, Some(t)) => final(self).first_error matches Some(s) && s@ == t,
                (None, None) => final(self).first_error is None,
            },
            sets_view(final(self).param_sets) == (match old(self).param_sets {
                Some(s) => Some((s.0@, s.1@)),
                None => output_sets(o),
            }),
            *final(self) == (EncodeSession {
                units: final(self).units,
                first_error: final(self).first_error,
                param_sets: final(self).param_sets,
                ..*old(self)
            }),
    {
        match o {
            Output::Failed(status) => self.note(
                "compression callback reported OSStatus ".to_owned().concat(
                    signed_string(status).as_str(),
                ),
            ),
            Output::Nothing => {},
            Output::Sample { pts, is_keyframe, sets, payload } => {
                if is_keyframe {
                    self.capture_parameter_sets(sets);
                }
                match payload {
                    Payload::Missing => self.note(
                        "compressed sample carried no data buffer".to_owned(),
                    ),
                    Payload::Stuck => self.note("could not copy compressed sample bytes".to_owned()),
                    Payload::Bytes(b) => {
                        if b.len() == 0 {
                            self.note(
                                "compressed sample carried an empty data buffer".to_owned(),
                            );
                        } else {
                            self.units.push(EncodedUnit { data: b, pts, is_keyframe });
                        }
                    },
                }
            },
        }
    }

    fn note(&mut self, detail: String)
        ensures
            *final(self) == (EncodeSession {
                first_error: match old(self).first_error {
                    Some(e) => Some(e),
                    None => Some(detail),
                },
                ..*old(self)
            }),
    {
        let none: bool = match &self.first_error {
            Some(_) => false,
            None => true,
        };
        if none {
            self.first_error = Some(detail);
        }
    }

    fn capture_parameter_sets(&mut self, sets: Option<(Vec<u8>, Vec<u8>)>)
        ensures
            sets_view(final(self).param_sets) == (match old(self).param_sets {
                Some(s) => Some((s.0@, s.1@)),
                None => match sets {
                    Some(s) => if is_set(s.0@, 7) && is_set(s.1@, 8) {
                        Some((s.0@, s.1@))
                    } else {
                        None
                    },
                    None => None,
                },
            }),
            *final(self) == (EncodeSession { param_sets: final(self).param_sets, ..*old(self) }),
    {
        let none: bool = match &self.param_sets {
            Some(_) => false,
            None => true,
        };
        if !none {
            return;
        }
        match sets {
            Some(s) => {
                if set_of(&s.0, 7) && set_of(&s.1, 8) {
                    self.param_sets = Some(s);
                }
            },
            None => {},
        }
    }

    /// The whole stream, in the order it is shown. A stream without units has
    /// failed, and the first failure says why.
    pub fn finish(self, flush_status: i32) -> (r: Result<Vec<EncodedUnit>, EncodeError>)
        ensures
            match r {
                Ok(v) => {
                    &&& self.finished || flush_status == 0
                    &&& self.units@.len() > 0
                    &&& v@ == by_time(self.units@, self.units@.len() as int)
                },
                Err(e) => if !self.finished && flush_status != 0 {
                    e.detail() == "flushing pending frames failed (OSStatus "@ + signed_decimal(
                        flush_status as int,
                    ) + ")"@
                } else {
                    self.units@.len() == 0 && e.detail() == (match self.first_error {
                        Some(d) => "encoder produced no access units ("@ + d@ + ")"@,
                        None => "encoder produced no access units"@,
                    })
                },
            },
    {
        if !self.finished && flush_status != 0 {
            return Err(
                no_hardware(
                    "flushing pending frames failed (OSStatus ".to_owned().concat(
                        signed_string(flush_status).as_str(),
                    ).concat(")"),
                ),
            );
        }
        if self.units.len() == 0 {
            return Err(
                match &self.first_error {
                    Some(d) => no_hardware(
                        "encoder produced no access units (".to_owned().concat(d.as_str()).concat(
                            ")",
                        ),
                    ),
                    None => no_hardware("encoder produced no access units".to_owned()),
                },
            );
        }
        Ok(sorted_by_time(self.units))
    }
}

/// Whether two units are the same.
pub open spec fn same_unit(a: EncodedUnit, b: EncodedUnit) -> bool {
    a.data@ == b.data@ && a.pts == b.pts && a.is_keyframe == b.is_keyframe
}

/// Whether units are the same, one by one.
pub open spec fn same_units(a: Seq<EncodedUnit>, b: Seq<EncodedUnit>) -> bool {
    a.len() == b.len() && forall|i: int| 0 <= i < a.len() ==> same_unit(#[trigger] a[i], b[i])
}

fn copy_unit(u: &EncodedUnit) -> (c: EncodedUnit)
    ensures
        same_unit(c, *u),
{
    let mut data: Vec<u8> = Vec::new();
    crate::bytes::put(&mut data, u.data.as_slice());
    assert(data@ =~= u.data@);
    EncodedUnit { data, pts: u.pts, is_keyframe: u.is_keyframe }
}

fn sorted_by_time(units: Vec<EncodedUnit>) -> (out: Vec<EncodedUnit>)
    ensures
        out@ == by_time(units@, units@.len() as int),
{
    let ghost all = units@;
    let mut rest: Vec<EncodedUnit> = units;
    let mut back: Vec<EncodedUnit> = Vec::new();
    let n: usize = rest.len();
    while rest.len() > 0
        invariant
            rest@.len() + back@.len() == n == all.len(),
            forall|k: int| 0 <= k < rest@.len() ==> rest@[k] == all[k],
            forall|k: int| 0 <= k < back@.len() ==> #[trigger] back@[k] == all[n - 1 - k],
        decreases rest@.len(),
    {
        match rest.pop() {
            Some(u) => back.push(u),
            None => {},
        }
    }
    let mut out: Vec<EncodedUnit> = Vec::new();
    let ghost mut done: int = 0;
    while back.len() > 0
        invariant
            done + back@.len() == n == all.len(),
            0 <= done,
            forall|k: int| 0 <= k < back@.len() ==> #[trigger] back@[k] == all[n - 1 - k],
            out@ == by_time(all, done),
        decreases back@.len(),
    {
        let ghost before_pop = back@;
        match back.pop() {
            Some(u) => {
                assert(u == before_pop[before_pop.len() - 1]);
                assert(u == all[done]);
                let mut k: usize = 0;
                let len: usize = out.len();
                while k < len && shown_no_later(out[k].pts, u.pts)
                    invariant
                        k <= len == out@.len(),
                        unit_place(out@, u.pts, 0) == unit_place(out@, u.pts, k as int),
                    decreases len - k,
                {
                    k = k + 1;
                }
                out.insert(k, u);
                proof {
                    done = done + 1;
                }
            },
            None => {},
        }
    }
    out
}

/// Why a surface is not encoded: one of another shape would be read as what it
/// is not.
pub open spec fn buffer_refusal(
    bgra: bool,
    width: usize,
    height: usize,
    want_width: u32,
    want_height: u32,
) -> Option<Seq<char>> {
    if !bgra {
        Some("zero-copy buffer is not 32BGRA; refusing to reinterpret its planes"@)
    } else if width != want_width || height != want_height {
        Some(
            "zero-copy buffer is "@ + decimal(width as nat) + "x"@ + decimal(height as nat)
                + ", session is "@ + geometry(want_width, want_height),
        )
    } else {
        None
    }
}

/// Refuse a surface of another shape than the session's.
pub fn check_zero_copy_buffer(
    bgra: bool,
    width: usize,
    height: usize,
    want_width: u32,
    want_height: u32,
) -> (r: Result<(), EncodeError>)
    ensures
        match r {
            Ok(()) => buffer_refusal(bgra, width, height, want_width, want_height) is None,
            Err(e) => buffer_refusal(bgra, width, height, want_width, want_height) == Some(
                e.detail(),
            ),
        },
{
    if !bgra {
        return Err(
            no_hardware(
                "zero-copy buffer is not 32BGRA; refusing to reinterpret its planes".to_owned(),
            ),
        );
    }
    if width != want_width as usize || height != want_height as usize {
        let s: String = "zero-copy buffer is ".to_owned().concat(
            decimal_string(width as u64).as_str(),
        ).concat("x").concat(decimal_string(height as u64).as_str()).concat(
            ", session is ",
        ).concat(geometry_string(want_width, want_height).as_str());
        return Err(no_hardware(s));
    }
    Ok(())
}

/// Whether a picture fits into a buffer, row by row.
pub open spec fn picture_fits(stride: int, row_bytes: int, rows: int, size: int) -> bool {
    row_bytes <= stride && stride * (if rows == 0 {
        0
    } else {
        rows - 1
    }) + row_bytes <= size
}

/// Whether a picture fits into a buffer, row by row.
pub fn buffer_fits(stride: usize, row_bytes: usize, rows: usize, size: usize) -> (r: bool)
    ensures
        r == picture_fits(stride as int, row_bytes as int, rows as int, size as int),
{
    let gaps: usize = if rows == 0 {
        0
    } else {
        rows - 1
    };
    if stride < row_bytes {
        return false;
    }
    match stride.checked_mul(gaps) {
        Some(offset) => match offset.checked_add(row_bytes) {
            Some(needed) => needed <= size,
            None => false,
        },
        None => false,
    }
}

fn wide_decimal(n: u128) -> (s: String)
    ensures
        s@ == decimal(n as nat),
    decreases n,
{
    if n >= 10 {
        let mut s: String = wide_decimal(n / 10);
        let ghost head = s@;
        s.push(crate::text::digit((n % 10) as u8));
        assert(s@ =~= decimal(n as nat));
        s
    } else {
        decimal_string(n as u64)
    }
}

proof fn lemma_place(sorted: Seq<EncodedUnit>, p: Pts, i: int)
    requires
        0 <= i <= sorted.len(),
    ensures
        i <= unit_place(sorted, p, i) <= sorted.len(),
        forall|k: int|
            i <= k < unit_place(sorted, p, i) ==> no_later((#[trigger] sorted[k]).pts, p),
        unit_place(sorted, p, i) < sorted.len() ==> !no_later(
            sorted[unit_place(sorted, p, i)].pts,
            p,
        ),
    decreases sorted.len() - i,
{
    if i < sorted.len() && no_later(sorted[i].pts, p) {
        lemma_place(sorted, p, i + 1);
    }
}

/// Of three moments, one that is no later than a second, which is no later than
/// a third, is no later than the third.
proof fn lemma_no_later_goes_on(a: Pts, b: Pts, c: Pts)
    requires
        no_later(a, b),
        no_later(b, c),
    ensures
        no_later(a, c),
{
    let (ai, bi, ci) = (a.index as int, b.index as int, c.index as int);
    let ar = a.effective_rate() as int;
    let br = b.effective_rate() as int;
    let cr = c.effective_rate() as int;
    assert(ai * cr <= ci * ar) by (nonlinear_arith)
        requires
            ai * br <= bi * ar,
            bi * cr <= ci * br,
            ar > 0,
            br > 0,
            cr > 0,
    {
        assert((ai * br) * cr <= (bi * ar) * cr);
        assert((bi * cr) * ar <= (ci * br) * ar);
        assert((ai * cr) * br <= (ci * ar) * br);
    }
}

/// A finished stream is in the order it is shown.
pub proof fn law_finish_puts_units_in_order(units: Seq<EncodedUnit>, n: int)
    requires
        0 <= n <= units.len(),
    ensures
        forall|i: int, j: int|
            0 <= i <= j < by_time(units, n).len() ==> no_later(
                (#[trigger] by_time(units, n)[i]).pts,
                (#[trigger] by_time(units, n)[j]).pts,
            ),
    decreases n,
{
    if n > 0 {
        law_finish_puts_units_in_order(units, n - 1);
        let sorted = by_time(units, n - 1);
        let last = units[n - 1];
        lemma_place(sorted, last.pts, 0);
        let p = unit_place(sorted, last.pts, 0);
        let out = sorted.insert(p, last);
        assert forall|i: int, j: int| 0 <= i <= j < out.len() implies no_later(
            (#[trigger] out[i]).pts,
            (#[trigger] out[j]).pts,
        ) by {
            if j < p {
                assert(out[i] == sorted[i] && out[j] == sorted[j]);
            } else if i > p {
                assert(out[i] == sorted[i - 1] && out[j] == sorted[j - 1]);
            } else if i == p && j > p {
                assert(out[j] == sorted[j - 1]);
                assert(no_later(last.pts, sorted[p].pts));
                assert(no_later(sorted[p].pts, sorted[j - 1].pts));
                lemma_no_later_goes_on(last.pts, sorted[p].pts, sorted[j - 1].pts);
            } else if i < p && j > p {
                assert(out[i] == sorted[i] && out[j] == sorted[j - 1]);
            } else if i < p && j == p {
                assert(out[i] == sorted[i]);
            }
        }
    }
}

/// The units of `s` that are shown at the time `p`, in order.
pub open spec fn shown_at(s: Seq<EncodedUnit>, p: Pts) -> Seq<EncodedUnit> {
    s.filter(|u: EncodedUnit| no_later(u.pts, p) && no_later(p, u.pts))
}

proof fn lemma_filter_none(s: Seq<EncodedUnit>, pred: spec_fn(EncodedUnit) -> bool)
    requires
        forall|i: int| 0 <= i < s.len() ==> !pred(#[trigger] s[i]),
    ensures
        s.filter(pred) == Seq::<EncodedUnit>::empty(),
    decreases s.len(),
{
    reveal(Seq::filter);
    if s.len() > 0 {
        assert(!pred(s[s.len() - 1]));
        assert forall|i: int| 0 <= i < s.drop_last().len() implies !pred(
            #[trigger] s.drop_last()[i],
        ) by {
            assert(s.drop_last()[i] == s[i]);
        }
        lemma_filter_none(s.drop_last(), pred);
    }
}

/// Units that are shown at one time stay in the order they came.
pub proof fn law_finish_keeps_arrival_order(units: Seq<EncodedUnit>, n: int, p: Pts)
    requires
        0 <= n <= units.len(),
    ensures
        shown_at(by_time(units, n), p) == shown_at(units.take(n), p),
    decreases n,
{
    let pred = |u: EncodedUnit| no_later(u.pts, p) && no_later(p, u.pts);
    if n > 0 {
        let head = units.take(n - 1);
        let sorted = by_time(units, n - 1);
        let last = units[n - 1];
        law_finish_keeps_arrival_order(units, n - 1, p);
        law_finish_puts_units_in_order(units, n - 1);
        lemma_place(sorted, last.pts, 0);
        let k = unit_place(sorted, last.pts, 0);
        let a = sorted.subrange(0, k);
        let b = sorted.subrange(k, sorted.len() as int);
        assert(sorted =~= a + b);
        assert(sorted.insert(k, last) =~= a + seq![last] + b);
        assert(units.take(n) =~= head + seq![last]);
        Seq::filter_distributes_over_add(a, b, pred);
        Seq::filter_distributes_over_add(a, seq![last], pred);
        Seq::filter_distributes_over_add(a + seq![last], b, pred);
        Seq::filter_distributes_over_add(head, seq![last], pred);
        if pred(last) {
            assert(b.filter(pred) =~= Seq::empty()) by {
                assert forall|i: int| 0 <= i < b.len() implies !pred(#[trigger] b[i]) by {
                    assert(b[i] == sorted[k + i]);
                    assert(no_later(sorted[k].pts, sorted[k + i].pts));
                    if pred(b[i]) {
                        lemma_no_later_goes_on(sorted[k].pts, b[i].pts, p);
                        lemma_no_later_goes_on(sorted[k].pts, p, last.pts);
                    }
                }
                lemma_filter_none(b, pred);
            }
        } else {
            assert(seq![last].filter(pred) =~= Seq::empty()) by {
                lemma_filter_none(seq![last], pred);
            }
        }
        assert(shown_at(by_time(units, n), p) =~= shown_at(units.take(n), p));
    } else {
        assert(by_time(units, n) =~= units.take(n));
    }
}

/// No unit is lost when a stream is put in order, and none is added.
pub proof fn law_finish_loses_no_unit(units: Seq<EncodedUnit>, n: int)
    requires
        0 <= n <= units.len(),
    ensures
        by_time(units, n).to_multiset() == units.take(n).to_multiset(),
    decreases n,
{
    broadcast use vstd::seq_lib::group_to_multiset_ensures;

    if n > 0 {
        let sorted = by_time(units, n - 1);
        let last = units[n - 1];
        law_finish_loses_no_unit(units, n - 1);
        lemma_place(sorted, last.pts, 0);
        let p = unit_place(sorted, last.pts, 0);
        vstd::seq_lib::to_multiset_insert(sorted, p, last);
        assert(units.take(n) =~= units.take(n - 1).push(last));
        vstd::seq_lib::to_multiset_build(units.take(n - 1), last);
    } else {
        assert(by_time(units, n) =~= units.take(n));
    }
}

} // verus!

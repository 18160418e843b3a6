//! Which way a frame takes from the compositor to an encoder.

use vstd::prelude::*;

verus! {

/// The way a frame takes.
#[derive(Debug, Clone, Copy, PartialEq, Eq, Structural)]
pub enum TapPath {
    /// Compositor and encoder share one surface.
    ZeroCopy,
    /// The picture is read back to memory.
    CpuReadback,
}

impl TapPath {
    /// The stable token of a path.
    pub fn as_str(self) -> (s: &'static str)
        ensures
            s@ == (match self {
                TapPath::ZeroCopy => "zeroCopy"@,
                TapPath::CpuReadback => "cpuReadback"@,
            }),
    {
        match self {
            TapPath::ZeroCopy => "zeroCopy",
            TapPath::CpuReadback => "cpuReadback",
        }
    }
}

/// Who takes the frames.
#[derive(Debug, Clone, Copy, PartialEq, Eq, Structural)]
pub enum Consumer {
    /// Recording to disk.
    Record,
    /// Streaming: only the shared surface is lawful.
    Stream,
}

/// Why a path was taken.
#[derive(Debug, Clone, Copy, PartialEq, Eq, Structural)]
pub enum Reason {
    /// The table says so.
    Table,
    /// The machine has no shared surfaces.
    ProbeUnavailable,
    /// The operator said so.
    Override,
}

impl Reason {
    /// The stable token of a reason.
    pub fn as_str(self) -> (s: &'static str)
        ensures
            s@ == (match self {
                Reason::Table => "Table"@,
                Reason::ProbeUnavailable => "ProbeUnavailable"@,
                Reason::Override => "Override"@,
            }),
    {
        match self {
            Reason::Table => "Table",
            Reason::ProbeUnavailable => "ProbeUnavailable",
            Reason::Override => "Override",
        }
    }
}

/// A path and why it was taken.
#[derive(Debug, Clone, Copy, PartialEq, Eq, Structural)]
pub struct Selection {
    pub path: TapPath,
    pub reason: Reason,
}

/// The height above which reading back no longer fits a frame's time.
pub const REFERENCE_HEIGHT: u32 = 1080;

/// The table: shared surfaces where the machine has them, else memory. A
/// stream without shared surfaces has no row: see [`select_stream`].
pub open spec fn table(zero_copy_capable: bool) -> Selection {
    if zero_copy_capable {
        Selection { path: TapPath::ZeroCopy, reason: Reason::Table }
    } else {
        Selection { path: TapPath::CpuReadback, reason: Reason::ProbeUnavailable }
    }
}

/// Look a selection up in the table. The height changes how strong the case
/// for shared surfaces is, not the answer.
pub fn select(zero_copy_capable: bool, height: u32, consumer: Consumer) -> (s: Selection)
    requires
        consumer == Consumer::Stream ==> zero_copy_capable,
    ensures
        s == table(zero_copy_capable),
{
    let _ = height;
    let _ = consumer;
    if !zero_copy_capable {
        return Selection { path: TapPath::CpuReadback, reason: Reason::ProbeUnavailable };
    }
    Selection { path: TapPath::ZeroCopy, reason: Reason::Table }
}

/// A stream's selection: without shared surfaces there is none.
pub fn select_stream(zero_copy_capable: bool) -> (r: Option<Selection>)
    ensures
        r == (if zero_copy_capable {
            Some(Selection { path: TapPath::ZeroCopy, reason: Reason::Table })
        } else {
            None
        }),
{
    if zero_copy_capable {
        Some(Selection { path: TapPath::ZeroCopy, reason: Reason::Table })
    } else {
        None
    }
}

/// A selection with the operator's word: it can restrict, but not give a
/// machine what it lacks.
pub open spec fn with_override(zero_copy_capable: bool, override_path: Option<TapPath>) -> Selection {
    match override_path {
        Some(TapPath::ZeroCopy) => if zero_copy_capable {
            Selection { path: TapPath::ZeroCopy, reason: Reason::Override }
        } else {
            Selection { path: TapPath::CpuReadback, reason: Reason::ProbeUnavailable }
        },
        Some(TapPath::CpuReadback) => Selection {
            path: TapPath::CpuReadback,
            reason: Reason::Override,
        },
        None => table(zero_copy_capable),
    }
}

/// Look a selection up, and let the operator's word override it. A stream is
/// never asked to read back.
pub fn select_with_override(
    zero_copy_capable: bool,
    height: u32,
    consumer: Consumer,
    override_path: Option<TapPath>,
) -> (s: Selection)
    requires
        consumer == Consumer::Stream ==> zero_copy_capable && override_path != Some(
            TapPath::CpuReadback,
        ),
    ensures
        s == with_override(zero_copy_capable, override_path),
{
    match override_path {
        Some(TapPath::ZeroCopy) => if zero_copy_capable {
            Selection { path: TapPath::ZeroCopy, reason: Reason::Override }
        } else {
            Selection { path: TapPath::CpuReadback, reason: Reason::ProbeUnavailable }
        },
        Some(TapPath::CpuReadback) => Selection {
            path: TapPath::CpuReadback,
            reason: Reason::Override,
        },
        None => select(zero_copy_capable, height, consumer),
    }
}

/// A machine without shared surfaces is never selected for them, whatever the
/// operator says.
pub proof fn law_override_never_conjures(override_path: Option<TapPath>)
    ensures
        with_override(false, override_path).path == TapPath::CpuReadback,
{
}

/// A stream that is selected at all runs on shared surfaces.
pub proof fn law_streams_never_read_back(override_path: Option<TapPath>)
    requires
        override_path != Some(TapPath::CpuReadback),
    ensures
        with_override(true, override_path).path == TapPath::ZeroCopy,
{
}

} // verus!

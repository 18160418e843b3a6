//! Surfaces that compositor and encoder share: when one is free, and when there
//! are none at all.

use crate::encode::session::{geometry, geometry_string, EncodeError};
use crate::text::{decimal, decimal_string};
use vstd::prelude::*;
use vstd::string::*;

verus! {

/// A surface's own reference on its pixels. Any more are of someone who reads
/// them.
pub const PIXEL_BUFFER_BASELINE_RETAIN: usize = 1;

/// Why surfaces cannot be shared.
#[derive(Debug, PartialEq, Eq)]
pub enum ZeroCopyError {
    Unavailable(String),
    Encode(EncodeError),
}

impl ZeroCopyError {
    /// The message an operator sees.
    pub open spec fn text(self) -> Seq<char> {
        match self {
            ZeroCopyError::Unavailable(s) => "E_NO_ZEROCOPY: "@ + s@,
            ZeroCopyError::Encode(e) => e.text(),
        }
    }

    /// The message an operator sees.
    pub fn message(&self) -> (s: String)
        ensures
            s@ == self.text(),
    {
        match self {
            ZeroCopyError::Unavailable(s) => "E_NO_ZEROCOPY: ".to_owned().concat(s.as_str()),
            ZeroCopyError::Encode(e) => e.message(),
        }
    }
}

impl From<EncodeError> for ZeroCopyError {
    fn from(e: EncodeError) -> (z: ZeroCopyError) {
        ZeroCopyError::Encode(e)
    }
}

impl vstd::std_specs::convert::FromSpecImpl<EncodeError> for ZeroCopyError {
    open spec fn obeys_from_spec() -> bool {
        true
    }

    open spec fn from_spec(e: EncodeError) -> ZeroCopyError {
        ZeroCopyError::Encode(e)
    }
}

/// Refuse a surface without pixels.
pub fn check_surface(width: u32, height: u32) -> (r: Result<(), ZeroCopyError>)
    ensures
        r is Ok <==> width > 0 && height > 0,
        r matches Err(e) ==> e.text() == "E_NO_ZEROCOPY: "@ + ("implausible surface geometry "@
            + geometry(width, height)),
{
    if width == 0 || height == 0 {
        return Err(
            ZeroCopyError::Unavailable(
                "implausible surface geometry ".to_owned().concat(
                    geometry_string(width, height).as_str(),
                ),
            ),
        );
    }
    Ok(())
}

/// Who holds a surface.
#[derive(Debug, Clone, Copy, PartialEq, Eq, Structural)]
pub struct Holders {
    /// Owners, the pool among them.
    pub owners: usize,
    /// References on its pixels.
    pub retains: usize,
}

impl Holders {
    /// Whether a surface is free: only the pool owns it, and no encoder still
    /// reads it.
    pub open spec fn free(self) -> bool {
        self.owners == 1 && self.retains <= PIXEL_BUFFER_BASELINE_RETAIN
    }

    /// Whether no encoder still reads a surface.
    pub fn encoder_released(&self) -> (r: bool)
        ensures
            r == (self.retains <= PIXEL_BUFFER_BASELINE_RETAIN),
    {
        self.retains <= PIXEL_BUFFER_BASELINE_RETAIN
    }

    /// Whether a surface is free.
    pub fn is_free(&self) -> (r: bool)
        ensures
            r == self.free(),
    {
        self.owners == 1 && self.encoder_released()
    }
}

/// A pool of surfaces.
#[derive(Debug, Clone, Copy, PartialEq, Eq, Structural)]
pub struct SurfacePool {
    pub count: usize,
    pub width: u32,
    pub height: u32,
}

/// The first free surface from `i` on; the length when none is.
pub open spec fn first_free(held: Seq<Holders>, i: int) -> int
    decreases held.len() - i,
{
    if i < 0 || i >= held.len() || held[i].free() {
        i
    } else {
        first_free(held, i + 1)
    }
}

/// How many of the first `n` surfaces are free.
pub open spec fn free_among(held: Seq<Holders>, n: int) -> int
    decreases n,
{
    if n <= 0 {
        0
    } else {
        free_among(held, n - 1) + if held[n - 1].free() {
            1int
        } else {
            0
        }
    }
}

/// What is said of a surface that could not be built.
pub fn build_failed(i: usize, count: usize, why: &str) -> (e: ZeroCopyError)
    ensures
        e.text() == "E_NO_ZEROCOPY: "@ + ("surface "@ + decimal(i as nat) + " of "@ + decimal(
            count as nat,
        ) + " could not be built: "@ + why@),
{
    ZeroCopyError::Unavailable(
        "surface ".to_owned().concat(decimal_string(i as u64).as_str()).concat(" of ").concat(
            decimal_string(count as u64).as_str(),
        ).concat(" could not be built: ").concat(why),
    )
}

impl SurfacePool {
    /// A pool of so many surfaces: a pool of none is refused.
    pub fn new(width: u32, height: u32, count: usize) -> (r: Result<SurfacePool, ZeroCopyError>)
        ensures
            match r {
                Ok(p) => count > 0 && width > 0 && height > 0 && p == (SurfacePool {
                    count,
                    width,
                    height,
                }),
                Err(e) => if count == 0 {
                    e.text() == "E_NO_ZEROCOPY: "@
                        + "a surface pool of zero surfaces is not a pool"@
                } else {
                    (width == 0 || height == 0) && e.text() == "E_NO_ZEROCOPY: "@ + (
                    "implausible surface geometry "@ + geometry(width, height))
                },
            },
    {
        if count == 0 {
            return Err(
                ZeroCopyError::Unavailable(
                    "a surface pool of zero surfaces is not a pool".to_owned(),
                ),
            );
        }
        match check_surface(width, height) {
            Ok(()) => Ok(SurfacePool { count, width, height }),
            Err(e) => Err(e),
        }
    }

    /// Surfaces in the pool.
    pub fn len(&self) -> (n: usize)
        ensures
            n == self.count,
    {
        self.count
    }

    /// Width and height of the surfaces.
    pub fn dimensions(&self) -> (d: (u32, u32))
        ensures
            d == (self.width, self.height),
    {
        (self.width, self.height)
    }

    /// How many surfaces are free.
    pub fn free(held: &Vec<Holders>) -> (n: usize)
        ensures
            n == free_among(held@, held@.len() as int),
    {
        let len: usize = held.len();
        let mut n: usize = 0;
        let mut i: usize = 0;
        while i < len
            invariant
                i <= len == held@.len(),
                n <= i,
                n == free_among(held@, i as int),
            decreases len - i,
        {
            if held[i].is_free() {
                n = n + 1;
            }
            i = i + 1;
        }
        n
    }

    /// Take a free surface: its place, or none when every one is in use.
    pub fn acquire(held: &Vec<Holders>) -> (r: Option<usize>)
        ensures
            match r {
                Some(i) => i == first_free(held@, 0) && i < held@.len() && held@[i as int].free(),
                None => first_free(held@, 0) >= held@.len(),
            },
    {
        let len: usize = held.len();
        let mut i: usize = 0;
        while i < len
            invariant
                i <= len == held@.len(),
                first_free(held@, 0) == first_free(held@, i as int),
            decreases len - i,
        {
            if held[i].is_free() {
                return Some(i);
            }
            i = i + 1;
        }
        None
    }
}

proof fn lemma_first_free(held: Seq<Holders>, i: int)
    requires
        0 <= i <= held.len(),
    ensures
        i <= first_free(held, i) <= held.len(),
        forall|k: int| i <= k < first_free(held, i) ==> !(#[trigger] held[k]).free(),
        first_free(held, i) < held.len() ==> held[first_free(held, i)].free(),
    decreases held.len() - i,
{
    if i < held.len() && !held[i].free() {
        lemma_first_free(held, i + 1);
    }
}

/// A surface that is drawn into is never one that an encoder reads, or that
/// anyone but the pool holds; and there is always one to draw into while one is
/// free.
pub proof fn law_a_surface_in_use_is_never_handed_out(held: Seq<Holders>, k: int)
    requires
        0 <= k < held.len(),
    ensures
        first_free(held, 0) == k ==> held[k].owners == 1 && held[k].retains <= 1,
        held[k].free() ==> first_free(held, 0) <= k,
{
    lemma_first_free(held, 0);
}

} // verus!

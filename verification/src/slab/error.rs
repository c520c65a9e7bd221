//! Segment operation errors.

use crate::io::SlabError;
use crate::types::TypeError;
use vstd::prelude::*;
use vstd::string::*;

verus! {

/// Layout or mount failure of a segment slab.
#[derive(Debug, Clone, PartialEq, Eq)]
pub enum SegmentError {
    CapacityRequired,
    ArenaClaim,
    BadIndex,
    BadHeader,
    UnsupportedScheme(String),
    NoBaseLocator,
    SegmentUuidMismatch,
    CatalogAlloc,
    NotMounted,
}

impl SegmentError {
    /// The text of the error (without the scheme of `UnsupportedScheme`).
    pub open spec fn spec_message(&self) -> Seq<char> {
        match self {
            Self::CapacityRequired => "capacity required"@,
            Self::ArenaClaim => "arena talc claim failed"@,
            Self::BadIndex => "slab index out of range"@,
            Self::BadHeader => "invalid or missing segment header"@,
            Self::UnsupportedScheme(_) => "unsupported url scheme"@,
            Self::NoBaseLocator => "segment has no base locator"@,
            Self::SegmentUuidMismatch => "slab segment_uuid mismatch"@,
            Self::CatalogAlloc => "talc catalog allocation failed"@,
            Self::NotMounted => "slab arena not mounted"@,
        }
    }

    pub fn message(&self) -> (r: &'static str)
        ensures
            r@ == self.spec_message(),
    {
        match self {
            Self::CapacityRequired => "capacity required",
            Self::ArenaClaim => "arena talc claim failed",
            Self::BadIndex => "slab index out of range",
            Self::BadHeader => "invalid or missing segment header",
            Self::UnsupportedScheme(_) => "unsupported url scheme",
            Self::NoBaseLocator => "segment has no base locator",
            Self::SegmentUuidMismatch => "slab segment_uuid mismatch",
            Self::CatalogAlloc => "talc catalog allocation failed",
            Self::NotMounted => "slab arena not mounted",
        }
    }
}

impl SegmentError {
    /// The full description: the message, and for `UnsupportedScheme` the scheme after `: `.
    pub fn describe(&self) -> (r: String)
        ensures
            r@ == (match self {
                SegmentError::UnsupportedScheme(s) => "unsupported url scheme: "@ + s@,
                _ => self.spec_message(),
            }),
    {
        match self {
            SegmentError::UnsupportedScheme(s) => {
                let mut out = String::from_str("unsupported url scheme: ");
                out.append(s.as_str());
                out
            },
            _ => String::from_str(self.message()),
        }
    }
}

/// Closing or unlinking a slab failed on its backend, or the slab index is out of range.
#[derive(Debug, Clone)]
pub enum SegmentTeardownError {
    BadIndex,
    Backend(SlabError),
}

impl SegmentTeardownError {
    /// `slab index out of range`, or `backend teardown: ` and the backend's report.
    pub fn describe(&self) -> (r: String)
        ensures
            r@ == (match self {
                SegmentTeardownError::BadIndex => "slab index out of range"@,
                SegmentTeardownError::Backend(e) => "backend teardown: "@ + e.spec_message(),
            }),
    {
        match self {
            SegmentTeardownError::BadIndex => String::from_str("slab index out of range"),
            SegmentTeardownError::Backend(e) => {
                let mut out = String::from_str("backend teardown: ");
                let m = e.message();
                out.append(m.as_str());
                out
            },
        }
    }
}

/// Backend open failed, or the segment layout / allocator claim failed after open.
#[derive(Debug, Clone)]
pub enum SegmentOpenError {
    Backend(SlabError),
    Layout(SegmentError),
    UnsupportedScheme(String),
}

impl SegmentOpenError {
    /// `backend open: `, `segment layout: ` or `unsupported url scheme: ` and the detail.
    pub fn describe(&self) -> (r: String)
        ensures
            r@ == (match self {
                SegmentOpenError::Backend(e) => "backend open: "@ + e.spec_message(),
                SegmentOpenError::Layout(e) => "segment layout: "@ + (match e {
                    SegmentError::UnsupportedScheme(s) => "unsupported url scheme: "@ + s@,
                    _ => e.spec_message(),
                }),
                SegmentOpenError::UnsupportedScheme(s) => "unsupported url scheme: "@ + s@,
            }),
    {
        match self {
            SegmentOpenError::Backend(e) => {
                let mut out = String::from_str("backend open: ");
                let m = e.message();
                out.append(m.as_str());
                out
            },
            SegmentOpenError::Layout(e) => {
                let mut out = String::from_str("segment layout: ");
                let m = e.describe();
                out.append(m.as_str());
                out
            },
            SegmentOpenError::UnsupportedScheme(s) => {
                let mut out = String::from_str("unsupported url scheme: ");
                out.append(s.as_str());
                out
            },
        }
    }
}

/// The segment error a catalog decoding error stands for.
pub open spec fn spec_map_type_err(e: TypeError) -> SegmentError {
    match e {
        TypeError::BadHeader => SegmentError::BadHeader,
        _ => SegmentError::CapacityRequired,
    }
}

/// Map a catalog decoding error to a segment error.
pub fn map_type_err(e: TypeError) -> (r: SegmentError)
    ensures
        r == spec_map_type_err(e),
{
    match e {
        TypeError::BadHeader => SegmentError::BadHeader,
        TypeError::OutOfBounds | TypeError::CapacityExceeded | TypeError::InvalidUtf8 => {
            SegmentError::CapacityRequired
        },
    }
}

} // verus!

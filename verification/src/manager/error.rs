//! Registry errors, and how segment and backend errors map into them.

use crate::io::{Kind, KindMismatch, SlabError};
use crate::slab::error::{SegmentError, SegmentOpenError, SegmentTeardownError};
use crate::url::Url;
use vstd::prelude::*;
use vstd::string::*;

verus! {

/// Why a registry request was refused.
#[derive(Debug, Clone)]
pub enum ManagerError {
    DuplicateLocator(String),
    DuplicateSegment(String),
    UnknownSegmentBase(String),
    UnknownLocator(String),
    UnknownId(crate::ids::Id),
    UnknownSegment(crate::ids::SegmentId),
    SlabNotInSegment,
    UnsupportedScheme(String),
    SchemeMismatch { url_scheme: String, kind: Kind },
    Backend { scheme: String, message: String },
    Layout { scheme: String, detail: String },
}

impl From<KindMismatch> for ManagerError {
    fn from(m: KindMismatch) -> (r: Self) {
        ManagerError::SchemeMismatch { url_scheme: m.url_scheme, kind: m.kind }
    }
}

impl vstd::std_specs::convert::FromSpecImpl<KindMismatch> for ManagerError {
    open spec fn obeys_from_spec() -> bool {
        true
    }

    open spec fn from_spec(m: KindMismatch) -> Self {
        ManagerError::SchemeMismatch { url_scheme: m.url_scheme, kind: m.kind }
    }
}

/// The registry error a failed segment open stands for, on a segment of `kind`.
pub fn map_open_err(kind: Kind, err: SegmentOpenError) -> (r: ManagerError)
    ensures
        match err {
            SegmentOpenError::Backend(e) => r matches ManagerError::Backend { scheme, message }
                && scheme@ == kind.spec_scheme() && message@ == e.spec_message(),
            SegmentOpenError::Layout(e) => r matches ManagerError::Layout { scheme, detail }
                && scheme@ == kind.spec_scheme() && detail@ == spec_describe(e),
            SegmentOpenError::UnsupportedScheme(s) => r matches ManagerError::UnsupportedScheme(
                t,
            ) && t@ == s@,
        },
{
    match err {
        SegmentOpenError::Backend(e) => ManagerError::Backend {
            scheme: String::from_str(kind.scheme()),
            message: e.message(),
        },
        SegmentOpenError::Layout(e) => ManagerError::Layout {
            scheme: String::from_str(kind.scheme()),
            detail: e.describe(),
        },
        SegmentOpenError::UnsupportedScheme(s) => ManagerError::UnsupportedScheme(s),
    }
}

/// The full text of a segment error.
pub open spec fn spec_describe(e: SegmentError) -> Seq<char> {
    match e {
        SegmentError::UnsupportedScheme(s) => "unsupported url scheme: "@ + s@,
        _ => e.spec_message(),
    }
}

/// The registry error a failed slab close or unlink stands for, on a segment of `kind`.
pub fn map_teardown_err(kind: Kind, err: SegmentTeardownError) -> (r: ManagerError)
    ensures
        match err {
            SegmentTeardownError::BadIndex => r is SlabNotInSegment,
            SegmentTeardownError::Backend(e) => r matches ManagerError::Backend {
                scheme,
                message,
            } && scheme@ == kind.spec_scheme() && message@ == e.spec_message(),
        },
{
    match err {
        SegmentTeardownError::BadIndex => ManagerError::SlabNotInSegment,
        SegmentTeardownError::Backend(e) => ManagerError::Backend {
            scheme: String::from_str(kind.scheme()),
            message: e.message(),
        },
    }
}

/// The registry error a backend failure stands for, on a segment of `kind`.
pub fn map_slab_err(kind: Kind, err: SlabError) -> (r: ManagerError)
    ensures
        r matches ManagerError::Backend { scheme, message } && scheme@ == kind.spec_scheme()
            && message@ == err.spec_message(),
{
    ManagerError::Backend { scheme: String::from_str(kind.scheme()), message: err.message() }
}

/// The url's scheme must be the one of `kind`.
pub fn ensure_url_matches(url: &Url, kind: Kind) -> (r: Result<(), ManagerError>)
    ensures
        r is Ok <==> crate::url::url_scheme(url@) == kind.spec_scheme(),
        r matches Err(e) ==> e matches ManagerError::SchemeMismatch { url_scheme, kind: k }
            && url_scheme@ == crate::url::url_scheme(url@) && k == kind,
{
    match kind.ensure_url(url) {
        Ok(()) => Ok(()),
        Err(m) => Err(ManagerError::SchemeMismatch { url_scheme: m.url_scheme, kind: m.kind }),
    }
}

} // verus!

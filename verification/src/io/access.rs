//! [`HasAccess`]: open resources with an [`OpenMode`].

use crate::url::Url;
use vstd::prelude::*;

verus! {

/// How storage is opened (same verbs on ram / shm / file).
#[derive(Copy, Clone, Debug, PartialEq, Eq, Structural)]
pub enum OpenMode {
    /// Not set until opened.
    Unset,
    Create,
    Attach,
}

/// Types opened from a [`Url`] with [`OpenMode::Create`] or [`OpenMode::Attach`].
pub trait HasAccess: Sized {
    type Error;

    /// What [`HasAccess::open`] gives for the url text `url`, `mode` and `capacity`: each
    /// implementation says which results it can hand back.
    spec fn spec_opened(
        url: Seq<char>,
        mode: OpenMode,
        capacity: Option<usize>,
        r: Result<Self, Self::Error>,
    ) -> bool;

    /// Opens with [`OpenMode::Create`].
    fn create(url: &Url, capacity: Option<usize>) -> (r: Result<Self, Self::Error>)
        ensures
            Self::spec_opened(url@, OpenMode::Create, capacity, r),
    {
        Self::open(url, OpenMode::Create, capacity)
    }

    /// Opens with [`OpenMode::Attach`].
    fn attach(url: &Url, capacity: Option<usize>) -> (r: Result<Self, Self::Error>)
        ensures
            Self::spec_opened(url@, OpenMode::Attach, capacity, r),
    {
        Self::open(url, OpenMode::Attach, capacity)
    }

    fn open(url: &Url, mode: OpenMode, capacity: Option<usize>) -> (r: Result<Self, Self::Error>)
        ensures
            Self::spec_opened(url@, mode, capacity, r),
    ;

    fn close(&mut self) -> Result<(), Self::Error>;

    fn unlink(&mut self) -> Result<(), Self::Error>;
}

} // verus!

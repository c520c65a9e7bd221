//! POSIX shared-memory slab: its metadata and url shape (the mapping is made outside).

use crate::io::info::InfoView;
use crate::io::{HasInfo, HasKind, HasMapping, Info, Kind, OpenMode, State};
use crate::url::{url_text, Url};
use vstd::prelude::*;

verus! {

/// A shared-memory slab, described by its metadata.
pub struct Shm {
    info: Info,
}

impl Shm {
    /// Unopened slab.
    pub fn new() -> (r: Self)
        ensures
            r.spec_info() == (InfoView {
                url: url_text("shm"@, "_"@, Seq::empty()),
                capacity: 0,
                open_mode: OpenMode::Unset,
                state: State::Unopened,
            }),
    {
        Shm { info: Info::empty(Self::build_url("_")) }
    }

    /// `shm://<host>`.
    pub fn build_url(host: &str) -> (r: Url)
        ensures
            r@ == url_text("shm"@, host@, Seq::empty()),
    {
        Url::builder().scheme("shm").host(host).build()
    }
}

impl HasKind for Shm {
    const KIND: Kind = Kind::Shm;
}

impl HasInfo for Shm {
    closed spec fn spec_info(&self) -> InfoView {
        self.info@
    }

    fn info(&self) -> (r: &Info) {
        &self.info
    }

    fn info_mut(&mut self) -> (r: &mut Info) {
        &mut self.info
    }
}

impl HasMapping for Shm {
    /// Nothing is mapped in this process.
    open spec fn spec_bytes(&self) -> Seq<u8> {
        Seq::empty()
    }

    fn bytes(&self) -> (r: &[u8]) {
        &[]
    }

    fn bytes_mut(&mut self) -> (r: &mut [u8])
        ensures
            final(self).spec_info() == old(self).spec_info(),
    {
        &mut []
    }
}

} // verus!

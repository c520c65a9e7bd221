//! File-mapped byte slab: its metadata and url shape (the mapping is made outside).

use crate::io::info::InfoView;
use crate::io::{HasInfo, HasKind, HasMapping, Info, Kind, OpenMode, State};
use crate::url::{url_text, Url};
use vstd::prelude::*;

verus! {

/// A file-mapped slab, described by its metadata.
pub struct File {
    info: Info,
}

impl File {
    /// Unopened slab.
    pub fn new() -> (r: Self)
        ensures
            r.spec_info() == (InfoView {
                url: url_text("file"@, Seq::empty(), "_"@),
                capacity: 0,
                open_mode: OpenMode::Unset,
                state: State::Unopened,
            }),
    {
        File { info: Info::empty(Self::build_url("_")) }
    }

    /// `file://<path>`.
    pub fn build_url(path: &str) -> (r: Url)
        ensures
            r@ == url_text("file"@, Seq::empty(), path@),
    {
        Url::builder().scheme("file").path(path).build()
    }
}

impl HasKind for File {
    const KIND: Kind = Kind::File;
}

impl HasInfo for File {
    closed spec fn spec_info(&self) -> InfoView {
        self.info@
    }

    fn info(&self) -> (r: &Info) {
        &self.info
    }

    fn info_mut(&mut self) -> (r: &mut Info) {
        &mut self.info
    }
}

impl HasMapping for File {
    /// Nothing is mapped in this process.
    open spec fn spec_bytes(&self) -> Seq<u8> {
        Seq::empty()
    }

    fn bytes(&self) -> (r: &[u8]) {
        &[]
    }

    fn bytes_mut(&mut self) -> (r: &mut [u8])
        ensures
            final(self).spec_info() == old(self).spec_info(),
    {
        &mut []
    }
}

} // verus!

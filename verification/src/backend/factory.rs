//! [`Kind`] to an unopened backend value ([`Ram`], [`Shm`], [`File`]).

use super::{File, Ram, Shm};
use crate::io::info::InfoView;
use crate::io::{HasAccess, HasArenaClaim, HasInfo, HasMapping, Info, Kind, OpenMode, SlabError, State};
use super::ram::{spec_open_error, RamError};
use crate::url::{url_scheme, url_text, Url};
use vstd::prelude::*;

verus! {

/// Url scheme that is not `ram`, `shm`, or `file`.
#[derive(Debug, Clone)]
pub struct UnknownScheme(pub String);

impl UnknownScheme {
    /// `unsupported url scheme: <scheme>`.
    pub fn message(&self) -> (r: String)
        ensures
            r@ == "unsupported url scheme: "@ + self.0@,
    {
        let mut s = String::from_str("unsupported url scheme: ");
        s.append(self.0.as_str());
        s
    }
}

/// An unopened backend of one of the three kinds.
pub enum Slab {
    Ram(Ram),
    Shm(Shm),
    File(File),
}

impl Slab {
    pub open spec fn spec_kind(&self) -> Kind {
        match self {
            Slab::Ram(_) => Kind::Ram,
            Slab::Shm(_) => Kind::Shm,
            Slab::File(_) => Kind::File,
        }
    }

    pub fn kind(&self) -> (r: Kind)
        ensures
            r == self.spec_kind(),
    {
        match self {
            Slab::Ram(_) => Kind::Ram,
            Slab::Shm(_) => Kind::Shm,
            Slab::File(_) => Kind::File,
        }
    }

    /// The metadata of the backend.
    pub open spec fn spec_info(&self) -> crate::io::info::InfoView {
        match self {
            Slab::Ram(b) => b.spec_info(),
            Slab::Shm(b) => b.spec_info(),
            Slab::File(b) => b.spec_info(),
        }
    }

    pub fn info(&self) -> (r: &Info)
        ensures
            r@ == self.spec_info(),
    {
        match self {
            Slab::Ram(b) => b.info(),
            Slab::Shm(b) => b.info(),
            Slab::File(b) => b.info(),
        }
    }
}

impl Slab {
    /// A fresh unopened backend of `kind`: its placeholder metadata, nothing mapped, and (for
    /// the process-local backend) the arena unclaimed.
    pub open spec fn is_unopened(&self, kind: Kind) -> bool {
        &&& self.spec_kind() == kind
        &&& self.spec_info() == kind.spec_unopened_info()
        &&& self.spec_bytes() == Seq::<u8>::empty()
        &&& self matches Slab::Ram(ram) ==> !ram.spec_arena_claimed()
    }
}

impl Slab {
    /// Set the runtime state of the backend; its mapping and the rest of its metadata stay.
    pub fn set_state(&mut self, state: State)
        ensures
            final(self).spec_info() == (InfoView { state: state, ..old(self).spec_info() }),
            final(self).spec_bytes() == old(self).spec_bytes(),
            final(self).spec_kind() == old(self).spec_kind(),
    {
        match self {
            Slab::Ram(b) => {
                b.info_mut().state = state;
            },
            Slab::Shm(b) => {
                b.info_mut().state = state;
            },
            Slab::File(b) => {
                b.info_mut().state = state;
            },
        }
    }
}

impl Slab {
    /// Open the backend at `url`, in place. Only the process-local backend opens in this
    /// process.
    pub fn open(&mut self, url: &Url, mode: OpenMode, capacity: Option<usize>) -> (r: Result<(), SlabError>)
        requires
            *old(self) is Ram,
        ensures
            match spec_open_error(url@, mode, capacity) {
                Some(e) => r == Err::<(), SlabError>(SlabError::Ram(e)) && *final(self) == *old(self),
                None => r is Ok && (*final(self) matches Slab::Ram(ram) && Ram::opened(
                    url@,
                    mode,
                    capacity,
                    Ok::<Ram, RamError>(ram),
                )),
            },
    {
        match Ram::open(url, mode, capacity) {
            Ok(ram) => {
                *self = Slab::Ram(ram);
                Ok(())
            },
            Err(e) => Err(SlabError::Ram(e)),
        }
    }
}

impl HasMapping for Slab {
    open spec fn spec_bytes(&self) -> Seq<u8> {
        match self {
            Slab::Ram(b) => b.spec_bytes(),
            Slab::Shm(b) => b.spec_bytes(),
            Slab::File(b) => b.spec_bytes(),
        }
    }

    fn bytes(&self) -> (r: &[u8]) {
        match self {
            Slab::Ram(b) => b.bytes(),
            Slab::Shm(b) => b.bytes(),
            Slab::File(b) => b.bytes(),
        }
    }

    fn bytes_mut(&mut self) -> (r: &mut [u8])
        ensures
            final(self).spec_info() == old(self).spec_info(),
            final(self).spec_kind() == old(self).spec_kind(),
    {
        match self {
            Slab::Ram(b) => b.bytes_mut(),
            Slab::Shm(b) => b.bytes_mut(),
            Slab::File(b) => b.bytes_mut(),
        }
    }
}

impl Kind {
    /// The metadata of an unopened backend of this kind: the placeholder url `_`, no capacity,
    /// no open mode.
    pub open spec fn spec_unopened_info(self) -> InfoView {
        InfoView {
            url: match self {
                Kind::Ram => url_text("ram"@, "_"@, Seq::empty()),
                Kind::Shm => url_text("shm"@, "_"@, Seq::empty()),
                Kind::File => url_text("file"@, Seq::empty(), "_"@),
            },
            capacity: 0,
            open_mode: OpenMode::Unset,
            state: State::Unopened,
        }
    }

    /// Unopened backend for this kind.
    pub fn create(self) -> (r: Slab)
        ensures
            r.is_unopened(self),
    {
        match self {
            Kind::Ram => Slab::Ram(Ram::new()),
            Kind::Shm => Slab::Shm(Shm::new()),
            Kind::File => Slab::File(File::new()),
        }
    }

    /// Unopened backend for `scheme` (`ram` / `shm` / `file`).
    pub fn create_from_scheme(scheme: &str) -> (r: Result<Slab, UnknownScheme>)
        ensures
            r is Ok <==> Kind::spec_from_scheme(scheme@) is Some,
            r matches Ok(s) ==> Kind::spec_from_scheme(scheme@) == Some(s.spec_kind())
                && s.is_unopened(s.spec_kind()),
            r matches Err(e) ==> e.0@ == scheme@,
    {
        match Kind::from_scheme(scheme) {
            Some(kind) => Ok(kind.create()),
            None => Err(UnknownScheme(scheme.to_owned())),
        }
    }

    /// Unopened backend for the url's scheme.
    pub fn create_from_url(url: &Url) -> (r: Result<Slab, UnknownScheme>)
        ensures
            r is Ok <==> Kind::spec_from_scheme(url_scheme(url@)) is Some,
            r matches Ok(s) ==> Kind::spec_from_scheme(url_scheme(url@)) == Some(s.spec_kind())
                && s.is_unopened(s.spec_kind()),
            r matches Err(e) ==> e.0@ == url_scheme(url@),
    {
        Self::create_from_scheme(url.scheme())
    }
}

} // verus!

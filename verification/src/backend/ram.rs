//! Process-local byte slab (`Vec<u8>`).

use crate::chars::shrink_vec;
use crate::io::info::InfoView;
use crate::io::{
    HasAccess, HasArenaClaim, HasInfo, HasKind, HasMapping, HasResize, Info, Kind, OpenMode, State,
};
use crate::url::{url_host, url_scheme, url_text, Url};
use vstd::prelude::*;

verus! {

/// Why the process-local backend refused a request.
#[derive(Debug, Clone, Copy, PartialEq, Eq, Structural)]
pub enum RamError {
    WrongScheme,
    HostRequired,
    ModeRequired,
    CapacityRequired,
    NotOpen,
    /// Resizing would move the buffer while the segment allocator holds pointers into the arena.
    ArenaClaimed,
}

impl RamError {
    /// The text of the error.
    pub open spec fn spec_message(&self) -> Seq<char> {
        match self {
            RamError::WrongScheme => "url scheme must be ram"@,
            RamError::HostRequired => "ram url requires a host"@,
            RamError::ModeRequired => "open mode must be create or attach"@,
            RamError::CapacityRequired => "capacity required and must be > 0"@,
            RamError::NotOpen => "ram backend is not open"@,
            RamError::ArenaClaimed => "ram resize forbidden: arena claimed by segment talc"@,
        }
    }

    pub fn message(&self) -> (r: &'static str)
        ensures
            r@ == self.spec_message(),
    {
        match self {
            RamError::WrongScheme => "url scheme must be ram",
            RamError::HostRequired => "ram url requires a host",
            RamError::ModeRequired => "open mode must be create or attach",
            RamError::CapacityRequired => "capacity required and must be > 0",
            RamError::NotOpen => "ram backend is not open",
            RamError::ArenaClaimed => "ram resize forbidden: arena claimed by segment talc",
        }
    }
}

/// A process-local slab: metadata, a zero-initialised byte buffer, and whether the segment
/// allocator has claimed its arena.
pub struct Ram {
    info: Info,
    buf: Vec<u8>,
    arena_claimed: bool,
}

/// Why opening `url` with `mode` and `capacity` is refused, if it is.
pub open spec fn spec_open_error(url: Seq<char>, mode: OpenMode, capacity: Option<usize>) -> Option<
    RamError,
> {
    if url_scheme(url) != "ram"@ {
        Some(RamError::WrongScheme)
    } else if url_host(url).len() == 0 {
        Some(RamError::HostRequired)
    } else if mode == OpenMode::Unset {
        Some(RamError::ModeRequired)
    } else if capacity is None || capacity == Some(0usize) {
        Some(RamError::CapacityRequired)
    } else {
        None
    }
}

/// Why resizing a slab in `state`, claimed or not, to `new_capacity` is refused, if it is.
pub open spec fn spec_resize_error(claimed: bool, state: State, new_capacity: usize) -> Option<
    RamError,
> {
    if claimed {
        Some(RamError::ArenaClaimed)
    } else if state != State::Open {
        Some(RamError::NotOpen)
    } else if new_capacity == 0 {
        Some(RamError::CapacityRequired)
    } else {
        None
    }
}

/// `n` zero bytes.
pub open spec fn zeros(n: nat) -> Seq<u8> {
    Seq::new(n, |i: int| 0u8)
}

/// `s` cut or zero-extended to length `n`.
pub open spec fn resized(s: Seq<u8>, n: nat) -> Seq<u8> {
    if n <= s.len() {
        s.take(n as int)
    } else {
        s + zeros((n - s.len()) as nat)
    }
}

impl Ram {
    /// The byte buffer.
    pub closed spec fn spec_buf(&self) -> Seq<u8> {
        self.buf@
    }

    /// The metadata.
    pub closed spec fn spec_meta(&self) -> InfoView {
        self.info@
    }

    /// Whether the segment allocator has claimed the arena.
    pub closed spec fn spec_claimed(&self) -> bool {
        self.arena_claimed
    }

    /// Unopened slab; open it with [`HasAccess::open`] or [`HasAccess::create`].
    pub fn new() -> (r: Self)
        ensures
            r.spec_info() == (InfoView {
                url: url_text("ram"@, "_"@, Seq::empty()),
                capacity: 0,
                open_mode: OpenMode::Unset,
                state: State::Unopened,
            }),
            r.spec_buf() == Seq::<u8>::empty(),
            !r.spec_arena_claimed(),
    {
        Ram { info: Info::empty(Self::build_url("_")), buf: Vec::new(), arena_claimed: false }
    }

    /// `ram://<host>`.
    pub fn build_url(host: &str) -> (r: Url)
        ensures
            r@ == url_text("ram"@, host@, Seq::empty()),
    {
        Url::builder().scheme("ram").host(host).build()
    }
}

impl HasKind for Ram {
    const KIND: Kind = Kind::Ram;
}

impl HasInfo for Ram {
    open spec fn spec_info(&self) -> InfoView {
        self.spec_meta()
    }

    fn info(&self) -> (r: &Info) {
        &self.info
    }

    fn info_mut(&mut self) -> (r: &mut Info)
        ensures
            final(self).spec_buf() == old(self).spec_buf(),
            final(self).spec_claimed() == old(self).spec_claimed(),
    {
        &mut self.info
    }
}

impl HasAccess for Ram {
    type Error = RamError;

    open spec fn spec_opened(
        url: Seq<char>,
        mode: OpenMode,
        capacity: Option<usize>,
        r: Result<Ram, RamError>,
    ) -> bool {
        Ram::opened(url, mode, capacity, r)
    }

    fn create(url: &Url, capacity: Option<usize>) -> (r: Result<Self, RamError>)
        ensures
            Ram::opened(url@, OpenMode::Create, capacity, r),
    {
        Self::open(url, OpenMode::Create, capacity)
    }

    fn attach(url: &Url, capacity: Option<usize>) -> (r: Result<Self, RamError>)
        ensures
            Ram::opened(url@, OpenMode::Attach, capacity, r),
    {
        Self::open(url, OpenMode::Attach, capacity)
    }

    fn open(url: &Url, mode: OpenMode, capacity: Option<usize>) -> (r: Result<Self, RamError>)
        ensures
            Ram::opened(url@, mode, capacity, r),
    {
        if !crate::url::str_is(url.scheme(), "ram") {
            return Err(RamError::WrongScheme);
        }
        if url.host().unicode_len() == 0 {
            return Err(RamError::HostRequired);
        }
        if mode == OpenMode::Unset {
            return Err(RamError::ModeRequired);
        }
        let capacity = match capacity {
            Some(n) if n > 0 => n,
            _ => {
                return Err(RamError::CapacityRequired);
            },
        };
        let buf = vec![0u8; capacity];
        proof {
            assert(buf@ =~= zeros(capacity as nat));
        }
        Ok(
            Ram {
                info: Info { url: url.clone(), capacity, open_mode: mode, state: State::Open },
                buf,
                arena_claimed: false,
            },
        )
    }

    /// Marks the slab closed, releases the claim and frees the buffer.
    fn close(&mut self) -> (r: Result<(), RamError>)
        ensures
            r is Ok,
            final(self).spec_info() == (InfoView { state: State::Closed, ..old(self).spec_info() }),
            final(self).spec_buf() == Seq::<u8>::empty(),
            !final(self).spec_arena_claimed(),
    {
        self.info.state = State::Closed;
        self.arena_claimed = false;
        self.buf.clear();
        shrink_vec(&mut self.buf);
        Ok(())
    }

    /// Nothing outlives the process, so there is nothing to remove.
    fn unlink(&mut self) -> (r: Result<(), RamError>)
        ensures
            r is Ok,
            final(self).spec_info() == old(self).spec_info(),
            final(self).spec_buf() == old(self).spec_buf(),
            final(self).spec_arena_claimed() == old(self).spec_arena_claimed(),
    {
        Ok(())
    }
}

impl Ram {
    /// What opening gives: the refusal that [`spec_open_error`] names, or an open slab of
    /// `capacity` zero bytes at `url`, unclaimed.
    pub open spec fn opened(
        url: Seq<char>,
        mode: OpenMode,
        capacity: Option<usize>,
        r: Result<Ram, RamError>,
    ) -> bool {
        match spec_open_error(url, mode, capacity) {
            Some(e) => r == Err::<Ram, RamError>(e),
            None => r matches Ok(ram) && ram.spec_info() == (InfoView {
                url: url,
                capacity: capacity->0,
                open_mode: mode,
                state: State::Open,
            }) && ram.spec_buf() == zeros(capacity->0 as nat) && !ram.spec_arena_claimed(),
        }
    }
}

impl HasArenaClaim for Ram {
    open spec fn spec_arena_claimed(&self) -> bool {
        self.spec_claimed()
    }

    fn arena_claimed(&self) -> (r: bool) {
        self.arena_claimed
    }

    fn set_arena_claimed(&mut self, claimed: bool)
        ensures
            final(self).spec_meta() == old(self).spec_meta(),
            final(self).spec_buf() == old(self).spec_buf(),
    {
        self.arena_claimed = claimed;
    }
}

impl HasMapping for Ram {
    open spec fn spec_bytes(&self) -> Seq<u8> {
        self.spec_buf()
    }

    fn bytes(&self) -> (r: &[u8]) {
        self.buf.as_slice()
    }

    fn bytes_mut(&mut self) -> (r: &mut [u8])
        ensures
            final(self).spec_meta() == old(self).spec_meta(),
            final(self).spec_claimed() == old(self).spec_claimed(),
    {
        self.buf.as_mut_slice()
    }
}

impl HasResize for Ram {
    /// Resizes the buffer (cut, or extended with zeros) and records the new capacity; refused
    /// while the arena is claimed, when not open, or for a zero size.
    fn resize(&mut self, new_capacity: usize) -> (r: Result<(), RamError>)
        ensures
            match spec_resize_error(
                old(self).spec_arena_claimed(),
                old(self).spec_info().state,
                new_capacity,
            ) {
                Some(e) => r == Err::<(), RamError>(e) && final(self).spec_info() == old(
                    self,
                ).spec_info() && final(self).spec_buf() == old(self).spec_buf(),
                None => r is Ok && final(self).spec_info() == (InfoView {
                    capacity: new_capacity,
                    ..old(self).spec_info()
                }) && final(self).spec_buf() == resized(old(self).spec_buf(), new_capacity as nat),
            },
            final(self).spec_arena_claimed() == old(self).spec_arena_claimed(),
    {
        if self.arena_claimed {
            return Err(RamError::ArenaClaimed);
        }
        if self.info.state != State::Open {
            return Err(RamError::NotOpen);
        }
        if new_capacity == 0 {
            return Err(RamError::CapacityRequired);
        }
        let ghost before = self.buf@;
        self.buf.resize(new_capacity, 0);
        proof {
            if new_capacity as nat > before.len() {
                assert forall|i: int| 0 <= i < new_capacity implies self.buf@[i] == resized(
                    before,
                    new_capacity as nat,
                )[i] by {
                    if i < before.len() {
                        assert(self.buf@[i] == self.buf@.subrange(0, before.len() as int)[i]);
                    }
                }
            }
            assert(self.buf@ =~= resized(before, new_capacity as nat));
        }
        self.info.capacity = new_capacity;
        Ok(())
    }
}

} // verus!

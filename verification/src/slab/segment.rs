//! A segment's slabs: the backends it has taken in, their headers and arenas.
//!
//! The allocator that manages the arenas is held beside a [`Segment`] by its owner: handing
//! memory to it and allocating from it are `unsafe` calls. Every check and every write of the
//! slab layout is made here; the owner calls the allocator in between.

use super::chain::{
    append_to_chain, chain_rows, link_tail, load_chain, redistribute_chain, spec_append_to_chain,
    spec_chain, spec_link_tail, spec_redistribute_from, ChainAppend,
};
use super::error::{SegmentError, SegmentOpenError, SegmentTeardownError};
use super::header::{
    read_header, spec_read_header, write_header, Header, FLAG_MOUNTED, HEADER_LEN, HEADER_SIZE,
    MAGIC, SLAB_ROLE_HEAP_EXT, SLAB_ROLE_PRIMARY, VERSION,
};
use super::layout::{
    arena_range, normalize_capacity, primary_header, spec_arena_range, spec_normalize_capacity,
    spec_primary_header,
};
use super::pin::{place_catalog, spec_place_catalog};
use super::primary::{
    chain_catalog, chain_chunk_count, chain_head, chain_row_at, metatype_index_in_chain,
    spec_chain_catalog, spec_chain_head,
};
use super::register::{
    check_attached, check_slab, spec_check_attached, spec_check_slab, with_extension_count,
};
use super::stats::{chain_stats, spec_chain_stats, SegmentMemoryOverview};
use crate::backend::Slab;
use crate::catalog::metatype::{spec_index_of_uuid, MetaTypeCatalog, MetaTypeCatalogKind};
use crate::catalog::objects::{ObjectCatalog, ObjectCatalogKind};
use crate::catalog::wire::{Catalog, CatalogKind, CatalogRow};
use crate::codec::{le16, le32, splice};
use crate::io::info::InfoView;
use crate::io::{HasInfo, HasMapping, Kind, SlabError, State};
use crate::manager::locator::spec_extension;
use crate::manager::Locator;
use crate::types::{MetaTypeHeader, ObjectHeader};
use crate::url::{url_scheme, Url};
use vstd::prelude::*;

verus! {

/// The slabs of one segment, the first being its primary.
pub struct Segment {
    kind: Kind,
    base: Option<Locator>,
    segment_uuid: [u8; 16],
    backends: Vec<Slab>,
}

/// Arena length of a slab: what its validated header says, if it says anything.
pub open spec fn slab_arena_len(s: Slab) -> Option<int> {
    match spec_arena_range(s.spec_bytes(), s.spec_info().capacity) {
        Ok((a, b)) => Some(b - a),
        Err(_) => None,
    }
}

/// Sum of the arena lengths of `slabs` (slabs without a valid arena count nothing).
pub open spec fn arena_total(slabs: Seq<Slab>) -> int
    decreases slabs.len(),
{
    if slabs.len() == 0 {
        0
    } else {
        arena_total(slabs.drop_last()) + match slab_arena_len(slabs.last()) {
            Some(n) => n,
            None => 0,
        }
    }
}

/// Sum of the mapping lengths of `slabs`.
pub open spec fn raw_total(slabs: Seq<Slab>) -> int
    decreases slabs.len(),
{
    if slabs.len() == 0 {
        0
    } else {
        raw_total(slabs.drop_last()) + slabs.last().spec_bytes().len()
    }
}

/// `n`, or `usize::MAX` when it does not fit.
pub open spec fn saturate(n: int) -> usize {
    if n > usize::MAX {
        usize::MAX
    } else {
        n as usize
    }
}

/// Index of the first slab whose url is `url`.
pub open spec fn first_slab_at(slabs: Seq<Slab>, url: Seq<char>) -> Option<int> {
    if exists|i: int| 0 <= i < slabs.len() && (#[trigger] slabs[i].spec_info()).url == url {
        Some(
            choose|i: int|
                0 <= i < slabs.len() && (#[trigger] slabs[i].spec_info()).url == url && forall|j: int|
                    0 <= j < i ==> (#[trigger] slabs[j].spec_info()).url != url,
        )
    } else {
        None
    }
}

/// Slab `s` after its runtime state was set to `state`: same kind, mapping and metadata.
pub open spec fn restated(s: Slab, old_s: Slab, state: State) -> bool {
    &&& s.spec_kind() == old_s.spec_kind()
    &&& s.spec_bytes() == old_s.spec_bytes()
    &&& s.spec_info() == (InfoView { state: state, ..old_s.spec_info() })
}

/// The header of a mounted primary slab with an arena of `arena_len` bytes, the given
/// identity and catalog chains at `metatypes` and `objects` (arena offset, length).
pub open spec fn mounted_primary(
    arena_len: u32,
    segment_uuid: [u8; 16],
    metatypes: (u32, u32),
    objects: (u32, u32),
) -> Header {
    Header {
        magic: MAGIC,
        version: VERSION,
        header_len: HEADER_LEN as u32,
        offset: HEADER_LEN as u32,
        len: arena_len,
        segment_uuid,
        slab_role: SLAB_ROLE_PRIMARY,
        slab_index: 0,
        extension_count: 1,
        metatype_catalog_offset: metatypes.0,
        metatype_catalog_len: metatypes.1,
        object_catalog_offset: objects.0,
        object_catalog_len: objects.1,
        flags: FLAG_MOUNTED,
    }
}

/// The header of mounted heap extension `slab_index` with an arena of `arena_len` bytes.
pub open spec fn mounted_extension(arena_len: u32, segment_uuid: [u8; 16], slab_index: u16) -> Header {
    Header {
        magic: MAGIC,
        version: VERSION,
        header_len: HEADER_LEN as u32,
        offset: HEADER_LEN as u32,
        len: arena_len,
        segment_uuid,
        slab_role: SLAB_ROLE_HEAP_EXT,
        slab_index,
        extension_count: 0,
        metatype_catalog_offset: 0,
        metatype_catalog_len: 0,
        object_catalog_offset: 0,
        object_catalog_len: 0,
        flags: FLAG_MOUNTED,
    }
}

/// Mapping, capacity and chain head (offset, length) of one catalog chain of the primary
/// slab: the metatype chain when `metatypes`, else the object chain. The primary must be a
/// mounted primary.
pub open spec fn primary_chain(slabs: Seq<Slab>, metatypes: bool) -> Result<
    (Seq<u8>, usize, u32, u32),
    SegmentError,
> {
    if slabs.len() == 0 {
        Err(SegmentError::BadIndex)
    } else {
        match spec_primary_header(slabs[0].spec_bytes()) {
            Err(e) => Err(e),
            Ok(h) => Ok(
                (
                    slabs[0].spec_bytes(),
                    slabs[0].spec_info().capacity,
                    if metatypes {
                        h.metatype_catalog_offset
                    } else {
                        h.object_catalog_offset
                    },
                    if metatypes {
                        h.metatype_catalog_len
                    } else {
                        h.object_catalog_len
                    },
                ),
            ),
        }
    }
}

/// `new` is `old` with the mapping of the primary slab replaced by `bytes`.
pub open spec fn primary_rewritten(old: Seq<Slab>, new: Seq<Slab>, bytes: Seq<u8>) -> bool {
    &&& old.len() > 0
    &&& new.len() == old.len()
    &&& new[0].spec_kind() == old[0].spec_kind()
    &&& new[0].spec_info() == old[0].spec_info()
    &&& new[0].spec_bytes() == bytes
    &&& forall|j: int| 1 <= j < old.len() ==> new[j] == old[j]
}

/// What an edit of one primary chain does to the slabs: `step` gives its result and the
/// mapping after; a refused primary leaves everything as it was.
pub open spec fn primary_edit<T>(
    old: Seq<Slab>,
    new: Seq<Slab>,
    metatypes: bool,
    r: Result<T, SegmentError>,
    step: spec_fn(Seq<u8>, usize, u32, u32) -> (Result<T, SegmentError>, Seq<u8>),
) -> bool {
    match primary_chain(old, metatypes) {
        Err(e) => r == Err::<T, SegmentError>(e) && new == old,
        Ok((m, c, o, l)) => r == step(m, c, o, l).0 && primary_rewritten(old, new, step(m, c, o, l).1),
    }
}

/// What spreading `rows` over the chain at (`o`, `l`) does: the rows fill each chunk's slots
/// in turn, chunks keep their links; the result and the mapping after.
pub open spec fn spec_store_chain<K: CatalogKind>(
    m: Seq<u8>,
    c: usize,
    o: u32,
    l: u32,
    rows: Seq<K::Row>,
) -> (Result<(), SegmentError>, Seq<u8>) {
    match spec_chain::<K>(m, c, o, l) {
        Err(e) => (Err(e), m),
        Ok(cs) => if cs.len() == 0 {
            (Err(SegmentError::BadHeader), m)
        } else {
            spec_redistribute_from::<K>(m, c, cs, rows, 0, 0)
        },
    }
}

impl Segment {
    pub closed spec fn spec_kind(&self) -> Kind {
        self.kind
    }

    /// Url text of the base locator, if the segment has one.
    pub closed spec fn spec_base(&self) -> Option<Seq<char>> {
        match self.base {
            Some(l) => Some(l@),
            None => None,
        }
    }

    pub closed spec fn spec_uuid(&self) -> [u8; 16] {
        self.segment_uuid
    }

    /// The slabs, primary first.
    pub closed spec fn slabs(&self) -> Seq<Slab> {
        self.backends@
    }

    /// A segment of `kind` with no base locator, a zero UUID and no slab.
    pub fn new(kind: Kind) -> (r: Self)
        ensures
            r.spec_kind() == kind,
            r.spec_base() is None,
            forall|i: int| 0 <= i < 16 ==> r.spec_uuid()@[i] == 0u8,
            r.slabs() == Seq::<Slab>::empty(),
    {
        Segment { kind, base: None, segment_uuid: [0u8; 16], backends: Vec::new() }
    }

    /// A segment bound to `base` (its primary slab lives at the base url), with the given
    /// identity and no slab yet.
    pub fn with_base(kind: Kind, base: Locator, segment_uuid: [u8; 16]) -> (r: Self)
        ensures
            r.spec_kind() == kind,
            r.spec_base() == Some(base@),
            r.spec_uuid() == segment_uuid,
            r.slabs() == Seq::<Slab>::empty(),
    {
        Segment { kind, base: Some(base), segment_uuid, backends: Vec::new() }
    }

    pub fn kind(&self) -> (r: Kind)
        ensures
            r == self.spec_kind(),
    {
        self.kind
    }

    pub fn base(&self) -> (r: Option<&Locator>)
        ensures
            match self.spec_base() {
                Some(b) => r matches Some(l) && l@ == b,
                None => r is None,
            },
    {
        match &self.base {
            Some(l) => Some(l),
            None => None,
        }
    }

    pub fn segment_uuid(&self) -> (r: [u8; 16])
        ensures
            r == self.spec_uuid(),
    {
        self.segment_uuid
    }

    pub fn slab_count(&self) -> (r: usize)
        ensures
            r == self.slabs().len(),
    {
        self.backends.len()
    }

    pub fn backends(&self) -> (r: &[Slab])
        ensures
            r@ == self.slabs(),
    {
        self.backends.as_slice()
    }

    /// Slab `index`, if there is one.
    pub fn backend(&self, index: usize) -> (r: Option<&Slab>)
        ensures
            index < self.slabs().len() ==> (r matches Some(b) && *b == self.slabs()[index as int]),
            index >= self.slabs().len() ==> r is None,
    {
        if index < self.backends.len() {
            Some(&self.backends[index])
        } else {
            None
        }
    }

    /// Slab `index` for changes; nothing else changes.
    pub fn backend_mut(&mut self, index: usize) -> (r: Option<&mut Slab>)
        ensures
            final(self).spec_kind() == old(self).spec_kind(),
            final(self).spec_base() == old(self).spec_base(),
            final(self).spec_uuid() == old(self).spec_uuid(),
            index < old(self).slabs().len() ==> (r matches Some(b) && *b == old(self).slabs()[index as int]
                && final(self).slabs() == old(self).slabs().update(index as int, *final(b))),
            index >= old(self).slabs().len() ==> r is None && final(self).slabs() == old(self).slabs(),
    {
        if index < self.backends.len() {
            Some(&mut self.backends[index])
        } else {
            None
        }
    }

    /// The primary slab for changes.
    pub fn primary_mut(&mut self) -> (r: Option<&mut Slab>)
        ensures
            final(self).spec_kind() == old(self).spec_kind(),
            final(self).spec_base() == old(self).spec_base(),
            final(self).spec_uuid() == old(self).spec_uuid(),
            old(self).slabs().len() > 0 ==> (r matches Some(b) && *b == old(self).slabs()[0]
                && final(self).slabs() == old(self).slabs().update(0, *final(b))),
            old(self).slabs().len() == 0 ==> r is None && final(self).slabs() == old(self).slabs(),
    {
        self.backend_mut(0)
    }

    /// The primary slab, if there is one.
    pub fn primary(&self) -> (r: Option<&Slab>)
        ensures
            self.slabs().len() > 0 ==> (r matches Some(b) && *b == self.slabs()[0]),
            self.slabs().len() == 0 ==> r is None,
    {
        self.backend(0)
    }

    /// Header of slab `index`, when the slab exists and its mapping holds one.
    pub fn header(&self, index: usize) -> (r: Option<Header>)
        ensures
            r == if index < self.slabs().len() {
                spec_read_header(self.slabs()[index as int].spec_bytes())
            } else {
                None
            },
    {
        if index < self.backends.len() {
            read_header(self.backends[index].bytes())
        } else {
            None
        }
    }

    /// Mapping length of slab `index`.
    pub fn size_raw(&self, index: usize) -> (r: Option<usize>)
        ensures
            r == if index < self.slabs().len() {
                Some(self.slabs()[index as int].spec_bytes().len() as usize)
            } else {
                None
            },
    {
        if index < self.backends.len() {
            Some(self.backends[index].bytes().len())
        } else {
            None
        }
    }

    /// Arena bytes of slab `index`, where its header lays out a valid arena.
    pub fn arena(&self, index: usize) -> (r: Option<&[u8]>)
        ensures
            index >= self.slabs().len() ==> r is None,
            index < self.slabs().len() ==> (match spec_arena_range(
                self.slabs()[index as int].spec_bytes(),
                self.slabs()[index as int].spec_info().capacity,
            ) {
                Ok((a, b)) => r matches Some(s) && s@ == self.slabs()[index as int].spec_bytes().subrange(
                    a,
                    b,
                ),
                Err(_) => r is None,
            }),
    {
        if index >= self.backends.len() {
            return None;
        }
        let b = &self.backends[index];
        let bytes = b.bytes();
        match arena_range(bytes, b.info().capacity) {
            Ok(range) => Some(vstd::slice::slice_subrange(bytes, range.start, range.end)),
            Err(_) => None,
        }
    }

    /// Arena length of slab `index`.
    pub fn size(&self, index: usize) -> (r: Option<usize>)
        ensures
            r == if index < self.slabs().len() {
                match slab_arena_len(self.slabs()[index as int]) {
                    Some(n) => Some(n as usize),
                    None => None,
                }
            } else {
                None
            },
    {
        match self.arena(index) {
            Some(a) => Some(a.len()),
            None => None,
        }
    }

    /// Arena bytes over all slabs (saturating at `usize::MAX`).
    pub fn size_all(&self) -> (r: usize)
        ensures
            r == saturate(arena_total(self.slabs())),
    {
        let n = self.backends.len();
        let mut total: usize = 0;
        let mut i: usize = 0;
        while i < n
            invariant
                n == self.slabs().len(),
                0 <= i <= n,
                total == saturate(arena_total(self.slabs().take(i as int))),
            decreases n - i,
        {
            proof {
                let t = self.slabs().take(i as int + 1);
                assert(t.drop_last() =~= self.slabs().take(i as int));
                assert(t.last() == self.slabs()[i as int]);
                lemma_arena_total_nonneg(self.slabs().take(i as int));
            }
            match self.size(i) {
                Some(len) => {
                    total = total.saturating_add(len);
                },
                None => {},
            }
            i = i + 1;
        }
        assert(self.slabs().take(n as int) =~= self.slabs());
        total
    }

    /// Mapping bytes over all slabs (saturating at `usize::MAX`).
    pub fn size_raw_all(&self) -> (r: usize)
        ensures
            r == saturate(raw_total(self.slabs())),
    {
        let n = self.backends.len();
        let mut total: usize = 0;
        let mut i: usize = 0;
        while i < n
            invariant
                n == self.slabs().len(),
                0 <= i <= n,
                total == saturate(raw_total(self.slabs().take(i as int))),
            decreases n - i,
        {
            proof {
                let t = self.slabs().take(i as int + 1);
                assert(t.drop_last() =~= self.slabs().take(i as int));
                assert(t.last() == self.slabs()[i as int]);
                lemma_raw_total_nonneg(self.slabs().take(i as int));
            }
            total = total.saturating_add(self.backends[i].bytes().len());
            i = i + 1;
        }
        assert(self.slabs().take(n as int) =~= self.slabs());
        total
    }

    /// Take in a slab as the next one; its index.
    pub fn push(&mut self, backend: Slab) -> (r: usize)
        ensures
            r == old(self).slabs().len(),
            final(self).slabs() == old(self).slabs().push(backend),
            final(self).spec_kind() == old(self).spec_kind(),
            final(self).spec_base() == old(self).spec_base(),
            final(self).spec_uuid() == old(self).spec_uuid(),
    {
        let index = self.backends.len();
        self.backends.push(backend);
        index
    }

    /// Write `header` into slab `index`; whether there was such a slab.
    pub fn set_header(&mut self, index: usize, header: Header) -> (r: bool)
        requires
            index < old(self).slabs().len() ==> old(self).slabs()[index as int].spec_bytes().len()
                >= HEADER_SIZE,
        ensures
            r == (index < old(self).slabs().len()),
            final(self).slabs().len() == old(self).slabs().len(),
            forall|j: int|
                0 <= j < old(self).slabs().len() && j != index ==> final(self).slabs()[j] == old(
                    self,
                ).slabs()[j],
            index < old(self).slabs().len() ==> {
                let (o, n) = (old(self).slabs()[index as int], final(self).slabs()[index as int]);
                &&& n.spec_kind() == o.spec_kind()
                &&& n.spec_info() == o.spec_info()
                &&& n.spec_bytes() == splice(o.spec_bytes(), 0, header.spec_encoded())
            },
            final(self).spec_kind() == old(self).spec_kind(),
            final(self).spec_base() == old(self).spec_base(),
            final(self).spec_uuid() == old(self).spec_uuid(),
    {
        if index >= self.backends.len() {
            return false;
        }
        write_header(self.backends[index].bytes_mut(), header);
        true
    }

    /// Mark slab `index` closed (its mapping stays for the allocator).
    pub fn close(&mut self, index: usize) -> (r: Result<(), SegmentTeardownError>)
        ensures
            index >= old(self).slabs().len() ==> r == Err::<(), SegmentTeardownError>(
                SegmentTeardownError::BadIndex,
            ) && final(self).slabs() == old(self).slabs(),
            index < old(self).slabs().len() ==> r is Ok,
            final(self).slabs().len() == old(self).slabs().len(),
            forall|j: int|
                0 <= j < old(self).slabs().len() && j != index ==> final(self).slabs()[j] == old(
                    self,
                ).slabs()[j],
            index < old(self).slabs().len() ==> restated(
                final(self).slabs()[index as int],
                old(self).slabs()[index as int],
                State::Closed,
            ),
            final(self).spec_kind() == old(self).spec_kind(),
            final(self).spec_base() == old(self).spec_base(),
            final(self).spec_uuid() == old(self).spec_uuid(),
    {
        if index >= self.backends.len() {
            return Err(SegmentTeardownError::BadIndex);
        }
        self.backends[index].set_state(State::Closed);
        Ok(())
    }

    /// Mark every slab closed.
    pub fn close_all(&mut self) -> (r: Result<(), SlabError>)
        ensures
            r is Ok,
            final(self).slabs().len() == old(self).slabs().len(),
            forall|j: int|
                0 <= j < old(self).slabs().len() ==> restated(
                    #[trigger] final(self).slabs()[j],
                    old(self).slabs()[j],
                    State::Closed,
                ),
            final(self).spec_kind() == old(self).spec_kind(),
            final(self).spec_base() == old(self).spec_base(),
            final(self).spec_uuid() == old(self).spec_uuid(),
    {
        let n = self.backends.len();
        let mut i: usize = 0;
        while i < n
            invariant
                n == old(self).slabs().len(),
                self.slabs().len() == n,
                0 <= i <= n,
                forall|j: int|
                    0 <= j < i ==> restated(
                        #[trigger] self.slabs()[j],
                        old(self).slabs()[j],
                        State::Closed,
                    ),
                forall|j: int| i <= j < n ==> #[trigger] self.slabs()[j] == old(self).slabs()[j],
                self.spec_kind() == old(self).spec_kind(),
                self.spec_base() == old(self).spec_base(),
                self.spec_uuid() == old(self).spec_uuid(),
            decreases n - i,
        {
            self.backends[i].set_state(State::Closed);
            i = i + 1;
        }
        Ok(())
    }

    /// Same as [`Self::close`]: the mapping goes when the segment goes.
    pub fn unlink(&mut self, index: usize) -> (r: Result<(), SegmentTeardownError>)
        ensures
            index >= old(self).slabs().len() ==> r == Err::<(), SegmentTeardownError>(
                SegmentTeardownError::BadIndex,
            ) && final(self).slabs() == old(self).slabs(),
            index < old(self).slabs().len() ==> r is Ok,
            final(self).slabs().len() == old(self).slabs().len(),
            forall|j: int|
                0 <= j < old(self).slabs().len() && j != index ==> final(self).slabs()[j] == old(
                    self,
                ).slabs()[j],
            index < old(self).slabs().len() ==> restated(
                final(self).slabs()[index as int],
                old(self).slabs()[index as int],
                State::Closed,
            ),
            final(self).spec_kind() == old(self).spec_kind(),
            final(self).spec_base() == old(self).spec_base(),
            final(self).spec_uuid() == old(self).spec_uuid(),
    {
        self.close(index)
    }

    /// Same as [`Self::close_all`].
    pub fn unlink_all(&mut self) -> (r: Result<(), SlabError>)
        ensures
            r is Ok,
            final(self).slabs().len() == old(self).slabs().len(),
            forall|j: int|
                0 <= j < old(self).slabs().len() ==> restated(
                    #[trigger] final(self).slabs()[j],
                    old(self).slabs()[j],
                    State::Closed,
                ),
            final(self).spec_kind() == old(self).spec_kind(),
            final(self).spec_base() == old(self).spec_base(),
            final(self).spec_uuid() == old(self).spec_uuid(),
    {
        self.close_all()
    }

    /// Mapping, capacity and head of one primary chain.
    fn primary_parts(&self, metatypes: bool) -> (r: Result<(&[u8], usize, u32, u32), SegmentError>)
        ensures
            match primary_chain(self.slabs(), metatypes) {
                Ok((m, c, o, l)) => r matches Ok((b, c2, o2, l2)) && b@ == m && c2 == c && o2 == o
                    && l2 == l,
                Err(e) => r matches Err(x) && x == e,
            },
    {
        if self.backends.len() == 0 {
            return Err(SegmentError::BadIndex);
        }
        let b = &self.backends[0];
        let bytes = b.bytes();
        let h = primary_header(bytes)?;
        if metatypes {
            Ok((bytes, b.info().capacity, h.metatype_catalog_offset, h.metatype_catalog_len))
        } else {
            Ok((bytes, b.info().capacity, h.object_catalog_offset, h.object_catalog_len))
        }
    }

    /// The whole metatype chain as one catalog.
    pub fn metatype_catalog(&self) -> (r: Result<MetaTypeCatalog, SegmentError>)
        ensures
            match primary_chain(self.slabs(), true) {
                Err(e) => r matches Err(x) && x == e,
                Ok((m, c, o, l)) => match spec_chain_catalog::<MetaTypeCatalogKind>(m, c, o, l) {
                    Ok(v) => r matches Ok(x) && x@ == v,
                    Err(e) => r matches Err(x) && x == e,
                },
            },
    {
        let (bytes, cap, o, l) = self.primary_parts(true)?;
        let flat = chain_catalog::<MetaTypeCatalogKind>(bytes, cap, o, l)?;
        Ok(MetaTypeCatalog::from_flat(flat))
    }

    /// The head chunk of the metatype chain (with its link to the next chunk).
    pub fn metatype_catalog_head(&self) -> (r: Result<MetaTypeCatalog, SegmentError>)
        ensures
            match primary_chain(self.slabs(), true) {
                Err(e) => r matches Err(x) && x == e,
                Ok((m, c, o, l)) => match spec_chain_head::<MetaTypeCatalogKind>(m, c, o, l) {
                    Ok(v) => r matches Ok(x) && x@ == v,
                    Err(e) => r matches Err(x) && x == e,
                },
            },
    {
        let (bytes, cap, o, l) = self.primary_parts(true)?;
        let head = chain_head::<MetaTypeCatalogKind>(bytes, cap, o, l)?;
        Ok(MetaTypeCatalog::from_flat(head))
    }

    /// Number of chunks in the metatype chain.
    pub fn metatype_catalog_chunk_count(&self) -> (r: Result<usize, SegmentError>)
        ensures
            match primary_chain(self.slabs(), true) {
                Err(e) => r == Err::<usize, SegmentError>(e),
                Ok((m, c, o, l)) => match spec_chain::<MetaTypeCatalogKind>(m, c, o, l) {
                    Ok(cs) => r == Ok::<usize, SegmentError>(cs.len() as usize),
                    Err(e) => r == Err::<usize, SegmentError>(e),
                },
            },
    {
        let (bytes, cap, o, l) = self.primary_parts(true)?;
        chain_chunk_count::<MetaTypeCatalogKind>(bytes, cap, o, l)
    }

    /// Chain-wide index of the first metatype row with the given UUID.
    pub fn metatype_index_for_uuid(&self, type_uuid: [u8; 16]) -> (r: Result<Option<u32>, SegmentError>)
        ensures
            match primary_chain(self.slabs(), true) {
                Err(e) => r == Err::<Option<u32>, SegmentError>(e),
                Ok((m, c, o, l)) => match spec_chain::<MetaTypeCatalogKind>(m, c, o, l) {
                    Ok(cs) => match spec_index_of_uuid(chain_rows(cs), type_uuid) {
                        Some(i) => if i <= u32::MAX {
                            r == Ok::<Option<u32>, SegmentError>(Some(i as u32))
                        } else {
                            r == Ok::<Option<u32>, SegmentError>(None)
                        },
                        None => r == Ok::<Option<u32>, SegmentError>(None),
                    },
                    Err(e) => r == Err::<Option<u32>, SegmentError>(e),
                },
            },
    {
        let (bytes, cap, o, l) = self.primary_parts(true)?;
        metatype_index_in_chain(bytes, cap, o, l, type_uuid)
    }

    /// The metatype row at chain-wide `type_index`.
    pub fn metatype_at(&self, type_index: u32) -> (r: Result<Option<MetaTypeHeader>, SegmentError>)
        ensures
            match primary_chain(self.slabs(), true) {
                Err(e) => r == Err::<Option<MetaTypeHeader>, SegmentError>(e),
                Ok((m, c, o, l)) => match spec_chain::<MetaTypeCatalogKind>(m, c, o, l) {
                    Ok(cs) => if type_index < chain_rows(cs).len() {
                        r == Ok::<Option<MetaTypeHeader>, SegmentError>(
                            Some(chain_rows(cs)[type_index as int]),
                        )
                    } else {
                        r == Ok::<Option<MetaTypeHeader>, SegmentError>(None)
                    },
                    Err(e) => r == Err::<Option<MetaTypeHeader>, SegmentError>(e),
                },
            },
    {
        let (bytes, cap, o, l) = self.primary_parts(true)?;
        chain_row_at::<MetaTypeCatalogKind>(bytes, cap, o, l, type_index)
    }

    /// The whole object chain as one catalog.
    pub fn object_catalog(&self) -> (r: Result<ObjectCatalog, SegmentError>)
        ensures
            match primary_chain(self.slabs(), false) {
                Err(e) => r matches Err(x) && x == e,
                Ok((m, c, o, l)) => match spec_chain_catalog::<ObjectCatalogKind>(m, c, o, l) {
                    Ok(v) => r matches Ok(x) && x@ == v,
                    Err(e) => r matches Err(x) && x == e,
                },
            },
    {
        let (bytes, cap, o, l) = self.primary_parts(false)?;
        let flat = chain_catalog::<ObjectCatalogKind>(bytes, cap, o, l)?;
        Ok(ObjectCatalog::from_flat(flat))
    }

    /// The head chunk of the object chain.
    pub fn object_catalog_head(&self) -> (r: Result<ObjectCatalog, SegmentError>)
        ensures
            match primary_chain(self.slabs(), false) {
                Err(e) => r matches Err(x) && x == e,
                Ok((m, c, o, l)) => match spec_chain_head::<ObjectCatalogKind>(m, c, o, l) {
                    Ok(v) => r matches Ok(x) && x@ == v,
                    Err(e) => r matches Err(x) && x == e,
                },
            },
    {
        let (bytes, cap, o, l) = self.primary_parts(false)?;
        let head = chain_head::<ObjectCatalogKind>(bytes, cap, o, l)?;
        Ok(ObjectCatalog::from_flat(head))
    }

    /// Number of chunks in the object chain.
    pub fn object_catalog_chunk_count(&self) -> (r: Result<usize, SegmentError>)
        ensures
            match primary_chain(self.slabs(), false) {
                Err(e) => r == Err::<usize, SegmentError>(e),
                Ok((m, c, o, l)) => match spec_chain::<ObjectCatalogKind>(m, c, o, l) {
                    Ok(cs) => r == Ok::<usize, SegmentError>(cs.len() as usize),
                    Err(e) => r == Err::<usize, SegmentError>(e),
                },
            },
    {
        let (bytes, cap, o, l) = self.primary_parts(false)?;
        chain_chunk_count::<ObjectCatalogKind>(bytes, cap, o, l)
    }

    /// The object row at chain-wide `object_index`.
    pub fn object_at(&self, object_index: u32) -> (r: Result<Option<ObjectHeader>, SegmentError>)
        ensures
            match primary_chain(self.slabs(), false) {
                Err(e) => r == Err::<Option<ObjectHeader>, SegmentError>(e),
                Ok((m, c, o, l)) => match spec_chain::<ObjectCatalogKind>(m, c, o, l) {
                    Ok(cs) => if object_index < chain_rows(cs).len() {
                        r == Ok::<Option<ObjectHeader>, SegmentError>(
                            Some(chain_rows(cs)[object_index as int]),
                        )
                    } else {
                        r == Ok::<Option<ObjectHeader>, SegmentError>(None)
                    },
                    Err(e) => r == Err::<Option<ObjectHeader>, SegmentError>(e),
                },
            },
    {
        let (bytes, cap, o, l) = self.primary_parts(false)?;
        chain_row_at::<ObjectCatalogKind>(bytes, cap, o, l, object_index)
    }

    /// Head of one primary chain and the capacity of the primary slab.
    fn primary_head(&self, metatypes: bool) -> (r: Result<(usize, u32, u32), SegmentError>)
        ensures
            match primary_chain(self.slabs(), metatypes) {
                Ok((m, c, o, l)) => r == Ok::<(usize, u32, u32), SegmentError>((c, o, l)),
                Err(e) => r == Err::<(usize, u32, u32), SegmentError>(e),
            },
    {
        let (_, cap, o, l) = self.primary_parts(metatypes)?;
        Ok((cap, o, l))
    }

    fn append_row<K: CatalogKind>(&mut self, metatypes: bool, row: K::Row) -> (r: Result<
        ChainAppend,
        SegmentError,
    >)
        ensures
            primary_edit(
                old(self).slabs(),
                final(self).slabs(),
                metatypes,
                r,
                |m: Seq<u8>, c: usize, o: u32, l: u32| spec_append_to_chain::<K>(m, c, o, l, row),
            ),
            final(self).spec_kind() == old(self).spec_kind(),
            final(self).spec_base() == old(self).spec_base(),
            final(self).spec_uuid() == old(self).spec_uuid(),
    {
        let (cap, o, l) = self.primary_head(metatypes)?;
        append_to_chain::<K>(self.backends[0].bytes_mut(), cap, o, l, row)
    }

    fn link_chunk<K: CatalogKind>(&mut self, metatypes: bool, next_offset: u32, next_len: u32) -> (r:
        Result<(), SegmentError>)
        ensures
            primary_edit(
                old(self).slabs(),
                final(self).slabs(),
                metatypes,
                r,
                |m: Seq<u8>, c: usize, o: u32, l: u32|
                    spec_link_tail::<K>(m, c, o, l, next_offset, next_len),
            ),
            final(self).spec_kind() == old(self).spec_kind(),
            final(self).spec_base() == old(self).spec_base(),
            final(self).spec_uuid() == old(self).spec_uuid(),
    {
        let (cap, o, l) = self.primary_head(metatypes)?;
        link_tail::<K>(self.backends[0].bytes_mut(), cap, o, l, next_offset, next_len)
    }

    fn store_rows<K: CatalogKind>(&mut self, metatypes: bool, catalog: &Catalog<K>) -> (r:
        Result<(), SegmentError>)
        ensures
            primary_edit(
                old(self).slabs(),
                final(self).slabs(),
                metatypes,
                r,
                |m: Seq<u8>, c: usize, o: u32, l: u32|
                    spec_store_chain::<K>(m, c, o, l, catalog@.rows),
            ),
            final(self).spec_kind() == old(self).spec_kind(),
            final(self).spec_base() == old(self).spec_base(),
            final(self).spec_uuid() == old(self).spec_uuid(),
    {
        let (cap, o, l) = self.primary_head(metatypes)?;
        let chunks = match load_chain::<K>(self.backends[0].bytes(), cap, o, l) {
            Ok(c) => c,
            Err(e) => {
                return Err(e);
            },
        };
        redistribute_chain::<K>(self.backends[0].bytes_mut(), cap, chunks.as_slice(), catalog)
    }

    /// Append a row to the tail chunk of the metatype chain, or report that the tail is full
    /// (a new chunk must then be pinned and linked with [`Self::link_metatype_chunk`]).
    pub fn append_metatype(&mut self, row: MetaTypeHeader) -> (r: Result<ChainAppend, SegmentError>)
        ensures
            primary_edit(
                old(self).slabs(),
                final(self).slabs(),
                true,
                r,
                |m: Seq<u8>, c: usize, o: u32, l: u32|
                    spec_append_to_chain::<MetaTypeCatalogKind>(m, c, o, l, row),
            ),
            final(self).spec_kind() == old(self).spec_kind(),
            final(self).spec_base() == old(self).spec_base(),
            final(self).spec_uuid() == old(self).spec_uuid(),
    {
        self.append_row::<MetaTypeCatalogKind>(true, row)
    }

    /// Point the tail of the metatype chain at a freshly pinned chunk.
    pub fn link_metatype_chunk(&mut self, next_offset: u32, next_len: u32) -> (r: Result<(), SegmentError>)
        ensures
            primary_edit(
                old(self).slabs(),
                final(self).slabs(),
                true,
                r,
                |m: Seq<u8>, c: usize, o: u32, l: u32|
                    spec_link_tail::<MetaTypeCatalogKind>(m, c, o, l, next_offset, next_len),
            ),
            final(self).spec_kind() == old(self).spec_kind(),
            final(self).spec_base() == old(self).spec_base(),
            final(self).spec_uuid() == old(self).spec_uuid(),
    {
        self.link_chunk::<MetaTypeCatalogKind>(true, next_offset, next_len)
    }

    /// Spread the rows of `catalog` back over the chunks of the metatype chain.
    pub fn store_metatype_catalog(&mut self, catalog: &MetaTypeCatalog) -> (r: Result<(), SegmentError>)
        ensures
            primary_edit(
                old(self).slabs(),
                final(self).slabs(),
                true,
                r,
                |m: Seq<u8>, c: usize, o: u32, l: u32|
                    spec_store_chain::<MetaTypeCatalogKind>(m, c, o, l, catalog@.rows),
            ),
            final(self).spec_kind() == old(self).spec_kind(),
            final(self).spec_base() == old(self).spec_base(),
            final(self).spec_uuid() == old(self).spec_uuid(),
    {
        self.store_rows::<MetaTypeCatalogKind>(true, catalog.inner())
    }

    /// Append a row to the tail chunk of the object chain, or report that the tail is full.
    pub fn append_object(&mut self, row: ObjectHeader) -> (r: Result<ChainAppend, SegmentError>)
        ensures
            primary_edit(
                old(self).slabs(),
                final(self).slabs(),
                false,
                r,
                |m: Seq<u8>, c: usize, o: u32, l: u32|
                    spec_append_to_chain::<ObjectCatalogKind>(m, c, o, l, row),
            ),
            final(self).spec_kind() == old(self).spec_kind(),
            final(self).spec_base() == old(self).spec_base(),
            final(self).spec_uuid() == old(self).spec_uuid(),
    {
        self.append_row::<ObjectCatalogKind>(false, row)
    }

    /// Point the tail of the object chain at a freshly pinned chunk.
    pub fn link_object_chunk(&mut self, next_offset: u32, next_len: u32) -> (r: Result<(), SegmentError>)
        ensures
            primary_edit(
                old(self).slabs(),
                final(self).slabs(),
                false,
                r,
                |m: Seq<u8>, c: usize, o: u32, l: u32|
                    spec_link_tail::<ObjectCatalogKind>(m, c, o, l, next_offset, next_len),
            ),
            final(self).spec_kind() == old(self).spec_kind(),
            final(self).spec_base() == old(self).spec_base(),
            final(self).spec_uuid() == old(self).spec_uuid(),
    {
        self.link_chunk::<ObjectCatalogKind>(false, next_offset, next_len)
    }

    /// Spread the rows of `catalog` back over the chunks of the object chain.
    pub fn store_object_catalog(&mut self, catalog: &ObjectCatalog) -> (r: Result<(), SegmentError>)
        ensures
            primary_edit(
                old(self).slabs(),
                final(self).slabs(),
                false,
                r,
                |m: Seq<u8>, c: usize, o: u32, l: u32|
                    spec_store_chain::<ObjectCatalogKind>(m, c, o, l, catalog@.rows),
            ),
            final(self).spec_kind() == old(self).spec_kind(),
            final(self).spec_base() == old(self).spec_base(),
            final(self).spec_uuid() == old(self).spec_uuid(),
    {
        self.store_rows::<ObjectCatalogKind>(false, catalog.inner())
    }

    /// Whether `backend` can join this segment as its next slab, and the arena length it then
    /// offers. A slab that is taken in as it is (`install_header` false) must already carry a
    /// header mounted in this segment.
    pub fn check_new_slab(&self, backend: &Slab, install_header: bool) -> (r: Result<u32, SegmentError>)
        ensures
            match spec_check_slab(
                self.spec_kind(),
                backend.spec_kind(),
                url_scheme(backend.spec_info().url),
                backend.spec_info().capacity,
                backend.spec_bytes().len() as usize,
            ) {
                Err(SegmentError::UnsupportedScheme(_)) => r matches Err(
                    SegmentError::UnsupportedScheme(s),
                ) && s@ == url_scheme(backend.spec_info().url),
                Err(e) => r == Err::<u32, SegmentError>(e),
                Ok(a) => if install_header {
                    r == Ok::<u32, SegmentError>(a)
                } else {
                    match spec_check_attached(
                        backend.spec_bytes(),
                        backend.spec_info().capacity,
                        self.spec_uuid(),
                    ) {
                        Ok(_) => r == Ok::<u32, SegmentError>(a),
                        Err(e) => r == Err::<u32, SegmentError>(e),
                    }
                },
            },
    {
        let info = backend.info();
        let bytes = backend.bytes();
        let arena_len = check_slab(self.kind, backend.kind(), info.url.scheme(), info.capacity, bytes.len())?;
        if !install_header {
            check_attached(bytes, info.capacity, self.segment_uuid)?;
        }
        Ok(arena_len)
    }

    /// Write the mounted primary header (catalog chains at the given arena locations) into
    /// `backend`, which must hold at least a header's bytes.
    pub fn mount_primary(
        &self,
        backend: &mut Slab,
        arena_len: u32,
        metatypes: (u32, u32),
        objects: (u32, u32),
    ) -> (r: Result<(), SegmentError>)
        ensures
            old(backend).spec_bytes().len() < HEADER_SIZE ==> r == Err::<(), SegmentError>(
                SegmentError::BadHeader,
            ) && final(backend).spec_bytes() == old(backend).spec_bytes(),
            old(backend).spec_bytes().len() >= HEADER_SIZE ==> r is Ok && final(backend).spec_bytes()
                == splice(
                old(backend).spec_bytes(),
                0,
                mounted_primary(arena_len, self.spec_uuid(), metatypes, objects).spec_encoded(),
            ),
            old(backend).spec_bytes().len() >= HEADER_SIZE ==> {
                let b = final(backend).spec_bytes();
                &&& b.len() == old(backend).spec_bytes().len()
                &&& b.subrange(0, 4) == le32(MAGIC)
                &&& b.subrange(4, 8) == le32(VERSION)
                &&& b.subrange(16, 20) == le32(arena_len)
                &&& b.subrange(20, 36) == self.spec_uuid()@
                &&& b.subrange(36, 40) == le32(SLAB_ROLE_PRIMARY)
                &&& b.subrange(40, 42) == le16(0)
                &&& b.subrange(44, 48) == le32(metatypes.0)
                &&& b.subrange(48, 52) == le32(metatypes.1)
                &&& b.subrange(52, 56) == le32(objects.0)
                &&& b.subrange(56, 60) == le32(objects.1)
                &&& b.subrange(60, 64) == le32(FLAG_MOUNTED)
            },
            final(backend).spec_info() == old(backend).spec_info(),
            final(backend).spec_kind() == old(backend).spec_kind(),
    {
        let bytes = backend.bytes_mut();
        if bytes.len() < HEADER_SIZE {
            return Err(SegmentError::BadHeader);
        }
        let h = Header::new_primary(
            arena_len,
            self.segment_uuid,
            metatypes.0,
            metatypes.1,
            objects.0,
            objects.1,
            1,
            FLAG_MOUNTED,
        );
        write_header(bytes, h);
        Ok(())
    }

    /// Write the mounted heap-extension header for slab `slab_index` into `backend`.
    pub fn mount_extension(&self, backend: &mut Slab, arena_len: u32, slab_index: u16) -> (r: Result<
        (),
        SegmentError,
    >)
        ensures
            old(backend).spec_bytes().len() < HEADER_SIZE ==> r == Err::<(), SegmentError>(
                SegmentError::BadHeader,
            ) && final(backend).spec_bytes() == old(backend).spec_bytes(),
            old(backend).spec_bytes().len() >= HEADER_SIZE ==> r is Ok && final(backend).spec_bytes()
                == splice(
                old(backend).spec_bytes(),
                0,
                mounted_extension(arena_len, self.spec_uuid(), slab_index).spec_encoded(),
            ),
            old(backend).spec_bytes().len() >= HEADER_SIZE ==> {
                let b = final(backend).spec_bytes();
                &&& b.len() == old(backend).spec_bytes().len()
                &&& b.subrange(0, 4) == le32(MAGIC)
                &&& b.subrange(4, 8) == le32(VERSION)
                &&& b.subrange(16, 20) == le32(arena_len)
                &&& b.subrange(20, 36) == self.spec_uuid()@
                &&& b.subrange(36, 40) == le32(SLAB_ROLE_HEAP_EXT)
                &&& b.subrange(40, 42) == le16(slab_index)
                &&& b.subrange(44, 48) == le32(0)
                &&& b.subrange(48, 52) == le32(0)
                &&& b.subrange(52, 56) == le32(0)
                &&& b.subrange(56, 60) == le32(0)
                &&& b.subrange(60, 64) == le32(FLAG_MOUNTED)
            },
            final(backend).spec_info() == old(backend).spec_info(),
            final(backend).spec_kind() == old(backend).spec_kind(),
    {
        let bytes = backend.bytes_mut();
        if bytes.len() < HEADER_SIZE {
            return Err(SegmentError::BadHeader);
        }
        write_header(bytes, Header::new_extension(arena_len, self.segment_uuid, slab_index, FLAG_MOUNTED));
        Ok(())
    }

    /// Record `count` in the header of the primary slab, where there is one.
    pub fn set_extension_count(&mut self, count: u16)
        ensures
            final(self).slabs().len() == old(self).slabs().len(),
            old(self).slabs().len() > 0 ==> match spec_read_header(old(self).slabs()[0].spec_bytes()) {
                Some(h) => primary_rewritten(
                    old(self).slabs(),
                    final(self).slabs(),
                    splice(
                        old(self).slabs()[0].spec_bytes(),
                        0,
                        with_extension_count(h, count).spec_encoded(),
                    ),
                ),
                None => final(self).slabs() == old(self).slabs(),
            },
            old(self).slabs().len() == 0 ==> final(self).slabs() == old(self).slabs(),
            final(self).spec_kind() == old(self).spec_kind(),
            final(self).spec_base() == old(self).spec_base(),
            final(self).spec_uuid() == old(self).spec_uuid(),
    {
        if self.backends.len() > 0 {
            let h = read_header(self.backends[0].bytes());
            match h {
                Some(_) => {
                    crate::slab::register::set_extension_count(self.backends[0].bytes_mut(), count);
                },
                None => {},
            }
        }
    }

    /// The base locator, which the primary slab is opened at.
    pub fn base_locator(&self) -> (r: Result<Locator, SegmentError>)
        ensures
            match self.spec_base() {
                Some(b) => r matches Ok(l) && l@ == b,
                None => r == Err::<Locator, SegmentError>(SegmentError::NoBaseLocator),
            },
    {
        match &self.base {
            Some(l) => Ok(l.clone()),
            None => Err(SegmentError::NoBaseLocator),
        }
    }

    /// The locator of heap extension `n` (`0` gives `base-0`, `1` gives `base-1`, ...).
    pub fn extension_locator(&self, n: u16) -> (r: Result<Locator, SegmentError>)
        ensures
            match self.spec_base() {
                Some(b) => r matches Ok(l) && l@ == spec_extension(b, n),
                None => r == Err::<Locator, SegmentError>(SegmentError::NoBaseLocator),
            },
    {
        match &self.base {
            Some(l) => Ok(l.extension(n)),
            None => Err(SegmentError::NoBaseLocator),
        }
    }

    /// The unopened backend for `url` and the capacity to open it with: the capacity must
    /// reach the minimum, and the url's scheme must name this segment's kind.
    pub fn prepare_open(&self, url: &Url, capacity: Option<usize>) -> (r: Result<(Slab, usize), SegmentOpenError>)
        ensures
            match spec_normalize_capacity(capacity) {
                Err(e) => r matches Err(SegmentOpenError::Layout(x)) && x == e,
                Ok(c) => match Kind::spec_from_scheme(url_scheme(url@)) {
                    None => r matches Err(SegmentOpenError::UnsupportedScheme(s)) && s@ == url_scheme(
                        url@,
                    ),
                    Some(k) => if k != self.spec_kind() {
                        r matches Err(SegmentOpenError::Layout(SegmentError::UnsupportedScheme(s)))
                            && s@ == url_scheme(url@)
                    } else {
                        r matches Ok((b, c2)) && b.is_unopened(k) && c2 == c
                    },
                },
            },
    {
        let capacity = match normalize_capacity(capacity) {
            Ok(c) => c,
            Err(e) => {
                return Err(SegmentOpenError::Layout(e));
            },
        };
        let backend = match Kind::create_from_url(url) {
            Ok(b) => b,
            Err(e) => {
                return Err(SegmentOpenError::UnsupportedScheme(e.0));
            },
        };
        if backend.kind() != self.kind {
            return Err(
                SegmentOpenError::Layout(SegmentError::UnsupportedScheme(url.scheme().to_owned())),
            );
        }
        Ok((backend, capacity))
    }

    /// Write `catalog` into the blob the allocator handed out at address `ptr` in the primary
    /// slab's arena (the primary mapping sits at address `base`); the blob's arena offset and
    /// reserved length.
    pub fn place_on_primary<K: CatalogKind>(
        &mut self,
        ptr: usize,
        base: usize,
        alloc_len: usize,
        catalog: &Catalog<K>,
    ) -> (r: Result<(u32, u32), SegmentError>)
        ensures
            old(self).slabs().len() == 0 ==> r == Err::<(u32, u32), SegmentError>(
                SegmentError::BadIndex,
            ) && final(self).slabs() == old(self).slabs(),
            old(self).slabs().len() > 0 ==> match spec_arena_range(
                old(self).slabs()[0].spec_bytes(),
                old(self).slabs()[0].spec_info().capacity,
            ) {
                Err(e) => r == Err::<(u32, u32), SegmentError>(e) && final(self).slabs() == old(
                    self,
                ).slabs(),
                Ok((a, _)) => r == spec_place_catalog::<K>(
                    old(self).slabs()[0].spec_bytes(),
                    ptr,
                    base,
                    a as usize,
                    alloc_len,
                    catalog@,
                ).0 && primary_rewritten(
                    old(self).slabs(),
                    final(self).slabs(),
                    spec_place_catalog::<K>(
                        old(self).slabs()[0].spec_bytes(),
                        ptr,
                        base,
                        a as usize,
                        alloc_len,
                        catalog@,
                    ).1,
                ),
            },
            final(self).spec_kind() == old(self).spec_kind(),
            final(self).spec_base() == old(self).spec_base(),
            final(self).spec_uuid() == old(self).spec_uuid(),
    {
        if self.backends.len() == 0 {
            return Err(SegmentError::BadIndex);
        }
        let cap = self.backends[0].info().capacity;
        let range = arena_range(self.backends[0].bytes(), cap)?;
        place_catalog(self.backends[0].bytes_mut(), ptr, base, range.start, alloc_len, catalog)
    }

    /// Slab, allocator and catalog breakdown of this segment, given the allocator's claimed,
    /// allocated, overhead and available byte counts.
    pub fn memory_overview(
        &self,
        claimed: usize,
        allocated: usize,
        overhead: usize,
        available: usize,
    ) -> (r: Result<SegmentMemoryOverview, SegmentError>)
        ensures
            match primary_chain(self.slabs(), true) {
                Err(e) => r == Err::<SegmentMemoryOverview, SegmentError>(e),
                Ok((m, c, mo, ml)) => {
                    let (_, _, oo, ol) = primary_chain(self.slabs(), false)->Ok_0;
                    match spec_chain_stats::<MetaTypeCatalogKind>(m, c, mo, ml, "CTLG") {
                        Err(e) => r == Err::<SegmentMemoryOverview, SegmentError>(e),
                        Ok(ms) => match spec_chain_stats::<ObjectCatalogKind>(m, c, oo, ol, "COBJ") {
                            Err(e) => r == Err::<SegmentMemoryOverview, SegmentError>(e),
                            Ok(os) => {
                                let raw = saturate(raw_total(self.slabs()));
                                let arena = saturate(arena_total(self.slabs()));
                                r == Ok::<SegmentMemoryOverview, SegmentError>(
                                    SegmentMemoryOverview {
                                        slabs: self.slabs().len() as usize,
                                        raw_bytes: raw,
                                        header_bytes: if raw >= arena {
                                            (raw - arena) as usize
                                        } else {
                                            0
                                        },
                                        arena_bytes: arena,
                                        talc_claimed: claimed,
                                        talc_allocated: allocated,
                                        talc_overhead: overhead,
                                        talc_available: available,
                                        unclaimed_arena: if arena >= claimed {
                                            (arena - claimed) as usize
                                        } else {
                                            0
                                        },
                                        catalogs: [ms, os],
                                    },
                                )
                            },
                        },
                    }
                },
            },
    {
        let (bytes, cap, mo, ml) = self.primary_parts(true)?;
        let (_, _, oo, ol) = self.primary_parts(false)?;
        let raw_bytes = self.size_raw_all();
        let arena_bytes = self.size_all();
        let ms = chain_stats::<MetaTypeCatalogKind>(bytes, cap, mo, ml, "CTLG")?;
        let os = chain_stats::<ObjectCatalogKind>(bytes, cap, oo, ol, "COBJ")?;
        Ok(
            SegmentMemoryOverview {
                slabs: self.backends.len(),
                raw_bytes,
                header_bytes: raw_bytes.saturating_sub(arena_bytes),
                arena_bytes,
                talc_claimed: claimed,
                talc_allocated: allocated,
                talc_overhead: overhead,
                talc_available: available,
                unclaimed_arena: arena_bytes.saturating_sub(claimed),
                catalogs: [ms, os],
            },
        )
    }

    /// Index of the first slab opened at `locator`.
    pub fn locate_slab(&self, locator: &Url) -> (r: Option<usize>)
        ensures
            match first_slab_at(self.slabs(), locator@) {
                Some(i) => r == Some(i as usize),
                None => r is None,
            },
            match r {
                Some(i) => i < self.slabs().len() && self.slabs()[i as int].spec_info().url
                    == locator@ && forall|j: int|
                    0 <= j < i ==> (#[trigger] self.slabs()[j].spec_info()).url != locator@,
                None => forall|j: int|
                    0 <= j < self.slabs().len() ==> (#[trigger] self.slabs()[j].spec_info()).url
                        != locator@,
            },
    {
        let n = self.backends.len();
        let mut i: usize = 0;
        while i < n
            invariant
                n == self.slabs().len(),
                0 <= i <= n,
                forall|j: int| 0 <= j < i ==> (#[trigger] self.slabs()[j].spec_info()).url != locator@,
            decreases n - i,
        {
            if crate::url::str_is(self.backends[i].info().url.as_str(), locator.as_str()) {
                proof {
                    lemma_first_slab_at(self.slabs(), locator@, i as int);
                }
                return Some(i);
            }
            i = i + 1;
        }
        None
    }
}

/// The first slab at `url`, when there is one, is a slab of the segment at `url`.
pub proof fn lemma_first_slab_at_found(slabs: Seq<Slab>, url: Seq<char>)
    ensures
        first_slab_at(slabs, url) matches Some(i) ==> 0 <= i < slabs.len() && slabs[i].spec_info().url
            == url,
{
    if exists|i: int| 0 <= i < slabs.len() && (#[trigger] slabs[i].spec_info()).url == url {
        let w = choose|i: int| 0 <= i < slabs.len() && (#[trigger] slabs[i].spec_info()).url == url;
        lemma_first_index(slabs, url, w);
    }
}

/// Below any slab at `url` there is a first one.
proof fn lemma_first_index(slabs: Seq<Slab>, url: Seq<char>, w: int)
    requires
        0 <= w < slabs.len(),
        slabs[w].spec_info().url == url,
    ensures
        exists|i: int|
            0 <= i < slabs.len() && (#[trigger] slabs[i].spec_info()).url == url && forall|j: int|
                0 <= j < i ==> (#[trigger] slabs[j].spec_info()).url != url,
    decreases w,
{
    if exists|j: int| 0 <= j < w && (#[trigger] slabs[j].spec_info()).url == url {
        let j = choose|j: int| 0 <= j < w && (#[trigger] slabs[j].spec_info()).url == url;
        lemma_first_index(slabs, url, j);
    } else {
        assert(forall|j: int| 0 <= j < w ==> (#[trigger] slabs[j].spec_info()).url != url);
    }
}

/// The first slab at `url` is the one before which no slab is at `url`.
pub proof fn lemma_first_slab_at(slabs: Seq<Slab>, url: Seq<char>, i: int)
    requires
        0 <= i < slabs.len(),
        slabs[i].spec_info().url == url,
        forall|j: int| 0 <= j < i ==> (#[trigger] slabs[j].spec_info()).url != url,
    ensures
        first_slab_at(slabs, url) == Some(i),
{
    let p = |k: int|
        0 <= k < slabs.len() && (#[trigger] slabs[k].spec_info()).url == url && forall|j: int|
            0 <= j < k ==> (#[trigger] slabs[j].spec_info()).url != url;
    assert(p(i));
    let c = choose|k: int|
        0 <= k < slabs.len() && (#[trigger] slabs[k].spec_info()).url == url && forall|j: int|
            0 <= j < k ==> (#[trigger] slabs[j].spec_info()).url != url;
    assert(p(c));
    if c < i {
        assert(slabs[c].spec_info().url != url);
    }
    if i < c {
        assert(slabs[i].spec_info().url != url);
    }
}

/// Arena totals are never negative.
pub proof fn lemma_arena_total_nonneg(slabs: Seq<Slab>)
    ensures
        arena_total(slabs) >= 0,
    decreases slabs.len(),
{
    if slabs.len() > 0 {
        lemma_arena_total_nonneg(slabs.drop_last());
    }
}

/// Mapping totals are never negative.
pub proof fn lemma_raw_total_nonneg(slabs: Seq<Slab>)
    ensures
        raw_total(slabs) >= 0,
    decreases slabs.len(),
{
    if slabs.len() > 0 {
        lemma_raw_total_nonneg(slabs.drop_last());
    }
}

/// A row appended to one catalog chain of a segment, when it is stored, is read back at the
/// index returned, after every row the chain held before; the chain keeps its head. This holds
/// for chains whose chunk blobs do not overlap (as the allocator lays them out).
pub proof fn lemma_append_then_read<K: CatalogKind>(
    old: Seq<Slab>,
    new: Seq<Slab>,
    metatypes: bool,
    row: K::Row,
    r: Result<ChainAppend, SegmentError>,
)
    requires
        primary_chain(old, metatypes) matches Ok((m, c, o, l)) && spec_chain::<K>(m, c, o, l) matches Ok(
            cs,
        ) && crate::slab::chain_laws::chain_blobs_disjoint(cs),
        primary_edit(
            old,
            new,
            metatypes,
            r,
            |m: Seq<u8>, c: usize, o: u32, l: u32| spec_append_to_chain::<K>(m, c, o, l, row),
        ),
        r matches Ok(ChainAppend::Appended(_)),
    ensures
        ({
            let (m, c, o, l) = primary_chain(old, metatypes)->Ok_0;
            let cs = spec_chain::<K>(m, c, o, l)->Ok_0;
            &&& primary_chain(new, metatypes) matches Ok((m2, c2, o2, l2)) && c2 == c && o2 == o && l2
                == l
            &&& spec_chain::<K>(new[0].spec_bytes(), c, o, l) matches Ok(cs2) && chain_rows(cs2)
                == chain_rows(cs).push(row)
            &&& r == Ok::<ChainAppend, SegmentError>(
                ChainAppend::Appended(chain_rows(cs).len() as u32),
            )
        }),
{
    let (m, c, o, l) = primary_chain(old, metatypes)->Ok_0;
    crate::slab::chain_laws::lemma_append_then_read::<K>(m, c, o, l, row);
    let m2 = spec_append_to_chain::<K>(m, c, o, l, row).1;
    assert(new[0].spec_bytes() == m2);
    assert(spec_primary_header(m2) == spec_primary_header(m));
}

/// Storing rows back over one catalog chain of a segment whose chunk blobs do not overlap,
/// when every row has its layout guard and the store is accepted, leaves that chain with the
/// same chunks reading back exactly those rows; the chain keeps its head.
pub proof fn lemma_store_then_read<K: CatalogKind>(
    old: Seq<Slab>,
    new: Seq<Slab>,
    metatypes: bool,
    rows: Seq<K::Row>,
    r: Result<(), SegmentError>,
)
    requires
        primary_chain(old, metatypes) matches Ok((m, c, o, l)) && spec_chain::<K>(m, c, o, l) matches Ok(
            cs,
        ) && crate::slab::chain_laws::chain_blobs_disjoint(cs),
        forall|k: int| 0 <= k < rows.len() ==> (#[trigger] rows[k]).spec_valid(),
        primary_edit(
            old,
            new,
            metatypes,
            r,
            |m: Seq<u8>, c: usize, o: u32, l: u32| spec_store_chain::<K>(m, c, o, l, rows),
        ),
        r is Ok,
    ensures
        ({
            let (m, c, o, l) = primary_chain(old, metatypes)->Ok_0;
            let cs = spec_chain::<K>(m, c, o, l)->Ok_0;
            &&& primary_chain(new, metatypes) matches Ok((m2, c2, o2, l2)) && c2 == c && o2 == o && l2
                == l
            &&& spec_chain::<K>(new[0].spec_bytes(), c, o, l) matches Ok(cs2) && cs2.len() == cs.len()
                && chain_rows(cs2) == rows
        }),
{
    let (m, c, o, l) = primary_chain(old, metatypes)->Ok_0;
    let cs = spec_chain::<K>(m, c, o, l)->Ok_0;
    assert(cs.len() > 0);
    crate::slab::chain_laws::lemma_redistribute_then_read::<K>(m, c, o, l, rows);
    let m2 = spec_redistribute_from::<K>(m, c, cs, rows, 0, 0).1;
    assert(new[0].spec_bytes() == m2);
    assert(spec_primary_header(m2) == spec_primary_header(m));
}

/// A primary slab whose header `mount_primary` wrote reads back as a mounted primary of the
/// segment, with its catalog chains starting where the mount put them.
pub proof fn lemma_mount_then_chains(
    old_bytes: Seq<u8>,
    slabs: Seq<Slab>,
    arena_len: u32,
    segment_uuid: [u8; 16],
    metatypes: (u32, u32),
    objects: (u32, u32),
)
    requires
        old_bytes.len() >= HEADER_SIZE,
        slabs.len() > 0,
        slabs[0].spec_bytes() == splice(
            old_bytes,
            0,
            mounted_primary(arena_len, segment_uuid, metatypes, objects).spec_encoded(),
        ),
    ensures
        spec_read_header(slabs[0].spec_bytes()) == Some(
            mounted_primary(arena_len, segment_uuid, metatypes, objects),
        ),
        primary_chain(slabs, true) == Ok::<(Seq<u8>, usize, u32, u32), SegmentError>(
            (slabs[0].spec_bytes(), slabs[0].spec_info().capacity, metatypes.0, metatypes.1),
        ),
        primary_chain(slabs, false) == Ok::<(Seq<u8>, usize, u32, u32), SegmentError>(
            (slabs[0].spec_bytes(), slabs[0].spec_info().capacity, objects.0, objects.1),
        ),
{
    super::header::lemma_write_then_read(
        old_bytes,
        mounted_primary(arena_len, segment_uuid, metatypes, objects),
    );
    assert(1u32 & 1u32 != 0) by (bit_vector);
}

/// Mounting a primary slab writes the metatype catalog location (offset, length) at header
/// bytes 44 and 48 and the object catalog location at 52 and 56, and reading the header back
/// gives those locations in those roles; the arena after the header is left as it was.
pub proof fn lemma_mount_primary_places_catalogs(
    bytes: Seq<u8>,
    arena_len: u32,
    segment_uuid: [u8; 16],
    metatypes: (u32, u32),
    objects: (u32, u32),
)
    requires
        bytes.len() >= HEADER_SIZE,
    ensures
        ({
            let b = splice(bytes, 0, mounted_primary(arena_len, segment_uuid, metatypes, objects).spec_encoded());
            &&& b.len() == bytes.len()
            &&& b.subrange(44, 48) == le32(metatypes.0)
            &&& b.subrange(48, 52) == le32(metatypes.1)
            &&& b.subrange(52, 56) == le32(objects.0)
            &&& b.subrange(56, 60) == le32(objects.1)
            &&& spec_read_header(b) matches Some(h) && h.metatype_catalog_offset == metatypes.0
                && h.metatype_catalog_len == metatypes.1 && h.object_catalog_offset == objects.0
                && h.object_catalog_len == objects.1 && h.len == arena_len && h.segment_uuid
                == segment_uuid && h.spec_is_primary()
            &&& b.subrange(HEADER_SIZE as int, b.len() as int) == bytes.subrange(
                HEADER_SIZE as int,
                bytes.len() as int,
            )
        }),
{
    let h = mounted_primary(arena_len, segment_uuid, metatypes, objects);
    let e = h.spec_encoded();
    h.lemma_layout();
    super::header::lemma_write_then_read(bytes, h);
    let b = splice(bytes, 0, e);
    assert forall|a: int, c: int| 0 <= a <= c <= 64 implies b.subrange(a, c) == e.subrange(a, c) by {
        assert(b.subrange(a, c) =~= e.subrange(a, c));
    }
    assert(b.subrange(HEADER_SIZE as int, b.len() as int) =~= bytes.subrange(
        HEADER_SIZE as int,
        bytes.len() as int,
    ));
}

/// A slab whose first bytes were mounted as the primary of segment `segment_uuid` (arena
/// right after the header up to `capacity`, both catalogs non-empty and inside the arena) is
/// accepted when it is attached again to that segment, with the header that was written, and
/// refused for any other segment.
pub proof fn lemma_mount_primary_then_attach(
    bytes: Seq<u8>,
    capacity: usize,
    segment_uuid: [u8; 16],
    metatypes: (u32, u32),
    objects: (u32, u32),
    other_uuid: [u8; 16],
)
    requires
        HEADER_LEN <= capacity <= bytes.len() <= usize::MAX,
        capacity - HEADER_LEN <= u32::MAX,
        metatypes.1 > 0,
        objects.1 > 0,
        metatypes.0 + metatypes.1 <= capacity - HEADER_LEN,
        objects.0 + objects.1 <= capacity - HEADER_LEN,
    ensures
        ({
            let h = mounted_primary((capacity - HEADER_LEN) as u32, segment_uuid, metatypes, objects);
            let b = splice(bytes, 0, h.spec_encoded());
            &&& spec_check_attached(b, capacity, segment_uuid) == Ok::<Header, SegmentError>(h)
            &&& other_uuid != segment_uuid ==> spec_check_attached(b, capacity, other_uuid)
                == Err::<Header, SegmentError>(SegmentError::SegmentUuidMismatch)
        }),
{
    let h = mounted_primary((capacity - HEADER_LEN) as u32, segment_uuid, metatypes, objects);
    h.lemma_layout();
    super::header::lemma_write_then_read(bytes, h);
    let b = splice(bytes, 0, h.spec_encoded());
    assert(b.len() == bytes.len());
    assert(spec_read_header(b) == Some(h));
    assert(FLAG_MOUNTED & FLAG_MOUNTED != 0) by (bit_vector);
    assert(h.spec_is_mounted());
    assert(h.header_len as usize == HEADER_LEN);
    assert(h.offset as usize == HEADER_LEN);
    assert(h.len as usize == capacity - HEADER_LEN);
    assert(crate::types::handle::sat_add(h.offset as usize, h.len as usize) == capacity);
    assert(super::layout::spec_layout_ok(h, b.len() as usize, capacity));
}

/// A slab whose first bytes were mounted as heap extension `slab_index` of segment
/// `segment_uuid` (arena right after the header up to `capacity`) is accepted when it is
/// attached again to that segment, with the header that was written, and refused for any
/// other segment.
pub proof fn lemma_mount_extension_then_attach(
    bytes: Seq<u8>,
    capacity: usize,
    segment_uuid: [u8; 16],
    slab_index: u16,
    other_uuid: [u8; 16],
)
    requires
        HEADER_LEN <= capacity <= bytes.len() <= usize::MAX,
        capacity - HEADER_LEN <= u32::MAX,
    ensures
        ({
            let h = mounted_extension((capacity - HEADER_LEN) as u32, segment_uuid, slab_index);
            let b = splice(bytes, 0, h.spec_encoded());
            &&& spec_check_attached(b, capacity, segment_uuid) == Ok::<Header, SegmentError>(h)
            &&& other_uuid != segment_uuid ==> spec_check_attached(b, capacity, other_uuid)
                == Err::<Header, SegmentError>(SegmentError::SegmentUuidMismatch)
        }),
{
    let h = mounted_extension((capacity - HEADER_LEN) as u32, segment_uuid, slab_index);
    h.lemma_layout();
    super::header::lemma_write_then_read(bytes, h);
    let b = splice(bytes, 0, h.spec_encoded());
    assert(b.len() == bytes.len());
    assert(spec_read_header(b) == Some(h));
    assert(FLAG_MOUNTED & FLAG_MOUNTED != 0) by (bit_vector);
    assert(h.spec_is_mounted());
    assert(h.header_len as usize == HEADER_LEN);
    assert(h.offset as usize == HEADER_LEN);
    assert(h.len as usize == capacity - HEADER_LEN);
    assert(crate::types::handle::sat_add(h.offset as usize, h.len as usize) == capacity);
    assert(super::layout::spec_layout_ok(h, b.len() as usize, capacity));
}

} // verus!

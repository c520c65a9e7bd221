//! Object-instance catalog (`COBJ`): [`ObjectHeader`] rows; the row index is the `object_index`.

use crate::catalog::wire::{Catalog, CatalogKind, CatalogRow, CatalogView, CATALOG_HEADER_LEN};
use crate::codec::splice;
use crate::tags;
use crate::types::{ObjectHeader, TypeError, OBJECT_HEADER_LEN};
use vstd::prelude::*;

verus! {

pub const OBJECT_CATALOG_MAGIC: u32 = tags::COBJ;
pub const OBJECT_CATALOG_VERSION: u32 = 2;
pub const OBJECT_CATALOG_HEADER_LEN: usize = CATALOG_HEADER_LEN;
pub const DEFAULT_OBJECT_CATALOG_CAPACITY: u32 = 4096;

#[derive(Copy, Clone, Debug, PartialEq, Eq)]
pub struct ObjectCatalogKind;

impl CatalogKind for ObjectCatalogKind {
    const MAGIC: u32 = OBJECT_CATALOG_MAGIC;
    const VERSION: u32 = OBJECT_CATALOG_VERSION;
    const DEFAULT_CAPACITY: u32 = DEFAULT_OBJECT_CATALOG_CAPACITY;
    type Row = ObjectHeader;
}

impl CatalogRow for ObjectHeader {
    open spec fn spec_row_len() -> nat {
        OBJECT_HEADER_LEN as nat
    }

    open spec fn spec_encoded(self) -> Seq<u8> {
        ObjectHeader::spec_encoded(self)
    }

    open spec fn spec_decode(s: Seq<u8>) -> Result<Self, TypeError> {
        ObjectHeader::spec_decode(s)
    }

    open spec fn spec_valid(self) -> bool {
        ObjectHeader::spec_valid(self)
    }

    proof fn lemma_codec(self) {
        self.lemma_roundtrip();
    }

    proof fn lemma_decode_valid(s: Seq<u8>) {
    }

    proof fn lemma_row_len_bound() {
    }

    fn row_len() -> (r: usize) {
        OBJECT_HEADER_LEN
    }

    fn row_bytes(&self) -> (r: Vec<u8>) {
        self.to_bytes()
    }

    fn encode_into(&self, dst: &mut [u8]) -> (r: Result<(), TypeError>) {
        ObjectHeader::encode_into(*self, dst)
    }

    fn decode_from(src: &[u8]) -> (r: Result<Self, TypeError>) {
        ObjectHeader::decode_from(src)
    }

    fn validate(&self) -> (r: Result<(), TypeError>) {
        ObjectHeader::validate(self)
    }
}

/// Object table on the primary slab; the row index is the compact `object_index`.
#[derive(Clone, Debug, PartialEq, Eq)]
pub struct ObjectCatalog(pub Catalog<ObjectCatalogKind>);

impl View for ObjectCatalog {
    type V = CatalogView<ObjectHeader>;

    open spec fn view(&self) -> CatalogView<ObjectHeader> {
        self.0@
    }
}

impl Default for ObjectCatalog {
    fn default() -> (r: Self)
        ensures
            r@.rows.len() == 0,
            r@.capacity == DEFAULT_OBJECT_CATALOG_CAPACITY,
            r@.next_offset == 0,
            r@.next_len == 0,
    {
        Self::with_capacity(DEFAULT_OBJECT_CATALOG_CAPACITY)
    }
}

impl ObjectCatalog {
    pub fn with_capacity(capacity: u32) -> (r: Self)
        ensures
            r@.rows.len() == 0,
            r@.capacity == capacity,
            r@.next_offset == 0,
            r@.next_len == 0,
    {
        Self(Catalog::with_capacity(capacity))
    }

    /// Extension chunk: empty table, same reserved capacity as the tail being extended.
    pub fn for_mount_extension(capacity: u32) -> (r: Result<Self, TypeError>)
        ensures
            r matches Ok(c) && c@.rows.len() == 0 && c@.capacity == capacity && c@.next_offset == 0
                && c@.next_len == 0,
    {
        Ok(Self::with_capacity(capacity))
    }

    /// Primary mount: reserved slots, initially empty.
    pub fn for_mount(capacity: u32) -> (r: Result<Self, TypeError>)
        ensures
            r matches Ok(c) && c@.rows.len() == 0 && c@.capacity == capacity && c@.next_offset == 0
                && c@.next_len == 0,
    {
        Self::for_mount_extension(capacity)
    }

    pub fn from_flat(catalog: Catalog<ObjectCatalogKind>) -> (r: Self)
        ensures
            r@ == catalog@,
    {
        Self(catalog)
    }

    pub fn inner(&self) -> (r: &Catalog<ObjectCatalogKind>)
        ensures
            r@ == self@,
    {
        &self.0
    }

    pub fn objects(&self) -> (r: &[ObjectHeader])
        ensures
            r@ == self@.rows,
    {
        self.0.rows.as_slice()
    }

    pub fn object_count(&self) -> (r: usize)
        ensures
            r == self@.rows.len(),
    {
        self.0.count()
    }

    pub fn capacity(&self) -> (r: u32)
        ensures
            r == self@.capacity,
    {
        self.0.capacity
    }

    pub fn slots_remaining(&self) -> (r: usize)
        requires
            self@.rows.len() <= self@.capacity,
        ensures
            r == self@.capacity - self@.rows.len(),
    {
        self.0.slots_remaining()
    }

    pub fn used_len(&self) -> (r: usize)
        requires
            Catalog::<ObjectCatalogKind>::spec_used_len(self@.rows.len() as int) <= usize::MAX,
        ensures
            r == Catalog::<ObjectCatalogKind>::spec_used_len(self@.rows.len() as int),
    {
        self.0.used_len()
    }

    pub fn allocated_len(&self) -> (r: usize)
        requires
            Catalog::<ObjectCatalogKind>::spec_reserved_len(self@.capacity as int) <= usize::MAX,
        ensures
            r == Catalog::<ObjectCatalogKind>::spec_reserved_len(self@.capacity as int),
    {
        self.0.allocated_len()
    }

    pub fn append_object(&mut self, row: ObjectHeader) -> (r: Result<u32, TypeError>)
        ensures
            old(self)@.rows.len() >= old(self)@.capacity ==> r == Err::<u32, TypeError>(
                TypeError::CapacityExceeded,
            ) && final(self)@ == old(self)@,
            old(self)@.rows.len() < old(self)@.capacity && !row.spec_valid() ==> r == Err::<
                u32,
                TypeError,
            >(TypeError::BadHeader) && final(self)@ == old(self)@,
            old(self)@.rows.len() < old(self)@.capacity && row.spec_valid() ==> r == Ok::<
                u32,
                TypeError,
            >(old(self)@.rows.len() as u32) && final(self)@ == (CatalogView {
                rows: old(self)@.rows.push(row),
                ..old(self)@
            }),
    {
        self.0.append(row)
    }

    pub fn get(&self, object_index: u32) -> (r: Option<&ObjectHeader>)
        ensures
            object_index < self@.rows.len() ==> r == Some(&self@.rows[object_index as int]),
            object_index >= self@.rows.len() ==> r is None,
    {
        let rows = self.objects();
        if (object_index as usize) < rows.len() {
            Some(&rows[object_index as usize])
        } else {
            None
        }
    }

    pub fn write_into(&self, dst: &mut [u8]) -> (r: Result<(), TypeError>)
        ensures
            self@.rows.len() > self@.capacity ==> r == Err::<(), TypeError>(
                TypeError::CapacityExceeded,
            ) && final(dst)@ == old(dst)@,
            self@.rows.len() <= self@.capacity && old(dst)@.len()
                < Catalog::<ObjectCatalogKind>::spec_reserved_len(self@.capacity as int) ==> r
                == Err::<(), TypeError>(TypeError::OutOfBounds) && final(dst)@ == old(dst)@,
            self@.rows.len() <= self@.capacity && old(dst)@.len()
                >= Catalog::<ObjectCatalogKind>::spec_reserved_len(self@.capacity as int)
                ==> r is Ok && final(dst)@ == splice(
                old(dst)@,
                0,
                Catalog::<ObjectCatalogKind>::spec_wire(self@),
            ),
    {
        self.0.write_into(dst)
    }

    pub fn read_from(src: &[u8]) -> (r: Result<Self, TypeError>)
        ensures
            match Catalog::<ObjectCatalogKind>::spec_read(src@) {
                Ok(v) => r matches Ok(c) && c@ == v,
                Err(e) => r matches Err(e2) && e2 == e,
            },
    {
        match Catalog::read_from(src) {
            Ok(c) => Ok(Self(c)),
            Err(e) => Err(e),
        }
    }
}

} // verus!

//! Metatype catalog (`CTLG`): [`MetaTypeHeader`] rows; the row index is the `type_index`.

use crate::catalog::wire::{Catalog, CatalogKind, CatalogRow, CatalogView, CATALOG_HEADER_LEN};
use crate::codec::splice;
use crate::tags;
use crate::types::metatype::{spec_row_for, uuid_eq};
use crate::types::{HasMetaType, MetaType, MetaTypeHeader, TypeError, META_TYPE_HEADER_LEN};
use vstd::prelude::*;

verus! {

pub const METATYPE_CATALOG_MAGIC: u32 = tags::CTLG;
pub const METATYPE_CATALOG_VERSION: u32 = 5;
pub const METATYPE_CATALOG_HEADER_LEN: usize = CATALOG_HEADER_LEN;
pub const DEFAULT_METATYPE_CATALOG_CAPACITY: u32 = 256;
pub const METATYPE_CATALOG_SELF_INDEX: u32 = 0;

#[derive(Copy, Clone, Debug, PartialEq, Eq)]
pub struct MetaTypeCatalogKind;

impl CatalogKind for MetaTypeCatalogKind {
    const MAGIC: u32 = METATYPE_CATALOG_MAGIC;
    const VERSION: u32 = METATYPE_CATALOG_VERSION;
    const DEFAULT_CAPACITY: u32 = DEFAULT_METATYPE_CATALOG_CAPACITY;
    type Row = MetaTypeHeader;
}

impl CatalogRow for MetaTypeHeader {
    open spec fn spec_row_len() -> nat {
        META_TYPE_HEADER_LEN as nat
    }

    open spec fn spec_encoded(self) -> Seq<u8> {
        MetaTypeHeader::spec_encoded(self)
    }

    open spec fn spec_decode(s: Seq<u8>) -> Result<Self, TypeError> {
        MetaTypeHeader::spec_decode(s)
    }

    open spec fn spec_valid(self) -> bool {
        MetaTypeHeader::spec_valid(self)
    }

    proof fn lemma_codec(self) {
        self.lemma_roundtrip();
    }

    proof fn lemma_decode_valid(s: Seq<u8>) {
    }

    proof fn lemma_row_len_bound() {
    }

    fn row_len() -> (r: usize) {
        META_TYPE_HEADER_LEN
    }

    fn row_bytes(&self) -> (r: Vec<u8>) {
        self.to_bytes()
    }

    fn encode_into(&self, dst: &mut [u8]) -> (r: Result<(), TypeError>) {
        MetaTypeHeader::encode_into(*self, dst)
    }

    fn decode_from(src: &[u8]) -> (r: Result<Self, TypeError>) {
        MetaTypeHeader::decode_from(src)
    }

    fn validate(&self) -> (r: Result<(), TypeError>) {
        MetaTypeHeader::validate(self)
    }
}

/// Index of the first row carrying `uuid`, if any.
#[verifier::opaque]
pub open spec fn spec_index_of_uuid(rows: Seq<MetaTypeHeader>, uuid: [u8; 16]) -> Option<int> {
    if exists|i: int| 0 <= i < rows.len() && rows[i].type_uuid == uuid {
        Some(
            choose|i: int|
                0 <= i < rows.len() && rows[i].type_uuid == uuid && forall|j: int|
                    0 <= j < i ==> rows[j].type_uuid != uuid,
        )
    } else {
        None
    }
}

/// The metatype row of `T`.
pub open spec fn spec_row_of<T: HasMetaType>() -> MetaTypeHeader {
    spec_row_for(T::TYPE_UUID, T::TYPE_SCHEMA_VERSION, 0)
}

/// Metatype table; the row index is `type_index`.
#[derive(Clone, Debug, PartialEq, Eq)]
pub struct MetaTypeCatalog(pub Catalog<MetaTypeCatalogKind>);

impl View for MetaTypeCatalog {
    type V = CatalogView<MetaTypeHeader>;

    open spec fn view(&self) -> CatalogView<MetaTypeHeader> {
        self.0@
    }
}

impl Default for MetaTypeCatalog {
    fn default() -> (r: Self)
        ensures
            r@.rows.len() == 0,
            r@.capacity == DEFAULT_METATYPE_CATALOG_CAPACITY,
            r@.next_offset == 0,
            r@.next_len == 0,
    {
        Self::with_capacity(DEFAULT_METATYPE_CATALOG_CAPACITY)
    }
}

impl HasMetaType for MetaTypeCatalog {
    const TYPE_NAME: &'static str = "cruspy.memory.MetaTypeCatalog";
    const TYPE_UUID: [u8; 16] = [
        0xc4,
        0xa8,
        0xe9,
        0x10,
        0x2f,
        0x3b,
        0x4d,
        0x61,
        0x9c,
        0x07,
        0x1e,
        0x5b,
        0x29,
        0x38,
        0x4d,
        0x01,
    ];
    const TYPE_SCHEMA_VERSION: u32 = 1;
}

impl MetaTypeCatalog {
    /// What `ensure_registered` does to the catalog `v` for `row`: the index of the first row
    /// with the same UUID, or the row appended at the end.
    pub open spec fn spec_ensure(v: CatalogView<MetaTypeHeader>, row: MetaTypeHeader) -> (
        Result<u32, TypeError>,
        CatalogView<MetaTypeHeader>,
    ) {
        match spec_index_of_uuid(v.rows, row.type_uuid) {
            Some(i) => if i <= u32::MAX {
                (Ok(i as u32), v)
            } else {
                Self::spec_append(v, row)
            },
            None => Self::spec_append(v, row),
        }
    }

    /// What `append` does to the catalog `v`.
    pub open spec fn spec_append(v: CatalogView<MetaTypeHeader>, row: MetaTypeHeader) -> (
        Result<u32, TypeError>,
        CatalogView<MetaTypeHeader>,
    ) {
        if v.rows.len() >= v.capacity {
            (Err(TypeError::CapacityExceeded), v)
        } else if !row.spec_valid() {
            (Err(TypeError::BadHeader), v)
        } else {
            (Ok(v.rows.len() as u32), CatalogView { rows: v.rows.push(row), ..v })
        }
    }

    pub fn new(rows: Vec<MetaTypeHeader>) -> (r: Self)
        ensures
            r@.rows == rows@,
            r@.capacity == (if rows@.len() <= u32::MAX {
                rows@.len() as u32
            } else {
                u32::MAX
            }),
            r@.next_offset == 0,
            r@.next_len == 0,
    {
        Self(Catalog::new(rows))
    }

    pub fn with_capacity(capacity: u32) -> (r: Self)
        ensures
            r@.rows.len() == 0,
            r@.capacity == capacity,
            r@.next_offset == 0,
            r@.next_len == 0,
    {
        Self(Catalog::with_capacity(capacity))
    }

    pub fn empty() -> (r: Self)
        ensures
            r@.rows.len() == 0,
            r@.capacity == DEFAULT_METATYPE_CATALOG_CAPACITY,
            r@.next_offset == 0,
            r@.next_len == 0,
    {
        Self::default()
    }

    /// Primary-slab mount: reserved slots plus this catalog's own row at index 0.
    pub fn for_mount(capacity: u32) -> (r: Result<Self, TypeError>)
        ensures
            capacity == 0 ==> r == Err::<Self, TypeError>(TypeError::CapacityExceeded),
            capacity > 0 ==> (r matches Ok(c) && c@.rows == seq![spec_row_of::<MetaTypeCatalog>()]
                && c@.capacity == capacity && c@.next_offset == 0 && c@.next_len == 0),
    {
        let mut catalog = Self::with_capacity(capacity);
        catalog.register_self()?;
        Ok(catalog)
    }

    /// Register this catalog's own type as a row.
    pub fn register_self(&mut self) -> (r: Result<u32, TypeError>)
        ensures
            (r, final(self)@) == Self::spec_append(old(self)@, spec_row_of::<MetaTypeCatalog>()),
    {
        self.append(MetaType::from_type::<Self>().to_header())
    }

    pub fn inner(&self) -> (r: &Catalog<MetaTypeCatalogKind>)
        ensures
            r@ == self@,
    {
        &self.0
    }

    pub fn inner_mut(&mut self) -> (r: &mut Catalog<MetaTypeCatalogKind>)
        ensures
            r@ == old(self)@,
            final(self)@ == final(r)@,
    {
        &mut self.0
    }

    pub fn metatypes(&self) -> (r: &[MetaTypeHeader])
        ensures
            r@ == self@.rows,
    {
        self.0.rows.as_slice()
    }

    pub fn count(&self) -> (r: usize)
        ensures
            r == self@.rows.len(),
    {
        self.0.count()
    }

    pub fn slots_remaining(&self) -> (r: usize)
        requires
            self@.rows.len() <= self@.capacity,
        ensures
            r == self@.capacity - self@.rows.len(),
    {
        self.0.slots_remaining()
    }

    pub fn capacity(&self) -> (r: u32)
        ensures
            r == self@.capacity,
    {
        self.0.capacity
    }

    pub fn used_len(&self) -> (r: usize)
        requires
            Catalog::<MetaTypeCatalogKind>::spec_used_len(self@.rows.len() as int) <= usize::MAX,
        ensures
            r == Catalog::<MetaTypeCatalogKind>::spec_used_len(self@.rows.len() as int),
    {
        self.0.used_len()
    }

    pub fn allocated_len(&self) -> (r: usize)
        requires
            Catalog::<MetaTypeCatalogKind>::spec_reserved_len(self@.capacity as int) <= usize::MAX,
        ensures
            r == Catalog::<MetaTypeCatalogKind>::spec_reserved_len(self@.capacity as int),
    {
        self.0.allocated_len()
    }

    pub fn append(&mut self, row: MetaTypeHeader) -> (r: Result<u32, TypeError>)
        ensures
            (r, final(self)@) == Self::spec_append(old(self)@, row),
    {
        self.0.append(row)
    }

    /// Append the row of type `T`.
    pub fn register_for<T: HasMetaType>(&mut self) -> (r: Result<u32, TypeError>)
        ensures
            (r, final(self)@) == Self::spec_append(old(self)@, spec_row_of::<T>()),
    {
        self.append(MetaType::from_type::<T>().to_header())
    }

    /// Index of the first row with the given UUID (`None` when absent or past `u32::MAX`).
    pub fn index_for_uuid(&self, type_uuid: [u8; 16]) -> (r: Option<u32>)
        ensures
            match spec_index_of_uuid(self@.rows, type_uuid) {
                Some(i) => if i <= u32::MAX {
                    r == Some(i as u32)
                } else {
                    r is None
                },
                None => r is None,
            },
    {
        let rows = self.metatypes();
        let n = rows.len();
        let mut i: usize = 0;
        while i < n
            invariant
                n == rows@.len(),
                rows@ == self@.rows,
                0 <= i <= n,
                forall|j: int| 0 <= j < i ==> rows@[j].type_uuid != type_uuid,
            decreases n - i,
        {
            if uuid_eq(&rows[i].type_uuid, &type_uuid) {
                proof {
                    lemma_index_of_uuid(self@.rows, type_uuid, i as int);
                }
                if i <= u32::MAX as usize {
                    return Some(i as u32);
                } else {
                    return None;
                }
            }
            i = i + 1;
        }
        proof {
            reveal(spec_index_of_uuid);
        }
        None
    }

    pub fn index_for<T: HasMetaType>(&self) -> (r: Option<u32>)
        ensures
            match spec_index_of_uuid(self@.rows, T::TYPE_UUID) {
                Some(i) => if i <= u32::MAX {
                    r == Some(i as u32)
                } else {
                    r is None
                },
                None => r is None,
            },
    {
        self.index_for_uuid(T::TYPE_UUID)
    }

    pub fn get(&self, type_index: u32) -> (r: Option<&MetaTypeHeader>)
        ensures
            type_index < self@.rows.len() ==> r == Some(&self@.rows[type_index as int]),
            type_index >= self@.rows.len() ==> r is None,
    {
        let rows = self.metatypes();
        if (type_index as usize) < rows.len() {
            Some(&rows[type_index as usize])
        } else {
            None
        }
    }

    /// Extension chunk: empty table with the given number of slots.
    pub fn for_mount_extension(capacity: u32) -> (r: Result<Self, TypeError>)
        ensures
            r matches Ok(c) && c@.rows.len() == 0 && c@.capacity == capacity && c@.next_offset == 0
                && c@.next_len == 0,
    {
        Ok(Self::with_capacity(capacity))
    }

    pub fn from_flat(catalog: Catalog<MetaTypeCatalogKind>) -> (r: Self)
        ensures
            r@ == catalog@,
    {
        Self(catalog)
    }

    /// Index of `T`'s row, registering it first when it is not there yet.
    pub fn ensure_registered<T: HasMetaType>(&mut self) -> (r: Result<u32, TypeError>)
        ensures
            (r, final(self)@) == Self::spec_ensure(old(self)@, spec_row_of::<T>()),
    {
        if let Some(index) = self.index_for::<T>() {
            return Ok(index);
        }
        self.register_for::<T>()
    }

    pub fn write_into(&self, dst: &mut [u8]) -> (r: Result<(), TypeError>)
        ensures
            self@.rows.len() > self@.capacity ==> r == Err::<(), TypeError>(
                TypeError::CapacityExceeded,
            ) && final(dst)@ == old(dst)@,
            self@.rows.len() <= self@.capacity && old(dst)@.len()
                < Catalog::<MetaTypeCatalogKind>::spec_reserved_len(self@.capacity as int)
                ==> r == Err::<(), TypeError>(TypeError::OutOfBounds) && final(dst)@ == old(dst)@,
            self@.rows.len() <= self@.capacity && old(dst)@.len()
                >= Catalog::<MetaTypeCatalogKind>::spec_reserved_len(self@.capacity as int)
                ==> r is Ok && final(dst)@ == splice(
                old(dst)@,
                0,
                Catalog::<MetaTypeCatalogKind>::spec_wire(self@),
            ),
    {
        self.0.write_into(dst)
    }

    pub fn read_from(src: &[u8]) -> (r: Result<Self, TypeError>)
        ensures
            match Catalog::<MetaTypeCatalogKind>::spec_read(src@) {
                Ok(v) => r matches Ok(c) && c@ == v,
                Err(e) => r matches Err(e2) && e2 == e,
            },
    {
        match Catalog::read_from(src) {
            Ok(c) => Ok(Self(c)),
            Err(e) => Err(e),
        }
    }

    /// Ensuring a type twice is the same as ensuring it once: the second call returns the
    /// same index and leaves the catalog as the first call left it.
    pub proof fn lemma_ensure_idempotent(v: CatalogView<MetaTypeHeader>, row: MetaTypeHeader)
        requires
            v.rows.len() < u32::MAX,
            Self::spec_ensure(v, row).0 is Ok,
        ensures
            Self::spec_ensure(Self::spec_ensure(v, row).1, row) == Self::spec_ensure(v, row),
    {
        lemma_index_of_uuid_facts(v.rows, row.type_uuid);
        if spec_index_of_uuid(v.rows, row.type_uuid) is None {
            let v1 = Self::spec_ensure(v, row).1;
            assert(Self::spec_ensure(v, row) == Self::spec_append(v, row));
            let n = v.rows.len() as int;
            assert(v1.rows == v.rows.push(row));
            assert forall|j: int| 0 <= j < n implies v1.rows[j].type_uuid != row.type_uuid by {
                assert(v1.rows[j] == v.rows[j]);
            }
            lemma_index_of_uuid(v1.rows, row.type_uuid, n);
            assert(Self::spec_ensure(v1, row) == (Ok::<u32, TypeError>(n as u32), v1));
        }
    }
}

/// What `spec_index_of_uuid` names is the first row carrying `uuid`.
pub proof fn lemma_index_of_uuid_facts(rows: Seq<MetaTypeHeader>, uuid: [u8; 16])
    ensures
        match spec_index_of_uuid(rows, uuid) {
            Some(k) => 0 <= k < rows.len() && rows[k].type_uuid == uuid && forall|j: int|
                0 <= j < k ==> rows[j].type_uuid != uuid,
            None => forall|j: int| 0 <= j < rows.len() ==> rows[j].type_uuid != uuid,
        },
{
    reveal(spec_index_of_uuid);
    if exists|i: int| 0 <= i < rows.len() && rows[i].type_uuid == uuid {
        let w = choose|i: int| 0 <= i < rows.len() && rows[i].type_uuid == uuid;
        lemma_first_index(rows, uuid, w);
    }
}

/// Some row carrying `uuid` has no row before it that carries `uuid`.
proof fn lemma_first_index(rows: Seq<MetaTypeHeader>, uuid: [u8; 16], w: int)
    requires
        0 <= w < rows.len(),
        rows[w].type_uuid == uuid,
    ensures
        exists|i: int|
            0 <= i < rows.len() && rows[i].type_uuid == uuid && forall|j: int|
                0 <= j < i ==> rows[j].type_uuid != uuid,
    decreases w,
{
    if exists|j: int| 0 <= j < w && rows[j].type_uuid == uuid {
        let j = choose|j: int| 0 <= j < w && rows[j].type_uuid == uuid;
        lemma_first_index(rows, uuid, j);
    } else {
        assert(forall|j: int| 0 <= j < w ==> rows[j].type_uuid != uuid);
    }
}

/// The first row carrying `uuid` is the one `spec_index_of_uuid` names.
pub proof fn lemma_index_of_uuid(rows: Seq<MetaTypeHeader>, uuid: [u8; 16], k: int)
    requires
        0 <= k < rows.len(),
        rows[k].type_uuid == uuid,
        forall|j: int| 0 <= j < k ==> rows[j].type_uuid != uuid,
    ensures
        spec_index_of_uuid(rows, uuid) == Some(k),
{
    reveal(spec_index_of_uuid);
    let c = spec_index_of_uuid(rows, uuid)->Some_0;
    assert(0 <= c < rows.len() && rows[c].type_uuid == uuid);
    if c < k {
    } else if c > k {
        assert(rows[k].type_uuid != uuid);
    }
}

} // verus!

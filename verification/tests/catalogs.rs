use cruspy::catalog::metatype::{MetaTypeCatalog, MetaTypeCatalogKind, METATYPE_CATALOG_SELF_INDEX};
use cruspy::catalog::objects::ObjectCatalog;
use cruspy::catalog::type_catalog::{TypeCatalog, TYPE_CATALOG_SELF_INDEX};
use cruspy::catalog::wire::Catalog;
use cruspy::slab::chain::{flatten_chain, CatalogChunk};
use cruspy::types::error::TypeError;
use cruspy::types::flex_string::FlexString;
use cruspy::types::metatype::MetaType;
use cruspy::types::object_header::ObjectHeader;

#[test]
fn catalog_roundtrip() {
    let mt = MetaType::from_type::<FlexString>();
    let row = mt.to_header();
    let mut cat = TypeCatalog::with_capacity(8);
    cat.append_type(row).unwrap();
    let mut buf = vec![0u8; cat.allocated_len()];
    cat.write_into(&mut buf).unwrap();
    let decoded = TypeCatalog::read_from(&buf).unwrap();
    assert_eq!(decoded.capacity, 8);
    assert_eq!(decoded.types.len(), 1);
    assert_eq!(decoded.types[0], row);
}

#[test]
fn catalog_for_mount_registers_self_at_zero() {
    let cat = TypeCatalog::for_mount(8).unwrap();
    assert_eq!(cat.types.len(), 1);
    assert_eq!(
        cat.types[TYPE_CATALOG_SELF_INDEX as usize],
        MetaType::from_type::<TypeCatalog>().to_header()
    );
}

#[test]
fn catalog_append_until_full() {
    let mt = MetaType::from_type::<FlexString>();
    let row = mt.to_header();
    let mut cat = TypeCatalog::with_capacity(2);
    assert_eq!(cat.append_type(row).unwrap(), 0);
    assert_eq!(cat.append_type(row).unwrap(), 1);
    assert!(matches!(cat.append_type(row), Err(TypeError::CapacityExceeded)));
}

#[test]
fn flatten_chain_preserves_order() {
    let a = MetaType::from_type::<FlexString>().to_header();
    let b = MetaType::from_type::<MetaTypeCatalog>().to_header();
    let chunks = vec![
        CatalogChunk {
            offset: 0,
            len: 128,
            catalog: {
                let mut c = Catalog::<MetaTypeCatalogKind>::with_capacity(2);
                c.append(a).unwrap();
                c
            },
        },
        CatalogChunk {
            offset: 256,
            len: 128,
            catalog: {
                let mut c = Catalog::<MetaTypeCatalogKind>::with_capacity(2);
                c.append(b).unwrap();
                c
            },
        },
    ];
    let flat = flatten_chain(&chunks);
    assert_eq!(flat.count(), 2);
    assert_eq!(flat.rows[0], a);
    assert_eq!(flat.rows[1], b);
}

#[test]
fn metatype_catalog_roundtrip() {
    let row = MetaType::from_type::<FlexString>().to_header();
    let mut cat = MetaTypeCatalog::with_capacity(8);
    cat.append(row).unwrap();
    let mut buf = vec![0u8; cat.allocated_len()];
    cat.write_into(&mut buf).unwrap();
    let decoded = MetaTypeCatalog::read_from(&buf).unwrap();
    assert_eq!(decoded.capacity(), 8);
    assert_eq!(decoded.metatypes().len(), 1);
    assert_eq!(decoded.metatypes()[0], row);
}

#[test]
fn for_mount_registers_self_at_zero() {
    let cat = MetaTypeCatalog::for_mount(8).unwrap();
    assert_eq!(cat.metatypes().len(), 1);
    assert_eq!(
        cat.metatypes()[METATYPE_CATALOG_SELF_INDEX as usize],
        MetaType::from_type::<MetaTypeCatalog>().to_header()
    );
}

#[test]
fn ensure_registered_is_idempotent() {
    let mut cat = MetaTypeCatalog::for_mount(8).unwrap();
    let a = cat.ensure_registered::<FlexString>().unwrap();
    let b = cat.ensure_registered::<FlexString>().unwrap();
    assert_eq!(a, b);
    assert_eq!(cat.count(), 2);
}

#[test]
fn append_until_full() {
    let row = MetaType::from_type::<FlexString>().to_header();
    let mut cat = MetaTypeCatalog::with_capacity(2);
    assert_eq!(cat.append(row).unwrap(), 0);
    assert_eq!(cat.append(row).unwrap(), 1);
    assert!(matches!(cat.append(row), Err(TypeError::CapacityExceeded)));
}

#[test]
fn object_catalog_append_sets_object_index() {
    let row = ObjectHeader::new(1, 0, 512);
    let mut cat = ObjectCatalog::with_capacity(4);
    assert_eq!(cat.append_object(row).unwrap(), 0);
    assert_eq!(cat.objects()[0].object_index, 0);
}

#[test]
fn object_catalog_roundtrip() {
    let row = ObjectHeader::new(1, 0, 512);
    let mut cat = ObjectCatalog::with_capacity(4);
    cat.append_object(row).unwrap();
    let mut buf = vec![0u8; cat.allocated_len()];
    cat.write_into(&mut buf).unwrap();
    let decoded = ObjectCatalog::read_from(&buf).unwrap();
    assert_eq!(decoded.object_count(), 1);
    assert_eq!(decoded.objects()[0], row);
}

#[test]
fn header_next_roundtrip() {
    let row = MetaType::from_type::<FlexString>().to_header();
    let mut cat = Catalog::<MetaTypeCatalogKind>::with_capacity(4);
    cat.append(row).unwrap();
    cat.next_offset = 8192;
    cat.next_len = 4096;
    let mut buf = vec![0u8; cat.allocated_len()];
    cat.write_into(&mut buf).unwrap();
    let decoded = Catalog::<MetaTypeCatalogKind>::read_from(&buf).unwrap();
    assert_eq!(decoded.next_offset, 8192);
    assert_eq!(decoded.next_len, 4096);
}

#[test]
fn tail_has_zero_next() {
    let cat = Catalog::<MetaTypeCatalogKind>::with_capacity(4);
    let mut buf = vec![0u8; cat.allocated_len()];
    cat.write_into(&mut buf).unwrap();
    let decoded = Catalog::<MetaTypeCatalogKind>::read_from(&buf).unwrap();
    assert!(!decoded.has_next());
}

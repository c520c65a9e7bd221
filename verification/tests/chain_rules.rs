use cruspy::catalog::metatype::{MetaTypeCatalog, MetaTypeCatalogKind};
use cruspy::catalog::objects::ObjectCatalogKind;
use cruspy::catalog::wire::Catalog;
use cruspy::slab::chain::{append_to_chain, link_tail, load_chain, redistribute_chain, ChainAppend};
use cruspy::slab::error::SegmentError;
use cruspy::slab::header::{write_header, Header, FLAG_MOUNTED, HEADER_LEN};
use cruspy::slab::layout::{arena_range, primary_header};
use cruspy::slab::primary::{chain_catalog, chain_chunk_count, chain_head, chain_row_at, metatype_index_in_chain};
use cruspy::slab::stats::chain_stats;
use cruspy::types::flex_string::FlexString;
use cruspy::types::metatype::{HasMetaType, MetaType};

const ARENA: usize = 4096;

/// A mounted primary slab with a two-slot metatype chunk at arena offset 0 and a spare
/// blob at offset 1024 for a second chunk.
fn slab() -> (Vec<u8>, usize) {
    let capacity = HEADER_LEN + ARENA;
    let mut bytes = vec![0u8; capacity];
    let h = Header::new_primary(ARENA as u32, [7u8; 16], 0, 512, 2048, 512, 1, FLAG_MOUNTED);
    write_header(&mut bytes, h);
    let head = Catalog::<MetaTypeCatalogKind>::with_capacity(2);
    head.write_into(&mut bytes[HEADER_LEN..HEADER_LEN + 512]).unwrap();
    (bytes, capacity)
}

#[test]
fn appended_rows_read_back_in_order() {
    let (mut bytes, cap) = slab();
    assert_eq!(arena_range(&bytes, cap).unwrap(), HEADER_LEN..HEADER_LEN + ARENA);
    assert!(primary_header(&bytes).unwrap().is_primary());
    let a = MetaType::from_type::<FlexString>().to_header();
    let b = MetaType::from_type::<MetaTypeCatalog>().to_header();
    assert_eq!(append_to_chain::<MetaTypeCatalogKind>(&mut bytes, cap, 0, 512, a).unwrap(), ChainAppend::Appended(0));
    assert_eq!(append_to_chain::<MetaTypeCatalogKind>(&mut bytes, cap, 0, 512, b).unwrap(), ChainAppend::Appended(1));
    assert_eq!(chain_row_at::<MetaTypeCatalogKind>(&bytes, cap, 0, 512, 0).unwrap(), Some(a));
    assert_eq!(chain_row_at::<MetaTypeCatalogKind>(&bytes, cap, 0, 512, 1).unwrap(), Some(b));
    assert_eq!(chain_row_at::<MetaTypeCatalogKind>(&bytes, cap, 0, 512, 2).unwrap(), None);
    assert_eq!(
        metatype_index_in_chain(&bytes, cap, 0, 512, FlexString::TYPE_UUID).unwrap(),
        Some(0)
    );
    assert_eq!(metatype_index_in_chain(&bytes, cap, 0, 512, [9u8; 16]).unwrap(), None);
}

#[test]
fn full_tail_grows_by_a_linked_chunk() {
    let (mut bytes, cap) = slab();
    let a = MetaType::from_type::<FlexString>().to_header();
    for i in 0..2u32 {
        assert_eq!(append_to_chain::<MetaTypeCatalogKind>(&mut bytes, cap, 0, 512, a).unwrap(), ChainAppend::Appended(i));
    }
    assert_eq!(append_to_chain::<MetaTypeCatalogKind>(&mut bytes, cap, 0, 512, a).unwrap(), ChainAppend::TailFull(2));
    let next = Catalog::<MetaTypeCatalogKind>::with_capacity(2);
    next.write_into(&mut bytes[HEADER_LEN + 1024..HEADER_LEN + 1536]).unwrap();
    link_tail::<MetaTypeCatalogKind>(&mut bytes, cap, 0, 512, 1024, 512).unwrap();
    assert_eq!(chain_chunk_count::<MetaTypeCatalogKind>(&bytes, cap, 0, 512).unwrap(), 2);
    let b = MetaType::from_type::<MetaTypeCatalog>().to_header();
    assert_eq!(append_to_chain::<MetaTypeCatalogKind>(&mut bytes, cap, 0, 512, b).unwrap(), ChainAppend::Appended(2));
    let flat = chain_catalog::<MetaTypeCatalogKind>(&bytes, cap, 0, 512).unwrap();
    assert_eq!(flat.capacity, 4);
    assert_eq!(flat.rows, vec![a, a, b]);
    let head = chain_head::<MetaTypeCatalogKind>(&bytes, cap, 0, 512).unwrap();
    assert_eq!(head.next_offset, 1024);
    assert_eq!(head.next_len, 512);
    let stats = chain_stats::<MetaTypeCatalogKind>(&bytes, cap, 0, 512, "CTLG").unwrap();
    assert_eq!(stats.chunks, 2);
    assert_eq!(stats.rows, 3);
    assert_eq!(stats.slot_capacity, 4);
    assert_eq!(stats.reserved_bytes, 2 * (24 + 2 * 32));
    assert_eq!(stats.used_wire_bytes, (24 + 2 * 32) + (24 + 32));
}

#[test]
fn redistribute_spreads_rows_over_chunks() {
    let (mut bytes, cap) = slab();
    let next = Catalog::<MetaTypeCatalogKind>::with_capacity(2);
    next.write_into(&mut bytes[HEADER_LEN + 1024..HEADER_LEN + 1536]).unwrap();
    link_tail::<MetaTypeCatalogKind>(&mut bytes, cap, 0, 512, 1024, 512).unwrap();
    let chunks = load_chain::<MetaTypeCatalogKind>(&bytes, cap, 0, 512).unwrap();
    let a = MetaType::from_type::<FlexString>().to_header();
    let b = MetaType::from_type::<MetaTypeCatalog>().to_header();
    let merged = Catalog::<MetaTypeCatalogKind>::new(vec![a, b, a]);
    redistribute_chain(&mut bytes, cap, &chunks, &merged).unwrap();
    let flat = chain_catalog::<MetaTypeCatalogKind>(&bytes, cap, 0, 512).unwrap();
    assert_eq!(flat.rows, vec![a, b, a]);
    let too_many = Catalog::<MetaTypeCatalogKind>::new(vec![a, a, a, a, a]);
    assert!(matches!(redistribute_chain(&mut bytes, cap, &chunks, &too_many), Err(SegmentError::CapacityRequired)));
    assert!(matches!(redistribute_chain::<MetaTypeCatalogKind>(&mut bytes, cap, &[], &merged), Err(SegmentError::BadHeader)));
}

#[test]
fn chains_outside_the_arena_are_refused() {
    let (mut bytes, cap) = slab();
    assert!(matches!(load_chain::<MetaTypeCatalogKind>(&bytes, cap, 4000, 512), Err(SegmentError::BadHeader)));
    assert!(matches!(load_chain::<ObjectCatalogKind>(&bytes, cap, 0, 512), Err(SegmentError::BadHeader)));
    assert_eq!(load_chain::<MetaTypeCatalogKind>(&bytes, cap, 0, 0).unwrap().len(), 0);
    let row = MetaType::from_type::<FlexString>().to_header();
    assert!(matches!(append_to_chain::<MetaTypeCatalogKind>(&mut bytes, cap, 0, 0, row), Err(SegmentError::BadHeader)));
    let mut blank = vec![0u8; cap];
    assert!(matches!(chain_catalog::<MetaTypeCatalogKind>(&blank, cap, 0, 512), Err(SegmentError::BadHeader)));
    assert!(matches!(link_tail::<MetaTypeCatalogKind>(&mut blank, cap, 0, 512, 1, 1), Err(SegmentError::BadHeader)));
}

use cruspy::backend::{Ram, Shm, Slab};
use cruspy::catalog::metatype::{MetaTypeCatalog, DEFAULT_METATYPE_CATALOG_CAPACITY};
use cruspy::catalog::objects::{ObjectCatalog, DEFAULT_OBJECT_CATALOG_CAPACITY};
use cruspy::defaults::MIN_SLAB_CAPACITY;
use cruspy::ids::{Id, SegmentId};
use cruspy::io::{HasAccess, HasInfo, HasMapping, Kind, OpenMode, State};
use cruspy::manager::usage::Usage;
use cruspy::manager::Locator;
use cruspy::slab::chain::ChainAppend;
use cruspy::slab::error::{SegmentError, SegmentOpenError, SegmentTeardownError};
use cruspy::slab::header::{FLAG_MOUNTED, HEADER_LEN};
use cruspy::slab::pin::{
    pinned_reserved_len, place_catalog, primary_metatype_catalog, primary_object_catalog, talc_metadata_overhead,
};
use cruspy::slab::segment::Segment;
use cruspy::types::flex_string::FlexString;
use cruspy::types::metatype::{HasMetaType, MetaType};
use cruspy::types::object_header::ObjectHeader;
use cruspy::url::Url;

/// A made-up address for the start of a mapping, as an allocator would see it.
const BASE: usize = 0x1000_0000;

fn opened(host: &str, capacity: usize) -> Slab {
    Slab::Ram(Ram::open(&Ram::build_url(host), OpenMode::Create, Some(capacity)).unwrap())
}

/// Mount `backend` as the primary of `seg` the way the allocator would lay it out: the
/// metatype catalog at arena offset 0, the object catalog right after it.
fn mount_primary(seg: &mut Segment, mut backend: Slab) -> ((u32, u32), (u32, u32)) {
    let arena_len = seg.check_new_slab(&backend, true).unwrap();
    let metatypes = primary_metatype_catalog(arena_len).unwrap();
    let meta_len = pinned_reserved_len(metatypes.inner()).unwrap();
    let meta = place_catalog(backend.bytes_mut(), BASE + HEADER_LEN, BASE, HEADER_LEN, meta_len, metatypes.inner()).unwrap();
    let objects = primary_object_catalog(arena_len, meta.1).unwrap();
    let obj_len = pinned_reserved_len(objects.inner()).unwrap();
    let obj_ptr = BASE + HEADER_LEN + meta_len;
    let obj = place_catalog(backend.bytes_mut(), obj_ptr, BASE, HEADER_LEN, obj_len, objects.inner()).unwrap();
    seg.mount_primary(&mut backend, arena_len, meta, obj).unwrap();
    assert_eq!(seg.push(backend), 0);
    (meta, obj)
}

#[test]
fn new_segment_is_empty() {
    let seg = Segment::new(Kind::Ram);
    assert_eq!(seg.kind(), Kind::Ram);
    assert!(seg.base().is_none());
    assert_eq!(seg.segment_uuid(), [0u8; 16]);
    assert_eq!(seg.slab_count(), 0);
    assert!(seg.primary().is_none());
    assert_eq!(seg.header(0), None);
    assert_eq!(seg.size(0), None);
    assert_eq!(seg.size_raw(0), None);
    assert_eq!(seg.size_all(), 0);
    assert_eq!(seg.size_raw_all(), 0);
    assert!(matches!(seg.metatype_catalog(), Err(SegmentError::BadIndex)));
    assert!(matches!(seg.base_locator(), Err(SegmentError::NoBaseLocator)));
    assert!(matches!(seg.extension_locator(0), Err(SegmentError::NoBaseLocator)));
}

#[test]
fn slabs_of_another_kind_or_too_small_are_refused() {
    let seg = Segment::new(Kind::Ram);
    let small = opened("tiny", 4096);
    assert!(matches!(seg.check_new_slab(&small, true), Err(SegmentError::CapacityRequired)));
    let shm = Slab::Shm(Shm::new());
    match seg.check_new_slab(&shm, true) {
        Err(SegmentError::UnsupportedScheme(s)) => assert_eq!(s, "shm"),
        other => panic!("unexpected {other:?}"),
    }
    let fresh = opened("fresh", MIN_SLAB_CAPACITY);
    assert_eq!(seg.check_new_slab(&fresh, true).unwrap(), (MIN_SLAB_CAPACITY - HEADER_LEN) as u32);
    assert!(matches!(seg.check_new_slab(&fresh, false), Err(SegmentError::BadHeader)));
}

#[test]
fn prepare_open_checks_capacity_and_scheme() {
    let seg = Segment::new(Kind::Ram);
    let url = Ram::build_url("p");
    assert!(matches!(seg.prepare_open(&url, Some(4096)), Err(SegmentOpenError::Layout(SegmentError::CapacityRequired))));
    let (backend, capacity) = seg.prepare_open(&url, None).unwrap();
    assert_eq!(backend.kind(), Kind::Ram);
    assert_eq!(capacity, MIN_SLAB_CAPACITY);
    let ftp = Url::parse("ftp://x").unwrap();
    match seg.prepare_open(&ftp, None) {
        Err(SegmentOpenError::UnsupportedScheme(s)) => assert_eq!(s, "ftp"),
        other => panic!("unexpected {:?}", other.map(|(_, c)| c)),
    }
    match seg.prepare_open(&Shm::build_url("s"), None) {
        Err(SegmentOpenError::Layout(SegmentError::UnsupportedScheme(s))) => assert_eq!(s, "shm"),
        other => panic!("unexpected {:?}", other.map(|(_, c)| c)),
    }
}

#[test]
fn mounted_primary_reads_back_its_catalogs() {
    let base: Locator = Ram::build_url("seg-core").into();
    let mut seg = Segment::with_base(Kind::Ram, base, [5u8; 16]);
    assert_eq!(seg.base_locator().unwrap().as_str(), "ram://seg-core");
    assert_eq!(seg.extension_locator(1).unwrap().as_str(), "ram://seg-core-1");
    let (meta, obj) = mount_primary(&mut seg, opened("seg-core", MIN_SLAB_CAPACITY));
    assert_eq!(meta.0, 0);
    let h = seg.header(0).unwrap();
    assert!(h.is_primary() && h.is_mounted());
    assert_eq!(h.flags, FLAG_MOUNTED);
    assert_eq!(h.segment_uuid, [5u8; 16]);
    assert_eq!((h.metatype_catalog_offset, h.metatype_catalog_len), meta);
    assert_eq!((h.object_catalog_offset, h.object_catalog_len), obj);
    assert_eq!(h.extension_count, 1);
    assert_eq!(seg.size_raw(0), Some(MIN_SLAB_CAPACITY));
    assert_eq!(seg.size(0), Some(MIN_SLAB_CAPACITY - HEADER_LEN));
    assert_eq!(seg.arena(0).unwrap().len(), MIN_SLAB_CAPACITY - HEADER_LEN);
    assert_eq!(seg.size_all(), MIN_SLAB_CAPACITY - HEADER_LEN);
    assert_eq!(seg.size_raw_all(), MIN_SLAB_CAPACITY);

    let cat = seg.metatype_catalog().unwrap();
    assert_eq!(cat.capacity(), DEFAULT_METATYPE_CATALOG_CAPACITY);
    assert_eq!(cat.count(), 1);
    assert_eq!(cat.metatypes()[0].type_uuid, MetaTypeCatalog::TYPE_UUID);
    assert_eq!(seg.metatype_catalog_chunk_count().unwrap(), 1);
    assert_eq!(seg.metatype_catalog_head().unwrap().capacity(), DEFAULT_METATYPE_CATALOG_CAPACITY);
    assert_eq!(seg.metatype_index_for_uuid(MetaTypeCatalog::TYPE_UUID).unwrap(), Some(0));
    assert_eq!(seg.metatype_index_for_uuid(FlexString::TYPE_UUID).unwrap(), None);

    let objects = seg.object_catalog().unwrap();
    assert_eq!(objects.object_count(), 0);
    assert_eq!(objects.capacity(), DEFAULT_OBJECT_CATALOG_CAPACITY);
    assert_eq!(seg.object_catalog_chunk_count().unwrap(), 1);
    assert_eq!(seg.object_at(0).unwrap(), None);
}

#[test]
fn appended_rows_are_found_at_the_returned_index() {
    let mut seg = Segment::new(Kind::Ram);
    mount_primary(&mut seg, opened("rows", MIN_SLAB_CAPACITY));
    let flex = MetaType::from_type::<FlexString>().to_header();
    assert_eq!(seg.append_metatype(flex).unwrap(), ChainAppend::Appended(1));
    assert_eq!(seg.metatype_at(1).unwrap(), Some(flex));
    assert_eq!(seg.metatype_at(2).unwrap(), None);
    assert_eq!(seg.metatype_index_for_uuid(FlexString::TYPE_UUID).unwrap(), Some(1));

    let row = ObjectHeader::new(1, 0, 4096);
    assert_eq!(seg.append_object(row).unwrap(), ChainAppend::Appended(0));
    assert_eq!(seg.object_at(0).unwrap(), Some(row));
    assert_eq!(seg.object_catalog().unwrap().object_count(), 1);
}

#[test]
fn full_tail_takes_a_placed_and_linked_chunk() {
    let mut seg = Segment::new(Kind::Ram);
    let mut backend = opened("small", MIN_SLAB_CAPACITY);
    let arena_len = seg.check_new_slab(&backend, true).unwrap();
    let head = MetaTypeCatalog::for_mount(2).unwrap();
    let meta = place_catalog(backend.bytes_mut(), BASE + HEADER_LEN, BASE, HEADER_LEN, 512, head.inner()).unwrap();
    let objects = ObjectCatalog::for_mount(2).unwrap();
    let obj = place_catalog(backend.bytes_mut(), BASE + HEADER_LEN + 512, BASE, HEADER_LEN, 512, objects.inner()).unwrap();
    seg.mount_primary(&mut backend, arena_len, meta, obj).unwrap();
    seg.push(backend);

    let flex = MetaType::from_type::<FlexString>().to_header();
    assert_eq!(seg.append_metatype(flex).unwrap(), ChainAppend::Appended(1));
    assert_eq!(seg.append_metatype(flex).unwrap(), ChainAppend::TailFull(2));
    let next = MetaTypeCatalog::for_mount_extension(2).unwrap();
    let placed = seg.place_on_primary(BASE + HEADER_LEN + 1024, BASE, 512, next.inner()).unwrap();
    assert_eq!(placed, (1024, (24 + 2 * 32) as u32));
    seg.link_metatype_chunk(placed.0, placed.1).unwrap();
    assert_eq!(seg.append_metatype(flex).unwrap(), ChainAppend::Appended(2));
    assert_eq!(seg.metatype_catalog_chunk_count().unwrap(), 2);
    let all = seg.metatype_catalog().unwrap();
    assert_eq!(all.capacity(), 4);
    assert_eq!(all.count(), 3);
    assert_eq!(seg.metatype_catalog_head().unwrap().count(), 2);

    // Editing the flattened catalog and storing it back spreads rows over both chunks.
    let mut edited = seg.metatype_catalog().unwrap();
    edited.append(flex).unwrap();
    seg.store_metatype_catalog(&edited).unwrap();
    assert_eq!(seg.metatype_catalog().unwrap().count(), 4);
    assert_eq!(seg.metatype_at(3).unwrap(), Some(flex));
}

#[test]
fn placement_outside_the_arena_is_refused() {
    let mut backend = opened("out", MIN_SLAB_CAPACITY);
    let cat = MetaTypeCatalog::for_mount(2).unwrap();
    let before = backend.bytes().to_vec();
    assert!(matches!(
        place_catalog(backend.bytes_mut(), BASE + 10, BASE, HEADER_LEN, 512, cat.inner()),
        Err(SegmentError::BadHeader)
    ));
    assert!(matches!(
        place_catalog(backend.bytes_mut(), BASE + MIN_SLAB_CAPACITY - 8, BASE, HEADER_LEN, 512, cat.inner()),
        Err(SegmentError::BadHeader)
    ));
    assert_eq!(backend.bytes(), &before[..]);
}

#[test]
fn memory_overview_counts_slabs_and_catalogs() {
    let mut seg = Segment::new(Kind::Ram);
    mount_primary(&mut seg, opened("stats", MIN_SLAB_CAPACITY));
    let o = seg.memory_overview(MIN_SLAB_CAPACITY - HEADER_LEN, 9000, 700, 1000).unwrap();
    assert_eq!(o.slabs, 1);
    assert_eq!(o.raw_bytes, MIN_SLAB_CAPACITY);
    assert_eq!(o.header_bytes, HEADER_LEN);
    assert_eq!(o.arena_bytes, MIN_SLAB_CAPACITY - HEADER_LEN);
    assert_eq!(o.unclaimed_arena, 0);
    assert_eq!(o.talc_allocated, 9000);
    assert_eq!(o.catalogs[0].tag, "CTLG");
    assert_eq!(o.catalogs[0].rows, 1);
    assert_eq!(o.catalogs[1].tag, "COBJ");
    assert_eq!(o.catalogs[1].rows, 0);
    let half = seg.memory_overview(1000, 0, 0, 0).unwrap();
    assert_eq!(half.unclaimed_arena, MIN_SLAB_CAPACITY - HEADER_LEN - 1000);
}

#[test]
fn extension_slabs_carry_their_index_and_the_primary_counts_them() {
    let mut seg = Segment::new(Kind::Ram);
    mount_primary(&mut seg, opened("core", MIN_SLAB_CAPACITY));
    let mut ext = opened("core-0", MIN_SLAB_CAPACITY);
    let arena_len = seg.check_new_slab(&ext, true).unwrap();
    seg.mount_extension(&mut ext, arena_len, 1).unwrap();
    assert_eq!(seg.push(ext), 1);
    let h = seg.header(1).unwrap();
    assert!(!h.is_primary() && h.is_mounted());
    assert_eq!(h.slab_index, 1);
    seg.set_extension_count(2);
    assert_eq!(seg.header(0).unwrap().extension_count, 2);
    assert_eq!(seg.size_raw_all(), 2 * MIN_SLAB_CAPACITY);
    assert_eq!(seg.size_all(), 2 * (MIN_SLAB_CAPACITY - HEADER_LEN));

    // A slab mounted in this segment can be taken in as it is; one of another segment not.
    let again = opened("core-0b", MIN_SLAB_CAPACITY);
    let mut mounted = again;
    seg.mount_extension(&mut mounted, arena_len, 2).unwrap();
    assert_eq!(seg.check_new_slab(&mounted, false).unwrap(), arena_len);
    let other = Segment::with_base(Kind::Ram, Ram::build_url("x").into(), [1u8; 16]);
    assert!(matches!(other.check_new_slab(&mounted, false), Err(SegmentError::SegmentUuidMismatch)));
}

#[test]
fn close_marks_one_slab_and_locate_finds_by_url() {
    let mut seg = Segment::new(Kind::Ram);
    mount_primary(&mut seg, opened("a", MIN_SLAB_CAPACITY));
    let mut b = opened("b", MIN_SLAB_CAPACITY);
    let arena_len = seg.check_new_slab(&b, true).unwrap();
    seg.mount_extension(&mut b, arena_len, 1).unwrap();
    seg.push(b);
    assert_eq!(seg.locate_slab(&Ram::build_url("b")), Some(1));
    assert_eq!(seg.locate_slab(&Ram::build_url("a")), Some(0));
    assert_eq!(seg.locate_slab(&Ram::build_url("c")), None);
    assert!(matches!(seg.close(7), Err(SegmentTeardownError::BadIndex)));
    seg.close(1).unwrap();
    assert_eq!(seg.backend(1).unwrap().info().state, State::Closed);
    assert_eq!(seg.backend(0).unwrap().info().state, State::Open);
    assert_eq!(seg.size_raw(1), Some(MIN_SLAB_CAPACITY));
    seg.unlink_all().unwrap();
    assert_eq!(seg.backend(0).unwrap().info().state, State::Closed);
}

#[test]
fn usage_of_a_slab_is_measured_in_its_segment() {
    let mut seg = Segment::new(Kind::Ram);
    mount_primary(&mut seg, opened("u", MIN_SLAB_CAPACITY));
    let loc: Locator = Ram::build_url("u").into();
    let u = Usage::of_slab(Id(3), SegmentId(1), loc.clone(), Some(&seg));
    assert_eq!(u.scheme, "ram");
    assert_eq!(u.raw_len, MIN_SLAB_CAPACITY);
    assert_eq!(u.arena_len, MIN_SLAB_CAPACITY - HEADER_LEN);
    assert_eq!(u.header_len, HEADER_LEN);
    let elsewhere = Usage::of_slab(Id(4), SegmentId(1), Ram::build_url("v").into(), Some(&seg));
    assert_eq!((elsewhere.raw_len, elsewhere.arena_len, elsewhere.header_len), (0, 0, 0));
    let gone = Usage::of_slab(Id(3), SegmentId(9), loc, None);
    assert_eq!((gone.raw_len, gone.arena_len, gone.header_len), (0, 0, 0));
}

#[test]
fn memory_overview_after_mount() {
    let mut seg = Segment::new(Kind::Ram);
    let (meta, obj) = mount_primary(&mut seg, opened("stats", MIN_SLAB_CAPACITY));
    // What the allocator reports right after the mount: the two pinned catalog blobs.
    let allocated = (meta.1 + obj.1) as usize;
    let claimed = MIN_SLAB_CAPACITY - HEADER_LEN;
    let o = seg.memory_overview(claimed, allocated, 0, claimed - allocated).unwrap();
    assert_eq!(o.slabs, 1);
    assert_eq!(o.header_bytes, HEADER_LEN);
    assert_eq!(o.catalogs[0].tag, "CTLG");
    assert_eq!(o.catalogs[0].rows, 1);
    assert_eq!(o.catalogs[1].tag, "COBJ");
    assert_eq!(o.catalogs[1].rows, 0);
    assert!(o.talc_allocated >= o.catalog_reserved_total());
}

#[test]
fn talc_overhead_counts_bins_word_and_chunk_units() {
    let word = usize::BITS as usize / 8;
    let bins = 3 * usize::BITS as usize - 1;
    assert_eq!(talc_metadata_overhead(), bins * word + word + 3 * 4 * word);
    if usize::BITS == 64 {
        assert_eq!(talc_metadata_overhead(), 1632);
    }
}

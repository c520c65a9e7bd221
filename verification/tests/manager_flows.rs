use cruspy::backend::{Ram, Slab};
use cruspy::catalog::metatype::{MetaTypeCatalog, DEFAULT_METATYPE_CATALOG_CAPACITY, METATYPE_CATALOG_SELF_INDEX};
use cruspy::catalog::objects::DEFAULT_OBJECT_CATALOG_CAPACITY;
use cruspy::defaults::MIN_SLAB_CAPACITY;
use cruspy::ids::SegmentId;
use cruspy::io::{HasAccess, HasArenaClaim, HasInfo, HasMapping, HasResize, Kind, OpenMode, SlabError, State};
use cruspy::manager::error::map_open_err;
use cruspy::manager::memory::Manager;
use cruspy::manager::usage::slab_totals;
use cruspy::manager::{Locator, ManagerError, Registered};
use cruspy::slab::error::SegmentOpenError;
use cruspy::slab::header::{HEADER_LEN, MAGIC, SLAB_ROLE_HEAP_EXT, VERSION};
use cruspy::slab::pin::{pinned_reserved_len, place_catalog, primary_metatype_catalog, primary_object_catalog};
use cruspy::slab::segment::Segment;
use cruspy::types::metatype::{HasMetaType, MetaType};
use cruspy::url::Url;

/// A made-up address of every mapping, as the allocator would see it.
const BASE: usize = 0x3000_0000;
const PID: u32 = 77;

/// Open `url` on `seg` the way the runtime does, with the catalogs placed where the allocator
/// hands out its first blobs.
fn open_on(seg: &mut Segment, url: &Url, capacity: Option<usize>) -> Result<usize, SegmentOpenError> {
    let (unopened, capacity) = seg.prepare_open(url, capacity)?;
    let mut backend = match unopened {
        Slab::Ram(_) => Slab::Ram(
            Ram::open(url, OpenMode::Create, Some(capacity)).map_err(|e| SegmentOpenError::Backend(SlabError::Ram(e)))?,
        ),
        _ => return Err(SegmentOpenError::Backend(SlabError::Os("not available".to_string()))),
    };
    let arena_len = seg.check_new_slab(&backend, true).map_err(SegmentOpenError::Layout)?;
    // The allocator claims the arena.
    if let Slab::Ram(b) = &mut backend {
        b.set_arena_claimed(true);
    }
    let index = seg.slab_count();
    if index == 0 {
        let metatypes = primary_metatype_catalog(arena_len).map_err(SegmentOpenError::Layout)?;
        let meta_len = pinned_reserved_len(metatypes.inner()).unwrap();
        let meta = place_catalog(backend.bytes_mut(), BASE + HEADER_LEN, BASE, HEADER_LEN, meta_len, metatypes.inner()).unwrap();
        let objects = primary_object_catalog(arena_len, meta.1).map_err(SegmentOpenError::Layout)?;
        let obj_len = pinned_reserved_len(objects.inner()).unwrap();
        let obj = place_catalog(backend.bytes_mut(), BASE + HEADER_LEN + meta_len, BASE, HEADER_LEN, obj_len, objects.inner()).unwrap();
        seg.mount_primary(&mut backend, arena_len, meta, obj).map_err(SegmentOpenError::Layout)?;
    } else {
        seg.mount_extension(&mut backend, arena_len, index as u16).map_err(SegmentOpenError::Layout)?;
    }
    Ok(seg.push(backend))
}

fn register_on(mgr: &mut Manager, sid: SegmentId, url: &Url, capacity: Option<usize>) -> Result<Registered, ManagerError> {
    let kind = mgr.check_register(sid, url)?;
    let seg = mgr.segment_mut(sid).unwrap();
    let index = open_on(seg, url, capacity).map_err(|e| map_open_err(kind, e))?;
    Ok(mgr.record(url, sid, index))
}

fn create(mgr: &mut Manager, url: &Url, capacity: Option<usize>) -> Result<Registered, ManagerError> {
    let sid = mgr.ensure_default_segment(url.scheme(), PID)?;
    register_on(mgr, sid, url, capacity)
}

#[test]
fn register_two_slabs_same_default_segment() {
    let mut mgr = Manager::new();
    let a = create(&mut mgr, &Ram::build_url("a"), Some(MIN_SLAB_CAPACITY)).expect("create a");
    let b = create(&mut mgr, &Ram::build_url("b"), Some(MIN_SLAB_CAPACITY)).expect("create b");
    assert_eq!(a.segment_id, b.segment_id);
    assert_ne!(a.id, b.id);
    let rows = mgr.usage_rows();
    let totals = slab_totals(&rows).unwrap();
    assert_eq!(totals.slab_count, 2);
    let arena_a = MIN_SLAB_CAPACITY - HEADER_LEN;
    let arena_b = MIN_SLAB_CAPACITY - HEADER_LEN;
    assert_eq!(totals.total_arena_len, arena_a + arena_b);
    assert_eq!(mgr.segment_ids().len(), 1);
}

#[test]
fn multiple_segments_explicit() {
    let mut mgr = Manager::new();
    let s0 = mgr.create_segment(Kind::Ram, PID);
    let s1 = mgr.create_segment(Kind::Ram, PID);
    assert_ne!(s0, s1);
    let a = register_on(&mut mgr, s0, &Ram::build_url("a"), Some(MIN_SLAB_CAPACITY)).unwrap();
    let b = register_on(&mut mgr, s1, &Ram::build_url("b"), Some(MIN_SLAB_CAPACITY)).unwrap();
    assert_ne!(a.segment_id, b.segment_id);
    assert_eq!(mgr.segment(s0).unwrap().backends().len(), 1);
    assert_eq!(mgr.segment(s1).unwrap().backends().len(), 1);
}

#[test]
fn scheme_mismatch_rejected() {
    let mut mgr = Manager::new();
    let shm_seg = mgr.create_segment(Kind::Shm, PID);
    let err = register_on(&mut mgr, shm_seg, &Ram::build_url("wrong"), Some(MIN_SLAB_CAPACITY)).unwrap_err();
    assert!(matches!(err, ManagerError::SchemeMismatch { .. }));
}

#[test]
fn duplicate_locator_rejected() {
    let mut mgr = Manager::new();
    let url = Ram::build_url("dup");
    create(&mut mgr, &url, Some(MIN_SLAB_CAPACITY)).unwrap();
    assert!(matches!(create(&mut mgr, &url, Some(MIN_SLAB_CAPACITY)), Err(ManagerError::DuplicateLocator(_))));
}

#[test]
fn close_removes_registration_but_keeps_mapping_for_talc() {
    let mut mgr = Manager::new();
    let reg = create(&mut mgr, &Ram::build_url("x"), Some(MIN_SLAB_CAPACITY)).unwrap();
    let seg = reg.segment_id;
    mgr.close(reg.id).unwrap();
    assert!(matches!(mgr.id(&reg.locator), Err(ManagerError::UnknownLocator(_))));
    let slab = mgr.segment(seg).unwrap().backend(0).unwrap();
    assert_eq!(slab.info().state, State::Closed);
    assert_eq!(mgr.segment(seg).unwrap().backends().len(), 1);
    assert_eq!(mgr.segment(seg).unwrap().size(0).unwrap(), MIN_SLAB_CAPACITY - HEADER_LEN);
}

#[test]
fn slab_below_minimum_rejected() {
    let mut mgr = Manager::new();
    let err = create(&mut mgr, &Ram::build_url("tiny"), Some(4096)).unwrap_err();
    assert!(matches!(
        err,
        ManagerError::Layout {
            scheme,
            detail
        } if scheme == "ram" && detail.contains("capacity required")
    ));
}

#[test]
fn open_segment_base_locator_and_extension() {
    let mut mgr = Manager::new();
    let base: Locator = Ram::build_url("seg-core").into();
    let (seg_id, kind) = mgr.begin_segment(&base).unwrap();
    let mut seg = Segment::with_base(kind, base.clone(), [9u8; 16]);
    open_on(&mut seg, base.as_url(), Some(MIN_SLAB_CAPACITY)).unwrap();
    mgr.finish_segment(seg_id, &base, seg);
    assert_eq!(mgr.segment_id_for_base(base.as_str()).unwrap(), seg_id);
    let seg = mgr.segment(seg_id).unwrap();
    assert_eq!(seg.slab_count(), 1);
    let cat = seg.metatype_catalog().unwrap();
    assert_eq!(cat.metatypes().len(), 1);
    assert_eq!(cat.capacity(), DEFAULT_METATYPE_CATALOG_CAPACITY);
    assert_eq!(
        cat.metatypes()[METATYPE_CATALOG_SELF_INDEX as usize],
        MetaType::from_type::<MetaTypeCatalog>().to_header()
    );
    let obj = seg.object_catalog().unwrap();
    assert_eq!(obj.capacity(), DEFAULT_OBJECT_CATALOG_CAPACITY);
    let ext_id = mgr.segment_id_for_base(base.as_str()).unwrap();
    let seg = mgr.segment_mut(ext_id).unwrap();
    let ext_url = seg.extension_locator(0).unwrap();
    let ext_idx = open_on(seg, ext_url.as_url(), Some(MIN_SLAB_CAPACITY)).unwrap();
    let count = seg.slab_count() as u16;
    seg.set_extension_count(count);
    assert_eq!(ext_idx, 1);
    let seg = mgr.segment(seg_id).unwrap();
    assert_eq!(seg.slab_count(), 2);
    let primary = seg.header(0).unwrap();
    assert!(primary.is_primary());
    assert_eq!(primary.extension_count, 2);
    let ext = base.extension(0);
    assert_eq!(seg.locate_slab(ext.as_url()), Some(1));
    assert_eq!(seg.header(1).unwrap().slab_role, SLAB_ROLE_HEAP_EXT);
    assert!(seg.header(0).unwrap().is_mounted());
    assert!(seg.header(1).unwrap().is_mounted());
}

#[test]
fn manager_end_to_end_catalog_segment_slab_flow() {
    let mut mgr = Manager::new();

    // Locator defaults are deterministic per storage kind.
    assert_eq!(Locator::default_for_kind(Kind::Ram, PID).scheme(), "ram");
    assert_eq!(Locator::default_for_kind(Kind::Shm, PID).scheme(), "shm");
    assert_eq!(Locator::default_for_kind(Kind::File, PID).scheme(), "file");

    // Registration creates and then uses one segment, installing slab headers.
    let a = create(&mut mgr, &Ram::build_url("flow-a"), Some(MIN_SLAB_CAPACITY)).unwrap();
    let b = create(&mut mgr, &Ram::build_url("flow-b"), Some(MIN_SLAB_CAPACITY)).unwrap();
    assert_eq!(a.segment_id, b.segment_id);

    assert_eq!(mgr.id(&a.locator).unwrap(), a.id);
    assert_eq!(mgr.try_id(&a.locator), Some(a.id));
    assert!(mgr.contains_locator(&a.locator));
    assert_eq!(mgr.locator(a.id).unwrap().as_str(), a.locator.as_str());

    let a_index = mgr.slab_index(a.id).unwrap();
    let seg = mgr.segment(a.segment_id).unwrap();
    assert_eq!(seg.backends().len(), 2);
    let hdr = seg.header(a_index).unwrap();
    assert_eq!(hdr.magic, MAGIC);
    assert_eq!(hdr.version, VERSION);
    assert_eq!(hdr.len as usize, MIN_SLAB_CAPACITY - HEADER_LEN);

    // A closed registration is gone, its slab mapping stays reachable.
    mgr.close(a.id).unwrap();
    assert_eq!(mgr.try_id(&a.locator), None);
    let seg = mgr.segment(a.segment_id).unwrap();
    let slab = seg.backend(a_index).unwrap();
    assert_eq!(slab.info().state, State::Closed);
    assert_eq!(seg.size(a_index).unwrap(), MIN_SLAB_CAPACITY - HEADER_LEN);
}

#[test]
fn open_create_and_segment_layout() {
    let url = Ram::build_url("heap");
    let mut seg = Segment::new(Kind::Ram);
    open_on(&mut seg, &url, Some(MIN_SLAB_CAPACITY)).unwrap();
    assert_eq!(seg.backends().len(), 1);
    let slab = seg.backend(0).unwrap();
    assert_eq!(slab.info().open_mode, OpenMode::Create);
    assert_eq!(slab.info().capacity, MIN_SLAB_CAPACITY);
    let h = seg.header(0).unwrap();
    assert_eq!(h.magic, MAGIC);
    assert_eq!(h.version, VERSION);
    assert_eq!(h.header_len as usize, HEADER_LEN);
    assert_eq!(h.offset as usize, HEADER_LEN);
    assert_eq!(h.len as usize, MIN_SLAB_CAPACITY - HEADER_LEN);
    assert_eq!(seg.arena(0).unwrap().len(), MIN_SLAB_CAPACITY - HEADER_LEN);
}

#[test]
fn add_second_slab_claims_same_talc() {
    let mut seg = Segment::new(Kind::Ram);
    open_on(&mut seg, &Ram::build_url("a"), Some(MIN_SLAB_CAPACITY)).unwrap();
    open_on(&mut seg, &Ram::build_url("b"), Some(MIN_SLAB_CAPACITY)).unwrap();
    assert_eq!(seg.backends().len(), 2);
    assert_eq!(seg.size_all(), (MIN_SLAB_CAPACITY - HEADER_LEN) + (MIN_SLAB_CAPACITY - HEADER_LEN));
    assert_eq!(seg.size_raw_all(), MIN_SLAB_CAPACITY + MIN_SLAB_CAPACITY);
    assert_eq!(seg.header(0).unwrap().len as usize, MIN_SLAB_CAPACITY - HEADER_LEN);
    assert_eq!(seg.header(1).unwrap().len as usize, MIN_SLAB_CAPACITY - HEADER_LEN);
    assert_eq!(seg.arena(0).unwrap().len(), MIN_SLAB_CAPACITY - HEADER_LEN);
    assert_eq!(seg.arena(1).unwrap().len(), MIN_SLAB_CAPACITY - HEADER_LEN);
}

#[test]
fn create_rejects_slab_below_minimum() {
    let mut seg = Segment::new(Kind::Ram);
    assert!(matches!(
        open_on(&mut seg, &Ram::build_url("tiny"), Some(4096)),
        Err(SegmentOpenError::Layout(cruspy::slab::error::SegmentError::CapacityRequired))
    ));
}

#[test]
fn add_rejects_uninitialized_mapping() {
    let ram = Ram::create(&Ram::build_url("fresh"), Some(MIN_SLAB_CAPACITY)).unwrap();
    let seg = Segment::new(Kind::Ram);
    assert!(matches!(
        seg.check_new_slab(&Slab::Ram(ram), false),
        Err(cruspy::slab::error::SegmentError::BadHeader)
    ));
}

#[test]
fn resize_forbidden_after_segment_claim() {
    let url = Ram::build_url("claimed");
    let mut seg = Segment::new(Kind::Ram);
    open_on(&mut seg, &url, Some(MIN_SLAB_CAPACITY)).unwrap();
    match seg.backend(0).unwrap() {
        Slab::Ram(r) => assert!(r.arena_claimed()),
        _ => panic!("not a ram slab"),
    }
    match seg.backend_mut(0).unwrap() {
        Slab::Ram(r) => assert!(r.resize(8192).is_err()),
        _ => panic!("not a ram slab"),
    }
}

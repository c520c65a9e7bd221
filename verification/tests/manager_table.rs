use cruspy::backend::{Ram, Slab};
use cruspy::defaults::MIN_SLAB_CAPACITY;
use cruspy::ids::{Id, SegmentId};
use cruspy::io::{HasAccess, HasInfo, HasMapping, Kind, OpenMode, State};
use cruspy::manager::memory::Manager;
use cruspy::manager::{Locator, ManagerError};
use cruspy::slab::header::HEADER_LEN;
use cruspy::slab::pin::{pinned_reserved_len, place_catalog, primary_metatype_catalog, primary_object_catalog};
use cruspy::slab::segment::Segment;
use cruspy::url::Url;

const BASE: usize = 0x2000_0000;
const PID: u32 = 4242;

/// Open `host` and take it into `seg` as its mounted primary, laid out as the allocator would.
fn mount(seg: &mut Segment, host: &str) -> usize {
    let mut backend = Slab::Ram(Ram::open(&Ram::build_url(host), OpenMode::Create, Some(MIN_SLAB_CAPACITY)).unwrap());
    let arena_len = seg.check_new_slab(&backend, true).unwrap();
    let metatypes = primary_metatype_catalog(arena_len).unwrap();
    let meta_len = pinned_reserved_len(metatypes.inner()).unwrap();
    let meta = place_catalog(backend.bytes_mut(), BASE + HEADER_LEN, BASE, HEADER_LEN, meta_len, metatypes.inner()).unwrap();
    let objects = primary_object_catalog(arena_len, meta.1).unwrap();
    let obj_len = pinned_reserved_len(objects.inner()).unwrap();
    let obj = place_catalog(backend.bytes_mut(), BASE + HEADER_LEN + meta_len, BASE, HEADER_LEN, obj_len, objects.inner()).unwrap();
    seg.mount_primary(&mut backend, arena_len, meta, obj).unwrap();
    seg.push(backend)
}

#[test]
fn table_default_segment_is_created_once_per_kind() {
    let mut mgr = Manager::new();
    let a = mgr.ensure_default_segment("ram", PID).unwrap();
    let b = mgr.ensure_default_segment("ram", PID).unwrap();
    assert_eq!(a, b);
    assert_eq!(a, SegmentId(0));
    let s = mgr.ensure_default_segment("shm", PID).unwrap();
    assert_eq!(s, SegmentId(1));
    let mut ids: Vec<u64> = mgr.segment_ids().into_iter().map(|i| i.0).collect();
    ids.sort();
    assert_eq!(ids, vec![0, 1]);
    assert_eq!(mgr.segment(a).unwrap().kind(), Kind::Ram);
    assert_eq!(mgr.segment(s).unwrap().kind(), Kind::Shm);
    assert!(mgr.segment(SegmentId(9)).is_none());
    match mgr.ensure_default_segment("ftp", PID) {
        Err(ManagerError::UnsupportedScheme(x)) => assert_eq!(x, "ftp"),
        other => panic!("unexpected {:?}", other),
    }
    let c = mgr.create_segment(Kind::Ram, PID);
    assert_eq!(c, SegmentId(2));
    // The kind already had its default, so the new segment does not replace it.
    assert_eq!(mgr.ensure_default_segment("ram", PID).unwrap(), a);
}

#[test]
fn named_segments_are_opened_once() {
    let mut mgr = Manager::new();
    let base: Locator = Ram::build_url("seg-core").into();
    let (id, kind) = mgr.begin_segment(&base).unwrap();
    assert_eq!((id, kind), (SegmentId(0), Kind::Ram));
    let mut seg = Segment::with_base(kind, base.clone(), [3u8; 16]);
    mount(&mut seg, "seg-core");
    mgr.finish_segment(id, &base, seg);
    assert_eq!(mgr.segment_id_for_base("ram://seg-core-0").unwrap(), id);
    assert_eq!(mgr.segment_id_for_base("ram://seg-core").unwrap(), id);
    match mgr.begin_segment(&base) {
        Err(ManagerError::DuplicateSegment(k)) => assert_eq!(k, "seg-core"),
        other => panic!("unexpected {:?}", other),
    }
    let ftp: Locator = Url::parse("ftp://x").unwrap().into();
    assert!(matches!(mgr.begin_segment(&ftp), Err(ManagerError::UnsupportedScheme(_))));
    assert!(matches!(mgr.segment_id_for_base("ram://other"), Err(ManagerError::UnknownSegmentBase(_))));
}

#[test]
fn registrations_are_checked_recorded_and_located() {
    let mut mgr = Manager::new();
    let sid = mgr.create_segment(Kind::Ram, PID);
    let url = Ram::build_url("a");
    assert_eq!(mgr.check_register(sid, &url).unwrap(), Kind::Ram);
    assert!(matches!(mgr.check_register(SegmentId(7), &url), Err(ManagerError::UnknownSegment(SegmentId(7)))));
    match mgr.check_register(sid, &Url::parse("shm://a").unwrap()) {
        Err(ManagerError::SchemeMismatch { url_scheme, kind }) => {
            assert_eq!(url_scheme, "shm");
            assert_eq!(kind, Kind::Ram);
        }
        other => panic!("unexpected {:?}", other),
    }
    let idx = mount(mgr.segment_mut(sid).unwrap(), "a");
    let reg = mgr.record(&url, sid, idx);
    assert_eq!(reg.id, Id(0));
    assert_eq!(mgr.id("ram://a").unwrap(), reg.id);
    assert_eq!(mgr.try_id(&url), Some(reg.id));
    assert!(mgr.contains_locator(&url));
    assert_eq!(mgr.locator(reg.id).unwrap().as_str(), "ram://a");
    assert_eq!(mgr.segment_id_for(reg.id).unwrap(), sid);
    assert_eq!(mgr.mem_entry(reg.id).unwrap().segment_id, sid);
    assert_eq!(mgr.slab_index(reg.id).unwrap(), 0);
    assert!(matches!(mgr.slab_index(Id(5)), Err(ManagerError::UnknownId(Id(5)))));
    match mgr.check_register(sid, &url) {
        Err(ManagerError::DuplicateLocator(k)) => assert_eq!(k, "ram://a"),
        other => panic!("unexpected {:?}", other),
    }
    // A registration whose slab is not in its segment is reported as such.
    let lost = mgr.record(&Ram::build_url("lost"), sid, 3);
    assert!(matches!(mgr.slab_index(lost.id), Err(ManagerError::SlabNotInSegment)));
}

#[test]
fn close_removes_registration_but_keeps_mapping() {
    let mut mgr = Manager::new();
    let sid = mgr.create_segment(Kind::Ram, PID);
    let url = Ram::build_url("keep");
    let idx = mount(mgr.segment_mut(sid).unwrap(), "keep");
    let reg = mgr.record(&url, sid, idx);
    let before = mgr.segment(sid).unwrap().size_raw(idx);
    mgr.close(reg.id).unwrap();
    assert!(mgr.try_id(&url).is_none());
    assert!(matches!(mgr.close(reg.id), Err(ManagerError::UnknownId(_))));
    let seg = mgr.segment(sid).unwrap();
    assert_eq!(seg.backend(idx).unwrap().info().state, State::Closed);
    assert_eq!(seg.size_raw(idx), before);
    assert_eq!(seg.size(idx), Some(MIN_SLAB_CAPACITY - HEADER_LEN));
}

#[test]
fn close_all_closes_every_slab_and_forgets_all() {
    let mut mgr = Manager::new();
    let sid = mgr.create_segment(Kind::Ram, PID);
    let idx = mount(mgr.segment_mut(sid).unwrap(), "x");
    let a = mgr.record(&Ram::build_url("x"), sid, idx);
    let b = mgr.record(&Ram::build_url("y"), sid, 1);
    assert_eq!(mgr.usage_rows().len(), 2);
    mgr.unlink_all().unwrap();
    assert!(mgr.try_id("ram://x").is_none());
    assert!(matches!(mgr.mem_entry(a.id), Err(ManagerError::UnknownId(_))));
    assert!(matches!(mgr.mem_entry(b.id), Err(ManagerError::UnknownId(_))));
    assert_eq!(mgr.segment(sid).unwrap().backend(0).unwrap().info().state, State::Closed);
    assert!(mgr.usage_rows().is_empty());
}

#[test]
fn usage_rows_are_ordered_by_id_and_measured() {
    let mut mgr = Manager::new();
    let sid = mgr.create_segment(Kind::Ram, PID);
    let idx = mount(mgr.segment_mut(sid).unwrap(), "u");
    mgr.record(&Ram::build_url("u"), sid, idx);
    mgr.record(&Ram::build_url("v"), sid, 1);
    let rows = mgr.usage_rows();
    assert_eq!(rows[0].id, Id(0));
    assert_eq!(rows[1].id, Id(1));
    assert_eq!(rows[0].raw_len, MIN_SLAB_CAPACITY);
    assert_eq!(rows[0].arena_len, MIN_SLAB_CAPACITY - HEADER_LEN);
    assert_eq!(rows[1].raw_len, 0);
    assert_eq!(rows.len(), 2);
    assert_eq!(rows[0].header_len, HEADER_LEN);
    assert_eq!(rows[1].header_len, 0);
    assert_eq!(rows[0].scheme, "ram");
}

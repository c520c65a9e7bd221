use cruspy::backend::Ram;
use cruspy::ids::{Id, SegmentId};
use cruspy::io::Kind;
use cruspy::manager::registry::{DefaultSegment, Registry};
use cruspy::manager::{Locator, ManagerError};

#[test]
fn registered_locator_is_found_by_locator_and_id() {
    let mut reg = Registry::new();
    let url = Ram::build_url("a");
    assert!(reg.check_new_locator(&url).is_ok());
    let r = reg.record(&url, SegmentId(3), 0);
    assert_eq!(r.id, Id(0));
    assert_eq!(r.locator.as_str(), "ram://a");
    assert_eq!(reg.id("ram://a").unwrap(), r.id);
    assert_eq!(reg.try_id("ram://a"), Some(r.id));
    assert!(reg.contains_locator("ram://a"));
    assert_eq!(reg.locator(r.id).unwrap().as_str(), "ram://a");
    assert_eq!(reg.segment_id_for(r.id).unwrap(), SegmentId(3));
    let second = reg.record(&Ram::build_url("b"), SegmentId(3), 1);
    assert_eq!(second.id, Id(1));
    assert_eq!(reg.entries().len(), 2);
}

#[test]
fn duplicate_locator_is_refused() {
    let mut reg = Registry::new();
    let url = Ram::build_url("dup");
    reg.record(&url, SegmentId(0), 0);
    match reg.check_new_locator(&url) {
        Err(ManagerError::DuplicateLocator(k)) => assert_eq!(k, "ram://dup"),
        other => panic!("unexpected {:?}", other),
    }
}

#[test]
fn removed_registration_is_gone() {
    let mut reg = Registry::new();
    let r = reg.record(&Ram::build_url("x"), SegmentId(0), 0);
    reg.remove(r.id).unwrap();
    assert!(matches!(reg.id("ram://x"), Err(ManagerError::UnknownLocator(_))));
    assert_eq!(reg.try_id("ram://x"), None);
    assert!(matches!(reg.mem_entry(r.id), Err(ManagerError::UnknownId(Id(0)))));
    assert!(matches!(reg.remove(r.id), Err(ManagerError::UnknownId(_))));
    assert!(reg.check_new_locator(&Ram::build_url("x")).is_ok());
}

#[test]
fn clear_forgets_every_registration() {
    let mut reg = Registry::new();
    reg.record(&Ram::build_url("x"), SegmentId(0), 0);
    reg.record(&Ram::build_url("y"), SegmentId(0), 1);
    reg.clear();
    assert!(reg.entries().is_empty());
    assert!(!reg.contains_locator("ram://y"));
}

#[test]
fn default_segment_is_created_once_per_kind() {
    let mut reg = Registry::new();
    assert!(matches!(reg.default_segment_for("ftp", 7), Err(ManagerError::UnsupportedScheme(s)) if s == "ftp"));
    assert_eq!(reg.default_segment_for("ram", 7).unwrap(), DefaultSegment::Create(Kind::Ram));
    let id = reg.alloc_segment_id();
    assert_eq!(id, SegmentId(0));
    reg.note_default_segment(Locator::default_for_kind(Kind::Ram, 7).as_str(), id);
    assert_eq!(reg.default_segment_for("ram", 7).unwrap(), DefaultSegment::Existing(id));
    let later = reg.alloc_segment_id();
    reg.note_default_segment(Locator::default_for_kind(Kind::Ram, 7).as_str(), later);
    assert_eq!(reg.default_segment_for("ram", 7).unwrap(), DefaultSegment::Existing(id));
    assert_eq!(reg.default_segment_for("shm", 7).unwrap(), DefaultSegment::Create(Kind::Shm));
}

#[test]
fn segment_base_is_found_from_any_of_its_slabs() {
    let mut reg = Registry::new();
    let base: Locator = Ram::build_url("seg-core").into();
    let key = base.base_key();
    assert_eq!(key, "seg-core");
    assert!(reg.check_new_base(&key).is_ok());
    reg.insert_base(&key, SegmentId(4));
    assert!(matches!(reg.check_new_base(&key), Err(ManagerError::DuplicateSegment(_))));
    assert_eq!(reg.segment_id_for_base("ram://seg-core").unwrap(), SegmentId(4));
    assert_eq!(reg.segment_id_for_base(base.extension(2).as_str()).unwrap(), SegmentId(4));
    assert!(matches!(
        reg.segment_id_for_base("ram://other-1"),
        Err(ManagerError::UnknownSegmentBase(k)) if k == "other"
    ));
}

#[test]
fn locator_resolves_to_its_registered_id() {
    let mut reg = Registry::new();
    let r = reg.record(&Ram::build_url("res"), SegmentId(2), 0);
    let loc: Locator = Ram::build_url("res").into();
    assert_eq!(loc.resolve_id(&reg).unwrap(), r.id);
    let other: Locator = Ram::build_url("nope").into();
    match other.resolve_id(&reg) {
        Err(ManagerError::UnknownLocator(k)) => assert_eq!(k, "ram://nope"),
        res => panic!("unexpected {:?}", res),
    }
}

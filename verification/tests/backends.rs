use cruspy::backend::ram::{Ram, RamError};
use cruspy::io::{HasAccess, HasInfo, HasMapping, HasResize, Kind, OpenMode};
use cruspy::url::Url;

#[test]
fn create_from_scheme_ram() {
    let slab = Kind::create_from_scheme("ram").unwrap();
    assert_eq!(slab.kind(), Kind::Ram);
}

#[test]
fn create_from_scheme_rejects_unknown() {
    assert!(Kind::create_from_scheme("ftp").is_err());
}

#[test]
fn resize_grows_and_shrinks_buf() {
    let mut ram = Ram::create(&Ram::build_url("heap"), Some(4096)).unwrap();
    HasResize::resize(&mut ram, 8192).unwrap();
    assert_eq!(HasInfo::info(&ram).capacity, 8192);
    assert_eq!(HasMapping::bytes(&ram).len(), 8192);
    HasResize::resize(&mut ram, 2048).unwrap();
    assert_eq!(HasMapping::bytes(&ram).len(), 2048);
}

#[test]
fn rejects_bad_url() {
    let url = Url::builder().scheme("shm").host("x").build();
    assert!(matches!(Ram::create(&url, Some(1024)), Err(RamError::WrongScheme)));
}

#[test]
fn create_from_url_opens() {
    let url = Ram::build_url("heap");
    let mut slab = Kind::create_from_url(&url).unwrap();
    assert_eq!(slab.kind(), Kind::Ram);
    slab.open(&url, OpenMode::Create, Some(4096)).unwrap();
    assert_eq!(slab.info().capacity, 4096);
}

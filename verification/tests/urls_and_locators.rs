use cruspy::backend::{File, Ram, Shm};
use cruspy::io::Kind;
use cruspy::manager::error::ensure_url_matches;
use cruspy::manager::{Locator, ManagerError};
use cruspy::url::{Url, UrlError};

#[test]
fn url_parts() {
    let u = Url::parse("ram://heap/sub/part").unwrap();
    assert_eq!(u.scheme(), "ram");
    assert_eq!(u.host(), "heap");
    assert_eq!(u.path(), "/sub/part");
    let f = Url::parse("file:///tmp/a.slab").unwrap();
    assert!(f.is_file());
    assert_eq!(f.host(), "");
    assert_eq!(f.path(), "/tmp/a.slab");
    assert!(matches!(Url::parse("no scheme here"), Err(UrlError::MissingScheme)));
    let b = Url::builder().scheme("shm").host("x").path("/p").build();
    assert_eq!(b.as_str(), "shm://x/p");
}

#[test]
fn kind_scheme_roundtrip() {
    for k in Kind::ALL {
        assert_eq!(Kind::from_scheme(k.scheme()), Some(k));
    }
    assert_eq!(Kind::from_scheme("ftp"), None);
    let m = Kind::Shm.compare_url(&Ram::build_url("x")).unwrap_err();
    assert_eq!(m.message(), "url scheme ram does not match storage kind shm");
    assert!(Kind::Ram.ensure_url(&Ram::build_url("x")).is_ok());
    assert!(matches!(
        ensure_url_matches(&Ram::build_url("w"), Kind::Shm),
        Err(ManagerError::SchemeMismatch { url_scheme, kind: Kind::Shm }) if url_scheme == "ram"
    ));
}

#[test]
fn extension_index_roundtrip() {
    let base: Locator = Ram::build_url("my-app").into();
    for n in [0u16, 1, 9, 10, 65535] {
        let ext = base.extension(n);
        assert_eq!(ext.extension_index(), Some(n));
        assert!(!ext.is_segment_base());
        assert_eq!(ext.base_key(), base.base_key());
        assert_eq!(ext.extension(3).as_str(), base.extension(3).as_str());
    }
    let shm: Locator = Shm::build_url("core.slab").into();
    assert_eq!(shm.extension(7).extension_index(), Some(7));
}

#[test]
fn suffix_must_be_a_u16_in_digits() {
    let l: Locator = Url::parse("ram://a-00012").unwrap().into();
    assert_eq!(l.extension_index(), Some(12));
    let big: Locator = Url::parse("ram://a-65536").unwrap().into();
    assert_eq!(big.extension_index(), None);
    assert!(big.is_segment_base());
    let word: Locator = Url::parse("ram://a-b").unwrap().into();
    assert_eq!(word.extension_index(), None);
    let empty: Locator = Url::parse("ram://a-").unwrap().into();
    assert_eq!(empty.extension_index(), None);
    assert_eq!(Locator::segment_base_key("not a url"), "not a url");
}

#[test]
fn file_extension_index() {
    let base: Locator = File::build_url("/tmp/my-seg.slab").into();
    assert_eq!(base.extension(2).extension_index(), Some(2));
    assert_eq!(base.extension(2).base_key(), "/tmp/my-seg.slab");
    let plain: Locator = File::build_url("/tmp/seg-4").into();
    assert_eq!(plain.extension_index(), Some(4));
    assert_eq!(plain.extension(1).as_str(), "file:///tmp/seg-1");
}

#[test]
fn default_locators() {
    assert_eq!(Locator::default_for_kind(Kind::Ram, 42).as_str(), "ram://cruspy-42-default");
    assert_eq!(Locator::default_for_kind(Kind::Shm, 42).as_str(), "shm://cruspy-42-default.slab");
    assert_eq!(Locator::default_for_kind(Kind::File, 42).as_str(), "file:///tmp/cruspy-42-default.slab");
    assert_eq!(Locator::default_for_scheme("shm", 1).unwrap().scheme(), "shm");
    assert!(Locator::default_for_scheme("ftp", 1).is_none());
}

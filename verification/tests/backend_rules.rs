use cruspy::backend::ram::RamError;
use cruspy::backend::{Ram, Slab};
use cruspy::io::{HasAccess, HasArenaClaim, HasInfo, HasMapping, HasResize, Kind, OpenMode, SlabError, State};
use cruspy::url::Url;

#[test]
fn open_refusals_in_order() {
    let no_host = Url::parse("ram://").unwrap();
    assert!(matches!(Ram::create(&no_host, Some(16)), Err(RamError::HostRequired)));
    let url = Ram::build_url("h");
    assert!(matches!(Ram::open(&url, OpenMode::Unset, Some(16)), Err(RamError::ModeRequired)));
    assert!(matches!(Ram::create(&url, Some(0)), Err(RamError::CapacityRequired)));
    assert!(matches!(Ram::attach(&url, None), Err(RamError::CapacityRequired)));
}

#[test]
fn opened_ram_is_zeroed_and_open() {
    let ram = Ram::attach(&Ram::build_url("z"), Some(32)).unwrap();
    assert_eq!(ram.bytes(), &[0u8; 32][..]);
    assert_eq!(ram.info().state, State::Open);
    assert_eq!(ram.info().open_mode, OpenMode::Attach);
    assert_eq!(ram.info().url.as_str(), "ram://z");
    assert!(!ram.arena_claimed());
}

#[test]
fn resize_keeps_prefix_and_zero_fills() {
    let mut ram = Ram::create(&Ram::build_url("r"), Some(4)).unwrap();
    ram.bytes_mut().copy_from_slice(&[1, 2, 3, 4]);
    ram.resize(6).unwrap();
    assert_eq!(ram.bytes(), &[1, 2, 3, 4, 0, 0][..]);
    ram.resize(2).unwrap();
    assert_eq!(ram.bytes(), &[1, 2][..]);
    assert!(matches!(ram.resize(0), Err(RamError::CapacityRequired)));
}

#[test]
fn resize_refused_when_claimed_or_closed() {
    let mut ram = Ram::create(&Ram::build_url("c"), Some(8)).unwrap();
    ram.set_arena_claimed(true);
    assert!(matches!(ram.resize(16), Err(RamError::ArenaClaimed)));
    ram.close().unwrap();
    assert!(!ram.arena_claimed());
    assert_eq!(ram.info().state, State::Closed);
    assert!(ram.bytes().is_empty());
    assert!(matches!(ram.resize(16), Err(RamError::NotOpen)));
    assert!(ram.unlink().is_ok());
}

#[test]
fn factory_kinds_and_messages() {
    for k in Kind::ALL {
        assert_eq!(k.create().kind(), k);
    }
    assert!(matches!(Kind::create_from_url(&Ram::build_url("a")), Ok(Slab::Ram(_))));
    let e = Kind::create_from_scheme("ftp").err().unwrap();
    assert_eq!(e.message(), "unsupported url scheme: ftp");
    assert_eq!(SlabError::Ram(RamError::NotOpen).message(), "ram backend is not open");
    assert_eq!(RamError::WrongScheme.message(), "url scheme must be ram");
    let ram = Ram::new();
    assert_eq!(ram.info().url.as_str(), "ram://_");
    assert_eq!(ram.info().state, State::Unopened);
}

#[test]
fn factory_backends_are_fresh_and_unopened() {
    let placeholder = ["ram://_", "shm://_", "file://_"];
    for (k, url) in Kind::ALL.into_iter().zip(placeholder) {
        let b = k.create();
        let i = b.info();
        assert_eq!(i.url.as_str(), url);
        assert_eq!(i.capacity, 0);
        assert_eq!(i.open_mode, OpenMode::Unset);
        assert_eq!(i.state, State::Unopened);
        assert!(b.bytes().is_empty());
    }
    let from_url = Kind::create_from_url(&Ram::build_url("x")).ok().unwrap();
    let from_scheme = Kind::create_from_scheme("ram").ok().unwrap();
    assert_eq!(from_url.kind(), from_scheme.kind());
    assert_eq!(from_url.info().url.as_str(), from_scheme.info().url.as_str());
    assert_eq!(from_url.info().state, State::Unopened);
}

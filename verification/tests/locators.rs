use cruspy::backend::{File, Ram, Shm};
use cruspy::manager::Locator;
use cruspy::paths::{path_extension, path_file_name, path_file_stem, path_join, path_parent};

#[test]
fn ram_primary_and_extensions() {
    let base: Locator = Ram::build_url("my-app").into();
    assert!(base.is_segment_base());
    assert_eq!(base.extension(0).as_str(), "ram://my-app-0");
    assert_eq!(base.extension(1).as_str(), "ram://my-app-1");
    assert_eq!(Locator::segment_base_key("ram://my-app-0"), "my-app");
}

#[test]
fn shm_primary_and_extensions() {
    let base: Locator = Shm::build_url("core.slab").into();
    assert_eq!(base.extension(0).as_str(), "shm://core.slab-0");
    assert_eq!(Locator::segment_base_key("shm://core.slab-1"), "core.slab");
}

#[test]
fn file_primary_and_extensions() {
    let base: Locator = File::build_url("/tmp/my-seg.slab").into();
    assert!(base.is_segment_base());
    assert_eq!(base.extension(0).as_str(), "file:///tmp/my-seg-0.slab");
    assert_eq!(base.extension(1).as_str(), "file:///tmp/my-seg-1.slab");
    assert_eq!(Locator::segment_base_key("file:///tmp/my-seg-0.slab"), "/tmp/my-seg.slab");
}

#[test]
fn file_names_split_at_their_last_dot() {
    assert_eq!(path_file_stem("/tmp/seg.tar.gz").as_deref(), Some("seg.tar"));
    assert_eq!(path_extension("/tmp/seg.tar.gz").as_deref(), Some("gz"));
    assert_eq!(path_file_stem("/tmp/.hidden").as_deref(), Some(".hidden"));
    assert_eq!(path_extension("/tmp/.hidden"), None);
    assert_eq!(path_file_stem("/tmp/plain").as_deref(), Some("plain"));
    assert_eq!(path_extension("/tmp/plain"), None);
    assert_eq!(path_file_stem("/tmp/trailing.").as_deref(), Some("trailing"));
    assert_eq!(path_extension("/tmp/trailing.").as_deref(), Some(""));
    assert_eq!(path_file_stem("/"), None);
    assert_eq!(path_extension("/"), None);
}

#[test]
fn file_extension_keeps_base_key_scheme_and_number() {
    for path in ["/tmp/seg.slab", "/seg", "/var/lib/a.b-7.dat", "/tmp/x-1-2"] {
        let l: Locator = File::build_url(path).into();
        for n in [0u16, 3, 65535] {
            let e = l.extension(n);
            assert_eq!(e.base_key(), l.base_key());
            assert_eq!(e.extension_index(), Some(n));
            assert_eq!(e.scheme(), l.scheme());
            assert_eq!(e.extension(1).as_str(), l.extension(1).as_str());
        }
    }
    let l: Locator = File::build_url("/var/lib/a.b-7.dat").into();
    assert_eq!(l.base_key(), "/var/lib/a.b.dat");
    assert_eq!(l.extension(4).as_str(), "file:///var/lib/a.b-4.dat");
}

#[test]
fn paths_read_their_last_plain_component() {
    assert_eq!(path_file_name("/tmp/a.slab").as_deref(), Some("a.slab"));
    assert_eq!(path_file_name("plain").as_deref(), Some("plain"));
    assert_eq!(path_parent("/tmp/a.slab").as_deref(), Some("/tmp"));
    assert_eq!(path_parent("/a.slab").as_deref(), Some("/"));
    assert_eq!(path_parent("plain").as_deref(), Some(""));
    assert_eq!(path_parent("/"), None);
    assert_eq!(path_join("/tmp", "x"), "/tmp/x");
    assert_eq!(path_join("/", "x"), "/x");
    assert_eq!(path_join("", "x"), "x");
    assert_eq!(path_join("/tmp", "/etc"), "/etc");
}

use cruspy::chars::snake_case;
use cruspy::defaults::MIN_SLAB_CAPACITY;
use cruspy::diagnostics::{classify_message, contains, ErrorClass};
use cruspy::ids::{Id, SegmentId};
use cruspy::io::{Kind, SlabError};
use cruspy::backend::ram::RamError;
use cruspy::manager::error::{map_open_err, map_slab_err, map_teardown_err};
use cruspy::manager::usage::{slab_totals, sort_by_id, talc_totals, TalcTotals, Usage};
use cruspy::manager::{Locator, ManagerError};
use cruspy::backend::Ram;
use cruspy::slab::error::{SegmentError, SegmentOpenError, SegmentTeardownError};
use cruspy::slab::header::{read_header, write_header, Header, FLAG_MOUNTED, HEADER_LEN};
use cruspy::slab::register::{check_attached, check_slab, locate, set_extension_count};

#[test]
fn slab_size_checks() {
    assert_eq!(
        check_slab(Kind::Ram, Kind::Ram, "ram", MIN_SLAB_CAPACITY, MIN_SLAB_CAPACITY).unwrap(),
        (MIN_SLAB_CAPACITY - HEADER_LEN) as u32
    );
    assert!(matches!(
        check_slab(Kind::Ram, Kind::Ram, "ram", 4096, 4096),
        Err(SegmentError::CapacityRequired)
    ));
    assert!(matches!(
        check_slab(Kind::Ram, Kind::Ram, "ram", MIN_SLAB_CAPACITY, MIN_SLAB_CAPACITY - 1),
        Err(SegmentError::CapacityRequired)
    ));
    assert!(matches!(
        check_slab(Kind::Shm, Kind::Ram, "ram", MIN_SLAB_CAPACITY, MIN_SLAB_CAPACITY),
        Err(SegmentError::UnsupportedScheme(s)) if s == "ram"
    ));
}

#[test]
fn attached_slab_checks() {
    let uuid = *b"0123456789abcdef";
    let capacity = HEADER_LEN + 1024;
    let mut bytes = vec![0u8; capacity];
    assert!(matches!(check_attached(&bytes, capacity, uuid), Err(SegmentError::BadHeader)));
    write_header(&mut bytes, Header::new_extension(1024, uuid, 1, FLAG_MOUNTED));
    let h = check_attached(&bytes, capacity, uuid).unwrap();
    assert_eq!(h.slab_index, 1);
    assert!(matches!(
        check_attached(&bytes, capacity, *b"fedcba9876543210"),
        Err(SegmentError::SegmentUuidMismatch)
    ));
    write_header(&mut bytes, Header::new_extension(1024, uuid, 1, 0));
    assert!(matches!(check_attached(&bytes, capacity, uuid), Err(SegmentError::NotMounted)));
    assert!(set_extension_count(&mut bytes, 5));
    assert_eq!(read_header(&bytes).unwrap().extension_count, 5);
    let mut short = vec![0u8; 10];
    assert!(!set_extension_count(&mut short, 5));
    assert_eq!(short, vec![0u8; 10]);
}

#[test]
fn locate_finds_first_match() {
    let urls = ["ram://a", "ram://b", "ram://b"];
    assert_eq!(locate(&urls, "ram://b"), Some(1));
    assert_eq!(locate(&urls, "ram://c"), None);
}

#[test]
fn native_messages_are_classified() {
    assert!(contains("abc", "bc"));
    assert!(!contains("abc", "cd"));
    assert!(contains("abc", ""));
    assert_eq!(classify_message("ValidationError: id"), ErrorClass::Value);
    assert_eq!(classify_message("score must be <= 1"), ErrorClass::Value);
    assert_eq!(classify_message("ShmError: map failed"), ErrorClass::Os);
    assert_eq!(classify_message("SchemaConflictError: hash"), ErrorClass::SchemaConflict);
    assert_eq!(classify_message("boom"), ErrorClass::Runtime);
    assert_eq!(classify_message("ShmError: value must be set"), ErrorClass::Value);
}

#[test]
fn usage_rows_sorted_and_summed() {
    let row = |id: u64, raw: usize, arena: usize| {
        let l: Locator = Ram::build_url("u").into();
        Usage::of(Id(id), SegmentId(0), l, raw, arena)
    };
    let sorted = sort_by_id(vec![row(3, 10, 4), row(1, 8, 8), row(2, 2, 5)]);
    let ids: Vec<u64> = sorted.iter().map(|u| u.id.0).collect();
    assert_eq!(ids, vec![1, 2, 3]);
    assert_eq!(sorted[0].scheme, "ram");
    assert_eq!(sorted[1].header_len, 0);
    let t = slab_totals(&sorted).unwrap();
    assert_eq!(t.slab_count, 3);
    assert_eq!(t.total_raw_len, 20);
    assert_eq!(t.total_arena_len, 17);
    assert_eq!(t.total_header_len, 6);
    assert!(slab_totals(&[row(1, usize::MAX, 0), row(2, 1, 0)]).is_none());
}

#[test]
fn segment_errors_map_into_registry_errors() {
    let e = map_open_err(Kind::Ram, SegmentOpenError::Layout(SegmentError::CapacityRequired));
    assert!(matches!(e, ManagerError::Layout { scheme, detail } if scheme == "ram" && detail.contains("capacity required")));
    let e = map_open_err(Kind::Shm, SegmentOpenError::Backend(SlabError::Os("denied".to_string())));
    assert!(matches!(e, ManagerError::Backend { scheme, message } if scheme == "shm" && message == "denied"));
    let e = map_open_err(Kind::Ram, SegmentOpenError::UnsupportedScheme("ftp".to_string()));
    assert!(matches!(e, ManagerError::UnsupportedScheme(s) if s == "ftp"));
    assert!(matches!(map_teardown_err(Kind::Ram, SegmentTeardownError::BadIndex), ManagerError::SlabNotInSegment));
    let e = map_slab_err(Kind::File, SlabError::Ram(RamError::NotOpen));
    assert!(matches!(e, ManagerError::Backend { scheme, message } if scheme == "file" && message == "ram backend is not open"));
    assert_eq!(
        SegmentOpenError::Layout(SegmentError::UnsupportedScheme("x".to_string())).describe(),
        "segment layout: unsupported url scheme: x"
    );
    assert_eq!(
        SegmentTeardownError::Backend(SlabError::Ram(RamError::NotOpen)).describe(),
        "backend teardown: ram backend is not open"
    );
}

#[test]
fn snake_case_names() {
    assert_eq!(snake_case("FlexString"), "flex_string");
    assert_eq!(snake_case("MetaTypeCatalog"), "meta_type_catalog");
    assert_eq!(snake_case("A"), "a");
    assert_eq!(snake_case("already_snake"), "already_snake");
    assert_eq!(snake_case("ÀB"), "À_b");
    assert_eq!(snake_case(""), "");
}

#[test]
fn talc_counters_sum_field_by_field() {
    let a = TalcTotals {
        allocation_count: 2,
        total_allocation_count: 5,
        allocated_bytes: 100,
        total_allocated_bytes: 300,
        available_bytes: 900,
        fragment_count: 1,
        heap_count: 1,
        total_heap_count: 1,
        claimed_bytes: 1000,
        total_claimed_bytes: 1000,
    };
    let b = TalcTotals { allocation_count: 3, allocated_bytes: 50, claimed_bytes: 24, ..a };
    let t = talc_totals(&[a, b]).unwrap();
    assert_eq!(t.allocation_count, 5);
    assert_eq!(t.total_allocation_count, 10);
    assert_eq!(t.allocated_bytes, 150);
    assert_eq!(t.total_allocated_bytes, 600);
    assert_eq!(t.available_bytes, 1800);
    assert_eq!(t.fragment_count, 2);
    assert_eq!(t.heap_count, 2);
    assert_eq!(t.total_heap_count, 2);
    assert_eq!(t.claimed_bytes, 1024);
    assert_eq!(t.total_claimed_bytes, 2000);
    assert_eq!(talc_totals(&[]), Some(TalcTotals::default()));
    let big = TalcTotals { available_bytes: usize::MAX, ..a };
    assert_eq!(talc_totals(&[big, a]), None);
}

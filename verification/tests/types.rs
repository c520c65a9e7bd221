use cruspy::ids::{Id, SegmentId};
use cruspy::tags::{fourcc, fourcc_bytes, fourcc_text, COBJ, CRUS, CTLG, MTYP, OBJH, STRS};
use cruspy::types::flex_string::FlexString;
use cruspy::types::handle::TypeHandle;
use cruspy::types::metatype::{HasMetaType, MetaType, MetaTypeHeader, META_TYPE_HEADER_LEN};
use cruspy::types::object::MemoryObject;
use cruspy::types::object_header::{ObjectHeader, OBJECT_HEADER_LEN};

#[test]
fn has_meta_type_constants() {
    let mt = MetaType::from_type::<FlexString>();
    assert_eq!(mt.type_uuid, FlexString::TYPE_UUID);
    assert_eq!(mt.name, FlexString::TYPE_NAME);
    assert_eq!(mt.type_schema_version, FlexString::TYPE_SCHEMA_VERSION);
}

#[test]
fn roundtrip_string_in_arena() {
    let mut arena = vec![0u8; 256];
    let obj = MemoryObject::new(Id(1), SegmentId(2));
    let h = TypeHandle::new(obj, 0, 32, FlexString::required_len(64));
    let s = FlexString::new(h);
    s.init_in(&mut arena, 64).unwrap();
    s.set(&mut arena, "hello slabs").unwrap();
    assert_eq!(s.get(&arena).unwrap(), "hello slabs");
}

#[test]
fn metatype_header_roundtrip() {
    let mt = MetaType::new("cruspy.types.FlexString", *b"0123456789ABCDEF", 3);
    let h = mt.to_header();
    let mut buf = [0u8; META_TYPE_HEADER_LEN];
    h.encode_into(&mut buf).unwrap();
    let decoded = MetaTypeHeader::decode_from(&buf).unwrap();
    assert_eq!(decoded, h);
    assert_eq!(decoded.type_uuid, mt.type_uuid);
}

#[test]
fn object_header_roundtrip() {
    let h = ObjectHeader::new(1, 7, 4096);
    let mut buf = [0u8; OBJECT_HEADER_LEN];
    h.encode_into(&mut buf).unwrap();
    let decoded = ObjectHeader::decode_from(&buf).unwrap();
    assert_eq!(decoded, h);
}

#[test]
fn tags_match_legacy_hex() {
    assert_eq!(CRUS, 0x4352_5553);
    assert_eq!(CTLG, 0x4354_4C47);
    assert_eq!(COBJ, 0x434F_424A);
    assert_eq!(MTYP, 0x4D54_5950);
    assert_eq!(STRS, 0x5354_5253);
    assert_eq!(OBJH, 0x4F42_4A48);
}

#[test]
fn fourcc_packs_and_unpacks() {
    assert_eq!(fourcc(b"CRUS"), CRUS);
    assert_eq!(fourcc(b"OBJH"), OBJH);
    assert_eq!(fourcc_bytes(CTLG), *b"CTLG");
    assert_eq!(fourcc_bytes(0x0102_0304), [1, 2, 3, 4]);
    assert_eq!(fourcc_text(COBJ).unwrap(), "COBJ");
    assert!(fourcc_text(0x4352_5501).is_none());
}

use diagram_store::codec::{decode_document, decode_snapshot, encode_document, encode_snapshot};
use diagram_store::error::StoreError;
use diagram_store::model::{
    ClassDef, Document, Field, Multiplicity, Operation, RelationEdge, RelationKind, Visibility,
};

fn sample_field(name: &str, ty: &str, vis: Option<Visibility>, is_static: Option<bool>) -> Field {
    Field {
        name: name.to_string(),
        field_type: ty.to_string(),
        visibility: vis,
        is_static,
    }
}

fn sample_document(id: &str) -> Document {
    Document {
        id: id.to_string(),
        name: "Demo".to_string(),
        created_at: 1_700_000_000,
        last_modified: -42,
        classes: vec![
            ClassDef {
                id: "c1".to_string(),
                name: "Foo".to_string(),
                attributes: vec![
                    sample_field("x", "int", Some(Visibility::Private), None),
                    sample_field("y", "String", None, Some(true)),
                ],
                methods: vec![Operation {
                    name: "run".to_string(),
                    return_type: "void".to_string(),
                    visibility: Visibility::Public,
                    is_abstract: Some(false),
                    is_static: None,
                    parameters: vec![sample_field("n", "long", Some(Visibility::NonModifier), Some(false))],
                }],
                relations: Some(vec![RelationEdge {
                    target_class_id: "c2".to_string(),
                    relation: RelationKind::Composition,
                    multiplicity_p: Some(Multiplicity { lower: 0, upper: Some(1) }),
                    multiplicity_c: Some(Multiplicity { lower: 1, upper: None }),
                    role_name_p: Some("owner".to_string()),
                    role_name_c: None,
                }]),
            },
            ClassDef {
                id: "c2".to_string(),
                name: "Bar".to_string(),
                attributes: vec![],
                methods: vec![],
                relations: None,
            },
        ],
    }
}

#[test]
fn document_payload_round_trip() {
    let d = sample_document("f1");
    let bytes = encode_document(&d).unwrap();
    let back = decode_document(&bytes).unwrap();
    assert_eq!(back, d);
}

#[test]
fn unicode_strings_round_trip() {
    let mut d = sample_document("f\u{00e9}\u{6f22}\u{1f600}");
    d.name = "sch\u{00f6}n v\u{00ed}z".to_string();
    let bytes = encode_document(&d).unwrap();
    let back = decode_document(&bytes).unwrap();
    assert_eq!(back, d);
}

#[test]
fn negative_timestamps_round_trip() {
    let mut d = sample_document("t");
    d.created_at = i64::MIN;
    d.last_modified = i64::MAX;
    let bytes = encode_document(&d).unwrap();
    let back = decode_document(&bytes).unwrap();
    assert_eq!(back.created_at, i64::MIN);
    assert_eq!(back.last_modified, i64::MAX);
}

#[test]
fn document_payload_rejects_trailing_bytes() {
    let d = sample_document("f1");
    let mut bytes = encode_document(&d).unwrap();
    bytes.push(0);
    assert_eq!(decode_document(&bytes).unwrap_err(), StoreError::CorruptSnapshot);
}

#[test]
fn truncated_payload_is_corrupt() {
    let d = sample_document("f1");
    let mut bytes = encode_document(&d).unwrap();
    bytes.truncate(bytes.len() - 1);
    assert_eq!(decode_document(&bytes).unwrap_err(), StoreError::CorruptSnapshot);
}

#[test]
fn snapshot_round_trip() {
    let entries = vec![
        ("a".to_string(), sample_document("a")),
        ("b".to_string(), sample_document("b")),
    ];
    let bytes = encode_snapshot(&entries).unwrap();
    let back = decode_snapshot(&bytes).unwrap();
    assert_eq!(back, entries);
}

#[test]
fn empty_snapshot_decodes_to_empty_store() {
    let bytes: Vec<u8> = Vec::new();
    let back = decode_snapshot(&bytes).unwrap();
    assert!(back.is_empty());
}

#[test]
fn snapshot_with_bad_count_is_corrupt() {
    // claims one entry, holds none
    let bytes: Vec<u8> = vec![0, 0, 0, 1];
    assert_eq!(decode_snapshot(&bytes).unwrap_err(), StoreError::CorruptSnapshot);
}

#[test]
fn snapshot_length_field_past_end_is_corrupt() {
    let entries = vec![("a".to_string(), sample_document("a"))];
    let mut bytes = encode_snapshot(&entries).unwrap();
    // corrupt the key length field to claim more bytes than remain
    bytes[4] = 0xFF;
    assert_eq!(decode_snapshot(&bytes).unwrap_err(), StoreError::CorruptSnapshot);
}

#[test]
fn invalid_utf8_id_is_corrupt() {
    // count 1, key_len 2, invalid UTF-8 key bytes
    let bytes: Vec<u8> = vec![0, 0, 0, 1, 0, 0, 0, 2, 0xFF, 0xFE];
    assert_eq!(decode_snapshot(&bytes).unwrap_err(), StoreError::CorruptSnapshot);
}

#[test]
fn snapshot_layout_is_big_endian_with_length_prefixes() {
    let entries = vec![("ab".to_string(), sample_document("ab"))];
    let bytes = encode_snapshot(&entries).unwrap();
    // entry count
    assert_eq!(&bytes[0..4], &[0, 0, 0, 1]);
    // key length, then the UTF-8 key
    assert_eq!(&bytes[4..8], &[0, 0, 0, 2]);
    assert_eq!(&bytes[8..10], b"ab");
    // payload length matches the rest
    let plen = u32::from_be_bytes([bytes[10], bytes[11], bytes[12], bytes[13]]) as usize;
    assert_eq!(bytes.len(), 14 + plen);
}

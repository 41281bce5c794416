use diagram_store::error::StoreError;
use diagram_store::model::{ClassDef, Document, Field, Visibility};
use diagram_store::service::DiagramServiceImpl;

fn doc(id: &str, name: &str) -> Document {
    Document {
        id: id.to_string(),
        name: name.to_string(),
        created_at: 1,
        last_modified: 2,
        classes: vec![],
    }
}

#[test]
fn save_and_get_returns_equal_document() {
    let mut svc = DiagramServiceImpl::new();
    let d = doc("f1", "Demo");
    let r = svc.save_class_diagram(d.clone());
    assert!(r.value);
    assert_eq!(r.message.unwrap(), "Class diagram saved successfully");
    let got = svc.get_class_diagram(&"f1".to_string()).unwrap();
    assert_eq!(got, d);
}

#[test]
fn save_without_id_is_rejected() {
    let mut svc = DiagramServiceImpl::new();
    let r = svc.save_class_diagram(doc("", "NoId"));
    assert!(!r.value);
    assert_eq!(r.message.unwrap(), "document id is required");
    assert_eq!(svc.len(), 0);
}

#[test]
fn get_absent_is_not_found() {
    let svc = DiagramServiceImpl::new();
    let e = svc.get_class_diagram(&"missing".to_string()).unwrap_err();
    assert_eq!(e, StoreError::NotFound);
}

#[test]
fn exists_reports_presence_without_error() {
    let mut svc = DiagramServiceImpl::new();
    let r = svc.is_existing_class_diagram(&"f1".to_string());
    assert!(!r.value);
    assert_eq!(r.message.unwrap(), "File does not exist");
    svc.save_class_diagram(doc("f1", "Demo"));
    let r = svc.is_existing_class_diagram(&"f1".to_string());
    assert!(r.value);
    assert_eq!(r.message.unwrap(), "File exists");
}

#[test]
fn delete_absent_twice_reports_not_removed_both_times() {
    let mut svc = DiagramServiceImpl::new();
    let r1 = svc.delete_class_diagram(&"ghost".to_string());
    assert!(!r1.value);
    assert_eq!(r1.message.unwrap(), "File not found");
    let r2 = svc.delete_class_diagram(&"ghost".to_string());
    assert!(!r2.value);
    assert_eq!(r2.message.unwrap(), "File not found");
}

#[test]
fn save_overwrites_whole_document() {
    let mut svc = DiagramServiceImpl::new();
    let mut d1 = doc("same", "First");
    d1.classes = vec![ClassDef {
        id: "c1".to_string(),
        name: "Old".to_string(),
        attributes: vec![Field {
            name: "x".to_string(),
            field_type: "int".to_string(),
            visibility: Some(Visibility::Private),
            is_static: None,
        }],
        methods: vec![],
        relations: None,
    }];
    let d2 = doc("same", "Second");
    svc.save_class_diagram(d1);
    svc.save_class_diagram(d2.clone());
    let got = svc.get_class_diagram(&"same".to_string()).unwrap();
    assert_eq!(got, d2);
    assert!(got.classes.is_empty());
}

#[test]
fn crash_recovery_restores_every_document() {
    let mut svc = DiagramServiceImpl::new();
    let a = doc("a", "Alpha");
    let b = doc("b", "Beta");
    svc.save_class_diagram(a.clone());
    svc.save_class_diagram(b.clone());
    let blob = svc.snapshot_bytes().unwrap();

    let mut fresh = DiagramServiceImpl::new();
    let n = fresh.load_snapshot_bytes(&blob).unwrap();
    assert_eq!(n, 2);
    assert_eq!(fresh.len(), 2);
    assert_eq!(fresh.get_class_diagram(&"a".to_string()).unwrap(), a);
    assert_eq!(fresh.get_class_diagram(&"b".to_string()).unwrap(), b);
}

#[test]
fn snapshot_after_saves_and_deletes_holds_exactly_current_ids() {
    let mut svc = DiagramServiceImpl::new();
    svc.save_class_diagram(doc("a", "A"));
    svc.save_class_diagram(doc("b", "B"));
    svc.save_class_diagram(doc("c", "C"));
    svc.delete_class_diagram(&"b".to_string());
    let blob = svc.snapshot_bytes().unwrap();
    let mut fresh = DiagramServiceImpl::new();
    fresh.load_snapshot_bytes(&blob).unwrap();
    assert_eq!(fresh.len(), 2);
    assert!(fresh.is_existing_class_diagram(&"a".to_string()).value);
    assert!(!fresh.is_existing_class_diagram(&"b".to_string()).value);
    assert!(fresh.is_existing_class_diagram(&"c".to_string()).value);
}

#[test]
fn many_saves_on_distinct_ids_snapshot_exactly_that_many() {
    let mut svc = DiagramServiceImpl::new();
    for i in 0..16 {
        let id = format!("doc-{}", i);
        let r = svc.save_class_diagram(doc(&id, "N"));
        assert!(r.value);
    }
    let blob = svc.snapshot_bytes().unwrap();
    let mut fresh = DiagramServiceImpl::new();
    let n = fresh.load_snapshot_bytes(&blob).unwrap();
    assert_eq!(n, 16);
    assert_eq!(fresh.len(), 16);
    for i in 0..16 {
        let id = format!("doc-{}", i);
        assert!(fresh.is_existing_class_diagram(&id).value);
    }
}

#[test]
fn corrupt_snapshot_load_fails_and_leaves_store_alone() {
    let mut svc = DiagramServiceImpl::new();
    svc.save_class_diagram(doc("keep", "Kept"));
    let garbage: Vec<u8> = vec![1, 2, 3];
    let e = svc.load_snapshot_bytes(&garbage).unwrap_err();
    assert_eq!(e, StoreError::CorruptSnapshot);
    assert_eq!(svc.len(), 1);
}

#[test]
fn export_entries_emit_one_payload_per_document() {
    let mut svc = DiagramServiceImpl::new();
    let a = doc("a", "Alpha");
    svc.save_class_diagram(a.clone());
    let entries = svc.export_entries().unwrap();
    assert_eq!(entries.len(), 1);
    assert_eq!(entries[0].0, "a");
    let back = diagram_store::codec::decode_document(&entries[0].1).unwrap();
    assert_eq!(back, a);
}

#[test]
fn default_persistence_dir_is_data() {
    let svc = DiagramServiceImpl::new();
    assert_eq!(svc.persistence_dir(), "data");
}

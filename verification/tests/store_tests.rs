use diagram_store::error::StoreError;
use diagram_store::model::Document;
use diagram_store::store::Store;

fn doc(id: &str) -> Document {
    Document {
        id: id.to_string(),
        name: "n".to_string(),
        created_at: 0,
        last_modified: 0,
        classes: vec![],
    }
}

#[test]
fn save_with_empty_id_is_invalid_argument() {
    let mut store = Store::new();
    let e = store.save(doc("")).unwrap_err();
    assert_eq!(e, StoreError::InvalidArgument);
    assert_eq!(e.describe(), "invalid argument");
    assert_eq!(store.len(), 0);
}

#[test]
fn save_get_contains_delete_cycle() {
    let mut store = Store::new();
    store.save(doc("x")).unwrap();
    assert!(store.contains(&"x".to_string()));
    assert_eq!(store.get(&"x".to_string()).unwrap(), doc("x"));
    assert_eq!(store.len(), 1);
    assert!(store.delete(&"x".to_string()));
    assert!(!store.contains(&"x".to_string()));
    assert_eq!(store.get(&"x".to_string()).unwrap_err(), StoreError::NotFound);
    assert!(!store.delete(&"x".to_string()));
}

#[test]
fn snapshot_is_a_deep_copy() {
    let mut store = Store::new();
    store.save(doc("x")).unwrap();
    let copy = store.snapshot();
    store.delete(&"x".to_string());
    // the copy is unaffected by later mutation
    assert_eq!(copy.len(), 1);
    assert_eq!(copy[0].0, "x");
    assert_eq!(copy[0].1, doc("x"));
    assert_eq!(store.len(), 0);
}

#[test]
fn load_entries_replaces_on_duplicate_keys() {
    let mut store = Store::new();
    let mut newer = doc("k");
    newer.name = "second".to_string();
    store.load_entries(&vec![("k".to_string(), doc("k")), ("k".to_string(), newer.clone())]);
    assert_eq!(store.len(), 1);
    assert_eq!(store.get(&"k".to_string()).unwrap(), newer);
}

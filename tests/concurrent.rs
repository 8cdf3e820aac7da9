use mock_rest_store::{ConcurrentDatabase, DatabaseAccess, DatabaseError, Document, Lookup};
use serde_json::Value;

fn person(name: &str) -> Document {
    Document::Object(vec![("name".to_string(), Value::String(name.to_string()))])
}

#[test]
fn shared_store_inserts_and_reads() {
    let mut store: ConcurrentDatabase = DatabaseAccess::new();
    let stored = store.insert("/people", person("Ann")).unwrap();
    let id = stored.get("id").unwrap().as_str().unwrap().to_string();
    assert_eq!(store.get_by_id("/people", &id).unwrap(), Some(stored.copy()));
    assert_eq!(store.get_all("/people").unwrap(), vec![stored.copy()]);
    assert_eq!(
        store.get(&format!("/people/{}", id)).unwrap(),
        Lookup::Item(stored)
    );
}

#[test]
fn clones_share_one_store_and_lose_no_writes() {
    let store: ConcurrentDatabase = DatabaseAccess::new();
    let mut handles: Vec<ConcurrentDatabase> = (0..8).map(|_| store.clone()).collect();
    let mut ids = Vec::new();
    for (i, h) in handles.iter_mut().enumerate() {
        let d = h.insert("/same", person(&format!("p{}", i))).unwrap();
        ids.push(d.get("id").unwrap().as_str().unwrap().to_string());
    }
    let items = store.get_all("/same").unwrap();
    assert_eq!(items.len(), 8);
    ids.sort();
    ids.dedup();
    assert_eq!(ids.len(), 8);
}

#[test]
fn shared_store_unknown_path_is_empty_not_error() {
    let store: ConcurrentDatabase = DatabaseAccess::new();
    assert_eq!(store.get_all("/none").unwrap(), vec![]);
    assert_eq!(store.get("/none/x").unwrap(), Lookup::Items(vec![]));
    assert_eq!(store.get_by_id("/none", "x").unwrap(), None);
}

#[test]
fn database_error_keeps_message() {
    let e = DatabaseError::new("Cannot obtain lock");
    assert_eq!(e.message, "Cannot obtain lock");
}

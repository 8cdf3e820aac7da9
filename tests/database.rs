use mock_rest_store::{Database, Document, Lookup};
use serde_json::Value;

fn text(s: &str) -> Value {
    Value::String(s.to_string())
}

fn john_doe() -> Document {
    Document::Object(vec![
        ("firstName".to_string(), text("John")),
        ("lastName".to_string(), text("Doe")),
    ])
}

fn id_of(doc: &Document) -> String {
    doc.get("id").unwrap().as_str().unwrap().to_string()
}

#[test]
fn get_all_should_return_empty_json_if_no_data_inserted() {
    let database = Database::new();
    let value = database.get_all("/api/v1/persons");
    assert_eq!(value, Vec::<Document>::new())
}

#[test]
fn should_insert_data_and_return_inserted() {
    let mut database = Database::new();
    let result = database.insert("/api/v1/persons", john_doe());

    assert!(result.get("id").is_some());
    assert_eq!(result.get("firstName"), Some(&Value::String("John".to_string())));
    assert_eq!(result.get("lastName"), Some(&Value::String("Doe".to_string())));
}

#[test]
fn get_all_should_return_inserted() {
    let mut database = Database::new();
    database.insert("/api/v1/persons", john_doe());

    let value = database.get_all("/api/v1/persons");
    let first = value.get(0).unwrap();
    assert_eq!(first.get("firstName"), Some(&Value::String("John".to_string())));
    assert_eq!(first.get("lastName"), Some(&Value::String("Doe".to_string())));
}

#[test]
fn get_by_id_should_return_inserted() {
    let mut database = Database::new();
    let inserted = database.insert("/api/v1/persons", john_doe());
    let id = id_of(&inserted);
    let value = database.get_by_id("/api/v1/persons", &id);
    assert!(value.is_some());
    assert_eq!(inserted, value.unwrap());
}

#[test]
fn generated_id_is_hyphenated_lowercase_uuid() {
    let mut database = Database::new();
    let inserted = database.insert("/p", john_doe());
    let id = id_of(&inserted);
    assert_eq!(id.len(), 36);
    for (i, c) in id.chars().enumerate() {
        if i == 8 || i == 13 || i == 18 || i == 23 {
            assert_eq!(c, '-');
        } else {
            assert!(c.is_ascii_digit() || ('a'..='f').contains(&c));
        }
    }
}

#[test]
fn existing_id_field_is_replaced_and_other_fields_kept() {
    let mut database = Database::new();
    let doc = Document::Object(vec![
        ("id".to_string(), text("mine")),
        ("age".to_string(), Value::from(42)),
    ]);
    let stored = database.insert("/people", doc);
    let id = id_of(&stored);
    assert_ne!(id, "mine");
    assert_eq!(stored.get("age"), Some(&Value::from(42)));
    match &stored {
        Document::Object(fields) => {
            assert_eq!(fields.len(), 2);
            assert_eq!(fields.iter().filter(|f| f.0 == "id").count(), 1);
        }
        Document::Other(_) => panic!("an object must stay an object"),
    }
}

#[test]
fn with_id_sets_given_identifier() {
    let doc = john_doe();
    let stored = doc.with_id("abc");
    assert_eq!(stored.get("id"), Some(&text("abc")));
    assert_eq!(stored.get("firstName"), Some(&text("John")));
    assert_eq!(doc.get("id"), None);
}

#[test]
fn insert_with_id_stores_under_given_identifier() {
    let mut database = Database::new();
    let stored = database.insert_with_id("/p", john_doe(), "x1".to_string());
    assert_eq!(stored.get("id"), Some(&text("x1")));
    assert_eq!(database.get_by_id("/p", "x1"), Some(stored));
}

#[test]
fn non_object_is_stored_verbatim() {
    let mut database = Database::new();
    let array = Value::Array(vec![Value::from(1), Value::from(2)]);
    let stored = database.insert("/numbers", Document::Other(array.clone()));
    assert_eq!(stored, Document::Other(array.clone()));
    assert_eq!(stored.get("id"), None);
    let scalar = database.insert("/numbers", Document::Other(Value::Bool(true)));
    assert_eq!(scalar, Document::Other(Value::Bool(true)));
    assert_eq!(
        database.get_all("/numbers"),
        vec![Document::Other(array), Document::Other(Value::Bool(true))]
    );
}

#[test]
fn get_all_lists_every_insertion() {
    let mut database = Database::new();
    let a = database.insert("/p", john_doe());
    let b = database.insert("/p", john_doe());
    let c = database.insert("/p", Document::Other(Value::Null));
    database.insert("/q", john_doe());
    let items = database.get_all("/p");
    assert_eq!(items.len(), 3);
    assert_eq!(items, vec![a.copy(), b.copy(), c]);
    assert_ne!(id_of(&a), id_of(&b));
}

#[test]
fn get_by_id_misses_unknown_ids_and_other_paths() {
    let mut database = Database::new();
    let stored = database.insert("/a", john_doe());
    let id = id_of(&stored);
    assert_eq!(database.get_by_id("/a", "not-an-id"), None);
    assert_eq!(database.get_by_id("/b", &id), None);
    assert_eq!(database.get_by_id("/nothing", "x"), None);
}

#[test]
fn reads_repeat_without_insertion() {
    let mut database = Database::new();
    let stored = database.insert("/a", john_doe());
    let id = id_of(&stored);
    assert_eq!(database.get_all("/a"), database.get_all("/a"));
    assert_eq!(database.get_by_id("/a", &id), database.get_by_id("/a", &id));
}

#[test]
fn dispatch_finds_item_or_falls_back_to_whole_path() {
    let mut database = Database::new();
    let stored = database.insert("/a/b", john_doe());
    let id = id_of(&stored);
    let item_path = format!("/a/b/{}", id);
    assert_eq!(database.get(&item_path), Lookup::Item(stored.copy()));
    assert_eq!(database.get("/a/b/not-an-id"), Lookup::Items(vec![]));
    assert_eq!(database.get("/a/b"), Lookup::Items(vec![stored]));
    assert_eq!(database.get("/x/y/z"), Lookup::Items(vec![]));
}

#[test]
fn dispatch_without_slash_reads_collection() {
    let mut database = Database::new();
    let stored = database.insert("plain", Document::Other(Value::from(7)));
    assert_eq!(database.get("plain"), Lookup::Items(vec![stored]));
    assert_eq!(database.get(""), Lookup::Items(vec![]));
}

#[test]
fn dispatch_collection_whose_path_looks_like_item() {
    let mut database = Database::new();
    let stored = database.insert("/a/b/c", john_doe());
    assert_eq!(database.get("/a/b/c"), Lookup::Items(vec![stored]));
}

use meta_toc::payload::Payload;
use meta_toc::payload_storage::InMemoryPayloadStorage;

fn payload_from_json(s: &str) -> Payload {
    let v: serde_json::Value = serde_json::from_str(s).unwrap();
    let mut p = Payload::new();
    for (k, val) in v.as_object().unwrap() {
        p.insert(k.clone(), val.clone());
    }
    p
}

#[test]
fn test_wipe() {
    let mut storage = InMemoryPayloadStorage::new();
    let payload: Payload = payload_from_json(r#"{"name": "John Doe"}"#);
    storage.assign(100, &payload).unwrap();
    storage.wipe().unwrap();
    storage.assign(100, &payload).unwrap();
    storage.wipe().unwrap();
    storage.assign(100, &payload).unwrap();
    assert!(!storage.payload(100).is_empty());
    storage.wipe().unwrap();
    assert_eq!(storage.payload(100), Default::default());
}

#[test]
fn test_assign_payload_from_serde_json() {
    let data = r#"
        {
            "name": "John Doe",
            "age": 43,
            "boolean": "true",
            "floating": 30.5,
            "string_array": ["hello", "world"],
            "boolean_array": ["true", "false"],
            "float_array": [1.0, 2.0],
            "integer_array": [1, 2],
            "geo_data": {"type": "geo", "value": {"lon": 1.0, "lat": 1.0}},
            "metadata": {
                "height": 50,
                "width": 60,
                "temperature": 60.5,
                "nested": {
                    "feature": 30.5
                },
                "integer_array": [1, 2]
            }
        }"#;

    let payload: Payload = payload_from_json(data);
    let mut storage = InMemoryPayloadStorage::new();
    storage.assign(100, &payload).unwrap();
    let pload = storage.payload(100);
    assert_eq!(pload, payload);
}

#[test]
fn test_assign_merges_fields() {
    let mut storage = InMemoryPayloadStorage::new();
    storage
        .assign(7, &payload_from_json(r#"{"a": 1, "b": 2}"#))
        .unwrap();
    storage
        .assign(7, &payload_from_json(r#"{"b": 3, "c": 4}"#))
        .unwrap();
    let merged = storage.payload(7);
    assert_eq!(merged, payload_from_json(r#"{"a": 1, "b": 3, "c": 4}"#));
}

#[test]
fn test_delete_field_and_drop_point() {
    let mut storage = InMemoryPayloadStorage::new();
    storage
        .assign(1, &payload_from_json(r#"{"a": 10, "b": 20}"#))
        .unwrap();
    let removed = storage.delete(1, &String::from("a")).unwrap();
    assert_eq!(removed, Some(serde_json::Value::from(10)));
    assert_eq!(storage.delete(1, &String::from("a")).unwrap(), None);
    assert_eq!(storage.payload(1), payload_from_json(r#"{"b": 20}"#));
    let dropped = storage.drop(1).unwrap();
    assert_eq!(dropped, Some(payload_from_json(r#"{"b": 20}"#)));
    assert_eq!(storage.drop(1).unwrap(), None);
    assert!(storage.iter_ids().is_empty());
}

#[test]
fn test_iter_ids_lists_points() {
    let mut storage = InMemoryPayloadStorage::new();
    storage.assign(3, &payload_from_json(r#"{"x": 1}"#)).unwrap();
    storage.assign(9, &payload_from_json(r#"{"x": 2}"#)).unwrap();
    storage.flush().unwrap();
    let ids = storage.iter_ids();
    assert_eq!(ids.len(), 2);
    assert!(ids.contains(&3));
    assert!(ids.contains(&9));
}

use oa_forge::openapi::{Operation, PathItem, find_entry};

fn op(id: Option<&str>) -> Operation {
    Operation {
        operation_id: id.map(|s| s.to_string()),
        summary: None,
        tags: Vec::new(),
        parameters: Vec::new(),
        request_body: None,
        responses: Vec::new(),
    }
}

fn item() -> PathItem {
    PathItem {
        get: Some(op(Some("a"))),
        post: None,
        put: Some(op(Some("b"))),
        patch: None,
        delete: Some(op(None)),
        parameters: Vec::new(),
    }
}

#[test]
fn operations_in_method_order() {
    let it = item();
    let names: Vec<&str> = it.operations().iter().map(|(m, _)| *m).collect();
    assert_eq!(names, vec!["get", "put", "delete"]);
}

#[test]
fn operations_can_be_changed_in_place() {
    let mut it = item();
    for (method, o) in it.operations_mut() {
        o.operation_id = Some(format!("{method}Op"));
    }
    assert_eq!(it.get.unwrap().operation_id.as_deref(), Some("getOp"));
    assert!(it.post.is_none());
    assert_eq!(it.put.unwrap().operation_id.as_deref(), Some("putOp"));
    assert_eq!(it.delete.unwrap().operation_id.as_deref(), Some("deleteOp"));
}

#[test]
fn entries_are_found_by_key() {
    let m = vec![("a".to_string(), 1), ("b".to_string(), 2), ("a".to_string(), 3)];
    assert_eq!(find_entry(&m, "a"), Some(0));
    assert_eq!(find_entry(&m, "b"), Some(1));
    assert_eq!(find_entry(&m, "c"), None);
}

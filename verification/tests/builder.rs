use router_gen::routes::{build, MalformedSpecError};
use yaml_rust::YamlLoader;

fn build_first(text: &str) -> Result<router_gen::routes::RouteTable, MalformedSpecError> {
    let docs = YamlLoader::load_from_str(text).expect("test yaml parses");
    build(&docs[0])
}

#[test]
fn one_path_one_method() {
    let t = build_first("paths:\n  /users:\n    get:\n      operationId: ListUsers\n").unwrap();
    assert_eq!(t.entries.len(), 1);
    assert_eq!(t.entries[0].path, "/users");
    assert_eq!(t.entries[0].bindings.len(), 1);
    assert_eq!(t.entries[0].bindings[0].method, "get");
    assert_eq!(t.entries[0].bindings[0].handler, "list_users");
}

#[test]
fn methods_keep_document_order() {
    let t = build_first(
        "paths:\n  /users:\n    get:\n      operationId: ListUsers\n    post:\n      operationId: CreateUser\n",
    )
    .unwrap();
    assert_eq!(t.entries.len(), 1);
    let methods: Vec<&str> = t.entries[0].bindings.iter().map(|b| b.method.as_str()).collect();
    assert_eq!(methods, ["get", "post"]);
}

#[test]
fn paths_keep_document_order() {
    let t = build_first(
        "paths:\n  /b:\n    get:\n      operationId: B\n  /a:\n    get:\n      operationId: A\n",
    )
    .unwrap();
    let paths: Vec<&str> = t.entries.iter().map(|e| e.path.as_str()).collect();
    assert_eq!(paths, ["/b", "/a"]);
}

#[test]
fn missing_paths_is_rejected() {
    assert_eq!(build_first("foo: 1\n").unwrap_err(), MalformedSpecError::MissingPaths);
    assert_eq!(build_first("3\n").unwrap_err(), MalformedSpecError::MissingPaths);
    assert_eq!(build_first("paths: 3\n").unwrap_err(), MalformedSpecError::MissingPaths);
}

#[test]
fn empty_path_key_is_rejected() {
    let r = build_first("paths:\n  \"\":\n    get:\n      operationId: X\n");
    assert_eq!(r.unwrap_err(), MalformedSpecError::InvalidPath);
}

#[test]
fn scalar_path_item_is_rejected() {
    let r = build_first("paths:\n  /a: 3\n");
    assert_eq!(r.unwrap_err(), MalformedSpecError::PathItemNotMapping);
}

#[test]
fn empty_path_item_is_rejected() {
    let r = build_first("paths:\n  /a: {}\n");
    assert_eq!(r.unwrap_err(), MalformedSpecError::EmptyPathItem);
}

#[test]
fn unrecognized_verb_is_rejected() {
    let r = build_first("paths:\n  /a:\n    fetch:\n      operationId: X\n");
    assert_eq!(r.unwrap_err(), MalformedSpecError::UnrecognizedMethod);
}

#[test]
fn upper_case_verb_is_rejected() {
    let r = build_first("paths:\n  /a:\n    GET:\n      operationId: X\n");
    assert_eq!(r.unwrap_err(), MalformedSpecError::UnrecognizedMethod);
}

#[test]
fn missing_operation_id_is_rejected() {
    let r = build_first("paths:\n  /a:\n    get: {}\n");
    assert_eq!(r.unwrap_err(), MalformedSpecError::InvalidOperationId);
}

#[test]
fn non_string_operation_id_is_rejected() {
    let r = build_first("paths:\n  /a:\n    get:\n      operationId: 7\n");
    assert_eq!(r.unwrap_err(), MalformedSpecError::InvalidOperationId);
}

#[test]
fn empty_operation_id_is_rejected() {
    let r = build_first("paths:\n  /a:\n    get:\n      operationId: \"\"\n");
    assert_eq!(r.unwrap_err(), MalformedSpecError::InvalidOperationId);
}

#[test]
fn all_recognized_verbs_pass() {
    let t = build_first(
        "paths:\n  /a:\n    get:\n      operationId: A\n    post:\n      operationId: B\n    put:\n      operationId: C\n    delete:\n      operationId: D\n    patch:\n      operationId: E\n    head:\n      operationId: F\n    options:\n      operationId: G\n    trace:\n      operationId: H\n",
    )
    .unwrap();
    let methods: Vec<&str> = t.entries[0].bindings.iter().map(|b| b.method.as_str()).collect();
    assert_eq!(methods, ["get", "post", "put", "delete", "patch", "head", "options", "trace"]);
}

#[test]
fn error_messages_name_the_cause() {
    assert_eq!(
        MalformedSpecError::MissingPaths.message(),
        "the specification has no paths mapping"
    );
    assert_eq!(
        MalformedSpecError::EmptyPathItem.message(),
        "a path-item has no methods"
    );
    assert_eq!(
        MalformedSpecError::UnrecognizedMethod.message(),
        "a method key is not a recognized HTTP verb"
    );
}

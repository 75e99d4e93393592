use router_gen::pipeline::{generate, GenerateError};
use router_gen::render::RenderError;
use router_gen::routes::MalformedSpecError;

#[test]
fn one_path_one_method_output() {
    let out = generate("paths:\n  /users:\n    get:\n      operationId: ListUsers\n").unwrap();
    assert_eq!(
        out,
        "pub fn router() -> axum::Router {\n    axum::Router::new().route(\"/users\", get(handler::list_users))\n}"
    );
}

#[test]
fn two_methods_are_chained_in_order() {
    let out = generate(
        "paths:\n  /users:\n    get:\n      operationId: ListUsers\n    post:\n      operationId: CreateUser\n",
    )
    .unwrap();
    assert_eq!(
        out,
        "pub fn router() -> axum::Router {\n    axum::Router::new().route(\"/users\", get(handler::list_users).post(handler::create_user))\n}"
    );
}

#[test]
fn two_paths_are_registered_in_order() {
    let out = generate(
        "paths:\n  /a:\n    get:\n      operationId: GetA\n  /b:\n    get:\n      operationId: GetB\n",
    )
    .unwrap();
    assert_eq!(
        out,
        "pub fn router() -> axum::Router {\n    axum::Router::new().route(\"/a\", get(handler::get_a)).route(\"/b\", get(handler::get_b))\n}"
    );
    let pos_a = out.find("\"/a\"").unwrap();
    let pos_b = out.find("\"/b\"").unwrap();
    assert!(pos_a < pos_b);
}

#[test]
fn output_text_keeps_document_order() {
    let out = generate(
        "paths:\n  /z:\n    get:\n      operationId: GetZ\n  /m:\n    post:\n      operationId: MakeM\n    get:\n      operationId: GetM\n",
    )
    .unwrap();
    let pos_z = out.find("\"/z\"").unwrap();
    let pos_m = out.find("\"/m\"").unwrap();
    assert!(pos_z < pos_m);
    let pos_post = out.find("post(handler::make_m)").unwrap();
    let pos_get_m = out.find("get(handler::get_m)").unwrap();
    assert!(pos_post < pos_get_m);
}

#[test]
fn running_twice_gives_identical_bytes() {
    let text = "paths:\n  /users:\n    get:\n      operationId: ListUsers\n  /orders:\n    post:\n      operationId: CreateOrder\n";
    let first = generate(text).unwrap();
    let second = generate(text).unwrap();
    assert_eq!(first, second);
}

#[test]
fn empty_path_item_fails_the_run() {
    let r = generate("paths:\n  /a: {}\n");
    assert_eq!(
        r.unwrap_err(),
        GenerateError::Malformed(MalformedSpecError::EmptyPathItem)
    );
}

#[test]
fn missing_paths_fails_the_run() {
    let r = generate("info:\n  title: x\n");
    assert_eq!(
        r.unwrap_err(),
        GenerateError::Malformed(MalformedSpecError::MissingPaths)
    );
}

#[test]
fn unparseable_text_fails_the_run() {
    let r = generate("paths: [unclosed\n");
    assert_eq!(r.unwrap_err(), GenerateError::Parse);
}

#[test]
fn empty_text_fails_the_run() {
    let r = generate("");
    assert_eq!(r.unwrap_err(), GenerateError::Parse);
}

#[test]
fn line_break_in_a_path_fails_the_render() {
    let r = generate("paths:\n  \"/a\\nb\":\n    get:\n      operationId: X\n");
    assert_eq!(
        r.unwrap_err(),
        GenerateError::Render(RenderError::UnprintableText)
    );
}

#[test]
fn duplicate_path_strings_pass_through() {
    // YAML collapses duplicate keys upstream, so distinct keys that render
    // to the same registration show the pass-through: nothing is merged or
    // deduplicated downstream of the parser.
    let out = generate(
        "paths:\n  /a:\n    get:\n      operationId: GetA\n  /a/:\n    get:\n      operationId: GetA\n",
    )
    .unwrap();
    assert_eq!(out.matches("get(handler::get_a)").count(), 2);
}

#[test]
fn error_messages_are_human_readable() {
    assert_eq!(
        GenerateError::Parse.message(),
        "the specification is not a parseable document"
    );
    assert_eq!(
        GenerateError::Malformed(MalformedSpecError::InvalidOperationId).message(),
        "an operation is missing a non-empty operationId"
    );
    assert_eq!(
        GenerateError::Render(RenderError::UnprintableText).message(),
        "a path, method or handler contains a line break"
    );
}

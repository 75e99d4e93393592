use router_gen::render::render;
use router_gen::routes::{MethodBinding, RouteEntry, RouteTable};

fn binding(method: &str, handler: &str) -> MethodBinding {
    MethodBinding { method: method.to_string(), handler: handler.to_string() }
}

#[test]
fn empty_table_renders_a_bare_router() {
    let table = RouteTable { entries: Vec::new() };
    let out = render(&table).unwrap();
    assert_eq!(out, "pub fn router() -> axum::Router {\n    axum::Router::new()\n}");
}

#[test]
fn one_entry_renders_one_registration() {
    let table = RouteTable {
        entries: vec![RouteEntry {
            path: "/users".to_string(),
            bindings: vec![binding("get", "list_users")],
        }],
    };
    let out = render(&table).unwrap();
    assert_eq!(
        out,
        "pub fn router() -> axum::Router {\n    axum::Router::new().route(\"/users\", get(handler::list_users))\n}"
    );
}

#[test]
fn chained_methods_render_left_to_right() {
    let table = RouteTable {
        entries: vec![RouteEntry {
            path: "/users".to_string(),
            bindings: vec![
                binding("get", "list_users"),
                binding("post", "create_user"),
                binding("delete", "drop_user"),
            ],
        }],
    };
    let out = render(&table).unwrap();
    assert!(out.contains(
        ".route(\"/users\", get(handler::list_users).post(handler::create_user).delete(handler::drop_user))"
    ));
}

#[test]
fn line_break_in_handler_is_refused() {
    let table = RouteTable {
        entries: vec![RouteEntry {
            path: "/users".to_string(),
            bindings: vec![binding("get", "bad\nname")],
        }],
    };
    assert!(render(&table).is_err());
}

#[test]
fn rendered_text_parses_as_a_function() {
    let table = RouteTable {
        entries: vec![RouteEntry {
            path: "/orders".to_string(),
            bindings: vec![binding("post", "create_order")],
        }],
    };
    let out = render(&table).unwrap();
    assert!(out.starts_with("pub fn router() -> axum::Router {"));
    assert!(out.ends_with("\n}"));
    assert_eq!(out.matches('{').count(), out.matches('}').count());
}

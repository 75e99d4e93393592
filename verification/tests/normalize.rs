use convert_case::{Case, Casing};
use router_gen::ident::normalize;

#[test]
fn simple_pascal_case() {
    assert_eq!(normalize("GetUserProfile"), "get_user_profile");
    assert_eq!(normalize("CreateOrder"), "create_order");
    assert_eq!(normalize("ListUsers"), "list_users");
}

#[test]
fn hyphenated_names() {
    assert_eq!(normalize("list-items"), "list_items");
    assert_eq!(normalize("get-order-by-id"), "get_order_by_id");
}

#[test]
fn acronym_stays_one_word() {
    assert_eq!(normalize("HTTPRequest"), "http_request");
    assert_eq!(normalize("XMLHttpRequest"), "xml_http_request");
    assert_eq!(normalize("ABCd"), "ab_cd");
}

#[test]
fn digit_transitions_split() {
    assert_eq!(normalize("user2Id"), "user_2_id");
    assert_eq!(normalize("A1"), "a_1");
}

#[test]
fn already_snake_is_kept() {
    assert_eq!(normalize("get_user_profile"), "get_user_profile");
    assert_eq!(normalize("list_items"), "list_items");
}

#[test]
fn separators_are_consumed_not_collapsed() {
    assert_eq!(normalize("a--b"), "a__b");
    assert_eq!(normalize("-"), "_");
    assert_eq!(normalize("_foo_"), "_foo_");
}

#[test]
fn normalization_is_idempotent_on_samples() {
    let samples = [
        "GetUserProfile",
        "list-items",
        "CreateOrder",
        "HTTPRequest",
        "XMLHttpRequest",
        "user2Id",
        "a--b",
        "-",
        "mixed Words-and_seps",
        "ABCd",
        "get-order-by-id",
    ];
    for s in samples {
        let once = normalize(s);
        let twice = normalize(&once);
        assert_eq!(twice, once);
    }
}

#[test]
fn nonempty_input_gives_nonempty_identifier() {
    for s in ["-", "_", " ", "a", "B", "9"] {
        assert!(!normalize(s).is_empty());
    }
}

#[test]
fn matches_the_reference_case_converter() {
    let samples = [
        "GetUserProfile",
        "list-items",
        "CreateOrder",
        "ListUsers",
        "get-order-by-id",
        "HTTPRequest",
        "XMLHttpRequest",
        "user2Id",
        "A1",
        "a--b",
        "-",
        "_foo_",
        "Already_Snake",
        "trailing-",
        "mixed Spaces-and_seps",
        "ABCd",
    ];
    for s in samples {
        assert_eq!(normalize(s), s.to_case(Case::Snake), "input: {:?}", s);
    }
}

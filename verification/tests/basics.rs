use keygrip::attr::{self, AttributeValue};
use keygrip::dict::StrMap;
use keygrip::error::Error;
use keygrip::expression::Expression;
use keygrip::order::sort_names;
use keygrip::request::{conditional_code, conflict, unavailable};
use keygrip::text::{i64_text, join, usize_text};
use keygrip::write::{invalid, present};

#[test]
fn errors_display_their_detail() {
    assert_eq!(Error::Conflict("The item already exists.").message(), "The item already exists.");
    assert_eq!(Error::NotFound("User not found.".to_string()).message(), "User not found.");
    assert_eq!(Error::Unavailable("timeout".to_string()).message(), "database unavailable: timeout");
}

#[test]
fn rejected_conditions_are_recognized_by_code() {
    assert!(conditional_code(Some("ConditionalCheckFailedException")));
    assert!(!conditional_code(Some("ThrottlingException")));
    assert!(!conditional_code(None));
}

#[test]
fn rejected_conditions_become_conflicts() {
    assert!(matches!(
        conflict(Some("ConditionalCheckFailedException"), "raw", "The item already exists."),
        Error::Conflict("The item already exists.")
    ));
    assert!(matches!(
        conflict(Some("ThrottlingException"), "slow down", "ignored"),
        Error::Unavailable(text) if text == "slow down"
    ));
    assert!(matches!(unavailable(42), Error::Unavailable(text) if text == "42"));
}

#[test]
fn invalid_writes_are_unavailable() {
    assert_eq!(
        invalid("broken").message(),
        "database unavailable: invalid conditional write: broken"
    );
}

#[test]
fn empty_maps_are_absent() {
    let mut names: StrMap<String> = StrMap::new();
    assert!(present(StrMap::<String>::new()).is_none());
    names.insert("#a".to_string(), "a".to_string());
    assert_eq!(present(names).unwrap().len(), 1);
}

#[test]
fn attribute_shorthands() {
    assert!(matches!(attr::s("x"), AttributeValue::S(v) if v == "x"));
    assert!(matches!(attr::n(-7), AttributeValue::N(v) if v == "-7"));
    assert!(matches!(attr::n(2.5), AttributeValue::N(v) if v == "2.5"));
    assert!(matches!(attr::boolean(false), AttributeValue::Bool(false)));
    assert!(matches!(attr::list(vec![]), AttributeValue::L(v) if v.is_empty()));
}

#[test]
fn expressions_bind_names_and_values() {
    let expression = Expression::new("SET #a = :a, #b = :b")
        .name("#a", "alpha")
        .name("#b", "beta")
        .string(":a", "x")
        .number(":b", 12)
        .boolean(":c", true)
        .value(":d", AttributeValue::Null(true))
        .name("#a", "again");
    let bindings = expression.bindings();

    assert_eq!(bindings.statement, "SET #a = :a, #b = :b");
    assert_eq!(bindings.names.get("#a").map(String::as_str), Some("again"));
    assert_eq!(bindings.names.len(), 2);
    assert!(matches!(bindings.values.get(":b"), Some(AttributeValue::N(v)) if v == "12"));
    assert!(matches!(bindings.values.get(":c"), Some(AttributeValue::Bool(true))));
    assert!(matches!(bindings.values.get(":d"), Some(AttributeValue::Null(true))));
    assert_eq!(bindings.values.len(), 4);
}

#[test]
fn name_collisions_are_reported_before_value_collisions() {
    let update = Expression::new("u").name("#n", "a").string(":v", "x").into_bindings();
    let condition = Expression::new("c").name("#n", "b").string(":v", "y").into_bindings();

    assert_eq!(
        update.collision(&condition).as_deref(),
        Some("expression name placeholder #n is bound by both the update and condition")
    );
}

#[test]
fn disjoint_bindings_do_not_collide() {
    let update = Expression::new("u").name("#n", "a").string(":v", "x").into_bindings();
    let condition = Expression::new("c").name("#m", "b").string(":w", "y").into_bindings();

    assert!(update.collision(&condition).is_none());
}

#[test]
fn maps_insert_replace_remove_and_extend() {
    let mut map: StrMap<u32> = StrMap::new();
    assert!(map.is_empty());
    map.insert("a".to_string(), 1);
    map.insert("b".to_string(), 2);
    map.insert("a".to_string(), 3);
    assert_eq!(map.len(), 2);
    assert_eq!(map.get("a"), Some(&3));
    assert!(map.contains_key("b"));
    map.remove("b");
    assert!(!map.contains_key("b"));
    assert_eq!(map.take("a"), Some(3));
    assert!(map.is_empty());

    let mut left: StrMap<u32> = StrMap::new();
    left.insert("x".to_string(), 1);
    left.insert("y".to_string(), 2);
    let mut right: StrMap<u32> = StrMap::new();
    right.insert("y".to_string(), 20);
    right.insert("z".to_string(), 30);
    left.extend(right);
    assert_eq!(left.len(), 3);
    assert_eq!(left.get("y"), Some(&20));
    assert_eq!(left.get("z"), Some(&30));
    assert_eq!(sort_names(left.keys()), vec!["x", "y", "z"]);
}

#[test]
fn names_sort_by_code_point() {
    let names = vec!["type".to_string(), "createdAt".to_string(), "Zeta".to_string(), "id".to_string()];

    assert_eq!(sort_names(names), vec!["Zeta", "createdAt", "id", "type"]);
}

#[test]
fn numbers_render_in_decimal() {
    assert_eq!(usize_text(0), "0");
    assert_eq!(usize_text(1234), "1234");
    assert_eq!(i64_text(-42), "-42");
    assert_eq!(i64_text(i64::MIN), "-9223372036854775808");
}

#[test]
fn joins_with_a_separator() {
    let parts = vec!["a".to_string(), "b".to_string(), String::new()];

    assert_eq!(join(&parts, "#"), "a#b#");
    assert_eq!(join(&Vec::new(), " AND "), "");
}

use keygrip::attr::{self, AttributeValue};
use keygrip::dict::StrMap;
use keygrip::error::Error;
use keygrip::expression::Expression;
use keygrip::key::{key_value, Parts};
use keygrip::write::{Merge, Store, Update, UpdateRequest};

fn texts(members: &[&str]) -> Vec<String> {
    members.iter().map(|m| m.to_string()).collect()
}

/// The key of a record table keyed by `pk(scope, owner), sk(kind, id)`.
fn record_key(scope: &str, owner: &str, kind: &str, id: &str) -> Parts {
    Parts::two(
        "pk",
        key_value(&texts(&[scope, owner])),
        "sk",
        key_value(&texts(&[kind, id])),
    )
}

fn update(table: &str) -> Update {
    Update::new(
        table,
        record_key("contest", "user", "submission", "one"),
        Expression::new("SET active = :active").boolean(":active", true),
    )
}

/// The serialized record `{scope, owner, kind, id, active}`.
fn record_document() -> StrMap<AttributeValue> {
    let mut document = StrMap::new();
    document.insert("scope".to_string(), attr::s("contest"));
    document.insert("owner".to_string(), attr::s("user"));
    document.insert("kind".to_string(), attr::s("submission"));
    document.insert("id".to_string(), attr::s("one"));
    document.insert("active".to_string(), attr::boolean(true));
    document
}

/// The key of a submission table keyed by `pk(user_id), sk(problem_id)`.
fn submission_key() -> Parts {
    Parts::two("userId", "user".to_string(), "problemId", "problem".to_string())
}

/// The serialized submission, camelCase with `kind` renamed to `type`.
fn submission_document() -> StrMap<AttributeValue> {
    let mut document = StrMap::new();
    document.insert("userId".to_string(), attr::s("user"));
    document.insert("problemId".to_string(), attr::s("problem"));
    document.insert("id".to_string(), attr::s("submission"));
    document.insert("createdAt".to_string(), attr::n(1));
    document.insert("type".to_string(), attr::s("CHOICE"));
    document.insert("score".to_string(), attr::n(100));
    document
}

fn merge() -> Merge {
    Merge::new("Submissions", submission_key(), Ok(submission_document()))
}

fn text_of(value: Option<&AttributeValue>) -> Option<&str> {
    match value {
        Some(AttributeValue::S(text)) => Some(text.as_str()),
        _ => None,
    }
}

fn name_of<'a>(request: &'a UpdateRequest, placeholder: &str) -> Option<&'a str> {
    request
        .names
        .as_ref()
        .and_then(|names| names.get(placeholder))
        .map(|name| name.as_str())
}

fn failure(result: Result<UpdateRequest, Error>) -> String {
    match result {
        Ok(_) => panic!("the request was assembled"),
        Err(error) => error.message(),
    }
}

#[test]
fn attaches_conditions_and_arbitrary_values() {
    let request = Update::new(
        "Records",
        record_key("contest", "user", "submission", "one"),
        Expression::new("SET active = :active, tags = :tags")
            .boolean(":active", true)
            .value(":tags", attr::list(vec![attr::s("tag")])),
    )
    .when(Expression::new("attribute_exists(pk)"))
    .request()
    .unwrap();

    assert_eq!(request.condition.as_deref(), Some("attribute_exists(pk)"));
    assert_eq!(request.update, "SET active = :active, tags = :tags");
    let values = request.values.as_ref().unwrap();
    assert!(matches!(values.get(":active"), Some(AttributeValue::Bool(true))));
    assert!(matches!(
        values.get(":tags"),
        Some(AttributeValue::L(items))
            if matches!(&items[0], AttributeValue::S(value) if value == "tag")
    ));
}

#[test]
fn rejects_a_second_condition_at_run_time() {
    let error = failure(
        update("Records")
            .when(Expression::new("attribute_exists(pk)"))
            .when(Expression::new("attribute_exists(sk)"))
            .request(),
    );

    assert!(error.contains("more than one condition"));
}

#[test]
fn rejects_update_condition_placeholder_collisions_at_run_time() {
    let error = failure(
        Update::new(
            "Records",
            record_key("contest", "user", "submission", "one"),
            Expression::new("SET #state = :next")
                .name("#state", "state")
                .string(":next", "next"),
        )
        .when(Expression::new("#state = :next").name("#state", "previous"))
        .request(),
    );

    assert!(error.contains("placeholder"));
}

#[test]
fn composes_composite_update_keys() {
    let request = update("Records").request().unwrap();

    assert_eq!(text_of(request.key.get("pk")), Some("contest#user"));
    assert_eq!(text_of(request.key.get("sk")), Some("submission#one"));
}

#[test]
fn serializes_store_values_with_composed_keys() {
    let request = Store::new(
        "Records",
        record_key("contest", "user", "submission", "one"),
        Ok(record_document()),
    )
    .when(Expression::new("attribute_not_exists(pk)"))
    .request()
    .unwrap();
    let item = &request.item;

    assert_eq!(request.condition.as_deref(), Some("attribute_not_exists(pk)"));
    assert_eq!(text_of(item.get("pk")), Some("contest#user"));
    assert_eq!(text_of(item.get("sk")), Some("submission#one"));
    assert_eq!(text_of(item.get("scope")), Some("contest"));
    assert!(matches!(item.get("active"), Some(AttributeValue::Bool(true))));
}

#[test]
fn composes_sorted_merge_assignments() {
    let request = merge().request().unwrap();

    assert_eq!(request.update, "SET #m0 = :m0, #m1 = :m1, #m2 = :m2, #m3 = :m3");
    assert_eq!(name_of(&request, "#m0"), Some("createdAt"));
    assert_eq!(name_of(&request, "#m1"), Some("id"));
    assert_eq!(name_of(&request, "#m2"), Some("score"));
    assert_eq!(name_of(&request, "#m3"), Some("type"));
}

#[test]
fn keeps_selected_merge_attributes_when_already_present() {
    let request = merge().keep("id").keep("createdAt").request().unwrap();

    assert_eq!(
        request.update,
        "SET #m0 = if_not_exists(#m0, :m0), #m1 = if_not_exists(#m1, :m1), #m2 = :m2, #m3 = :m3"
    );
}

#[test]
fn excludes_primary_key_attributes_from_merge_updates() {
    let request = merge().request().unwrap();
    let names = request.names.as_ref().unwrap();

    assert_eq!(text_of(request.key.get("userId")), Some("user"));
    assert_eq!(text_of(request.key.get("problemId")), Some("problem"));
    assert!(!names
        .entries()
        .iter()
        .any(|(_, name)| name == "userId" || name == "problemId"));
}

#[test]
fn aliases_reserved_merge_attribute_names() {
    let request = merge().request().unwrap();

    assert!(!request.update.contains("type"));
    assert_eq!(name_of(&request, "#m3"), Some("type"));
}

#[test]
fn rejects_a_second_merge_condition_at_run_time() {
    let error = failure(
        merge()
            .when(Expression::new("attribute_exists(userId)"))
            .when(Expression::new("attribute_exists(problemId)"))
            .request(),
    );

    assert!(error.contains("more than one condition"));
}

#[test]
fn rejects_merge_condition_placeholder_collisions_at_run_time() {
    let error = failure(
        merge()
            .when(Expression::new("#m0 = :expected").name("#m0", "createdAt"))
            .request(),
    );

    assert!(error.contains("placeholder"));
}

#[test]
fn rejects_unknown_merge_keep_attributes() {
    let error = failure(merge().keep("missing").request());

    assert!(error.contains("unknown merge keep attribute"));
}

#[test]
fn rejects_merges_without_non_key_attributes() {
    let mut document = StrMap::new();
    document.insert("id".to_string(), attr::s("key"));
    let error = failure(
        Merge::new("Keys", Parts::one("id", "key".to_string()), Ok(document)).request(),
    );

    assert!(error.contains("at least one attribute"));
}

#[test]
fn fetch_requests_all_new_attributes() {
    let request = merge().fetch_request().unwrap();

    assert!(request.return_all_new);
}

#[test]
fn update_fetch_requests_all_new_attributes() {
    let request = update("Records").fetch_request().unwrap();

    assert!(request.return_all_new);
}

#[test]
fn plain_requests_do_not_ask_for_the_item_back() {
    assert!(!update("Records").request().unwrap().return_all_new);
    assert!(!merge().request().unwrap().return_all_new);
}

#[test]
fn merges_bind_each_attribute_once_with_its_value() {
    let request = merge().request().unwrap();
    let values = request.values.as_ref().unwrap();

    assert_eq!(values.len(), 4);
    assert!(matches!(values.get(":m0"), Some(AttributeValue::N(n)) if n == "1"));
    assert_eq!(text_of(values.get(":m1")), Some("submission"));
    assert!(matches!(values.get(":m2"), Some(AttributeValue::N(n)) if n == "100"));
    assert_eq!(text_of(values.get(":m3")), Some("CHOICE"));
    assert_eq!(request.table, "Submissions");
    assert!(request.condition.is_none());
}

#[test]
fn merge_conditions_join_the_merge_bindings() {
    let request = merge()
        .when(Expression::new("#v = :v").name("#v", "version").number(":v", 3))
        .request()
        .unwrap();
    let values = request.values.as_ref().unwrap();

    assert_eq!(request.condition.as_deref(), Some("#v = :v"));
    assert_eq!(name_of(&request, "#v"), Some("version"));
    assert_eq!(name_of(&request, "#m0"), Some("createdAt"));
    assert!(matches!(values.get(":v"), Some(AttributeValue::N(n)) if n == "3"));
    assert_eq!(values.len(), 5);
}

#[test]
fn merge_passes_serialization_errors_through() {
    let error = failure(
        Merge::new(
            "Submissions",
            submission_key(),
            Err(Error::Unavailable("bad value".to_string())),
        )
        .request(),
    );

    assert_eq!(error, "database unavailable: bad value");
}

#[test]
fn value_placeholder_collisions_are_reported() {
    let error = failure(
        Update::new(
            "Records",
            record_key("a", "b", "c", "d"),
            Expression::new("SET v = :v").string(":v", "next"),
        )
        .when(Expression::new("v = :v").string(":v", "previous"))
        .request(),
    );

    assert_eq!(
        error,
        "database unavailable: invalid conditional write: expression value placeholder :v is bound by both the update and condition"
    );
}

#[test]
fn second_condition_error_text() {
    let error = failure(
        update("Records")
            .when(Expression::new("a"))
            .when(Expression::new("b"))
            .request(),
    );

    assert_eq!(
        error,
        "database unavailable: invalid conditional write: a conditional write cannot have more than one condition"
    );
}

#[test]
fn unconditioned_updates_omit_empty_bindings() {
    let request = Update::new(
        "Records",
        Parts::one("id", "one".to_string()),
        Expression::new("REMOVE stale"),
    )
    .request()
    .unwrap();

    assert!(request.names.is_none());
    assert!(request.values.is_none());
    assert!(request.condition.is_none());
    assert_eq!(request.update, "REMOVE stale");
    assert_eq!(text_of(request.key.get("id")), Some("one"));
    assert_eq!(request.key.len(), 1);
}

#[test]
fn unconditioned_stores_carry_no_condition() {
    let request = Store::new("Records", Parts::one("id", "one".to_string()), Ok(record_document()))
        .request()
        .unwrap();

    assert!(request.condition.is_none());
    assert!(request.names.is_none());
    assert!(request.values.is_none());
    assert_eq!(text_of(request.item.get("id")), Some("one"));
    assert_eq!(request.table, "Records");
}

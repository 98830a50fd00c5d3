use keygrip::attr::AttributeValue;
use keygrip::dict::StrMap;
use keygrip::error::Error;
use keygrip::key::Index;
use keygrip::query::{more_pages, Query, QueryRequest};

fn by_id() -> &'static Index {
    Box::leak(Box::new(Index { name: "byId", partition: "id", sort: Some("userId") }))
}

fn users() -> Query {
    Query::new("Users", "contestId", Some("id"), "contest".to_string())
}

fn text_of(value: Option<&AttributeValue>) -> Option<&str> {
    match value {
        Some(AttributeValue::S(text)) => Some(text.as_str()),
        _ => None,
    }
}

fn plan(query: &Query) -> QueryRequest {
    match query.plan(None, None) {
        Ok(request) => request,
        Err(error) => panic!("{}", error.message()),
    }
}

#[test]
fn plans_a_partition_query() {
    let request = plan(&users());

    assert_eq!(request.table, "Users");
    assert!(request.index.is_none());
    assert_eq!(request.key_condition, "#partition = :partition");
    assert_eq!(request.names.get("#partition").map(String::as_str), Some("contestId"));
    assert_eq!(request.names.len(), 1);
    assert_eq!(text_of(request.values.get(":partition")), Some("contest"));
    assert_eq!(request.values.len(), 1);
    assert!(request.scan_forward);
    assert!(request.start.is_none());
    assert!(request.limit.is_none());
}

#[test]
fn newest_reverses_the_scan() {
    assert!(!plan(&users().newest()).scan_forward);
}

#[test]
fn prefixes_use_begins_with() {
    let request = plan(&users().prefix("2024-"));

    assert_eq!(request.key_condition, "#partition = :partition AND begins_with(#sort, :sort)");
    assert_eq!(request.names.get("#sort").map(String::as_str), Some("id"));
    assert_eq!(text_of(request.values.get(":sort")), Some("2024-"));
}

#[test]
fn equality_constrains_the_sort_key() {
    let request = plan(&users().eq("one"));

    assert_eq!(request.key_condition, "#partition = :partition AND #sort = :sort");
    assert_eq!(text_of(request.values.get(":sort")), Some("one"));
}

#[test]
fn indexes_supply_their_own_key_names() {
    let request = plan(&users().index(by_id()).eq("user"));

    assert_eq!(request.index.as_deref(), Some("byId"));
    assert_eq!(request.names.get("#partition").map(String::as_str), Some("id"));
    assert_eq!(request.names.get("#sort").map(String::as_str), Some("userId"));
}

#[test]
fn sort_conditions_need_a_sort_key() {
    let query = Query::new("Keys", "id", None, "one".to_string()).prefix("x");

    assert!(matches!(
        query.plan(None, Some(5)),
        Err(Error::Unavailable(text)) if text == "A sort condition was used without a sort key."
    ));
}

#[test]
fn pages_resume_from_the_cursor_with_a_limit() {
    let mut cursor = StrMap::new();
    cursor.insert("id".to_string(), AttributeValue::S("last".to_string()));
    let request = match users().plan(Some(cursor), Some(25)) {
        Ok(request) => request,
        Err(error) => panic!("{}", error.message()),
    };

    assert_eq!(request.limit, Some(25));
    assert_eq!(text_of(request.start.as_ref().unwrap().get("id")), Some("last"));
}

#[test]
fn only_non_empty_cursors_continue() {
    let mut cursor = StrMap::new();
    cursor.insert("id".to_string(), AttributeValue::S("last".to_string()));

    assert!(more_pages(&Some(cursor)));
    assert!(!more_pages(&Some(StrMap::new())));
    assert!(!more_pages(&None));
}

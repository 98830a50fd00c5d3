use keygrip::attr::AttributeValue;
use keygrip::entity::{batches, create_condition, incomplete_batch, not_found, unfinished, BATCH_LIMIT};
use keygrip::error::Error;
use keygrip::key::{document_key, key_prefix, key_value, Parts};

fn texts(members: &[&str]) -> Vec<String> {
    members.iter().map(|m| m.to_string()).collect()
}

#[test]
fn create_conditions_require_every_key_attribute_absent_in_name_order() {
    let key = document_key(Parts::two(
        "userId",
        "user".to_string(),
        "problemId",
        "problem".to_string(),
    ));

    assert_eq!(
        create_condition(&key),
        "attribute_not_exists(problemId) AND attribute_not_exists(userId)"
    );
}

#[test]
fn single_key_create_condition() {
    let key = document_key(Parts::one("id", "one".to_string()));

    assert_eq!(create_condition(&key), "attribute_not_exists(id)");
}

#[test]
fn key_documents_hold_string_values() {
    let key = document_key(Parts::two("pk", "a#b".to_string(), "sk", "c".to_string()));

    assert_eq!(key.len(), 2);
    assert!(matches!(key.get("pk"), Some(AttributeValue::S(v)) if v == "a#b"));
    assert!(matches!(key.get("sk"), Some(AttributeValue::S(v)) if v == "c"));
}

#[test]
fn composite_key_values_join_with_hash() {
    assert_eq!(key_value(&texts(&["contest", "user"])), "contest#user");
    assert_eq!(key_value(&texts(&["only"])), "only");
}

#[test]
fn prefixes_end_with_a_separator() {
    assert_eq!(key_prefix(&texts(&["problem", "kind"])), "problem#kind#");
    assert_eq!(key_prefix(&texts(&["problem"])), "problem#");
}

#[test]
fn missing_items_are_not_found() {
    assert!(matches!(not_found("User"), Error::NotFound(text) if text == "User not found."));
    assert_eq!(not_found("User").message(), "User not found.");
}

#[test]
fn unfinished_batches_are_unavailable() {
    assert_eq!(
        incomplete_batch("User").message(),
        "database unavailable: User batch read was not completed."
    );
}

#[test]
fn batches_hold_at_most_the_limit_in_order() {
    let keys: Vec<usize> = (0..250).collect();
    let cut = batches(keys);

    assert_eq!(BATCH_LIMIT, 100);
    assert_eq!(cut.len(), 3);
    assert_eq!(cut[0].len(), 100);
    assert_eq!(cut[1].len(), 100);
    assert_eq!(cut[2].len(), 50);
    assert_eq!(cut[1][0], 100);
    assert_eq!(cut[2][49], 249);
}

#[test]
fn exact_multiples_leave_no_empty_batch() {
    assert_eq!(batches((0..200).collect::<Vec<usize>>()).len(), 2);
    assert_eq!(batches(Vec::<usize>::new()).len(), 0);
}

#[test]
fn batches_are_unfinished_when_any_table_has_pending_keys() {
    assert!(!unfinished(&vec![]));
    assert!(!unfinished(&vec![0, 0]));
    assert!(unfinished(&vec![0, 3]));
}

#[test]
fn prefixes_begin_the_composed_sort_key() {
    let value = key_value(&texts(&["problem", "kind", "id"]));

    assert!(value.starts_with(&key_prefix(&texts(&["problem", "kind"]))));
    assert!(value.starts_with(&key_prefix(&texts(&["problem"]))));
    assert!(value.starts_with(&key_prefix(&texts(&[]))));
    assert!(!value.starts_with(&key_prefix(&texts(&["problem", "kind", "id"]))));
}

use keygrip::attr::{self, AttributeValue};
use keygrip::dict::StrMap;
use keygrip::error::Error;
use keygrip::expression::Expression;
use keygrip::key::Parts;
use keygrip::transaction::{Request, Transaction, TransactionError, Write};

/// The serialized record `{id, value}` of a table keyed by `pk(id)`.
fn record(id: &str) -> Result<StrMap<AttributeValue>, Error> {
    let mut document = StrMap::new();
    document.insert("id".to_string(), attr::s(id));
    document.insert("value".to_string(), attr::s("value"));
    Ok(document)
}

fn key(id: &str) -> Parts {
    Parts::one("id", id.to_string())
}

fn rotate(previous: bool) -> Transaction {
    let transaction = Transaction::new()
        .put("Sessions", record("session"), key("session"))
        .unwrap()
        .when(Expression::new("attribute_not_exists(id)"))
        .update(
            "Users",
            key("user"),
            Expression::new("SET #session = :session")
                .name("#session", "session")
                .string(":session", "session"),
        )
        .unwrap()
        .when(
            Expression::new("#pointer = :previous")
                .name("#pointer", "session")
                .string(":previous", "previous"),
        )
        .label("pointer");

    if previous {
        transaction.delete("Sessions", key("previous")).unwrap()
    } else {
        transaction
    }
}

fn failure(result: Result<Request, TransactionError>) -> String {
    match result {
        Ok(_) => panic!("the transaction was assembled"),
        Err(error) => error.message(),
    }
}

fn codes(codes: &[&str]) -> Vec<Option<String>> {
    codes.iter().map(|code| Some(code.to_string())).collect()
}

#[test]
fn preserves_step_order() {
    let request = Transaction::new()
        .put("Records", record("one"), key("one"))
        .unwrap()
        .when(Expression::new("attribute_not_exists(id)"))
        .update(
            "Records",
            key("two"),
            Expression::new("SET #value = :value")
                .name("#value", "value")
                .string(":value", "next"),
        )
        .unwrap()
        .delete("Records", key("three"))
        .unwrap()
        .request()
        .unwrap();

    assert!(matches!(request.writes[0], Write::Put(_)));
    assert!(matches!(request.writes[1], Write::Update(_)));
    assert!(matches!(request.writes[2], Write::Delete(_)));
}

#[test]
fn optional_rotate_step_does_not_shift_label_interpretation() {
    let short = rotate(false).request().unwrap();
    let long = rotate(true).request().unwrap();

    assert_eq!(short.writes.len(), 2);
    assert_eq!(long.writes.len(), 3);
    assert_eq!(short.labels.get("pointer"), Some(&1));
    assert_eq!(long.labels.get("pointer"), Some(&1));
}

#[test]
fn rejects_update_condition_placeholder_collisions() {
    let expressions = [
        (
            Expression::new("SET #value = :next").name("#value", "value"),
            Expression::new("#value = :previous").name("#value", "previous"),
        ),
        (
            Expression::new("SET value = :value").string(":value", "next"),
            Expression::new("value = :value").string(":value", "previous"),
        ),
    ];

    for (update, condition) in expressions {
        let error = failure(
            Transaction::new()
                .update("Records", key("one"), update)
                .unwrap()
                .when(condition)
                .request(),
        );

        assert!(error.contains("placeholder"));
    }
}

#[test]
fn rejects_duplicate_labels() {
    let error = failure(
        Transaction::new()
            .delete("Records", key("one"))
            .unwrap()
            .label("pointer")
            .delete("Records", key("two"))
            .unwrap()
            .label("pointer")
            .request(),
    );

    assert!(error.contains("duplicate transaction label"));
}

#[test]
fn maps_cancellation_reasons_to_labels() {
    let reasons = codes(&["None", "ConditionalCheckFailed", "TransactionConflict"]);
    let mut labels = StrMap::new();
    labels.insert("session".to_string(), 0);
    labels.insert("pointer".to_string(), 1);
    labels.insert("previous".to_string(), 2);
    let error = TransactionError::canceled(reasons, labels);

    assert!(!error.failed("session"));
    assert!(error.failed("pointer"));
    assert!(!error.failed("previous"));
    assert!(!error.failed("unknown"));
}

#[test]
fn labels_beyond_the_reported_reasons_did_not_fail() {
    let mut labels = StrMap::new();
    labels.insert("late".to_string(), 5);
    let error = TransactionError::canceled(codes(&["ConditionalCheckFailed"]), labels);

    assert!(!error.failed("late"));
}

#[test]
fn steps_without_a_code_did_not_fail() {
    let mut labels = StrMap::new();
    labels.insert("quiet".to_string(), 0);
    let error = TransactionError::canceled(vec![None], labels);

    assert!(!error.failed("quiet"));
}

#[test]
fn other_failures_never_report_a_failed_step() {
    assert!(!TransactionError::invalid("broken").failed("pointer"));
    assert!(!TransactionError::database(Error::NotFound("gone".to_string())).failed("pointer"));
    assert!(!TransactionError::unavailable("timeout").failed("pointer"));
}

#[test]
fn an_empty_transaction_is_invalid() {
    assert_eq!(
        failure(Transaction::new().request()),
        "invalid transaction: a transaction requires at least one step"
    );
}

#[test]
fn conditions_and_labels_need_a_preceding_step() {
    assert_eq!(
        failure(Transaction::new().when(Expression::new("x")).request()),
        "invalid transaction: a condition requires a preceding step"
    );
    assert_eq!(
        failure(Transaction::new().label("first").request()),
        "invalid transaction: a label requires a preceding step"
    );
}

#[test]
fn a_step_takes_one_condition_and_one_label() {
    let twice = Transaction::new()
        .delete("Records", key("one"))
        .unwrap()
        .when(Expression::new("a"))
        .when(Expression::new("b"));
    assert_eq!(
        failure(twice.request()),
        "invalid transaction: a transaction step cannot have more than one condition"
    );

    let relabeled = Transaction::new()
        .delete("Records", key("one"))
        .unwrap()
        .label("first")
        .label("second");
    assert_eq!(
        failure(relabeled.request()),
        "invalid transaction: a transaction step cannot have more than one label"
    );
}

#[test]
fn assembly_problems_surface_at_the_next_fallible_step() {
    let error = Transaction::new()
        .label("early")
        .delete("Records", key("one"))
        .err()
        .unwrap();

    assert_eq!(error.message(), "invalid transaction: a label requires a preceding step");
}

#[test]
fn serialization_errors_stop_a_put() {
    let error = Transaction::new()
        .put("Records", Err(Error::Unavailable("bad".to_string())), key("one"))
        .err()
        .unwrap();

    assert_eq!(error.message(), "database unavailable: bad");
    assert!(matches!(error.into_error(), Error::Unavailable(text) if text == "bad"));
}

#[test]
fn each_step_keeps_its_own_bindings() {
    let request = Transaction::new()
        .update(
            "Records",
            key("one"),
            Expression::new("SET #v = :v").name("#v", "value").string(":v", "first"),
        )
        .unwrap()
        .update(
            "Records",
            key("two"),
            Expression::new("SET #v = :v").name("#v", "value").string(":v", "second"),
        )
        .unwrap()
        .when(Expression::new("attribute_exists(id)"))
        .request()
        .unwrap();

    let (first, second) = match (&request.writes[0], &request.writes[1]) {
        (Write::Update(first), Write::Update(second)) => (first, second),
        _ => panic!("two updates were expected"),
    };
    assert!(matches!(
        first.values.as_ref().unwrap().get(":v"),
        Some(AttributeValue::S(text)) if text == "first"
    ));
    assert!(matches!(
        second.values.as_ref().unwrap().get(":v"),
        Some(AttributeValue::S(text)) if text == "second"
    ));
    assert!(first.condition.is_none());
    assert_eq!(second.condition.as_deref(), Some("attribute_exists(id)"));
}

#[test]
fn puts_write_the_key_over_the_document() {
    let request = Transaction::new()
        .put("Records", record("stale"), key("fresh"))
        .unwrap()
        .request()
        .unwrap();

    match &request.writes[0] {
        Write::Put(put) => {
            assert!(matches!(put.item.get("id"), Some(AttributeValue::S(id)) if id == "fresh"));
            assert_eq!(put.table, "Records");
            assert!(put.condition.is_none());
        },
        _ => panic!("a put was expected"),
    }
}

#[test]
fn failures_map_to_the_crate_error() {
    assert!(matches!(
        TransactionError::database(Error::NotFound("gone".to_string())).into_error(),
        Error::NotFound(text) if text == "gone"
    ));
    assert!(matches!(
        TransactionError::invalid("broken").into_error(),
        Error::Unavailable(text) if text == "invalid transaction: broken"
    ));
    assert!(matches!(
        TransactionError::unavailable("timeout").into_error(),
        Error::Unavailable(text) if text == "database unavailable: timeout"
    ));
}

#[test]
fn cancellations_display_their_reason_codes() {
    let error = TransactionError::canceled(
        vec![Some("None".to_string()), None],
        StrMap::new(),
    );

    assert_eq!(error.message(), "transaction canceled: [Some(\"None\"), None]");
}

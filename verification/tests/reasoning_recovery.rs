use region_recovery::errors::{ApiError, ErrorBody, ErrorResponse, ResponseError, TransportError};
use region_recovery::items::ResponseItem;
use region_recovery::reasoning_recovery::{
    is_region_error, reasoning_digest, EncodedItem, ReasoningRecovery,
    MAX_COMPACTION_BYTES, MAX_COMPACTION_REPLACEMENTS, MAX_REJECTED_ITEMS,
};
use serde_json::Value;

const REGION_ERROR: &str = "encrypted reasoning is scoped to the region that produced it and cannot be replayed in a different region. Start a new response in this region instead of threading reasoning from another region.";

fn object(fields: &[(&str, Value)]) -> Value {
    let mut map = serde_json::Map::new();
    for (name, value) in fields {
        map.insert(name.to_string(), value.clone());
    }
    Value::Object(map)
}

fn error_document(code: &str, error_type: &str, message: &str) -> String {
    object(&[(
        "error",
        object(&[
            ("code", Value::from(code)),
            ("type", Value::from(error_type)),
            ("message", Value::from(message)),
        ]),
    )])
    .to_string()
}

/// What a body of an error response says.
fn decoded(body: &str) -> ErrorBody {
    let field = |name: &str| -> Option<String> {
        let document: Value = serde_json::from_str(body).ok()?;
        Some(document.get("error")?.get(name)?.as_str()?.to_string())
    };
    match (field("code"), field("message"), field("type")) {
        (Some(code), Some(message), Some(error_type)) => ErrorBody::Response(ErrorResponse {
            error: ResponseError { code, message, error_type },
        }),
        _ => ErrorBody::Unrecognized,
    }
}

fn http(status: u16, body: &str) -> ApiError {
    ApiError::Transport(TransportError::Http { status, body: Some(decoded(body)) })
}

fn http_error(status: u16, code: &str, message: &str) -> ApiError {
    http(status, &error_document(code, "invalid_request_error", message))
}

fn reasoning(content: &str) -> ResponseItem {
    ResponseItem::Reasoning {
        encrypted_content: Some(content.to_string()),
        rest: r#"{"summary":[]}"#.to_string(),
    }
}

fn message(text: &str) -> ResponseItem {
    ResponseItem::Other {
        kind: "message".to_string(),
        rest: object(&[
            ("role", Value::from("user")),
            (
                "content",
                Value::Array(vec![object(&[
                    ("type", Value::from("input_text")),
                    ("text", Value::from(text)),
                ])]),
            ),
        ])
        .to_string(),
    }
}

fn checkpoint(content: &str) -> ResponseItem {
    ResponseItem::Compaction { encrypted_content: content.to_string(), rest: "{}".to_string() }
}

fn encoded(item: &ResponseItem) -> EncodedItem {
    let value = match item {
        ResponseItem::Compaction { encrypted_content, .. } => object(&[
            ("type", Value::from("compaction")),
            ("encrypted_content", Value::from(encrypted_content.as_str())),
        ]),
        ResponseItem::Reasoning { encrypted_content, .. } => object(&[
            ("type", Value::from("reasoning")),
            ("encrypted_content", Value::from(encrypted_content.clone())),
        ]),
        _ => Value::Null,
    };
    EncodedItem {
        item: item.clone(),
        encoded_len: serde_json::to_vec(&value).ok().map(|bytes| bytes.len()),
    }
}

fn of_len(content: &str, encoded_len: Option<usize>) -> EncodedItem {
    EncodedItem { item: checkpoint(content), encoded_len }
}

fn prepared(recovery: &ReasoningRecovery, input: &[ResponseItem]) -> Vec<ResponseItem> {
    let mut outgoing = input.to_vec();
    recovery.prepare(&mut outgoing);
    outgoing
}

#[test]
fn recovery_filters_only_rejected_reasoning_and_preserves_new_reasoning() {
    let mut recovery = ReasoningRecovery::default();
    let old = reasoning("old-region");
    let fresh = reasoning("new-region");
    let message = message("continue");
    let compaction = checkpoint("compacted history");
    let input = vec![compaction.clone(), old.clone(), message.clone()];
    let mut outgoing = input.clone();
    recovery.prepare(&mut outgoing);
    assert_eq!(outgoing, input);

    let error = http_error(400, "validation_error", REGION_ERROR);
    assert!(recovery.recover(&error, &input));
    outgoing.push(fresh.clone());
    recovery.prepare(&mut outgoing);
    assert_eq!(outgoing, vec![compaction, message.clone(), fresh.clone()]);
    assert!(!recovery.recover(&error, &input));

    // Another switch can reject the new region, while earlier rejected items stay excluded.
    assert!(recovery.recover(&error, std::slice::from_ref(&fresh)));
    let mut outgoing = vec![old, message.clone(), fresh];
    recovery.prepare(&mut outgoing);
    assert_eq!(outgoing, vec![message]);
}

#[test]
fn unrelated_errors_and_inputs_without_encrypted_reasoning_do_not_recover() {
    let mut recovery = ReasoningRecovery::default();
    let input = vec![reasoning("old-region")];
    for error in [
        http_error(400, "validation_error", "invalid input"),
        http_error(400, "other_error", REGION_ERROR),
        http_error(401, "validation_error", REGION_ERROR),
        ApiError::Stream(REGION_ERROR.to_string()),
    ] {
        assert!(!recovery.recover(&error, &input));
    }
    let malformed = http(400, REGION_ERROR);
    assert!(!recovery.recover(&malformed, &input));
    assert!(!recovery.recover(&http_error(400, "validation_error", REGION_ERROR), &[]));
    let mut outgoing = input.clone();
    recovery.prepare(&mut outgoing);
    assert_eq!(outgoing, input);
}

#[test]
fn regenerated_compactions_are_replaced_atomically_and_can_switch_regions_again() {
    let mut recovery = ReasoningRecovery::default();
    let original = checkpoint("original");
    let east = checkpoint("east");
    let west = checkpoint("west");
    let fresh_reasoning = reasoning("fresh");
    for replacement in [&east, &west] {
        assert!(recovery.install_compactions(vec![(original.clone(), encoded(replacement))]));
        let mut outgoing = vec![original.clone(), fresh_reasoning.clone()];
        recovery.prepare(&mut outgoing);
        assert_eq!(outgoing, vec![replacement.clone(), fresh_reasoning.clone()]);
    }
    assert!(!recovery.install_compactions(vec![
        (original.clone(), encoded(&east)),
        (checkpoint("other"), encoded(&reasoning("not a checkpoint"))),
    ]));
    let mut outgoing = vec![original];
    recovery.prepare(&mut outgoing);
    assert_eq!(outgoing, vec![west]);
}

#[test]
fn oversized_regenerated_compaction_is_not_installed() {
    let mut recovery = ReasoningRecovery::default();
    let original = checkpoint("original");
    let oversized = checkpoint(&"x".repeat(MAX_COMPACTION_BYTES + 1));
    assert!(!recovery.install_compactions(vec![(original.clone(), encoded(&oversized))]));
    let mut outgoing = vec![original.clone()];
    recovery.prepare(&mut outgoing);
    assert_eq!(outgoing, vec![original]);
}

#[test]
fn internal_server_error_recovery_is_bounded_and_keeps_fresh_reasoning() {
    let mut recovery = ReasoningRecovery::default();
    let error = http(
        500,
        &error_document(
            "internal_server_error",
            "server_error",
            "The server had an error while processing your request. Sorry about that!",
        ),
    );
    let old = reasoning("old-model");
    let fresh = reasoning("current-model");
    assert!(!recovery.recover(&error, &[]));
    assert!(recovery.recover(&error, std::slice::from_ref(&old)));
    assert!(!recovery.recover(&error, std::slice::from_ref(&old)));
    let mut input = vec![old, fresh.clone()];
    recovery.prepare(&mut input);
    assert_eq!(input, vec![fresh]);
}

#[test]
fn unrelated_internal_errors_do_not_discard_reasoning() {
    let mut recovery = ReasoningRecovery::default();
    let input = vec![reasoning("current-model")];
    for body in [
        "internal proxy error".to_string(),
        error_document("other_error", "server_error", "other failure"),
    ] {
        assert!(!recovery.recover(&http(500, &body), &input));
    }
    let mut outgoing = input.clone();
    recovery.prepare(&mut outgoing);
    assert_eq!(outgoing, input);
}

#[test]
fn errors_without_a_body_do_not_recover() {
    let mut recovery = ReasoningRecovery::default();
    let input = vec![reasoning("old")];
    for error in [
        ApiError::Transport(TransportError::Http { status: 400, body: None }),
        ApiError::Transport(TransportError::Http { status: 500, body: None }),
        ApiError::Transport(TransportError::Other("timeout".to_string())),
        ApiError::Other(REGION_ERROR.to_string()),
    ] {
        assert!(!recovery.recover(&error, &input));
    }
}

#[test]
fn the_status_decides_which_document_counts() {
    let region = error_document("validation_error", "invalid_request_error", REGION_ERROR);
    let internal = error_document("internal_server_error", "server_error", "");
    let input = vec![reasoning("old")];
    assert!(is_region_error(&decoded(&region)));
    assert!(!is_region_error(&decoded(&internal)));
    assert!(!is_region_error(&decoded(&error_document(
        "validation_error",
        "server_error",
        REGION_ERROR,
    ))));
    assert!(!ReasoningRecovery::default().recover(&http(500, &region), &input));
    assert!(!ReasoningRecovery::default().recover(&http(400, &internal), &input));
    assert!(ReasoningRecovery::default().recover(&http(400, &region), &input));
    assert!(ReasoningRecovery::default().recover(&http(500, &internal), &input));
}

#[test]
fn only_encrypted_reasoning_has_a_digest() {
    assert!(reasoning_digest(&reasoning("a")).is_some());
    assert_ne!(reasoning_digest(&reasoning("a")), reasoning_digest(&reasoning("b")));
    let plain = ResponseItem::Reasoning { encrypted_content: None, rest: "{}".to_string() };
    for item in [plain.clone(), checkpoint("a"), message("a"), ResponseItem::CompactionTrigger] {
        assert_eq!(reasoning_digest(&item), None);
    }
    let mut recovery = ReasoningRecovery::default();
    let error = http_error(400, "validation_error", REGION_ERROR);
    assert!(!recovery.recover(&error, &[plain.clone(), checkpoint("a")]));
    assert!(recovery.recover(&error, &[plain.clone(), reasoning("a")]));
    assert_eq!(prepared(&recovery, &[plain.clone(), reasoning("a")]), vec![plain]);
}

#[test]
fn rejected_items_are_counted_once_and_bounded() {
    let mut recovery = ReasoningRecovery::default();
    let error = http_error(400, "validation_error", REGION_ERROR);
    let mut items: Vec<ResponseItem> =
        (0..MAX_REJECTED_ITEMS).map(|i| reasoning(&format!("item {}", i))).collect();
    items.push(reasoning("item 0"));
    let mut too_many = items.clone();
    too_many.push(reasoning("one more"));
    assert!(!recovery.recover(&error, &too_many));
    assert_eq!(prepared(&recovery, &items), items);
    assert!(recovery.recover(&error, &items));
    assert_eq!(prepared(&recovery, &items), vec![]);
    assert!(!recovery.recover(&error, &[reasoning("one more")]));
    assert_eq!(prepared(&recovery, &[reasoning("one more")]), vec![reasoning("one more")]);
}

#[test]
fn the_number_of_replacements_is_bounded() {
    let mut recovery = ReasoningRecovery::default();
    let pair = |i: usize| {
        (checkpoint(&format!("old {}", i)), of_len(&format!("new {}", i), Some(10)))
    };
    assert!(!recovery.install_compactions((0..=MAX_COMPACTION_REPLACEMENTS).map(pair).collect()));
    assert_eq!(prepared(&recovery, &[checkpoint("old 0")]), vec![checkpoint("old 0")]);
    assert!(recovery.install_compactions((0..MAX_COMPACTION_REPLACEMENTS).map(pair).collect()));
    assert!(!recovery.install_compactions(vec![pair(MAX_COMPACTION_REPLACEMENTS)]));
    assert!(recovery.install_compactions(vec![(checkpoint("old 3"), of_len("newer", Some(10)))]));
    assert_eq!(
        prepared(&recovery, &[checkpoint("old 2"), checkpoint("old 3"), checkpoint("old 64")]),
        vec![checkpoint("new 2"), checkpoint("newer"), checkpoint("old 64")],
    );
}

#[test]
fn replacements_share_the_byte_limit() {
    let mut recovery = ReasoningRecovery::default();
    let half = MAX_COMPACTION_BYTES / 2;
    assert!(recovery.install_compactions(vec![
        (checkpoint("a"), of_len("a2", Some(half))),
        (checkpoint("b"), of_len("b2", Some(half))),
    ]));
    assert!(!recovery.install_compactions(vec![(checkpoint("c"), of_len("c2", Some(1)))]));
    assert!(!recovery.install_compactions(vec![(checkpoint("a"), of_len("a3", Some(half + 1)))]));
    assert!(recovery.install_compactions(vec![
        (checkpoint("a"), of_len("a3", Some(half - 1))),
        (checkpoint("c"), of_len("c2", Some(1))),
    ]));
    assert!(!recovery.install_compactions(vec![
        (checkpoint("a"), of_len("a4", Some(usize::MAX))),
        (checkpoint("b"), of_len("b4", Some(usize::MAX))),
    ]));
    assert_eq!(
        prepared(&recovery, &[checkpoint("a"), checkpoint("b"), checkpoint("c")]),
        vec![checkpoint("a3"), checkpoint("b2"), checkpoint("c2")],
    );
}

#[test]
fn a_replacement_that_cannot_be_encoded_is_refused_unless_it_is_displaced() {
    let mut recovery = ReasoningRecovery::default();
    assert!(!recovery.install_compactions(vec![(checkpoint("a"), of_len("a2", None))]));
    assert!(recovery.install_compactions(vec![
        (checkpoint("a"), of_len("a2", None)),
        (checkpoint("a"), of_len("a3", Some(10))),
    ]));
    assert_eq!(prepared(&recovery, &[checkpoint("a")]), vec![checkpoint("a3")]);
    assert!(recovery.install_compactions(vec![]));
}

#[test]
fn both_items_of_a_pair_must_be_checkpoints() {
    let mut recovery = ReasoningRecovery::default();
    assert!(!recovery.install_compactions(vec![(message("a"), of_len("a2", Some(1)))]));
    assert!(!recovery.install_compactions(vec![(
        checkpoint("a"),
        EncodedItem { item: message("a2"), encoded_len: Some(1) },
    )]));
    assert_eq!(prepared(&recovery, &[checkpoint("a")]), vec![checkpoint("a")]);
}

#[test]
fn replacements_are_not_replaced_in_turn() {
    let mut recovery = ReasoningRecovery::default();
    assert!(recovery.install_compactions(vec![
        (checkpoint("a"), of_len("b", Some(1))),
        (checkpoint("b"), of_len("c", Some(1))),
    ]));
    assert_eq!(
        prepared(&recovery, &[checkpoint("a"), message("m"), checkpoint("b")]),
        vec![checkpoint("b"), message("m"), checkpoint("c")],
    );
}

#[test]
fn reasoning_is_rejected_once_whatever_happens_later() {
    let region_error = http_error(400, "validation_error", REGION_ERROR);
    let internal_error = http(500, &error_document("internal_server_error", "server_error", "failed"));
    let (old, new) = (checkpoint("west"), checkpoint("east"));
    let mut recovery = ReasoningRecovery::default();
    assert!(recovery.recover(&region_error, &[reasoning("a"), message("task"), reasoning("b")]));
    assert!(recovery.install_compactions(vec![(old.clone(), encoded(&new))]));
    assert!(recovery.recover(&internal_error, &[reasoning("a"), reasoning("c")]));

    for error in [&region_error, &internal_error] {
        assert!(!recovery.recover(error, &[reasoning("b"), message("another"), reasoning("b")]));
        assert!(!recovery.recover(error, &[reasoning("b"), reasoning("a")]));
        assert!(!recovery.recover(error, &[message("task")]));
    }
    assert_eq!(
        prepared(&recovery, &[reasoning("b"), old, reasoning("d"), reasoning("a")]),
        vec![new, reasoning("d")],
    );
    assert!(recovery.recover(&internal_error, &[reasoning("b"), reasoning("d")]));
}

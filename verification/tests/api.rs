use npnp::json::Value;
use npnp::lceda::api::{
    after_failed_attempt, find_exact_lcsc_id_match, is_lcsc_id_keyword, is_retryable_status,
    resolve_model_uuid, retry_delay_for_attempt, search_items_from_payload, seed_model_uuid,
    select_from_items, should_retry_request_error, RetryStep,
};
use npnp::json::Number;
use npnp::{AppError, SearchItem};
use std::time::Duration;

fn text(s: &str) -> Value {
    Value::String(s.to_string())
}

fn object(entries: Vec<(&str, Value)>) -> Value {
    Value::Object(entries.into_iter().map(|(k, v)| (k.to_string(), v)).collect())
}

fn item(index: usize, display_title: &str, lcsc_id: &str) -> SearchItem {
    SearchItem {
        index,
        display_title: display_title.to_string(),
        title: String::new(),
        manufacturer: String::new(),
        model_uuid: None,
        raw: object(vec![("product_code", text(lcsc_id))]),
    }
}

#[test]
fn selects_exact_lcsc_id_match_for_default_index() {
    let items = vec![
        item(1, "Almost Match", "C20400"),
        item(2, "Exact Match", "C2040"),
    ];

    let selected = select_from_items("C2040", 1, &items).expect("select exact item");
    assert_eq!(selected.display_name(), "Exact Match");
    assert_eq!(selected.index, 2);
}

#[test]
fn explicit_non_default_index_keeps_index_selection() {
    let items = vec![item(1, "Exact Match", "C2040"), item(2, "Other", "C9999")];

    let selected = select_from_items("C2040", 2, &items).expect("select indexed item");
    assert_eq!(selected.display_name(), "Other");
    assert_eq!(selected.index, 2);
}

#[test]
fn recognizes_exact_lcsc_id_keywords() {
    assert!(is_lcsc_id_keyword("C2040"));
    assert!(is_lcsc_id_keyword(" c2040 "));
    assert!(!is_lcsc_id_keyword("C"));
    assert!(!is_lcsc_id_keyword("C20A40"));
    assert!(!is_lcsc_id_keyword("RP2040"));
}

#[test]
fn retries_transient_http_status_codes() {
    for status in [408u16, 425, 429, 500, 502, 503, 504] {
        assert!(
            is_retryable_status(status),
            "expected retryable status: {status}"
        );
    }
}

#[test]
fn does_not_retry_permanent_http_status_codes() {
    for status in [400u16, 401, 403, 404, 422] {
        assert!(
            !is_retryable_status(status),
            "expected non-retryable status: {status}"
        );
    }
}

#[test]
fn retry_delay_grows_per_attempt() {
    assert_eq!(Duration::from_millis(retry_delay_for_attempt(0)), Duration::from_millis(250));
    assert_eq!(Duration::from_millis(retry_delay_for_attempt(1)), Duration::from_millis(500));
    assert_eq!(Duration::from_millis(retry_delay_for_attempt(2)), Duration::from_millis(1000));
}

#[test]
fn retry_delay_stops_growing_after_eight_doublings() {
    assert_eq!(retry_delay_for_attempt(8), 64000);
    assert_eq!(retry_delay_for_attempt(9), 64000);
    assert_eq!(retry_delay_for_attempt(usize::MAX), 64000);
}

#[test]
fn failed_attempts_retry_only_while_attempts_remain() {
    assert_eq!(after_failed_attempt(0, true), RetryStep::Retry { delay_ms: 250 });
    assert_eq!(after_failed_attempt(1, true), RetryStep::Retry { delay_ms: 500 });
    assert_eq!(after_failed_attempt(2, true), RetryStep::GiveUp);
    assert_eq!(after_failed_attempt(0, false), RetryStep::GiveUp);
}

#[test]
fn request_errors_worth_retrying() {
    assert!(should_retry_request_error(true, false, None));
    assert!(should_retry_request_error(false, true, None));
    assert!(should_retry_request_error(false, false, Some(503)));
    assert!(!should_retry_request_error(false, false, Some(404)));
    assert!(!should_retry_request_error(false, false, None));
}

#[test]
fn selection_errors() {
    let empty: Vec<SearchItem> = Vec::new();
    assert_eq!(
        select_from_items("C1", 1, &empty).unwrap_err(),
        AppError::NoResults("C1".to_string())
    );
    let items = vec![item(1, "A", "C1")];
    assert_eq!(
        select_from_items("x", 2, &items).unwrap_err(),
        AppError::InvalidIndex { keyword: "x".to_string(), index: 2, max: 1 }
    );
    assert_eq!(
        select_from_items("x", 0, &items).unwrap_err(),
        AppError::InvalidIndex { keyword: "x".to_string(), index: 0, max: 1 }
    );
}

#[test]
fn exact_match_ignores_ascii_case_and_surrounding_space() {
    let items = vec![item(1, "A", "C5"), item(2, "B", "c2040"), item(3, "C", "C2040")];
    let found = find_exact_lcsc_id_match("  C2040 ", &items).unwrap();
    assert_eq!(found.index, 2);
    assert!(find_exact_lcsc_id_match("RP2040", &items).is_none());
    assert!(find_exact_lcsc_id_match("C7", &items).is_none());
}

#[test]
fn search_payload_becomes_items() {
    let row1 = object(vec![
        ("display_title", text("USB-C")),
        ("title", text("TYPE-C 16P")),
        (
            "attributes",
            object(vec![("Manufacturer", text("SHOU HAN")), ("3D Model", text("abc"))]),
        ),
    ]);
    let row2 = object(vec![("title", Value::Bool(true))]);
    let payload = object(vec![("result", Value::Array(vec![row1, row2]))]);
    let items = search_items_from_payload(&payload);
    assert_eq!(items.len(), 2);
    assert_eq!(items[0].index, 1);
    assert_eq!(items[0].display_title, "USB-C");
    assert_eq!(items[0].title, "TYPE-C 16P");
    assert_eq!(items[0].manufacturer, "SHOU HAN");
    assert_eq!(items[0].model_uuid.as_deref(), Some("abc"));
    assert_eq!(items[1].index, 2);
    assert_eq!(items[1].title, "");
    assert_eq!(items[1].display_name(), "component");
    assert!(items[1].model_uuid.is_none());
    assert!(search_items_from_payload(&object(vec![("result", Value::Null)])).is_empty());
}

#[test]
fn model_uuid_resolution() {
    let number = |text: &str, n: Option<i64>| {
        Value::Number(Number { text: text.to_string(), as_i64: n })
    };
    let ok = object(vec![
        ("code", number("0", Some(0))),
        ("result", object(vec![("3d_model_uuid", text("resolved"))])),
    ]);
    assert_eq!(resolve_model_uuid("seed", &ok), "resolved");
    let failed = object(vec![
        ("code", number("500", Some(500))),
        ("result", object(vec![("3d_model_uuid", text("resolved"))])),
    ]);
    assert_eq!(resolve_model_uuid("seed", &failed), "seed");
    let missing = object(vec![("result", object(vec![]))]);
    assert_eq!(resolve_model_uuid("seed", &missing), "seed");
    let no_code = object(vec![("result", object(vec![("3d_model_uuid", text("r2"))]))]);
    assert_eq!(resolve_model_uuid("seed", &no_code), "r2");

    let mut it = item(1, "A", "C1");
    assert_eq!(seed_model_uuid(&it).unwrap_err(), AppError::MissingModelUuid);
    it.model_uuid = Some("m".to_string());
    assert_eq!(seed_model_uuid(&it).unwrap(), "m");
}

use serde_json::Value as JsonValue;
use webfunctions::fulltext::manticore_admin::{build_bulk_body, build_delete_body, parse_bulk_response, PlainDocWrite};

fn json(text: &str) -> JsonValue {
    serde_json::from_str(text).unwrap()
}

#[test]
fn build_bulk_body_flat_doc() {
    let docs = vec![PlainDocWrite {
        id: "urn:s:1".into(),
        fields: vec![
            ("label".into(), "widget".into()),
            ("desc".into(), "a small widget".into()),
        ],
        lang: Some("en".into()),
    }];
    let body = build_bulk_body("products", &docs);

    assert_eq!(body.matches('\n').count(), 1);
    let line = body.trim_end_matches('\n');
    let parsed: JsonValue = serde_json::from_str(line).unwrap();
    assert_eq!(parsed["replace"]["index"], "products");
    assert_eq!(parsed["replace"]["id"], "urn:s:1");
    assert_eq!(parsed["replace"]["doc"]["label"], "widget");
    assert_eq!(parsed["replace"]["doc"]["desc"], "a small widget");
    assert_eq!(parsed["replace"]["doc"]["lang"], "en");
}

#[test]
fn build_bulk_body_omits_empty_lang() {
    let docs = vec![PlainDocWrite {
        id: "urn:s:1".into(),
        fields: vec![("label".into(), "x".into())],
        lang: None,
    }];
    let body = build_bulk_body("products", &docs);
    let parsed: JsonValue = serde_json::from_str(body.trim_end_matches('\n')).unwrap();
    assert!(!parsed["replace"]["doc"]
        .as_object()
        .unwrap()
        .contains_key("lang"));
}

#[test]
fn build_bulk_body_empty_when_no_docs() {
    let body = build_bulk_body("products", &[]);
    assert!(body.is_empty());
}

#[test]
fn build_delete_body_one_line_per_id() {
    let ids = vec!["urn:s:1".to_string(), "urn:s:2".to_string()];
    let body = build_delete_body("products", &ids);
    assert_eq!(body.matches('\n').count(), 2);
    let mut lines = body.trim_end_matches('\n').lines();
    let first: JsonValue = serde_json::from_str(lines.next().unwrap()).unwrap();
    assert_eq!(first["delete"]["index"], "products");
    assert_eq!(first["delete"]["id"], "urn:s:1");
    let second: JsonValue = serde_json::from_str(lines.next().unwrap()).unwrap();
    assert_eq!(second["delete"]["id"], "urn:s:2");
}

#[test]
fn parse_bulk_response_counts_successes() {
    let body = json(r#"{
        "items": [
            { "replace": { "_id": "urn:s:1", "result": "created" } },
            { "replace": { "_id": "urn:s:2", "result": "updated" } }
        ],
        "errors": false
    }"#)
    .to_string();
    let n = parse_bulk_response(&body).unwrap();
    assert_eq!(n, 2);
}

#[test]
fn parse_bulk_response_errors_true_surfaces_first_error() {
    let body = json(r#"{
        "items": [
            { "replace": { "_id": "urn:s:1", "result": "created" } },
            { "replace": { "_id": "urn:s:2", "error": "schema mismatch" } }
        ],
        "errors": true
    }"#)
    .to_string();
    let err = parse_bulk_response(&body).unwrap_err();
    assert!(err.contains("urn:s:2") && err.contains("schema mismatch"), "err: {err}");
}

#[test]
fn parse_bulk_response_missing_items_errors() {
    let err = parse_bulk_response(r#"{"errors":false}"#).unwrap_err();
    assert!(err.contains("missing"));
}

#[test]
fn parse_bulk_response_invalid_json_errors() {
    let err = parse_bulk_response("not-json").unwrap_err();
    assert!(err.contains("valid JSON"));
}

use serde_json::Value as JsonValue;
use webfunctions::document::manticore_admin::{build_bulk_body, build_delete_body, parse_bulk_response, PlainDocWrite};

fn json(text: &str) -> JsonValue {
    serde_json::from_str(text).unwrap()
}

#[test]
fn manticore_admin_build_bulk_body_flat_doc() {
    let docs = vec![PlainDocWrite {
        id: "sirix://docs/manuals/1".into(),
        fields: vec![
            ("title".into(), "widget".into()),
            ("desc".into(), "a small widget".into()),
        ],
        lang: Some("en".into()),
    }];
    let body = build_bulk_body("manuals", &docs);
    assert_eq!(body.matches('\n').count(), 1);
    let line = body.trim_end_matches('\n');
    let parsed: JsonValue = serde_json::from_str(line).unwrap();
    assert_eq!(parsed["replace"]["index"], "manuals");
    assert_eq!(parsed["replace"]["id"], "sirix://docs/manuals/1");
    assert_eq!(parsed["replace"]["doc"]["title"], "widget");
    assert_eq!(parsed["replace"]["doc"]["desc"], "a small widget");
    assert_eq!(parsed["replace"]["doc"]["lang"], "en");
}

#[test]
fn manticore_admin_build_bulk_body_omits_empty_lang() {
    let docs = vec![PlainDocWrite {
        id: "sirix://docs/manuals/1".into(),
        fields: vec![("title".into(), "x".into())],
        lang: None,
    }];
    let body = build_bulk_body("manuals", &docs);
    let parsed: JsonValue = serde_json::from_str(body.trim_end_matches('\n')).unwrap();
    assert!(!parsed["replace"]["doc"]
        .as_object()
        .unwrap()
        .contains_key("lang"));
}

#[test]
fn manticore_admin_build_bulk_body_empty_when_no_docs() {
    let body = build_bulk_body("manuals", &[]);
    assert!(body.is_empty());
}

#[test]
fn manticore_admin_build_delete_body_one_line_per_id() {
    let ids = vec![
        "sirix://docs/manuals/1".to_string(),
        "sirix://docs/manuals/2".to_string(),
    ];
    let body = build_delete_body("manuals", &ids);
    assert_eq!(body.matches('\n').count(), 2);
    let mut lines = body.trim_end_matches('\n').lines();
    let first: JsonValue = serde_json::from_str(lines.next().unwrap()).unwrap();
    assert_eq!(first["delete"]["index"], "manuals");
    assert_eq!(first["delete"]["id"], "sirix://docs/manuals/1");
    let second: JsonValue = serde_json::from_str(lines.next().unwrap()).unwrap();
    assert_eq!(second["delete"]["id"], "sirix://docs/manuals/2");
}

#[test]
fn manticore_admin_parse_bulk_response_counts_successes() {
    let body = json(r#"{
        "items": [
            { "replace": { "_id": "sirix://docs/manuals/1", "result": "created" } },
            { "replace": { "_id": "sirix://docs/manuals/2", "result": "updated" } }
        ],
        "errors": false
    }"#)
    .to_string();
    let n = parse_bulk_response(&body).unwrap();
    assert_eq!(n, 2);
}

#[test]
fn manticore_admin_parse_bulk_response_errors_true_surfaces_first_error() {
    let body = json(r#"{
        "items": [
            { "replace": { "_id": "sirix://docs/manuals/1", "result": "created" } },
            { "replace": { "_id": "sirix://docs/manuals/2", "error": "schema mismatch" } }
        ],
        "errors": true
    }"#)
    .to_string();
    let err = parse_bulk_response(&body).unwrap_err();
    assert!(err.contains("sirix://docs/manuals/2") && err.contains("schema mismatch"), "err: {err}");
}

#[test]
fn manticore_admin_parse_bulk_response_missing_items_errors() {
    let err = parse_bulk_response(r#"{"errors":false}"#).unwrap_err();
    assert!(err.contains("missing"));
}

#[test]
fn manticore_admin_parse_bulk_response_invalid_json_errors() {
    let err = parse_bulk_response("not-json").unwrap_err();
    assert!(err.contains("valid JSON"));
}

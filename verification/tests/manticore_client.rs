use serde_json::Value as JsonValue;
use webfunctions::document::manticore::{
    build_probe_body, build_request_body, parse_response, schema_has_valid_from, AtTime, Hit, PlainOpts,
};
use webfunctions::document::calls::is_empty_range;
use webfunctions::json::Json;

fn score(hit: &Hit) -> f64 {
    match &hit.score {
        Json::Real(n) => n.number().as_f64().unwrap(),
        other => panic!("not a real: {other:?}"),
    }
}

fn json(text: &str) -> JsonValue {
    serde_json::from_str(text).unwrap()
}

fn current_only_guard() -> JsonValue {
    json(r#"{ "equals": { "_valid_to": null } }"#)
}

#[test]
fn body_minimal() {

    let body = build_request_body("docs", "fox", &PlainOpts::default()).unwrap();
    let parsed: JsonValue = serde_json::from_str(&body).unwrap();
    assert_eq!(
        parsed,
        json(r#"{
            "table": "docs",
            "query": {
                "bool": {
                    "must":   [{ "match": { "*": "fox" } }],
                    "filter": [{ "equals": { "_valid_to": null } }]
                }
            }
        }"#)
    );
}

#[test]
fn body_with_limit_and_offset() {
    let opts = PlainOpts {
        limit: Some(20),
        offset: Some(40),
        ..PlainOpts::default()
    };
    let body = build_request_body("docs", "fox", &opts).unwrap();
    let parsed: JsonValue = serde_json::from_str(&body).unwrap();
    assert_eq!(parsed["limit"], json(r#"20"#));
    assert_eq!(parsed["offset"], json(r#"40"#));
}

#[test]
fn body_omits_offset_when_none() {
    let opts = PlainOpts {
        limit: Some(20),
        ..PlainOpts::default()
    };
    let body = build_request_body("docs", "fox", &opts).unwrap();
    let parsed: JsonValue = serde_json::from_str(&body).unwrap();
    assert!(!parsed.as_object().unwrap().contains_key("offset"));
}

#[test]
fn body_with_fields_projection() {
    let opts = PlainOpts {
        fields: vec!["title".into(), "body".into()],
        ..PlainOpts::default()
    };
    let body = build_request_body("docs", "fox", &opts).unwrap();
    let parsed: JsonValue = serde_json::from_str(&body).unwrap();
    assert_eq!(parsed["_source"], json(r#"{ "includes": ["title", "body"] }"#));
}

#[test]
fn body_omits_source_when_fields_empty() {
    let body = build_request_body("docs", "fox", &PlainOpts::default()).unwrap();
    let parsed: JsonValue = serde_json::from_str(&body).unwrap();
    assert!(!parsed.as_object().unwrap().contains_key("_source"));
}

#[test]
fn body_with_highlight() {
    let opts = PlainOpts {
        highlight: true,
        ..PlainOpts::default()
    };
    let body = build_request_body("docs", "fox", &opts).unwrap();
    let parsed: JsonValue = serde_json::from_str(&body).unwrap();
    assert_eq!(parsed["highlight"], json(r#"{}"#));
}

#[test]
fn body_omits_highlight_when_false() {
    let body = build_request_body("docs", "fox", &PlainOpts::default()).unwrap();
    let parsed: JsonValue = serde_json::from_str(&body).unwrap();
    assert!(!parsed.as_object().unwrap().contains_key("highlight"));
}

#[test]
fn body_with_lang_wraps_in_bool_filter() {
    let opts = PlainOpts {
        lang: Some("en".into()),
        ..PlainOpts::default()
    };
    let body = build_request_body("docs", "fox", &opts).unwrap();
    let parsed: JsonValue = serde_json::from_str(&body).unwrap();

    assert_eq!(
        parsed["query"],
        json(r#"{
            "bool": {
                "must":   [{ "match": { "*": "fox" } }],
                "filter": [
                    { "equals": { "lang": "en" } },
                    { "equals": { "_valid_to": null } }
                ]
            }
        }"#)
    );
}

#[test]
fn body_with_filter_string_forwarded_verbatim() {
    let opts = PlainOpts {
        filter: Some(r#"{"equals":{"category":"book"}}"#.into()),
        ..PlainOpts::default()
    };
    let body = build_request_body("docs", "fox", &opts).unwrap();
    let parsed: JsonValue = serde_json::from_str(&body).unwrap();

    assert_eq!(
        parsed["query"]["bool"]["filter"],
        json(r#"[
            { "equals": { "category": "book" } },
            { "equals": { "_valid_to": null } }
        ]"#)
    );
}

#[test]
fn body_with_lang_and_filter_combined() {
    let opts = PlainOpts {
        lang: Some("de".into()),
        filter: Some(r#"{"range":{"price":{"lt":50}}}"#.into()),
        ..PlainOpts::default()
    };
    let body = build_request_body("docs", "fox", &opts).unwrap();
    let parsed: JsonValue = serde_json::from_str(&body).unwrap();
    let filters = parsed["query"]["bool"]["filter"].as_array().unwrap();

    assert_eq!(filters.len(), 3);
    assert_eq!(filters[0], json(r#"{ "equals": { "lang": "de" } }"#));
    assert_eq!(filters[1], json(r#"{ "range": { "price": { "lt": 50 } } }"#));
    assert_eq!(filters[2], current_only_guard());
}

#[test]
fn body_rejects_invalid_filter_json() {
    let opts = PlainOpts {
        filter: Some("not-json{".into()),
        ..PlainOpts::default()
    };
    let err = build_request_body("docs", "fox", &opts).unwrap_err();
    assert!(err.contains("opts.filter"));
}

fn canned_response() -> String {
    json(r#"{
        "hits": {
            "total": 2,
            "hits": [
                {
                    "_id":    "sirix://docs/manuals/1",
                    "_score": 0.987,
                    "_source": {
                        "title": "Quick brown fox",
                        "lang":  "en",
                        "views": 42
                    },
                    "highlight": { "*": ["a <b>quick</b> brown fox"] }
                },
                {
                    "_id":    "sirix://docs/manuals/2",
                    "_score": 0.55,
                    "_source": { "title": "Lazy dog" }
                }
            ]
        }
    }"#)
    .to_string()
}

#[test]
fn parse_response_maps_id_score_snippet() {
    let hits = parse_response(&canned_response()).unwrap();
    assert_eq!(hits.len(), 2);
    assert_eq!(hits[0].doc, "sirix://docs/manuals/1");
    assert_eq!(score(&hits[0]), 0.987);
    assert_eq!(
        hits[0].snippet.as_deref(),
        Some("a <b>quick</b> brown fox")
    );
    assert_eq!(hits[1].snippet, None);
}

#[test]
fn parse_response_leaves_body_and_content_type_none_when_source_lacks_them() {

    let hits = parse_response(&canned_response()).unwrap();
    assert_eq!(hits[0].body, None);
    assert_eq!(hits[0].content_type, None);
    assert_eq!(hits[1].body, None);
    assert_eq!(hits[1].content_type, None);
}

#[test]
fn parse_response_backcompat_populates_body_from_source() {

    let body = json(r#"{
        "hits": { "hits": [{
            "_id":    "sirix://docs/manuals/1",
            "_score": 0.5,
            "_source": {
                "title":        "Legacy mirror row",
                "body":         "waterproof rig full body",
                "content_type": "text/plain; charset=utf-8"
            }
        }]}
    }"#)
    .to_string();
    let hits = parse_response(&body).unwrap();
    assert_eq!(
        hits[0].body.as_deref().map(String::from_utf8_lossy).map(|s| s.to_string()),
        Some("waterproof rig full body".to_string())
    );
    assert_eq!(
        hits[0].content_type.as_deref(),
        Some("text/plain; charset=utf-8")
    );
}

#[test]
fn parse_response_extracts_source_fields() {
    let hits = parse_response(&canned_response()).unwrap();
    let expected: Vec<(String, String)> = vec![
        ("lang".into(), "en".into()),
        ("title".into(), "Quick brown fox".into()),
        ("views".into(), "42".into()),
    ];
    assert_eq!(hits[0].fields, expected);
    assert_eq!(hits[0].lang.as_deref(), Some("en"));
}

#[test]
fn parse_response_lang_none_when_absent_in_source() {
    let hits = parse_response(&canned_response()).unwrap();
    assert_eq!(hits[1].lang, None);
}

#[test]
fn parse_response_empty_hits() {
    let body = json(r#"{ "hits": { "total": 0, "hits": [] } }"#).to_string();
    let hits = parse_response(&body).unwrap();
    assert!(hits.is_empty());
}

#[test]
fn parse_response_invalid_json_errors() {
    let err = parse_response("not-json{").unwrap_err();
    assert!(err.contains("wf_document"));
}

#[test]
fn parse_response_missing_hits_hits_errors() {
    let body = json(r#"{ "hits": { "total": 0 } }"#).to_string();
    let err = parse_response(&body).unwrap_err();
    assert!(err.contains("missing"));
}

#[test]
fn parse_response_skips_nested_source_values() {
    let body = json(r#"{
        "hits": { "hits": [{
            "_id":    "sirix://docs/manuals/99",
            "_score": 0.1,
            "_source": {
                "name":   "widget",
                "tags":   ["a", "b"],
                "meta":   { "nested": true }
            }
        }]}
    }"#)
    .to_string();
    let hits = parse_response(&body).unwrap();
    let names: Vec<_> = hits[0].fields.iter().map(|(k, _)| k.as_str()).collect();
    assert_eq!(names, vec!["name"]);
}

#[test]
fn neither_restricts_to_current_only() {

    let body = build_request_body("docs", "fox", &PlainOpts::default()).unwrap();
    let parsed: JsonValue = serde_json::from_str(&body).unwrap();
    let filters = parsed["query"]["bool"]["filter"].as_array().unwrap();
    assert_eq!(filters.len(), 1);
    assert_eq!(filters[0], current_only_guard());
}

#[test]
fn at_time_iso_emits_interval_filter() {
    let opts = PlainOpts {
        at_time: Some(AtTime::Iso("2026-01-01T00:00:00Z".into())),
        ..PlainOpts::default()
    };
    let body = build_request_body("docs", "fox", &opts).unwrap();
    let parsed: JsonValue = serde_json::from_str(&body).unwrap();
    let filters = parsed["query"]["bool"]["filter"].as_array().unwrap();

    assert_eq!(filters.len(), 2);
    assert_eq!(
        filters[0],
        json(r#"{ "range": { "_valid_from": { "lte": "2026-01-01T00:00:00Z" } } }"#)
    );
    assert_eq!(
        filters[1],
        json(r#"{
            "bool": {
                "should": [
                    { "equals": { "_valid_to": null } },
                    { "range":  { "_valid_to": { "gt": "2026-01-01T00:00:00Z" } } }
                ]
            }
        }"#)
    );

    for f in filters {
        assert!(f != &current_only_guard(), "current-only guard leaked in");
    }
}

#[test]
fn at_time_epoch_emits_numeric_interval_filter() {
    let opts = PlainOpts {
        at_time: Some(AtTime::Epoch(1735689600)),
        ..PlainOpts::default()
    };
    let body = build_request_body("docs", "fox", &opts).unwrap();
    let parsed: JsonValue = serde_json::from_str(&body).unwrap();
    let filters = parsed["query"]["bool"]["filter"].as_array().unwrap();

    assert_eq!(
        filters[0],
        json(r#"{ "range": { "_valid_from": { "lte": 1735689600 } } }"#)
    );
    assert_eq!(
        filters[1]["bool"]["should"][1],
        json(r#"{ "range": { "_valid_to": { "gt": 1735689600 } } }"#)
    );
}

#[test]
fn at_rev_emits_equality_filter() {
    let opts = PlainOpts {
        at_rev: Some(17),
        ..PlainOpts::default()
    };
    let body = build_request_body("docs", "fox", &opts).unwrap();
    let parsed: JsonValue = serde_json::from_str(&body).unwrap();
    let filters = parsed["query"]["bool"]["filter"].as_array().unwrap();

    assert_eq!(filters.len(), 1);
    assert_eq!(filters[0], json(r#"{ "equals": { "_rev": 17 } }"#));
}

#[test]
fn both_at_time_and_at_rev_errors_at_build_body() {

    let opts = PlainOpts {
        at_time: Some(AtTime::Epoch(1735689600)),
        at_rev: Some(17),
        ..PlainOpts::default()
    };
    let err = build_request_body("docs", "fox", &opts).unwrap_err();
    assert!(err.contains("mutually exclusive"), "err={err}");
}

#[test]
fn at_time_composes_with_user_filter_and_lang() {

    let opts = PlainOpts {
        lang: Some("en".into()),
        filter: Some(r#"{"equals":{"category":"book"}}"#.into()),
        at_time: Some(AtTime::Iso("2026-01-01".into())),
        ..PlainOpts::default()
    };
    let body = build_request_body("docs", "fox", &opts).unwrap();
    let parsed: JsonValue = serde_json::from_str(&body).unwrap();
    let filters = parsed["query"]["bool"]["filter"].as_array().unwrap();

    assert_eq!(filters.len(), 4);
    assert_eq!(filters[0], json(r#"{ "equals": { "lang": "en" } }"#));
    assert_eq!(filters[1], json(r#"{ "equals": { "category": "book" } }"#));
    assert_eq!(
        filters[2],
        json(r#"{ "range": { "_valid_from": { "lte": "2026-01-01" } } }"#)
    );
}

#[test]
fn after_only_emits_open_range() {

    let opts = PlainOpts {
        after: Some(AtTime::Iso("2026-01-01T00:00:00Z".into())),
        ..PlainOpts::default()
    };
    let body = build_request_body("docs", "fox", &opts).unwrap();
    let parsed: JsonValue = serde_json::from_str(&body).unwrap();
    let filters = parsed["query"]["bool"]["filter"].as_array().unwrap();
    assert_eq!(filters.len(), 1);
    let range = &filters[0]["range"]["_valid_from"];
    assert_eq!(range["gte"], json(r#""2026-01-01T00:00:00Z""#));
    assert!(
        range.as_object().unwrap().get("lte").is_none(),
        "before is None → no `lte` bound emitted, got {range}"
    );

    for f in filters {
        assert!(f != &current_only_guard(), "current-only guard leaked into range mode");
    }
}

#[test]
fn before_only_emits_closed_range() {

    let opts = PlainOpts {
        before: Some(AtTime::Iso("2026-06-01T00:00:00Z".into())),
        ..PlainOpts::default()
    };
    let body = build_request_body("docs", "fox", &opts).unwrap();
    let parsed: JsonValue = serde_json::from_str(&body).unwrap();
    let filters = parsed["query"]["bool"]["filter"].as_array().unwrap();
    assert_eq!(filters.len(), 1);
    let range = &filters[0]["range"]["_valid_from"];
    assert_eq!(range["lte"], json(r#""2026-06-01T00:00:00Z""#));
    assert!(
        range.as_object().unwrap().get("gte").is_none(),
        "after is None → no `gte` bound emitted, got {range}"
    );
    for f in filters {
        assert!(f != &current_only_guard(), "current-only guard leaked into range mode");
    }
}

#[test]
fn after_and_before_emits_both_bounds() {

    let opts = PlainOpts {
        after: Some(AtTime::Epoch(1735689600)),
        before: Some(AtTime::Epoch(1743465600)),
        ..PlainOpts::default()
    };
    let body = build_request_body("docs", "fox", &opts).unwrap();
    let parsed: JsonValue = serde_json::from_str(&body).unwrap();
    let filters = parsed["query"]["bool"]["filter"].as_array().unwrap();
    assert_eq!(filters.len(), 1);
    let range = &filters[0]["range"]["_valid_from"];
    assert_eq!(range["gte"], json(r#"1735689600"#));
    assert_eq!(range["lte"], json(r#"1743465600"#));
    for f in filters {
        assert!(f != &current_only_guard(), "current-only guard leaked into range mode");
    }
}

#[test]
fn range_with_at_time_errors() {

    let opts = PlainOpts {
        after: Some(AtTime::Iso("2026-01-01".into())),
        at_time: Some(AtTime::Iso("2026-03-01".into())),
        ..PlainOpts::default()
    };
    let err = build_request_body("docs", "fox", &opts).unwrap_err();
    assert!(
        err.contains("mutually exclusive"),
        "expected mutual-exclusion error, got: {err}"
    );

    let opts_rev = PlainOpts {
        before: Some(AtTime::Iso("2026-06-01".into())),
        at_rev: Some(17),
        ..PlainOpts::default()
    };
    let err_rev = build_request_body("docs", "fox", &opts_rev).unwrap_err();
    assert!(
        err_rev.contains("mutually exclusive"),
        "expected mutual-exclusion error, got: {err_rev}"
    );
}

#[test]
fn empty_range_returns_empty() {
    let empty = |a: Option<AtTime>, b: Option<AtTime>| is_empty_range(&a, &b);
    assert!(empty(
        Some(AtTime::Iso("2026-06-01".into())),
        Some(AtTime::Iso("2026-01-01".into())),
    ));
    assert!(empty(
        Some(AtTime::Epoch(1743465600)),
        Some(AtTime::Epoch(1735689600)),
    ));

    assert!(!empty(
        Some(AtTime::Iso("2026-01-01".into())),
        Some(AtTime::Iso("2026-06-01".into())),
    ));

    assert!(!empty(Some(AtTime::Iso("2026-01-01".into())), None));
    assert!(!empty(None, Some(AtTime::Iso("2026-06-01".into()))));

    assert!(!empty(
        Some(AtTime::Epoch(1743465600)),
        Some(AtTime::Iso("2026-01-01".into())),
    ));
}

#[test]
fn revision_populated_from_response() {

    let body = json(r#"{
        "hits": {
            "hits": [{
                "_id":    "sirix://docs/manuals/1",
                "_score": 0.5,
                "_source": {
                    "title":  "waterproof spec",
                    "_rev":   17,
                    "_valid_from": 1735689600,
                    "_valid_to":   null
                }
            }]
        }
    }"#)
    .to_string();
    let hits = parse_response(&body).unwrap();
    assert_eq!(hits.len(), 1);
    assert_eq!(hits[0].revision, Some(17));
}

#[test]
fn revision_absent_leaves_none() {

    let body = json(r#"{
        "hits": { "hits": [{
            "_id": "sirix://docs/manuals/1",
            "_score": 0.5,
            "_source": { "title": "no rev here" }
        }]}
    }"#)
    .to_string();
    let hits = parse_response(&body).unwrap();
    assert_eq!(hits[0].revision, None);
}

#[test]
fn revision_from_string_int() {

    let body = json(r#"{
        "hits": { "hits": [{
            "_id": "sirix://docs/manuals/1",
            "_score": 0.5,
            "_source": { "_rev": "23" }
        }]}
    }"#)
    .to_string();
    let hits = parse_response(&body).unwrap();
    assert_eq!(hits[0].revision, Some(23));
}

#[test]
fn probe_body_shape() {
    let body = build_probe_body("docs");
    let parsed: JsonValue = serde_json::from_str(&body).unwrap();
    assert_eq!(parsed["table"], json(r#""docs""#));
    assert_eq!(parsed["query"], json(r#"{ "match_all": {} }"#));
    assert_eq!(parsed["limit"], json(r#"1"#));
}

#[test]
fn schema_has_valid_from_when_source_carries_it() {
    let body = json(r#"{
        "hits": { "hits": [{
            "_id": "x", "_score": 1.0,
            "_source": { "_valid_from": 1735689600, "_valid_to": null }
        }]}
    }"#)
    .to_string();
    assert!(schema_has_valid_from(&body));
}

#[test]
fn schema_has_valid_from_false_on_latest_only_index() {

    let body = json(r#"{
        "hits": { "hits": [{
            "_id": "x", "_score": 1.0,
            "_source": { "title": "current body" }
        }]}
    }"#)
    .to_string();
    assert!(!schema_has_valid_from(&body));
}

#[test]
fn schema_has_valid_from_false_on_empty_probe() {

    let body = json(r#"{ "hits": { "hits": [] } }"#).to_string();
    assert!(!schema_has_valid_from(&body));
}

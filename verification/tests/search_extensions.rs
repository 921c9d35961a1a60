use serde_json::Value as JsonValue;
use webfunctions::document::manticore::{
    build_facet_body, build_mlt_body, build_request_body, build_vector_body, parse_facet_response, PlainOpts,
};
use webfunctions::document::terms::extract_top_terms;

fn numbers(vector: &[f32]) -> Vec<serde_json::Number> {
    vector.iter().map(|&f| serde_json::Number::from_f64(f as f64).unwrap()).collect()
}

fn json(text: &str) -> JsonValue {
    serde_json::from_str(text).unwrap()
}

#[test]
fn cross_index_query_builds_multi_index_request() {
    let opts = PlainOpts {
        indexes: vec!["docs".into(), "manuals".into(), "faq".into()],
        limit: Some(20),
        ..PlainOpts::default()
    };
    let body = build_request_body("ignored-when-indexes-set", "fox", &opts).unwrap();
    let parsed: JsonValue = serde_json::from_str(&body).unwrap();

    assert_eq!(parsed["table"], json(r#""docs,manuals,faq""#));

    assert_eq!(
        parsed["query"]["bool"]["must"],
        json(r#"[{ "match": { "*": "fox" } }]"#)
    );
}

#[test]
fn cross_index_single_element_still_emits_from_indexes() {
    let opts = PlainOpts {
        indexes: vec!["docs".into()],
        ..PlainOpts::default()
    };
    let body = build_request_body("ignored", "fox", &opts).unwrap();
    let parsed: JsonValue = serde_json::from_str(&body).unwrap();
    assert_eq!(parsed["table"], json(r#""docs""#));
}

#[test]
fn cross_index_none_falls_back_to_positional_index() {
    let body =
        build_request_body("docs", "fox", &PlainOpts::default()).unwrap();
    let parsed: JsonValue = serde_json::from_str(&body).unwrap();
    assert_eq!(parsed["table"], json(r#""docs""#));
}

#[test]
fn cross_index_drops_empty_entries() {
    let opts = PlainOpts {
        indexes: vec!["".into(), "docs".into(), "  ".into(), "manuals".into()],
        ..PlainOpts::default()
    };
    let body = build_request_body("fallback", "fox", &opts).unwrap();
    let parsed: JsonValue = serde_json::from_str(&body).unwrap();
    assert_eq!(parsed["table"], json(r#""docs,manuals""#));
}

#[test]
fn facet_request_builds_correct_aggregation() {
    let opts = PlainOpts::default();
    let body = build_facet_body(
        "docs",
        "waterproof",
        &["lang".to_string(), "_uri".to_string()],
        &opts,
    )
    .unwrap();
    let parsed: JsonValue = serde_json::from_str(&body).unwrap();
    assert_eq!(parsed["table"], json(r#""docs""#));
    assert_eq!(parsed["limit"], json(r#"0"#));

    assert_eq!(
        parsed["query"]["bool"]["must"],
        json(r#"[{ "match": { "*": "waterproof" } }]"#)
    );

    assert_eq!(
        parsed["aggs"]["lang"],
        json(r#"{ "terms": { "field": "lang", "size": 100 } }"#)
    );
    assert_eq!(
        parsed["aggs"]["_uri"],
        json(r#"{ "terms": { "field": "_uri", "size": 100 } }"#)
    );
}

#[test]
fn facet_cross_index_multi_index_and_aggs() {
    let opts = PlainOpts {
        indexes: vec!["docs".into(), "manuals".into()],
        ..PlainOpts::default()
    };
    let body =
        build_facet_body("ignored", "*", &["lang".to_string()], &opts).unwrap();
    let parsed: JsonValue = serde_json::from_str(&body).unwrap();
    assert_eq!(parsed["table"], json(r#""docs,manuals""#));
    assert_eq!(
        parsed["aggs"]["lang"],
        json(r#"{ "terms": { "field": "lang", "size": 100 } }"#)
    );
}

#[test]
fn facet_empty_fields_errors() {
    let opts = PlainOpts::default();
    let err = build_facet_body("docs", "waterproof", &[], &opts).unwrap_err();
    assert!(err.contains("at least one"), "{err}");
}

#[test]
fn parse_facet_response_extracts_buckets_by_field() {
    let response = json(r#"{
        "hits": { "total": 0, "hits": [] },
        "aggregations": {
            "lang": {
                "buckets": [
                    { "key": "en", "doc_count": 42 },
                    { "key": "de", "doc_count": 17 }
                ]
            },
            "_uri": {
                "buckets": [
                    { "key": "sirix://docs/manuals/1", "doc_count": 3 }
                ]
            }
        }
    }"#)
    .to_string();
    let facets = parse_facet_response(
        &response,
        &["lang".to_string(), "_uri".to_string()],
    )
    .unwrap();
    assert_eq!(facets.len(), 2);
    assert_eq!(facets[0].field, "lang");
    assert_eq!(facets[0].values.len(), 2);
    assert_eq!(facets[0].values[0].value, "en");
    assert_eq!(facets[0].values[0].count, 42);
    assert_eq!(facets[1].field, "_uri");
    assert_eq!(facets[1].values.len(), 1);
    assert_eq!(facets[1].values[0].value, "sirix://docs/manuals/1");
}

#[test]
fn extract_top_terms_filters_short_and_ranks_by_frequency() {
    let body = b"the fox and the fox and the waterproof waterproof rig";
    let terms = extract_top_terms(body, 3);

    assert!(terms.contains(&"waterproof".to_string()), "terms={terms:?}");

    assert!(!terms.contains(&"fox".to_string()));
    assert!(!terms.contains(&"the".to_string()));
    assert!(!terms.contains(&"and".to_string()));
    assert!(!terms.contains(&"rig".to_string()));
}

#[test]
fn mlt_empty_terms_errors() {
    let opts = PlainOpts::default();
    let err = build_mlt_body("docs", "sirix://x/y/1", &[], 10, &opts).unwrap_err();
    assert!(err.contains("no usable terms"), "{err}");
}

#[test]
fn vector_search_forwards_vector_verbatim() {
    let vector: Vec<f32> = vec![0.10, 0.25, 0.75, -0.50];
    let opts = PlainOpts::default();
    let body = build_vector_body("products", numbers(&vector), 10, &opts).unwrap();
    let parsed: JsonValue = serde_json::from_str(&body).unwrap();
    assert_eq!(parsed["table"], json(r#""products""#));
    assert_eq!(parsed["knn"]["field"], json(r#""vector""#));
    assert_eq!(parsed["knn"]["k"], json(r#"10"#));
    let qv = parsed["knn"]["query_vector"].as_array().unwrap();
    assert_eq!(qv.len(), 4);

    let expected: Vec<f64> = vector.iter().map(|&f| f as f64).collect();
    let actual: Vec<f64> = qv.iter().map(|v| v.as_f64().unwrap()).collect();
    assert_eq!(actual, expected);

    assert_eq!(parsed["limit"], json(r#"10"#));
}

#[test]
fn vector_search_cross_index_forwards_indexes() {
    let vector: Vec<f32> = vec![1.0, 0.0];
    let opts = PlainOpts {
        indexes: vec!["docs".into(), "manuals".into()],
        limit: Some(20),
        ..PlainOpts::default()
    };
    let body = build_vector_body("ignored", numbers(&vector), 5, &opts).unwrap();
    let parsed: JsonValue = serde_json::from_str(&body).unwrap();
    assert_eq!(parsed["table"], json(r#""docs,manuals""#));
    assert_eq!(parsed["knn"]["k"], json(r#"5"#));

    assert_eq!(parsed["limit"], json(r#"20"#));
}

#[test]
fn vector_search_empty_vector_errors() {
    let opts = PlainOpts::default();
    let empty: Vec<f32> = Vec::new();
    let err = build_vector_body("products", numbers(&empty), 10, &opts).unwrap_err();
    assert!(err.contains("non-empty vector"), "{err}");
}

#[test]
fn vector_search_zero_k_errors() {
    let opts = PlainOpts::default();
    let v: Vec<f32> = vec![1.0];
    let err = build_vector_body("products", numbers(&v), 0, &opts).unwrap_err();
    assert!(err.contains("k > 0"), "{err}");
}

#[test]
fn vector_search_with_lang_filter_layers_under_knn() {
    let vector: Vec<f32> = vec![0.1];
    let opts = PlainOpts {
        lang: Some("en".into()),
        ..PlainOpts::default()
    };
    let body = build_vector_body("products", numbers(&vector), 3, &opts).unwrap();
    let parsed: JsonValue = serde_json::from_str(&body).unwrap();
    let filter = parsed["knn"]["filter"].as_array().unwrap();

    assert!(filter.iter().any(|c| c == &json(r#"{ "equals": { "lang": "en" } }"#)));
}

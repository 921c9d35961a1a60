use serde_json::Value as JsonValue;
use webfunctions::document::sirix::{
    build_fetch_body, build_fetch_sql, build_revisions_sql, parse_fetch_response, parse_revisions_response,
    parse_sirix_uri, query_url, DocId,
};
use webfunctions::document::sirix_write::{
    build_delete_sql, build_insert_sql, build_update_sql, parse_write_response,
};

fn json(text: &str) -> JsonValue {
    serde_json::from_str(text).unwrap()
}

#[test]
fn parse_sirix_uri_ok() {
    let d = parse_sirix_uri("sirix://docs/manuals/42").unwrap();
    assert_eq!(d.database, "docs");
    assert_eq!(d.resource, "manuals");
    assert_eq!(d.node_key, "42");
}

#[test]
fn parse_sirix_uri_rejects_wrong_scheme() {
    let err = parse_sirix_uri("http://docs/manuals/42").unwrap_err();
    assert!(err.contains("sirix://"));
}

#[test]
fn parse_sirix_uri_rejects_two_segments() {
    let err = parse_sirix_uri("sirix://docs/manuals").unwrap_err();
    assert!(err.contains("sirix://<db>/<resource>/<node-key>"));
}

#[test]
fn parse_sirix_uri_rejects_four_segments() {
    let err = parse_sirix_uri("sirix://docs/manuals/42/7").unwrap_err();
    assert_eq!(
        err,
        "wf_document: doc-id `sirix://docs/manuals/42/7` must be sirix://<db>/<resource>/<node-key>"
    );
    assert!(parse_sirix_uri("sirix://docs/manuals/42/").is_err());
}

#[test]
fn parse_fetch_response_takes_the_first_likely_column() {
    let body = r#"{"columns":["x","Body","document"],"rows":[["0","one","two"]]}"#;
    assert_eq!(parse_fetch_response(body, None).unwrap().body, b"one".to_vec());
}

#[test]
fn parse_sirix_uri_rejects_empty_segment() {
    let err = parse_sirix_uri("sirix://docs//42").unwrap_err();
    assert!(err.contains("sirix://<db>/<resource>/<node-key>"));
}

#[test]
fn query_url_idempotent() {
    assert_eq!(query_url("http://x:8080"), "http://x:8080/query");
    assert_eq!(query_url("http://x:8080/"), "http://x:8080/query");
    assert_eq!(query_url("http://x:8080/query"), "http://x:8080/query");
    assert_eq!(query_url("http://x:8080/query/"), "http://x:8080/query");
}

#[test]
fn build_fetch_sql_no_revision() {
    let d = DocId {
        database: "docs".into(),
        resource: "manuals".into(),
        node_key: "manual-01".into(),
    };
    let sql = build_fetch_sql(&d, None);
    assert!(sql.contains("\"docs\""));
    assert!(sql.contains("\"manuals\""));

    assert!(
        sql.contains("JSON_VALUE(\"document\", '$._id') = 'manual-01'"),
        "sql={sql}"
    );

    assert!(!sql.contains("_revision"), "sql={sql}");
}

#[test]
fn build_fetch_sql_with_revision() {
    let d = DocId {
        database: "docs".into(),
        resource: "manuals".into(),
        node_key: "manual-01".into(),
    };
    let sql = build_fetch_sql(&d, Some(17));

    assert!(sql.contains("_revision = 17"), "sql={sql}");
    assert!(sql.contains("JSON_VALUE(\"document\", '$._id') = 'manual-01'"));
}

#[test]
fn build_fetch_sql_uses_no_legacy_column_names() {

    let d = DocId {
        database: "docs".into(),
        resource: "manuals".into(),
        node_key: "manual-01".into(),
    };
    let with_rev = build_fetch_sql(&d, Some(3));
    let without_rev = build_fetch_sql(&d, None);
    for sql in [&with_rev, &without_rev] {
        assert!(!sql.contains("_nodekey"), "legacy `_nodekey`: {sql}");

        assert!(
            !sql.split_whitespace().any(|tok| tok == "_rev"),
            "legacy `_rev` token: {sql}"
        );
    }
}

#[test]
fn build_fetch_sql_escapes_sql_injection_attempts() {
    let d = DocId {
        database: "docs\"; DROP".into(),
        resource: "manuals".into(),
        node_key: "manual-01' OR '1' = '1".into(),
    };
    let sql = build_fetch_sql(&d, None);
    assert!(sql.contains("\"docs\"\"; DROP\""));
    assert!(sql.contains("'manual-01'' OR ''1'' = ''1'"));
}

#[test]
fn build_fetch_body_shape() {
    let s = build_fetch_body("SELECT 1");
    let parsed: JsonValue = serde_json::from_str(&s).unwrap();
    assert_eq!(parsed["sql"], "SELECT 1");
}

#[test]
fn parse_fetch_response_string_body() {
    let body = json(r#"{
        "columns": ["document"],
        "rows": [["{\"title\":\"waterproof\"}"]]
    }"#)
    .to_string();
    let doc = parse_fetch_response(&body, None).unwrap();
    assert_eq!(doc.body, b"{\"title\":\"waterproof\"}");
    assert_eq!(doc.content_type, "application/json");
}

#[test]
fn parse_fetch_response_prefers_document_column() {
    let body = json(r#"{
        "columns": ["other", "document"],
        "rows": [["ignored", "{\"real\": 1}"]]
    }"#)
    .to_string();
    let doc = parse_fetch_response(&body, None).unwrap();
    assert_eq!(doc.body, b"{\"real\": 1}");
}

#[test]
fn parse_fetch_response_content_type_override() {
    let body = json(r#"{
        "columns": ["document"],
        "rows": [["hello"]]
    }"#)
    .to_string();
    let doc = parse_fetch_response(&body, Some("text/plain; charset=utf-8")).unwrap();
    assert_eq!(doc.content_type, "text/plain; charset=utf-8");
}

#[test]
fn parse_fetch_response_empty_rows_errors() {
    let body = json(r#"{ "columns": ["document"], "rows": [] }"#).to_string();
    let err = parse_fetch_response(&body, None).unwrap_err();
    assert!(err.contains("zero rows"));
}

#[test]
fn parse_fetch_response_surface_sirix_error() {
    let body = json(r#"{ "error": "no such resource" }"#).to_string();
    let err = parse_fetch_response(&body, None).unwrap_err();
    assert!(err.contains("no such resource"));
}

#[test]
fn parse_fetch_response_invalid_json_errors() {
    let err = parse_fetch_response("not-json{", None).unwrap_err();
    assert!(err.contains("wf_document"));
}

#[test]
fn build_revisions_sql_shape() {
    let d = DocId {
        database: "docs".into(),
        resource: "manuals".into(),
        node_key: "manual-01".into(),
    };
    let sql = build_revisions_sql(&d);
    assert!(sql.contains("SELECT _revision"), "sql={sql}");
    assert!(
        sql.contains("JSON_VALUE(\"document\", '$._id') = 'manual-01'"),
        "sql={sql}"
    );
    assert!(sql.contains("ORDER BY _revision"), "sql={sql}");
}

#[test]
fn parse_revisions_response_returns_sorted_list() {
    let body = json(r#"{
        "columns": ["_revision"],
        "rows": [[1], [2], [3]]
    }"#)
    .to_string();
    let revs = parse_revisions_response(&body).unwrap();
    assert_eq!(revs, vec![1, 2, 3]);
}

#[test]
fn parse_revisions_response_accepts_string_ints() {
    let body = json(r#"{
        "columns": ["_revision"],
        "rows": [["5"]]
    }"#)
    .to_string();
    let revs = parse_revisions_response(&body).unwrap();
    assert_eq!(revs, vec![5]);
}

#[test]
fn parse_revisions_response_accepts_uppercase_calcite_label() {

    let body = json(r#"{
        "columns": ["_REVISION"],
        "rows": [[7]]
    }"#)
    .to_string();
    let revs = parse_revisions_response(&body).unwrap();
    assert_eq!(revs, vec![7]);
}

#[test]
fn parse_revisions_response_accepts_legacy_rev_label() {

    let body = json(r#"{
        "columns": ["_rev"],
        "rows": [[2]]
    }"#)
    .to_string();
    let revs = parse_revisions_response(&body).unwrap();
    assert_eq!(revs, vec![2]);
}

#[test]
fn parse_revisions_response_no_rev_column_errors() {
    let body = json(r#"{
        "columns": ["something-else"],
        "rows": [[1]]
    }"#)
    .to_string();
    let err = parse_revisions_response(&body).unwrap_err();
    assert!(err.contains("_revision"));
}

#[test]
fn build_insert_sql_shape() {
    let sql = build_insert_sql("docs", "manuals", br#"{"title":"waterproof rig"}"#)
        .unwrap();
    assert!(sql.starts_with("INSERT INTO \"docs\".\"manuals\""), "{sql}");
    assert!(
        sql.contains("(document) VALUES ('{\"title\":\"waterproof rig\"}')"),
        "{sql}"
    );
}

#[test]
fn build_insert_sql_escapes_single_quotes() {
    let sql = build_insert_sql("d", "r", b"o'reilly").unwrap();
    assert!(sql.contains("VALUES ('o''reilly')"), "{sql}");
}

#[test]
fn build_insert_sql_escapes_ident_double_quotes() {
    let sql = build_insert_sql("do\"cs", "r", b"{}").unwrap();
    assert!(sql.contains("\"do\"\"cs\""), "{sql}");
}

#[test]
fn build_insert_sql_rejects_non_utf8_body() {
    let bad: &[u8] = &[0xff, 0xfe, 0xfd];
    assert!(build_insert_sql("d", "r", bad).is_err());
}

#[test]
fn build_update_sql_no_revision() {
    let doc = DocId {
        database: "docs".into(),
        resource: "manuals".into(),
        node_key: "manual-01".into(),
    };
    let sql = build_update_sql(&doc, b"{\"x\":1}", None).unwrap();
    assert!(
        sql.starts_with("UPDATE \"docs\".\"manuals\" SET document = "),
        "{sql}"
    );
    assert!(
        sql.contains("JSON_VALUE(\"document\", '$._id') = 'manual-01'"),
        "{sql}"
    );
    assert!(!sql.contains("_revision"), "{sql}");
    assert!(!sql.contains("_nodekey"), "{sql}");
}

#[test]
fn build_update_sql_with_expected_revision() {
    let doc = DocId {
        database: "docs".into(),
        resource: "manuals".into(),
        node_key: "manual-01".into(),
    };
    let sql = build_update_sql(&doc, b"{\"x\":2}", Some(5)).unwrap();
    assert!(sql.contains("AND _revision = 5"), "{sql}");
    assert!(!sql.contains("_rev = 5"), "{sql}");
}

#[test]
fn build_delete_sql_shape() {
    let doc = DocId {
        database: "docs".into(),
        resource: "manuals".into(),
        node_key: "manual-01".into(),
    };
    let sql = build_delete_sql(&doc);
    assert_eq!(
        sql,
        "DELETE FROM \"docs\".\"manuals\" \
         WHERE JSON_VALUE(\"document\", '$._id') = 'manual-01'"
    );
}

#[test]
fn parse_write_response_columns_rows_shape() {
    let body = json(r#"{
        "columns": ["_rev", "_valid_from", "_nodekey"],
        "rows": [[1, "2026-07-12T18:30:00Z", "42"]]
    }"#)
    .to_string();
    let ack = parse_write_response(&body).unwrap();
    assert_eq!(ack.revision, 1);
    assert_eq!(ack.valid_from, "2026-07-12T18:30:00Z");
    assert_eq!(ack.node_key.as_deref(), Some("42"));
}

#[test]
fn parse_write_response_flat_shape() {
    let body = json(r#"{
        "revision": 3,
        "valid_from": "2026-07-12T19:00:00Z"
    }"#)
    .to_string();
    let ack = parse_write_response(&body).unwrap();
    assert_eq!(ack.revision, 3);
    assert_eq!(ack.valid_from, "2026-07-12T19:00:00Z");
    assert_eq!(ack.node_key, None);
}

#[test]
fn parse_write_response_case_insensitive_columns() {
    let body = json(r#"{
        "columns": ["_REV", "_VALID_FROM"],
        "rows": [[7, "2026-07-12T20:00:00Z"]]
    }"#)
    .to_string();
    let ack = parse_write_response(&body).unwrap();
    assert_eq!(ack.revision, 7);
}

#[test]
fn parse_write_response_finds_cells_by_name() {
    let body = r#"{"columns":["_NodeKey","_valid_from","_Rev"],"rows":[["42","2026-07-12T18:30:00Z",1]]}"#;
    let ack = parse_write_response(body).unwrap();
    assert_eq!(ack.revision, 1);
    assert_eq!(ack.valid_from, "2026-07-12T18:30:00Z");
    assert_eq!(ack.node_key.as_deref(), Some("42"));
}

#[test]
fn parse_write_response_surface_sirix_error() {
    let body = json(r#"{ "error": "constraint violated" }"#).to_string();
    let err = parse_write_response(&body).unwrap_err();
    assert!(err.contains("constraint violated"), "{err}");
}

#[test]
fn parse_write_response_missing_rev_errors() {
    let body = json(r#"{
        "columns": ["_valid_from"],
        "rows": [["2026-07-12T20:00:00Z"]]
    }"#)
    .to_string();
    assert!(parse_write_response(&body).is_err());
}

#[test]
fn uri_parse_ok() {
    let d = parse_sirix_uri("sirix://docs/manuals/42").unwrap();
    assert_eq!(d.database, "docs");
    assert_eq!(d.resource, "manuals");
    assert_eq!(d.node_key, "42");
}

#[test]
fn uri_parse_rejects_bad_scheme() {
    assert!(parse_sirix_uri("http://a/b/c").is_err());
    assert!(parse_sirix_uri("sirix:/a/b/c").is_err());
}

#[test]
fn uri_parse_rejects_bad_shape() {
    assert!(parse_sirix_uri("sirix://a/b").is_err());
    assert!(parse_sirix_uri("sirix://a//c").is_err());
}

#[test]
fn update_without_expected_revision_is_unconditional() {

    let doc = DocId {
        database: "docs".into(),
        resource: "manuals".into(),
        node_key: "manual-01".into(),
    };
    let sql = build_update_sql(&doc, b"{}", None).unwrap();
    assert!(
        !sql.contains("_revision ="),
        "should be unconditional, sql={sql:?}"
    );
    assert!(
        sql.contains("JSON_VALUE(\"document\", '$._id') = 'manual-01'"),
        "sql={sql:?}"
    );
}

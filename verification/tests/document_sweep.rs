use std::cell::RefCell;
use std::collections::HashMap;

use serde_json::Value as JsonValue;
use webfunctions::canonicalize::document_sweep::{
    build_bulk_body, build_delete_body, build_diff, build_doc_uri, build_query_body, build_scan_sql, bulk_url,
    compute_deletes, default_retention, parse_scan_response, plan, run, run_with_messages, sirix_query_url, tally, DocSinkBridge,
    DocumentIndexConfig, KnownDoc, SirixBridge, SirixDocRow, SweepResult,
};
use webfunctions::canonicalize::fulltext_sweep::HttpBridge;
use webfunctions::hash::fnv1a64_hex;
use webfunctions::table::Table;

struct MockHttp {
    posts: RefCell<Vec<(String, String)>>,
    response: String,
}

impl HttpBridge for MockHttp {
    fn post_json(&self, url: &str, body: &str) -> Result<String, String> {
        self.posts.borrow_mut().push((url.to_string(), body.to_string()));
        Ok(self.response.clone())
    }
}

fn http(response: String) -> MockHttp {
    MockHttp { posts: RefCell::new(Vec::new()), response }
}

struct MockSirix {
    rows: RefCell<Vec<SirixDocRow>>,
}

impl SirixBridge for MockSirix {
    fn list_documents(
        &self,
        _sirix_url: &str,
        _database: &str,
        _resource: &str,
        _since_rev: Option<u64>,
    ) -> Result<Vec<SirixDocRow>, String> {
        Ok(self.rows.borrow().clone())
    }
}

#[derive(Default)]
struct MockDocSink {
    rows: RefCell<HashMap<(String, String), KnownDoc>>,
}

impl DocSinkBridge for MockDocSink {
    fn ensure_doc_table(&self, _table: &str) -> Result<(), String> {
        Ok(())
    }

    fn load_known_docs(&self, table: &str) -> Result<Table<KnownDoc>, String> {
        let mut known = Table::new();
        for ((t, uri), k) in self.rows.borrow().iter() {
            if t == table {
                known.insert(uri.clone(), k.clone());
            }
        }
        Ok(known)
    }

    fn upsert_doc(&self, table: &str, doc_uri: &str, entry: &KnownDoc) -> Result<(), String> {
        self.rows.borrow_mut().insert((table.to_string(), doc_uri.to_string()), entry.clone());
        Ok(())
    }

    fn delete_doc(&self, table: &str, doc_uri: &str) -> Result<(), String> {
        self.rows.borrow_mut().remove(&(table.to_string(), doc_uri.to_string()));
        Ok(())
    }
}

fn ok_response() -> String {
    r#"{"items":[{"replace":{"_id":"x","result":"created"}}],"errors":false}"#.to_string()
}

fn cfg(name: &str) -> DocumentIndexConfig {
    DocumentIndexConfig {
        name: name.into(),
        search_backend: "http://localhost:9308".into(),
        storage_backend: "http://localhost:8080".into(),
        search_index: name.into(),
        sirix_database: "docs".into(),
        sirix_resource: name.into(),
        sweep_interval_secs: None,
        revision_retention: "latest".into(),
    }
}

fn row(node_key: &str, revision: u64, body: &str) -> SirixDocRow {
    SirixDocRow {
        node_key: node_key.into(),
        revision,
        body: body.into(),
        content_type: "application/json".into(),
    }
}

#[test]
fn document_urls_use_sirix_scheme() {
    let uri = build_doc_uri("docs", "manuals", "42");
    assert_eq!(uri, "sirix://docs/manuals/42");
    let entry = cfg("manuals");
    let rows = vec![row("42", 1, "{\"title\":\"widget\"}")];
    let (to_insert, _) = build_diff(&entry, &rows, &Table::new());
    assert_eq!(to_insert.len(), 1);
    assert_eq!(to_insert[0].uri, "sirix://docs/manuals/42");
    let body = build_bulk_body("manuals", &to_insert);
    let line = body.trim_end_matches('\n');
    let parsed: JsonValue = serde_json::from_str(line).unwrap();
    assert_eq!(parsed["replace"]["id"], "sirix://docs/manuals/42");
    assert_eq!(parsed["replace"]["doc"]["_uri"], "sirix://docs/manuals/42");
}

#[test]
fn hash_prevents_reinsert_of_unchanged_doc() {
    let entry = cfg("manuals");
    let sirix = MockSirix { rows: RefCell::new(vec![row("42", 3, "{\"title\":\"widget\"}")]) };
    let first = http(ok_response());
    let sink = MockDocSink::default();

    let r1 = run(&[entry.clone()], &first, &sirix, &sink);
    assert_eq!(r1.inserted, 1, "gen0 should insert");
    assert_eq!(r1.unchanged, 0);
    assert_eq!(r1.deleted, 0);
    assert_eq!(r1.errors, 0);

    let http2 = http(ok_response());
    let r2 = run(&[entry], &http2, &sirix, &sink);
    assert_eq!(r2.inserted, 0);
    assert_eq!(r2.unchanged, 1);
    assert_eq!(r2.deleted, 0);
    assert_eq!(r2.errors, 0);
    assert!(http2.posts.borrow().is_empty(), "no POSTs when everything is unchanged");
}

#[test]
fn sweep_emits_delete_for_removed_doc() {
    let entry = cfg("manuals");
    let sirix_v0 = MockSirix {
        rows: RefCell::new(vec![
            row("42", 1, "{\"title\":\"widget\"}"),
            row("43", 1, "{\"title\":\"gadget\"}"),
        ]),
    };
    let http_v0 = http(ok_response());
    let sink = MockDocSink::default();
    let r0 = run(&[entry.clone()], &http_v0, &sirix_v0, &sink);
    assert_eq!(r0.inserted, 2);
    assert_eq!(r0.deleted, 0);

    let sirix_v1 = MockSirix { rows: RefCell::new(vec![row("42", 1, "{\"title\":\"widget\"}")]) };
    let http_v1 = http(ok_response());
    let r1 = run(&[entry], &http_v1, &sirix_v1, &sink);
    assert_eq!(r1.inserted, 0);
    assert_eq!(r1.deleted, 1);
    assert_eq!(r1.unchanged, 1);
    let posts = http_v1.posts.borrow();
    assert_eq!(posts.len(), 1);
    assert!(posts[0].1.contains("\"delete\""));
    assert!(posts[0].1.contains("sirix://docs/manuals/43"));
}

#[test]
fn diff_detects_updated_doc_via_hash_change() {
    let entry = cfg("manuals");
    let mut known = Table::new();
    known.insert(
        "sirix://docs/manuals/42".to_string(),
        KnownDoc { last_seen_rev: 1, doc_hash: fnv1a64_hex("{\"title\":\"widget\"}") },
    );
    let rows = vec![row("42", 2, "{\"title\":\"widget-v2\"}")];
    let (to_insert, unchanged) = build_diff(&entry, &rows, &known);
    assert_eq!(unchanged, 0);
    assert_eq!(to_insert.len(), 1);
    assert_eq!(to_insert[0].revision, 2);
}

#[test]
fn scan_sql_full_and_since_rev() {
    let full = build_scan_sql("docs", "manuals", None);
    assert_eq!(full, "SELECT _nodekey, _rev, document FROM \"docs\".\"manuals\"");
    let since = build_scan_sql("docs", "manuals", Some(7));
    assert!(since.ends_with("WHERE _rev > 7"));
}

#[test]
fn scan_response_parser_pulls_columns() {
    let body = r#"{
        "columns": ["_nodekey", "_rev", "document"],
        "rows": [
            ["42", 1, "{\"title\":\"widget\"}"],
            ["43", 2, {"title": "gadget"}]
        ]
    }"#;
    let rows = parse_scan_response(body).unwrap();
    assert_eq!(rows.len(), 2);
    assert_eq!(rows[0].node_key, "42");
    assert_eq!(rows[0].revision, 1);
    assert_eq!(rows[0].body, "{\"title\":\"widget\"}");
    assert_eq!(rows[1].node_key, "43");
    assert_eq!(rows[1].revision, 2);
    assert!(rows[1].body.contains("gadget"));
    assert_eq!(rows[1].content_type, "application/json");
}

#[test]
fn scan_response_parser_case_insensitive_columns() {
    let body = r#"{"columns": ["_NODEKEY", "_REV", "DOCUMENT"], "rows": [["1", 1, "hello"]]}"#;
    let rows = parse_scan_response(body).unwrap();
    assert_eq!(rows.len(), 1);
    assert_eq!(rows[0].node_key, "1");
    assert_eq!(rows[0].revision, 1);
    assert_eq!(rows[0].body, "hello");
}

/// A store that is asked and answers in its own wire format.
struct WireSirix {
    rows: RefCell<Vec<String>>,
    asked: RefCell<Vec<(String, String)>>,
}

impl SirixBridge for WireSirix {
    fn list_documents(
        &self,
        sirix_url: &str,
        database: &str,
        resource: &str,
        since_rev: Option<u64>,
    ) -> Result<Vec<SirixDocRow>, String> {
        let sql = build_scan_sql(database, resource, since_rev);
        let body = build_query_body(&sql);
        let url = sirix_query_url(sirix_url);
        self.asked.borrow_mut().push((url, body));
        let response = format!(
            "{{\"columns\":[\"_nodekey\",\"_rev\",\"document\"],\"rows\":[{}]}}",
            self.rows.borrow().join(",")
        );
        parse_scan_response(&response)
    }
}

#[test]
fn document_sweep_full_sweep_two_generations_against_mock_backend() {
    let entry = cfg("manuals");
    let manticore = http(ok_response());
    let sirix = WireSirix {
        rows: RefCell::new(vec![r#"["42", 1, "{\"title\":\"widget\"}"]"#.to_string()]),
        asked: RefCell::new(Vec::new()),
    };
    let sink = MockDocSink::default();

    let r0 = run(&[entry.clone()], &manticore, &sirix, &sink);
    assert_eq!(r0.inserted, 1, "gen0 inserts");
    assert_eq!(r0.deleted, 0);
    assert_eq!(r0.errors, 0);
    {
        let bodies = manticore.posts.borrow();
        assert_eq!(bodies.len(), 1);
        assert_eq!(bodies[0].0, "http://localhost:9308/bulk");
        assert!(bodies[0].1.contains("sirix://docs/manuals/42"), "wire body missing sirix URI: {}", bodies[0].1);
        assert!(bodies[0].1.contains("\"replace\""));
    }
    assert_eq!(sirix.asked.borrow()[0].0, "http://localhost:8080/query");

    sirix.rows.borrow_mut().push(r#"["99", 5, "{\"title\":\"gadget\"}"]"#.to_string());

    let r1 = run(&[entry], &manticore, &sirix, &sink);
    assert_eq!(r1.inserted, 1, "gen1 inserts new doc");
    assert_eq!(r1.unchanged, 1, "gen1 keeps the existing doc");
    assert_eq!(r1.deleted, 0);
    let bodies = manticore.posts.borrow();
    assert_eq!(bodies.len(), 2);
    assert!(bodies[1].1.contains("sirix://docs/manuals/99"), "gen1 body missing new sirix URI: {}", bodies[1].1);
    assert!(
        !bodies[1].1.contains("sirix://docs/manuals/42"),
        "gen1 body should not re-insert existing doc: {}",
        bodies[1].1
    );
}

#[test]
fn document_sweep_counts_refused_batches() {
    let entry = cfg("manuals");
    let sirix = MockSirix { rows: RefCell::new(vec![row("42", 1, "x")]) };
    let sink = MockDocSink::default();
    sink.upsert_doc(
        "wf_doc_keys_manuals",
        "sirix://docs/manuals/7",
        &KnownDoc { last_seen_rev: 1, doc_hash: "h".into() },
    )
    .unwrap();
    let refusing = http(r#"{"errors":true,"items":[]}"#.to_string());
    let r = run(&[entry], &refusing, &sirix, &sink);
    assert_eq!((r.inserted, r.deleted, r.unchanged, r.errors), (0, 0, 0, 2));
    assert_eq!(sink.rows.borrow().len(), 1);
}

struct FailingSirix;

impl SirixBridge for FailingSirix {
    fn list_documents(&self, _: &str, _: &str, _: &str, _: Option<u64>) -> Result<Vec<SirixDocRow>, String> {
        Err("down".into())
    }
}

#[test]
fn document_sweep_counts_a_failing_store_once() {
    let sink = MockDocSink::default();
    let backend = http(ok_response());
    let r = run(&[cfg("a"), cfg("b")], &backend, &FailingSirix, &sink);
    assert_eq!(r, SweepResult { inserted: 0, deleted: 0, unchanged: 0, errors: 2 });
    assert!(backend.posts.borrow().is_empty());
}

#[test]
fn document_sweep_tells_what_went_wrong() {
    let sink = MockDocSink::default();
    let (r, messages) = run_with_messages(&[cfg("a")], &http(ok_response()), &FailingSirix, &sink);
    assert_eq!(r.errors, 1);
    assert_eq!(
        messages,
        vec!["wf_canonicalize.document_sweep: entry `a`: sirix list_documents: down".to_string()]
    );
    let sirix = MockSirix { rows: RefCell::new(vec![row("1", 1, "x")]) };
    let (r, messages) = run_with_messages(&[cfg("a")], &http("{\"errors\":true}".into()), &sirix, &sink);
    assert_eq!(r, SweepResult { inserted: 0, deleted: 0, unchanged: 0, errors: 1 });
    assert_eq!(messages.len(), 1);
    assert!(messages[0].starts_with("wf_canonicalize.document_sweep: entry `a`: insert response: "));
}

struct AskedSirix {
    asked: RefCell<Vec<(String, String, String, Option<u64>)>>,
}

impl SirixBridge for AskedSirix {
    fn list_documents(
        &self,
        sirix_url: &str,
        database: &str,
        resource: &str,
        since_rev: Option<u64>,
    ) -> Result<Vec<SirixDocRow>, String> {
        self.asked.borrow_mut().push((sirix_url.into(), database.into(), resource.into(), since_rev));
        Ok(vec![])
    }
}

#[test]
fn document_sweep_lists_the_resource_of_its_entry() {
    let sirix = AskedSirix { asked: RefCell::new(vec![]) };
    let mut entry = cfg("a");
    entry.storage_backend = "http://store".into();
    entry.sirix_database = "db".into();
    entry.sirix_resource = "res".into();
    run(&[entry], &http(ok_response()), &sirix, &MockDocSink::default());
    assert_eq!(*sirix.asked.borrow(), vec![("http://store".into(), "db".into(), "res".into(), None)]);
}

#[test]
fn document_sweep_plans_and_tallies() {
    let entry = cfg("manuals");
    let rows = vec![row("b", 1, "x"), row("a", 2, "y")];
    let mut known = Table::new();
    known.insert("sirix://docs/manuals/gone".into(), KnownDoc { last_seen_rev: 1, doc_hash: "h".into() });
    let p = plan(&entry, &rows, &known);
    assert_eq!(p.url, "http://localhost:9308/bulk");
    let uris: Vec<&str> = p.inserts.iter().map(|m| m.uri.as_str()).collect();
    assert_eq!(uris, vec!["sirix://docs/manuals/a", "sirix://docs/manuals/b"]);
    assert_eq!(p.deletes, vec!["sirix://docs/manuals/gone".to_string()]);
    assert_eq!(p.unchanged, 0);
    let c = tally(&p, true, false);
    assert_eq!((c.inserted, c.deleted, c.unchanged, c.errors), (2, 0, 0, 1));
    assert_eq!(compute_deletes(&rows, &known, &entry), vec!["sirix://docs/manuals/gone".to_string()]);
    assert_eq!(
        build_delete_body("manuals", &p.deletes),
        "{\"delete\":{\"id\":\"sirix://docs/manuals/gone\",\"index\":\"manuals\"}}\n"
    );
}

#[test]
fn document_sweep_urls_and_defaults() {
    assert_eq!(bulk_url("http://h/"), "http://h/bulk");
    assert_eq!(sirix_query_url("http://h"), "http://h/query");
    assert_eq!(default_retention(), "latest");
    let mut total = SweepResult { inserted: 1, deleted: 2, unchanged: 3, errors: u64::MAX };
    total.add(SweepResult { inserted: 1, deleted: 1, unchanged: 1, errors: 1 });
    assert_eq!(total, SweepResult { inserted: 2, deleted: 3, unchanged: 4, errors: u64::MAX });
}

#[test]
fn scan_response_errors() {
    assert_eq!(parse_scan_response(r#"{"error":"no such table"}"#).unwrap_err(), "sirix: no such table");
    assert!(parse_scan_response("nope").unwrap_err().starts_with("sirix response is not JSON: "));
    assert!(parse_scan_response("{}").is_err());
}

use std::cell::RefCell;
use std::collections::HashMap;

use webfunctions::bulk::bulk_response_ok;
use webfunctions::canonicalize::fulltext_sweep::{
    build_bulk_body, build_delete_body, build_docs_and_hashes, diff, run, run_with_messages, sanitize_index_name,
    DocWrite,
    FulltextIndexConfig, GraphBridge, HttpBridge, LiteralOrIri, SinkBridge, SweepCounts,
};
use webfunctions::fulltext::manticore_admin;
use webfunctions::table::Table;

type Rows = Vec<(String, String, LiteralOrIri)>;

struct MockGraph {
    rows: Rows,
}

impl GraphBridge for MockGraph {
    fn select_subject_predicate_object(&self, _predicates: &[String]) -> Result<Rows, String> {
        Ok(self.rows.clone())
    }
}

#[derive(Default)]
struct MockHttp {
    posts: RefCell<Vec<(String, String)>>,
    response: String,
}

impl HttpBridge for MockHttp {
    fn post_json(&self, url: &str, body: &str) -> Result<String, String> {
        self.posts.borrow_mut().push((url.to_string(), body.to_string()));
        Ok(self.response.clone())
    }
}

fn http(response: String) -> MockHttp {
    MockHttp { posts: RefCell::new(Vec::new()), response }
}

#[derive(Default)]
struct MockSink {
    rows: RefCell<HashMap<(String, String), String>>,
}

impl SinkBridge for MockSink {
    fn ensure_table(&self, _table: &str) -> Result<(), String> {
        Ok(())
    }

    fn load_known(&self, table: &str) -> Result<Table<String>, String> {
        let mut known = Table::new();
        for ((t, s), h) in self.rows.borrow().iter() {
            if t == table {
                known.insert(s.clone(), h.clone());
            }
        }
        Ok(known)
    }

    fn upsert(&self, table: &str, subject: &str, hash: &str) -> Result<(), String> {
        self.rows.borrow_mut().insert((table.to_string(), subject.to_string()), hash.to_string());
        Ok(())
    }

    fn delete(&self, table: &str, subject: &str) -> Result<(), String> {
        self.rows.borrow_mut().remove(&(table.to_string(), subject.to_string()));
        Ok(())
    }
}

fn ok_response() -> String {
    r#"{"items":[{"replace":{"_id":"x","result":"created"}}],"errors":false}"#.to_string()
}

fn lit(s: &str, p: &str, lex: &str, lang: Option<&str>) -> (String, String, LiteralOrIri) {
    (s.into(), p.into(), LiteralOrIri::Literal { lex: lex.into(), lang: lang.map(|l| l.to_string()) })
}

fn entry() -> FulltextIndexConfig {
    FulltextIndexConfig {
        name: "products".into(),
        backend_url: "http://localhost:9308".into(),
        index: "products".into(),
        predicates: vec!["http://ex/label".into()],
        lang_filter: None,
        sweep_interval_secs: None,
    }
}

fn bare(id: &str) -> DocWrite {
    DocWrite { id: id.into(), fields: vec![], lang: None }
}

#[test]
fn build_docs_groups_by_subject_and_sorts_fields() {
    let rows = vec![
        lit("urn:s:1", "http://ex/label", "widget", Some("en")),
        lit("urn:s:1", "http://ex/desc", "a widget", Some("en")),
        lit("urn:s:2", "http://ex/label", "gadget", Some("en")),
    ];
    let (docs, _hashes) = build_docs_and_hashes(&rows, None);
    let by_id: HashMap<&str, &DocWrite> = docs.iter().map(|d| (d.id.as_str(), d)).collect();

    let d1 = by_id["urn:s:1"];
    assert_eq!(
        d1.fields,
        vec![
            ("http://ex/desc".to_string(), "a widget".to_string()),
            ("http://ex/label".to_string(), "widget".to_string()),
        ]
    );
    assert_eq!(d1.lang.as_deref(), Some("en"));

    let d2 = by_id["urn:s:2"];
    assert_eq!(d2.fields, vec![("http://ex/label".to_string(), "gadget".to_string())]);
}

#[test]
fn build_docs_filters_by_lang() {
    let rows = vec![
        lit("urn:s:1", "http://ex/label", "widget", Some("en")),
        lit("urn:s:1", "http://ex/label-de", "Bauteil", Some("de")),
    ];
    let (docs, _) = build_docs_and_hashes(&rows, Some("en"));
    assert_eq!(docs.len(), 1);
    assert_eq!(docs[0].fields.len(), 1);
    assert_eq!(docs[0].fields[0].0, "http://ex/label");
}

#[test]
fn diff_detects_new_updated_and_removed() {
    let docs = vec![bare("urn:new"), bare("urn:updated"), bare("urn:unchanged")];
    let mut hashes = Table::new();
    hashes.insert("urn:new".to_string(), "AAAA".to_string());
    hashes.insert("urn:updated".to_string(), "BBBB".to_string());
    hashes.insert("urn:unchanged".to_string(), "CCCC".to_string());

    let mut known = Table::new();
    known.insert("urn:updated".to_string(), "PRIOR".to_string());
    known.insert("urn:unchanged".to_string(), "CCCC".to_string());
    known.insert("urn:removed".to_string(), "PRIOR".to_string());

    let (to_ins, to_del) = diff(&docs, &hashes, &known);
    assert_eq!(to_ins.iter().map(|d| d.id.as_str()).collect::<Vec<_>>(), vec!["urn:new", "urn:updated"]);
    assert_eq!(to_del, vec!["urn:removed".to_string()]);
}

#[test]
fn build_bulk_body_matches_wf_fulltext_shape() {
    let docs = vec![DocWrite {
        id: "urn:s:1".into(),
        fields: vec![("label".into(), "widget".into())],
        lang: Some("en".into()),
    }];
    let body = build_bulk_body("products", &docs);
    let line = body.trim_end_matches('\n');
    let parsed: serde_json::Value = serde_json::from_str(line).unwrap();
    assert_eq!(parsed["replace"]["index"], "products");
    assert_eq!(parsed["replace"]["id"], "urn:s:1");
    assert_eq!(parsed["replace"]["doc"]["label"], "widget");
    assert_eq!(parsed["replace"]["doc"]["lang"], "en");
}

#[test]
fn fulltext_sweep_build_delete_body_one_line_per_id() {
    let body = build_delete_body("products", &["urn:s:1".to_string(), "urn:s:2".to_string()]);
    assert_eq!(body.matches('\n').count(), 2);
}

#[test]
fn sanitize_index_name_replaces_specials() {
    assert_eq!(sanitize_index_name("products"), "products");
    assert_eq!(sanitize_index_name("my-index/2"), "my_index_2");
    assert_eq!(sanitize_index_name(""), "unnamed");
}

#[test]
fn sweep_emits_insert_for_new_doc_and_delete_for_removed() {
    let docs_v1 = vec![DocWrite {
        id: "urn:s:2".into(),
        fields: vec![("label".into(), "gadget".into())],
        lang: None,
    }];
    let mut hashes_v1 = Table::new();
    hashes_v1.insert("urn:s:2".to_string(), "H2".to_string());

    let mut known = Table::new();
    known.insert("urn:s:1".to_string(), "H1".to_string());

    let (ins, del) = diff(&docs_v1, &hashes_v1, &known);
    assert_eq!(ins.len(), 1);
    assert_eq!(ins[0].id, "urn:s:2");
    assert_eq!(del, vec!["urn:s:1".to_string()]);

    let backend = http(ok_response());
    let ins_body = build_bulk_body("products", &ins);
    let _ = backend.post_json("http://localhost:9308/bulk", &ins_body);

    let del_body = build_delete_body("products", &del);
    let _ = backend.post_json("http://localhost:9308/bulk", &del_body);

    let posts = backend.posts.borrow();
    assert_eq!(posts.len(), 2);
    assert!(posts[0].1.contains("\"urn:s:2\""));
    assert!(posts[0].1.contains("gadget"));
    assert!(posts[1].1.contains("\"urn:s:1\""));
    assert!(posts[1].1.contains("delete"));
}

#[test]
fn bulk_response_ok_accepts_errors_false() {
    assert!(bulk_response_ok(&ok_response()).is_ok());
}

#[test]
fn bulk_response_ok_errs_on_errors_true() {
    let body = r#"{"items":[{"replace":{"_id":"x","error":"schema"}}],"errors":true}"#;
    assert!(bulk_response_ok(body).is_err());
}

#[test]
fn bulk_response_must_say_that_there_were_no_errors() {
    assert_eq!(bulk_response_ok("{}").unwrap_err(), "backend reported errors: <no items>");
    assert!(bulk_response_ok(r#"{"errors":"no"}"#).is_err());
}

#[test]
fn blank_nodes_are_not_indexed() {
    let rows = vec![(
        "_:b0".to_string(),
        "http://ex/label".to_string(),
        LiteralOrIri::Literal { lex: "widget".into(), lang: None },
    )];
    let (docs, hashes) = build_docs_and_hashes(&rows, None);
    assert!(docs.is_empty());
    assert!(hashes.keys().is_empty());
}

#[test]
fn order_of_rows_does_not_matter() {
    let rows = vec![lit("a", "p", "1", None), lit("b", "p", "2", None), lit("a", "q", "3", None)];
    let turned = vec![lit("a", "q", "3", None), lit("b", "p", "2", None), lit("a", "p", "1", None)];
    let (docs, hashes) = build_docs_and_hashes(&rows, None);
    let (docs_turned, hashes_turned) = build_docs_and_hashes(&turned, None);
    assert_eq!(docs, docs_turned);
    assert_eq!(hashes.get("a"), hashes_turned.get("a"));
    assert_eq!(hashes.get("b"), hashes_turned.get("b"));
}

#[test]
fn deterministic_hash_of_identical_doc() {
    let rows = vec![lit("s", "p1", "x", None), lit("s", "p2", "y", None)];
    let (_, h1) = build_docs_and_hashes(&rows, None);
    let (_, h2) = build_docs_and_hashes(&rows, None);
    assert_eq!(h1.keys(), h2.keys());
    assert_eq!(h1.get("s"), h2.get("s"));
}

#[test]
fn hash_changes_when_field_changes() {
    let base = vec![lit("s", "p1", "x", None)];
    let modified = vec![lit("s", "p1", "y", None)];
    let (_, h_base) = build_docs_and_hashes(&base, None);
    let (_, h_mod) = build_docs_and_hashes(&modified, None);
    assert_ne!(h_base.get("s"), h_mod.get("s"));
}

struct FailingGraph;

impl GraphBridge for FailingGraph {
    fn select_subject_predicate_object(&self, _predicates: &[String]) -> Result<Rows, String> {
        Err("mock: graph unavailable".into())
    }
}

#[test]
fn run_returns_error_count_but_never_crashes() {
    let backend = MockHttp::default();
    let sink = MockSink::default();
    let counts = run(&[entry()], &backend, &FailingGraph, &sink);
    assert_eq!(counts.errors, 1);
    assert_eq!(counts.inserted, 0);
    assert_eq!(counts.deleted, 0);
}

#[test]
fn fulltext_sweep_full_sweep_two_generations_against_mock_backend() {
    let sink = MockSink::default();

    let graph_v0 = MockGraph { rows: vec![lit("urn:s:1", "http://ex/label", "widget", None)] };
    let http_v0 = http(ok_response());
    let counts_v0 = run(&[entry()], &http_v0, &graph_v0, &sink);
    assert_eq!(counts_v0.inserted, 1);
    assert_eq!(counts_v0.deleted, 0);
    assert_eq!(counts_v0.errors, 0);
    assert_eq!(http_v0.posts.borrow().len(), 1);
    assert!(http_v0.posts.borrow()[0].1.contains("urn:s:1"));
    assert!(http_v0.posts.borrow()[0].1.contains("widget"));

    let graph_v1 = MockGraph { rows: vec![lit("urn:s:2", "http://ex/label", "gadget", None)] };
    let http_v1 = http(ok_response());
    let counts_v1 = run(&[entry()], &http_v1, &graph_v1, &sink);
    assert_eq!(counts_v1.inserted, 1);
    assert_eq!(counts_v1.deleted, 1);
    assert_eq!(counts_v1.errors, 0);
    let posts_v1 = http_v1.posts.borrow();
    assert_eq!(posts_v1.len(), 2);
    assert!(posts_v1[0].1.contains("replace"), "post 0: {}", posts_v1[0].1);
    assert!(posts_v1[0].1.contains("urn:s:2"));
    assert!(posts_v1[1].1.contains("delete"), "post 1: {}", posts_v1[1].1);
    assert!(posts_v1[1].1.contains("urn:s:1"));

    let http_v2 = http(ok_response());
    let counts_v2 = run(&[entry()], &http_v2, &graph_v1, &sink);
    assert_eq!(counts_v2.inserted, 0);
    assert_eq!(counts_v2.deleted, 0);
    assert_eq!(counts_v2.errors, 0);
    assert!(http_v2.posts.borrow().is_empty());
}

#[test]
fn fulltext_sweep_refused_batches_leave_the_tracker() {
    let sink = MockSink::default();
    sink.upsert("wf_ft_keys_products", "urn:gone", "h").unwrap();
    let graph = MockGraph { rows: vec![lit("urn:s:1", "http://ex/label", "widget", None)] };
    let counts = run(&[entry()], &http("not json".into()), &graph, &sink);
    assert_eq!(counts, SweepCounts { inserted: 0, deleted: 0, errors: 2 });
    assert_eq!(sink.rows.borrow().len(), 1);
}

struct NoHttp;

impl HttpBridge for NoHttp {
    fn post_json(&self, _url: &str, _body: &str) -> Result<String, String> {
        Err("refused".into())
    }
}

#[test]
fn fulltext_sweep_tells_what_went_wrong() {
    let sink = MockSink::default();
    sink.upsert("wf_ft_keys_products", "urn:gone", "h").unwrap();
    let graph = MockGraph { rows: vec![lit("urn:s:1", "http://ex/label", "widget", None)] };
    let (counts, messages) = run_with_messages(&[entry()], &NoHttp, &graph, &sink);
    assert_eq!(counts, SweepCounts { inserted: 0, deleted: 0, errors: 2 });
    assert_eq!(
        messages,
        vec![
            "wf_canonicalize.fulltext_sweep: entry `products`: insert POST: refused".to_string(),
            "wf_canonicalize.fulltext_sweep: entry `products`: delete POST: refused".to_string(),
        ]
    );
    let (_, messages) = run_with_messages(&[entry()], &NoHttp, &FailingGraph, &sink);
    assert_eq!(
        messages,
        vec!["wf_canonicalize.fulltext_sweep: entry `products`: mock: graph unavailable".to_string()]
    );
}

#[test]
fn sweep_and_component_make_the_same_batch() {
    let fields = vec![("http://ex/p".to_string(), "a".to_string())];
    let doc = DocWrite { id: "urn:s".into(), fields: fields.clone(), lang: Some("en".into()) };
    let plain = manticore_admin::PlainDocWrite { id: "urn:s".into(), fields, lang: Some("en".into()) };
    assert_eq!(build_bulk_body("ix", &[doc]), manticore_admin::build_bulk_body("ix", &[plain]));
}

use webfunctions::demote_tree::edges::{collect, is_tree, wit_to_term, Config, EdgeMap, Term};
use webfunctions::demote_tree::run::{
    begin, config_text, enumerate_roots, offers, register, step, Stage, UnreachableState,
};
use webfunctions::demote_tree::serialize::{display_id, local_name, serialize_tree};
use webfunctions::hash::{mint_genid, GENID_PREFIX};
use webfunctions::host::{Reply, Request};
use webfunctions::json::Json;
use webfunctions::rdf::{Binding, Literal, Quad, QueryResult, RDF_FIRST, RDF_NIL, RDF_REST, RDF_TYPE};

const XSD_STRING: &str = "http://www.w3.org/2001/XMLSchema#string";

fn cfg_default() -> Config {
    Config {
        name: None,
        root_selector: String::new(),
        sink: String::new(),
        delete_source: false,
        reject_non_tree: true,
        collapse_rdf_lists: true,
        include_id: true,
    }
}

fn text(label: &str) -> Term {
    Term::Literal { label: label.into(), datatype: XSD_STRING.into(), lang: None }
}

fn iri(i: &str) -> Term {
    Term::Iri(i.into())
}

fn value(j: &Json) -> serde_json::Value {
    serde_json::from_str(&j.render()).unwrap()
}

fn parsed(s: &str) -> serde_json::Value {
    serde_json::from_str(s).unwrap()
}

#[test]
fn rdf_list_two_items_collapses_to_json_array() {
    let mut edges = EdgeMap::default();
    edges.add_edge("http://ex/r", RDF_FIRST, text("a"));
    edges.add_edge("http://ex/r", RDF_REST, Term::Bnode("b1".into()));
    edges.add_edge("_:b1", RDF_FIRST, text("b"));
    edges.add_edge("_:b1", RDF_REST, iri(RDF_NIL));

    let cfg = cfg_default();
    let mut nodes = 0u64;
    let doc = serialize_tree(&edges, "http://ex/r", &cfg, &mut nodes).unwrap();
    assert_eq!(value(&doc), parsed(r#"["a", "b"]"#));
    assert_eq!(nodes, 2);
}

#[test]
fn nested_object_tree_produces_grouped_json() {
    let mut edges = EdgeMap::default();
    edges.add_edge("http://ex/r", "http://schema.org/name", text("Recipe"));
    edges.add_edge("http://ex/r", RDF_TYPE, iri("http://schema.org/Recipe"));
    edges.add_edge("http://ex/r", "http://schema.org/step", iri("http://ex/s1"));
    edges.add_edge("http://ex/s1", "http://schema.org/text", text("Chop onions"));

    let cfg = cfg_default();
    let mut nodes = 0u64;
    let doc = serialize_tree(&edges, "http://ex/r", &cfg, &mut nodes).unwrap();
    assert_eq!(
        value(&doc),
        parsed(
            r#"{
                "@id": "http://ex/r",
                "@type": "http://schema.org/Recipe",
                "name": "Recipe",
                "step": { "@id": "http://ex/s1", "text": "Chop onions" }
            }"#
        )
    );
    assert_eq!(nodes, 2);
}

#[test]
fn dag_shape_is_rejected_by_is_tree() {
    let mut edges = EdgeMap::default();
    edges.add_edge("http://ex/r", "http://ex/left", iri("http://ex/child"));
    edges.add_edge("http://ex/r", "http://ex/right", iri("http://ex/mid"));
    edges.add_edge("http://ex/mid", "http://ex/target", iri("http://ex/child"));
    edges.subjects.insert("http://ex/child".into());
    assert!(!is_tree(&edges, "http://ex/r"));
}

#[test]
fn subject_out_of_reach_is_no_part_of_a_tree() {
    let mut edges = EdgeMap::default();
    edges.add_edge("http://ex/r", "http://ex/p", text("a"));
    assert!(is_tree(&edges, "http://ex/r"));
    edges.add_edge("http://ex/x", "http://ex/p", text("b"));
    assert!(!is_tree(&edges, "http://ex/r"));
}

#[test]
fn empty_rdf_list_collapses_to_empty_array() {
    let mut edges = EdgeMap::default();
    edges.add_edge("http://ex/r", "http://ex/items", iri(RDF_NIL));
    let cfg = cfg_default();
    let mut nodes = 0u64;
    let doc = serialize_tree(&edges, "http://ex/r", &cfg, &mut nodes).unwrap();
    assert_eq!(value(&doc), parsed(r#"{ "@id": "http://ex/r", "items": [] }"#));
}

#[test]
fn multi_valued_predicate_produces_array() {
    let mut edges = EdgeMap::default();
    for label in ["a", "b", "c"] {
        edges.add_edge("http://ex/r", "http://ex/tag", text(label));
    }
    let cfg = cfg_default();
    let mut nodes = 0u64;
    let doc = serialize_tree(&edges, "http://ex/r", &cfg, &mut nodes).unwrap();
    assert_eq!(value(&doc), parsed(r#"{ "@id": "http://ex/r", "tag": ["a", "b", "c"] }"#));
}

#[test]
fn genid_is_deterministic() {
    let a1 = mint_genid("x1");
    let a2 = mint_genid("x1");
    assert_eq!(a1, a2);
    assert!(a1.starts_with(GENID_PREFIX));
    let suffix = a1.strip_prefix(GENID_PREFIX).unwrap();
    assert_eq!(suffix.len(), 32);
}

#[test]
fn leaf_keeps_a_tree() {
    let mut edges = EdgeMap::default();
    edges.add_edge("http://ex/r", "http://ex/p", iri("http://ex/a"));
    edges.add_edge("http://ex/a", "http://ex/p", text("x"));
    assert!(is_tree(&edges, "http://ex/r"));
    edges.add_edge("http://ex/a", "http://ex/q", text("y"));
    assert!(is_tree(&edges, "http://ex/r"));
}

#[test]
fn node_met_again_is_a_reference() {
    let mut edges = EdgeMap::default();
    edges.add_edge("http://ex/r", "http://ex/self", iri("http://ex/r"));
    let mut nodes = 0u64;
    let doc = serialize_tree(&edges, "http://ex/r", &cfg_default(), &mut nodes).unwrap();
    assert_eq!(value(&doc), parsed(r#"{ "@id": "http://ex/r", "self": { "$ref": "http://ex/r" } }"#));
    assert_eq!(nodes, 1);
}

#[test]
fn local_names_end_after_the_last_separator() {
    assert_eq!(local_name("http://schema.org/name"), "name");
    assert_eq!(local_name("http://ex/v#label"), "label");
    assert_eq!(local_name(RDF_TYPE), "@type");
    assert_eq!(display_id("http://ex/r"), "http://ex/r");
    assert_eq!(display_id("_:b"), mint_genid("b"));
}

fn named(i: &str) -> webfunctions::rdf::Term {
    webfunctions::rdf::Term::NamedNode(i.into())
}

fn literal(v: &str) -> webfunctions::rdf::Term {
    webfunctions::rdf::Term::Literal(Literal { value: v.into(), datatype: None, language: None })
}

fn quad(s: &str, p: &str, o: webfunctions::rdf::Term) -> Quad {
    Quad { subject: named(s), predicate: named(p), object: o, graph: None }
}

fn root_result(roots: &[&str]) -> Reply {
    Reply::Result(QueryResult::Bindings(
        roots.iter().map(|r| Binding { variable: "r".into(), value: named(r) }).collect(),
    ))
}

#[test]
fn collecting_reads_statements() {
    let edges = collect("http://ex/r", &vec![quad("http://ex/r", "http://ex/p", literal("v"))]).unwrap();
    assert!(edges.subjects.contains("http://ex/r"));
    assert!(edges.edges_of("http://ex/r").is_some());
    match wit_to_term(&literal("v")) {
        Term::Literal { label, .. } => assert_eq!(label, "v"),
        other => panic!("unexpected {other:?}"),
    }
    let bad = Quad {
        subject: literal("x"),
        predicate: named("http://ex/p"),
        object: literal("v"),
        graph: None,
    };
    assert!(collect("http://ex/r", &vec![bad]).is_err());
}

#[test]
fn demotion_puts_and_deletes() {
    let mut cfg = cfg_default();
    cfg.sink = "docs".into();
    cfg.root_selector = "?r a <http://ex/T>".into();
    cfg.delete_source = true;
    let (stage, request) = begin();
    assert!(matches!(request, Request::ListSinks));
    let (stage, request) = step(&cfg, stage, Reply::Sinks(vec!["docs".into()]));
    match &request {
        Request::Query(q) => assert_eq!(q, "SELECT DISTINCT ?r WHERE { ?r a <http://ex/T> }"),
        other => panic!("unexpected {other:?}"),
    }
    let (stage, request) = step(&cfg, stage, root_result(&["http://ex/r"]));
    match &request {
        Request::Query(q) => assert_eq!(
            q,
            "CONSTRUCT { ?s ?p ?o } WHERE { <http://ex/r> (!<urn:tegmentum:no-such-predicate>)* ?s . ?s ?p ?o }"
        ),
        other => panic!("unexpected {other:?}"),
    }
    let quads = vec![quad("http://ex/r", "http://ex/name", literal("x"))];
    let (stage, request) = step(&cfg, stage, Reply::Result(QueryResult::Quads(quads)));
    match &request {
        Request::Put(sink, key, content) => {
            assert_eq!(sink, "docs");
            assert_eq!(key, "http://ex/r");
            assert_eq!(parsed(content), parsed(r#"{"@id":"http://ex/r","name":"x"}"#));
        },
        other => panic!("unexpected {other:?}"),
    }
    let (stage, request) = step(&cfg, stage, Reply::Done);
    match &request {
        Request::Update(u) => assert_eq!(u, "DELETE { <http://ex/r> ?p ?o } WHERE { <http://ex/r> ?p ?o }"),
        other => panic!("unexpected {other:?}"),
    }
    let (stage, request) = step(&cfg, stage, Reply::Done);
    assert!(matches!(stage, Stage::Over));
    match request {
        Request::Finish(Ok(webfunctions::rdf::Term::Literal(l))) => {
            assert_eq!(parsed(&l.value), parsed(r#"{"trees":1,"nodes":1,"skipped":0,"deleted":1}"#));
        },
        other => panic!("unexpected {other:?}"),
    }
}

fn failure(request: Request) -> String {
    match request {
        Request::Finish(Err(e)) => e,
        other => panic!("expected a failure, got {other:?}"),
    }
}

#[test]
fn demotion_fails_clearly() {
    let mut cfg = cfg_default();
    cfg.sink = "docs".into();
    let (stage, _) = begin();
    let (_, request) = step(&cfg, stage, Reply::Sinks(vec![]));
    assert_eq!(
        failure(request),
        "wf_demote_tree: sink `docs` not registered with host (list-sinks returned 0 sinks)"
    );
    let (_, request) = step(&cfg, Stage::Roots, Reply::Result(QueryResult::Boolean(true)));
    assert_eq!(failure(request), "wf_demote_tree: root selector must yield bindings, not CONSTRUCT/ASK");
    let blank = Reply::Result(QueryResult::Bindings(vec![Binding {
        variable: "r".into(),
        value: webfunctions::rdf::Term::BlankNode("b".into()),
    }]));
    let (_, request) = step(&cfg, Stage::Roots, blank);
    assert!(failure(request).starts_with("wf_demote_tree: bnode-rooted tree at _:b"));
    let (stage, _) = step(&cfg, Stage::Roots, root_result(&["http://ex/r"]));
    let (stage, _) = step(
        &cfg,
        stage,
        Reply::Result(QueryResult::Quads(vec![quad("http://ex/r", "http://ex/p", literal("v"))])),
    );
    let (_, request) = step(&cfg, stage, Reply::Failed("no room".into()));
    assert_eq!(failure(request), "wf_demote_tree: put-document for `http://ex/r`: no room");
}

#[test]
fn rejected_roots_are_skipped() {
    let mut cfg = cfg_default();
    cfg.sink = "docs".into();
    let (stage, _) = step(&cfg, Stage::Roots, root_result(&["http://ex/r"]));
    let quads = vec![
        quad("http://ex/r", "http://ex/p", named("http://ex/a")),
        quad("http://ex/r", "http://ex/q", named("http://ex/a")),
        quad("http://ex/a", "http://ex/p", literal("v")),
    ];
    let (_, request) = step(&cfg, stage, Reply::Result(QueryResult::Quads(quads)));
    match request {
        Request::Finish(Ok(webfunctions::rdf::Term::Literal(l))) => {
            assert_eq!(parsed(&l.value), parsed(r#"{"trees":0,"nodes":0,"skipped":1,"deleted":0}"#));
        },
        other => panic!("unexpected {other:?}"),
    }
}

#[test]
fn demote_tree_component() {
    assert_eq!(register()[0].name, "urn:webfunction:demote-tree");
    assert!(offers("urn:webfunction:demote-tree").is_ok());
    assert_eq!(offers("x").unwrap_err(), "wf_demote_tree: unknown function 'x'");
    assert_eq!(
        UnreachableState.finish().unwrap_err(),
        "wf_demote_tree: aggregate state was never constructed"
    );
    assert_eq!(config_text(&vec![]).unwrap_err(), "wf_demote_tree: expected one arg (config json)");
    assert_eq!(config_text(&vec![literal("{}")]).unwrap(), "{}");
    let roots = enumerate_roots(&vec![
        Binding { variable: "x".into(), value: named("http://ex/no") },
        Binding { variable: "r".into(), value: named("http://ex/yes") },
        Binding { variable: "r".into(), value: literal("no") },
    ]);
    assert_eq!(roots, vec!["http://ex/yes".to_string()]);
}

#[test]
fn kept_source_stays() {
    let mut cfg = cfg_default();
    cfg.sink = "docs".into();
    let (stage, _) = step(&cfg, Stage::Roots, root_result(&["http://ex/r"]));
    let quads = vec![quad("http://ex/r", "http://ex/name", literal("x"))];
    let (stage, _) = step(&cfg, stage, Reply::Result(QueryResult::Quads(quads)));
    let (_, request) = step(&cfg, stage, Reply::Done);
    match request {
        Request::Finish(Ok(webfunctions::rdf::Term::Literal(l))) => {
            assert_eq!(parsed(&l.value), parsed(r#"{"trees":1,"nodes":1,"skipped":0,"deleted":0}"#));
        },
        other => panic!("unexpected {other:?}"),
    }
}

#[test]
fn empty_list_shows_no_node() {
    let mut edges = EdgeMap::default();
    edges.add_edge(RDF_NIL, RDF_FIRST, text("a"));
    edges.add_edge(RDF_NIL, RDF_REST, iri(RDF_NIL));
    let mut nodes = 0u64;
    let doc = serialize_tree(&edges, RDF_NIL, &cfg_default(), &mut nodes).unwrap();
    assert_eq!(value(&doc), parsed("[]"));
    assert_eq!(nodes, 0);
}

#[test]
fn list_that_comes_back_is_marked() {
    let mut edges = EdgeMap::default();
    edges.add_edge("http://ex/r", RDF_FIRST, text("a"));
    edges.add_edge("http://ex/r", RDF_REST, iri("http://ex/r"));
    let mut nodes = 0u64;
    let doc = serialize_tree(&edges, "http://ex/r", &cfg_default(), &mut nodes).unwrap();
    assert_eq!(value(&doc), parsed(r#"["a", { "$cycle": "http://ex/r" }]"#));
    assert_eq!(nodes, 1);
    let mut edges = EdgeMap::default();
    edges.add_edge("http://ex/r", RDF_FIRST, text("a"));
    edges.add_edge("http://ex/r", RDF_REST, text("b"));
    assert_eq!(
        serialize_tree(&edges, "http://ex/r", &cfg_default(), &mut nodes).unwrap_err(),
        "wf_demote_tree: rdf:rest points to literal at http://ex/r"
    );
}

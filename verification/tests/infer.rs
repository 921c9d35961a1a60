use std::collections::BTreeSet;

use serde_json::Value as JsonValue;
use webfunctions::host::{Reply, Request};
use webfunctions::infer::engine::{
    bindings_to_quads, default_max_iterations, default_refresh, make_batches, read_size, Rule, BATCH_SIZE,
};
use webfunctions::infer::{extension, local};
use webfunctions::rdf::{Binding, Literal, Quad, QueryResult, Term, RDF_JSON, RDF_TYPE};

const EX: &str = "http://example.org/";

fn named(name: &str) -> Term {
    Term::NamedNode(format!("{EX}{name}"))
}

fn json_arg(s: &str) -> Term {
    Term::Literal(Literal { value: s.to_string(), datatype: None, language: None })
}

fn read_rule(text: &str) -> Rule {
    let v: JsonValue = serde_json::from_str(text).unwrap();
    let get = |key: &str| v.get(key).and_then(|t| t.as_str()).map(|t| t.to_string());
    Rule {
        name: get("name").unwrap(),
        construct: get("construct"),
        if_clause: get("if"),
        then_clause: get("then"),
        prefixes: get("prefixes"),
        graph: get("graph").unwrap(),
        refresh_mode: get("refresh_mode").unwrap_or(default_refresh()),
        iterate: v.get("iterate").and_then(|b| b.as_bool()).unwrap_or(false),
        max_iterations: v
            .get("max_iterations")
            .and_then(|n| n.as_u64())
            .map(|n| n as u32)
            .unwrap_or(default_max_iterations()),
    }
}

/// A store that holds types of things and the classes above each class, and one
/// graph of derived statements.
struct Store {
    types: Vec<(String, String)>,
    above: Vec<(String, String)>,
    graph: String,
    derived: BTreeSet<String>,
    seen: Vec<String>,
}

impl Store {
    fn new(graph: &str) -> Store {
        let pairs = |p: &[(&str, &str)]| p.iter().map(|(a, b)| (a.to_string(), b.to_string())).collect();
        Store {
            types: pairs(&[("whiskers", "Cat"), ("rex", "Dog"), ("dumbo", "Mammal")]),
            above: pairs(&[("Cat", "Mammal"), ("Dog", "Mammal"), ("Mammal", "Animal")]),
            graph: graph.to_string(),
            derived: BTreeSet::new(),
            seen: vec![],
        }
    }

    fn all_above(&self, class: &str) -> Vec<String> {
        let mut found: Vec<String> = vec![];
        let mut at = class.to_string();
        while let Some((_, next)) = self.above.iter().find(|(c, _)| *c == at) {
            found.push(next.clone());
            at = next.clone();
        }
        found
    }

    fn construct(&self, query: &str) -> Vec<Quad> {
        let typed = |s: &str, class: &str| Quad {
            subject: named(s),
            predicate: Term::NamedNode(RDF_TYPE.into()),
            object: named(class),
            graph: None,
        };
        if query.contains("WHERE { ?s a ?sub . ?sub rdfs:subClassOf+ ?super }") {
            assert!(query.contains("CONSTRUCT { ?s a ?super }"));
            let mut quads = vec![];
            for (s, class) in &self.types {
                for c in self.all_above(class) {
                    quads.push(typed(s, &c));
                }
            }
            quads
        } else {
            assert!(query.contains("CONSTRUCT { ?s a :Cat } WHERE { ?s a :Cat }"));
            self.types.iter().filter(|(_, c)| c == "Cat").map(|(s, c)| typed(s, c)).collect()
        }
    }

    fn answer(&mut self, request: &Request) -> Reply {
        match request {
            Request::Update(u) if *u == format!("CLEAR SILENT GRAPH <{}>", self.graph) => {
                self.seen.push("clear".into());
                self.derived.clear();
                Reply::Done
            },
            Request::Update(u) => {
                self.seen.push("insert".into());
                let head = format!("INSERT DATA {{ GRAPH <{}> {{ ", self.graph);
                let body = u.strip_prefix(&head).unwrap().strip_suffix(" } }").unwrap();
                for line in body.lines().filter(|l| !l.trim().is_empty()) {
                    self.derived.insert(line.to_string());
                }
                Reply::Done
            },
            Request::Query(q) if q.starts_with("SELECT (COUNT(*) AS ?n)") => {
                self.seen.push("size".into());
                assert_eq!(*q, format!("SELECT (COUNT(*) AS ?n) WHERE {{ GRAPH <{}> {{ ?s ?p ?o }} }}", self.graph));
                Reply::Result(QueryResult::Bindings(vec![Binding {
                    variable: "n".into(),
                    value: json_arg(&self.derived.len().to_string()),
                }]))
            },
            Request::Query(q) => {
                self.seen.push("construct".into());
                Reply::Result(QueryResult::Quads(self.construct(q)))
            },
            other => panic!("unexpected {other:?}"),
        }
    }

    fn run_rule(&mut self, rule: &Rule) -> Result<Term, String> {
        let (mut stage, mut request) = extension::begin(rule);
        loop {
            if let Request::Finish(r) = request {
                return r;
            }
            let reply = self.answer(&request);
            let next = extension::step(rule, stage, reply);
            stage = next.0;
            request = next.1;
        }
    }
}

fn unpack_json_return(term: Term) -> JsonValue {
    match term {
        Term::Literal(l) => {
            assert_eq!(l.datatype.as_deref(), Some(RDF_JSON));
            serde_json::from_str(&l.value).unwrap()
        },
        other => panic!("expected literal return, got {other:?}"),
    }
}

#[test]
fn register_reports_run_rule() {
    let descriptors = extension::register();
    let names: Vec<&str> = descriptors.iter().map(|d| d.name.as_str()).collect();
    assert!(names.contains(&"run-rule"), "got {names:?}");
    assert_eq!(descriptors.len(), 1);
    assert_eq!(descriptors[0].min_arity, 1);
    assert_eq!(descriptors[0].max_arity, Some(1));
}

#[test]
fn subclass_rule_derives_transitive_types() {
    let derived_graph = "http://example.org/derived/types";
    let rule = read_rule(
        r#"{
            "name": "subclass_closure",
            "construct": "PREFIX rdfs: <http://www.w3.org/2000/01/rdf-schema#> PREFIX rdf: <http://www.w3.org/1999/02/22-rdf-syntax-ns#> CONSTRUCT { ?s a ?super } WHERE { ?s a ?sub . ?sub rdfs:subClassOf+ ?super }",
            "graph": "http://example.org/derived/types",
            "refresh_mode": "replace"
        }"#,
    );
    let mut store = Store::new(derived_graph);
    let payload = unpack_json_return(store.run_rule(&rule).expect("run-rule returned Err"));
    assert_eq!(payload.get("rule").and_then(|v| v.as_str()), Some("subclass_closure"));
    assert_eq!(payload.get("iterations").and_then(|v| v.as_u64()), Some(1));
    assert_eq!(store.derived.len(), 5);
    assert_eq!(payload.get("graph_size").and_then(|v| v.as_u64()), Some(5));
    assert!(store.derived.contains(&format!("<{EX}whiskers> <{RDF_TYPE}> <{EX}Animal> .")));
}

#[test]
fn if_then_sugar_matches_explicit_construct() {
    let rule = read_rule(
        r#"{
            "name": "subclass_closure_sugar",
            "prefixes": "PREFIX rdfs: <http://www.w3.org/2000/01/rdf-schema#> PREFIX rdf: <http://www.w3.org/1999/02/22-rdf-syntax-ns#>",
            "if": "?s a ?sub . ?sub rdfs:subClassOf+ ?super",
            "then": "?s a ?super",
            "graph": "http://example.org/derived/types-sugar"
        }"#,
    );
    assert_eq!(
        rule.construct_sparql("wf_infer").unwrap(),
        "PREFIX rdfs: <http://www.w3.org/2000/01/rdf-schema#> PREFIX rdf: <http://www.w3.org/1999/02/22-rdf-syntax-ns#>\nCONSTRUCT { ?s a ?super } WHERE { ?s a ?sub . ?sub rdfs:subClassOf+ ?super }"
    );
    let mut store = Store::new("http://example.org/derived/types-sugar");
    let _payload = unpack_json_return(store.run_rule(&rule).expect("run-rule returned Err"));
    assert_eq!(store.derived.len(), 5);
}

fn cat_rule(graph: &str, mode: &str) -> Rule {
    Rule {
        name: "cat".into(),
        construct: Some("PREFIX : <http://example.org/> CONSTRUCT { ?s a :Cat } WHERE { ?s a :Cat }".into()),
        if_clause: None,
        then_clause: None,
        prefixes: None,
        graph: graph.into(),
        refresh_mode: mode.into(),
        iterate: false,
        max_iterations: default_max_iterations(),
    }
}

#[test]
fn replace_mode_clears_stale_derivations() {
    let derived_graph = "http://example.org/derived/refresh-test";
    let rule = cat_rule(derived_graph, "replace");
    let mut store = Store::new(derived_graph);
    let _ = store.run_rule(&rule).expect("run-rule returned Err");
    assert_eq!(store.derived.len(), 1);
    store.types.retain(|(_, c)| c != "Cat");
    let payload = unpack_json_return(store.run_rule(&rule).expect("run-rule returned Err"));
    assert_eq!(store.derived.len(), 0);
    assert_eq!(payload.get("graph_size").and_then(|v| v.as_u64()), Some(0));
}

#[test]
fn append_mode_accumulates_across_runs() {
    let derived_graph = "http://example.org/derived/append-test";
    let rule = cat_rule(derived_graph, "append");
    let mut store = Store::new(derived_graph);
    let _ = store.run_rule(&rule).expect("run-rule returned Err");
    assert_eq!(store.derived.len(), 1);
    let _ = store.run_rule(&rule).expect("run-rule returned Err");
    assert_eq!(store.derived.len(), 1);
    assert!(!store.seen.contains(&"clear".to_string()));
}

#[test]
fn smoke_unknown_function_returns_typed_err() {
    let msg = extension::offers("not-a-real-function").unwrap_err();
    assert!(msg.contains("unknown function"), "unexpected error message: {msg}");
    assert_eq!(msg, "wf_infer-extension: unknown function 'not-a-real-function'");
}

#[test]
fn non_literal_argument_is_rejected() {
    let msg = extension::rule_text(&vec![named("not-json")]).unwrap_err();
    assert!(msg.contains("string literal"), "unexpected error message: {msg}");
}

#[test]
fn repetition_stops_when_the_graph_no_longer_grows() {
    let derived_graph = "http://example.org/derived/loop";
    let mut rule = cat_rule(derived_graph, "replace");
    rule.iterate = true;
    let mut store = Store::new(derived_graph);
    let payload = unpack_json_return(store.run_rule(&rule).unwrap());
    assert_eq!(payload["iterations"], 2);
    assert_eq!(payload["graph_size"], 1);
    rule.max_iterations = 1;
    let payload = unpack_json_return(store.run_rule(&rule).unwrap());
    assert_eq!(payload["iterations"], 1);
}

#[test]
fn wrong_rules_fail() {
    let mut rule = cat_rule("g", "sometimes");
    let e = Store::new("g").run_rule(&rule).unwrap_err();
    assert_eq!(e, "wf_infer-extension: unknown refresh_mode `sometimes` (want replace | append)");
    rule.if_clause = Some("x".into());
    assert!(rule.construct_sparql("c").unwrap_err().ends_with("pick one"));
    rule.construct = None;
    assert!(rule.construct_sparql("c").unwrap_err().ends_with("missing one of `if` / `then`"));
    rule.if_clause = None;
    assert!(rule.construct_sparql("c").unwrap_err().ends_with("has neither `construct` nor `if`/`then`"));
    let rule = cat_rule("g", "replace");
    let (stage, _) = extension::begin(&rule);
    let (_, request) = extension::step(&rule, stage, Reply::Failed("no".into()));
    match request {
        Request::Finish(Err(e)) => assert_eq!(e, "wf_infer-extension: clear graph `g`: no"),
        other => panic!("unexpected {other:?}"),
    }
    let (stage, _) = local::begin(&rule);
    let (_, request) = local::step(&rule, stage, Reply::Failed("no".into()));
    match request {
        Request::Finish(Err(e)) => assert_eq!(e, "wf_infer: clear graph `g`: no"),
        other => panic!("unexpected {other:?}"),
    }
}

#[test]
fn batches_are_bounded() {
    let quads: Vec<Quad> = (0..BATCH_SIZE + 1)
        .map(|i| Quad {
            subject: named(&i.to_string()),
            predicate: named("p"),
            object: json_arg("x"),
            graph: None,
        })
        .collect();
    let batches = make_batches(&quads);
    assert_eq!(batches.len(), 2);
    assert_eq!(batches[1], format!("<{EX}500> <{EX}p> \"x\" .\n"));
    assert_eq!(batches.concat().lines().count(), BATCH_SIZE + 1);
    assert!(make_batches(&vec![]).is_empty());
}

#[test]
fn rows_become_statements() {
    let row = |s: &str, p: &str, o: &str| {
        vec![
            Binding { variable: s.into(), value: named("a") },
            Binding { variable: p.into(), value: named("p") },
            Binding { variable: o.into(), value: json_arg("x") },
        ]
    };
    assert_eq!(bindings_to_quads(row("s", "p", "o")).len(), 1);
    assert_eq!(bindings_to_quads(row("subject", "predicate", "object")).len(), 1);
    assert_eq!(bindings_to_quads(row("s", "p", "x")).len(), 0);
    assert_eq!(read_size(&QueryResult::Boolean(true)), 0);
}

#[test]
fn infer_component() {
    assert!(local::offers(&local::register()[0].name).is_ok());
    assert_eq!(local::offers("x").unwrap_err(), "wf_infer: unknown function 'x'");
    assert_eq!(local::rule_text(&vec![json_arg("{}")]).unwrap(), "{}");
    assert!(local::rule_text(&vec![]).is_err());
}

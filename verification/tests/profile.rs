use webfunctions::host::Reply;
use webfunctions::profile::classify::{self, cardinality_name, xsd_to_column_type, Basis, Event};
use webfunctions::profile::{single, survey};
use webfunctions::rdf::{Binding, Literal, QueryResult, Term, RDF_JSON};

const XSD: &str = "http://www.w3.org/2001/XMLSchema#";

fn count(variable: &str, n: i64) -> Binding {
    Binding {
        variable: variable.into(),
        value: Term::Literal(Literal {
            value: n.to_string(),
            datatype: Some(format!("{XSD}integer")),
            language: None,
        }),
    }
}

/// A graph in which three people have a name each and know one another four
/// times over.
fn answer(query: &str) -> Reply {
    let knows = query.contains("<http://example.org/knows>");
    let name = query.contains("<http://example.org/name>");
    let (triples, subjects) = if knows { (4, 3) } else if name { (3, 3) } else { (0, 0) };
    let row = if query.contains("?maxc") {
        vec![count("maxc", if knows { 2 } else { 1 })]
    } else if query.contains("?iris") {
        vec![
            count("iris", if knows { 4 } else { 0 }),
            count("lits", if name { 3 } else { 0 }),
            count("bns", 0),
        ]
    } else if query.contains("?dt") {
        vec![
            Binding { variable: "dt".into(), value: Term::NamedNode(format!("{XSD}string")) },
            count("n", 3),
        ]
    } else if query.contains("SELECT ?head") {
        vec![]
    } else if query.contains("?p (COUNT(*)") {
        vec![
            Binding { variable: "p".into(), value: Term::NamedNode("http://example.org/knows".into()) },
            count("triples", 4),
            count("subjects", 3),
            Binding { variable: "p".into(), value: Term::NamedNode("http://example.org/name".into()) },
            count("triples", 3),
            count("subjects", 3),
        ]
    } else if query.contains("?triples") {
        vec![count("triples", triples), count("subjects", subjects)]
    } else {
        assert!(query.starts_with("SELECT (COUNT(*) AS ?n) WHERE { ?s <"), "{query}");
        vec![count("n", triples)]
    };
    Reply::Result(QueryResult::Bindings(row))
}

fn react(action: &classify::Action) -> Event {
    match action {
        classify::Action::Query(q) => Event::Reply(answer(q)),
        classify::Action::Weigh { iris, lits, total } => Event::Weighed {
            literals: *lits as f64 / (*total).max(1) as f64 > 0.9,
            names: *iris as f64 / (*total).max(1) as f64 > 0.9,
        },
        classify::Action::Rate { .. } => Event::Rated(serde_json::Number::from_f64(0.5).unwrap()),
    }
}

fn call(name: &str, arg: Term) -> Result<Term, String> {
    let call = single::read_call(name, &vec![arg])?;
    let (mut stage, mut action) = single::begin(call);
    loop {
        match action {
            single::Action::Finish(r) => return r,
            single::Action::Probe(a) => {
                let next = single::step(stage, react(&a));
                stage = next.0;
                action = next.1;
            },
        }
    }
}

fn iri(i: &str) -> Term {
    Term::NamedNode(i.to_string())
}

#[test]
fn register_reports_two_functions() {
    let descriptors = single::register();
    let names: Vec<&str> = descriptors.iter().map(|d| d.name.as_str()).collect();
    assert!(names.contains(&"predicate-triple-count"));
    assert!(names.contains(&"classify-predicate"));
    assert_eq!(descriptors.len(), 2);
    for d in &descriptors {
        assert_eq!(d.min_arity, 1);
        assert_eq!(d.max_arity, Some(1));
    }
}

#[test]
fn predicate_triple_count_knows_returns_four() {
    match call("predicate-triple-count", iri("http://example.org/knows")).unwrap() {
        Term::Literal(l) => {
            assert_eq!(l.value, "4");
            assert_eq!(l.datatype.as_deref(), Some("http://www.w3.org/2001/XMLSchema#integer"));
            assert!(l.language.is_none());
        },
        other => panic!("expected literal return, got {other:?}"),
    }
}

#[test]
fn predicate_triple_count_name_returns_three() {
    match call("predicate-triple-count", iri("http://example.org/name")).unwrap() {
        Term::Literal(l) => assert_eq!(l.value, "3"),
        other => panic!("expected literal, got {other:?}"),
    }
}

#[test]
fn predicate_triple_count_absent_predicate_returns_zero() {
    match call("predicate-triple-count", iri("http://example.org/never-heard-of-it")).unwrap() {
        Term::Literal(l) => assert_eq!(l.value, "0"),
        other => panic!("expected literal, got {other:?}"),
    }
}

#[test]
fn classify_predicate_emits_json_payload() {
    match call("classify-predicate", iri("http://example.org/name")).unwrap() {
        Term::Literal(l) => {
            assert_eq!(l.datatype.as_deref(), Some("http://www.w3.org/1999/02/22-rdf-syntax-ns#JSON"));
            let payload: serde_json::Value = serde_json::from_str(&l.value).unwrap();
            assert_eq!(payload.get("predicate").and_then(|v| v.as_str()), Some("http://example.org/name"));
            assert_eq!(payload["shape"], "attribute");
            assert_eq!(payload["cardinality"], "0..1");
            assert_eq!(payload["triples"], 3);
            assert_eq!(payload["subjects"], 3);
            assert_eq!(payload["target_type"], "string");
            assert_eq!(payload["confidence"], 0.5);
        },
        other => panic!("expected literal, got {other:?}"),
    }
}

#[test]
fn unknown_function_returns_typed_err() {
    let msg = call("not-a-real-function", iri("http://example.org/knows")).unwrap_err();
    assert!(msg.contains("unknown function"), "unexpected error message: {msg}");
}

#[test]
fn non_iri_argument_is_rejected() {
    let literal = Term::Literal(Literal { value: "not-an-iri".into(), datatype: None, language: None });
    let msg = call("predicate-triple-count", literal).unwrap_err();
    assert!(msg.contains("must be an IRI"), "unexpected error message: {msg}");
}

#[test]
fn survey_classifies_every_predicate() {
    let (mut stage, mut action) = survey::begin();
    let result = loop {
        match action {
            survey::Action::Finish(r) => break r.unwrap(),
            survey::Action::Probe(a) => {
                let next = survey::step(stage, react(&a));
                stage = next.0;
                action = next.1;
            },
        }
    };
    let text = match result {
        Term::Literal(l) => {
            assert_eq!(l.datatype.as_deref(), Some(RDF_JSON));
            l.value
        },
        other => panic!("expected literal, got {other:?}"),
    };
    let v: serde_json::Value = serde_json::from_str(&text).unwrap();
    let entries = v["predicates"].as_array().unwrap();
    assert_eq!(entries.len(), 2);
    assert_eq!(entries[0]["predicate"], "http://example.org/knows");
    assert_eq!(entries[0]["cardinality"], "0..n");
    assert_eq!(entries[0]["shape"], "graph");
    assert_eq!(entries[1]["shape"], "attribute");
}

#[test]
fn survey_and_single_look_agree() {
    let one = match call("classify-predicate", iri("http://example.org/knows")).unwrap() {
        Term::Literal(l) => l.value,
        other => panic!("expected literal, got {other:?}"),
    };
    let one: serde_json::Value = serde_json::from_str(&one).unwrap();
    assert_eq!(one["shape"], "graph");
    assert_eq!(one["target_type"], "iri");
}

#[test]
fn column_types() {
    assert_eq!(xsd_to_column_type(&format!("{XSD}long")), "integer");
    assert_eq!(xsd_to_column_type(&format!("{XSD}double")), "decimal");
    assert_eq!(xsd_to_column_type(&format!("{XSD}boolean")), "boolean");
    assert_eq!(xsd_to_column_type(&format!("{XSD}gYear")), "date");
    assert_eq!(xsd_to_column_type(&format!("{XSD}dateTime")), "datetime");
    assert_eq!(xsd_to_column_type("http://ex/other"), "string");
    assert_eq!(cardinality_name(2, 3), "0..n");
    assert_eq!(cardinality_name(1, 3), "0..1");
    assert_ne!(Basis::Mixture, Basis::BlankNodes);
}

#[test]
fn failed_queries_are_told() {
    let (stage, _) = single::begin(single::Call::Count("http://ex/p".into()));
    let (_, action) = single::step(stage, Event::Reply(Reply::Failed("down".into())));
    match action {
        single::Action::Finish(Err(e)) => assert_eq!(e, "down"),
        _ => panic!("expected a failure"),
    }
    let (stage, _) = single::begin(single::Call::Count("http://ex/p".into()));
    let (_, action) = single::step(stage, Event::Reply(Reply::Result(QueryResult::Boolean(true))));
    match action {
        single::Action::Finish(Err(e)) => {
            assert_eq!(e, "graph-callbacks: SELECT unexpectedly returned boolean")
        },
        _ => panic!("expected a failure"),
    }
}

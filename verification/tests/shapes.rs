use webfunctions::host::{Reply, Request};
use webfunctions::rdf::{Binding, Literal, Quad, QueryResult, Term, RDF_NIL, RDF_TYPE, XSD_INTEGER};
use webfunctions::shape::{coerce, default_cardinality, default_type, xsd_datatype_for, Anchor, Column};
use webfunctions::{demote, mapping, materialize, materialize_list, materialize_tree};

fn named(i: &str) -> Term {
    Term::NamedNode(i.into())
}

fn text(v: &str) -> Term {
    Term::Literal(Literal { value: v.into(), datatype: None, language: None })
}

fn typed(v: &str, datatype: &str) -> Term {
    Term::Literal(Literal { value: v.into(), datatype: Some(datatype.into()), language: None })
}

fn bind(variable: &str, value: Term) -> Binding {
    Binding { variable: variable.into(), value }
}

fn rows(bindings: Vec<Binding>) -> Reply {
    Reply::Result(QueryResult::Bindings(bindings))
}

fn class(iri: &str) -> Anchor {
    Anchor { class: Some(iri.into()), predicate_signature: None }
}

fn column(name: &str, role: &str, predicate: Option<&str>, value_type: &str, cardinality: &str) -> Column {
    Column {
        name: name.into(),
        role: role.into(),
        predicate: predicate.map(|p| p.to_string()),
        value_type: value_type.into(),
        cardinality: cardinality.into(),
    }
}

fn json(request: Request) -> serde_json::Value {
    match request {
        Request::Finish(Ok(Term::Literal(l))) => serde_json::from_str(&l.value).unwrap(),
        other => panic!("expected a report, got {other:?}"),
    }
}

fn failure(request: Request) -> String {
    match request {
        Request::Finish(Err(e)) => e,
        other => panic!("expected a failure, got {other:?}"),
    }
}

fn query(request: &Request) -> &str {
    match request {
        Request::Query(q) => q,
        other => panic!("expected a query, got {other:?}"),
    }
}

#[test]
fn values_take_the_type_of_their_column() {
    assert_eq!(coerce(&text("5"), "integer"), typed("5", XSD_INTEGER));
    assert_eq!(coerce(&named("http://ex/a"), "integer"), named("http://ex/a"));
    assert_eq!(xsd_datatype_for("integer").as_deref(), Some(XSD_INTEGER));
    assert_eq!(coerce(&coerce(&text("5"), "integer"), "boolean"), coerce(&text("5"), "boolean"));
    assert_eq!(default_type(), "string");
    assert_eq!(default_cardinality(), "0..1");
}

fn people() -> materialize::Descriptor {
    materialize::Descriptor {
        name: "people".into(),
        shape: "table".into(),
        anchor: class("http://ex/Person"),
        columns: vec![
            column("id", "subject_iri", None, "string", "1"),
            column("age", "attribute", Some("http://ex/age"), "integer", "1"),
            column("nick", "attribute", Some("http://ex/nick"), "string", "0..1"),
        ],
        sink: Some("rows".into()),
        registry: None,
        graph: None,
    }
}

#[test]
fn materialize_selects_the_columns() {
    let mut d = people();
    assert_eq!(
        materialize::build_select(&d).unwrap(),
        "SELECT ?subject ?age ?nick WHERE { ?subject a <http://ex/Person> . ?subject <http://ex/age> ?age . OPTIONAL { ?subject <http://ex/nick> ?nick . } }"
    );
    d.graph = Some("http://ex/g".into());
    d.anchor = Anchor { class: None, predicate_signature: Some(vec!["http://ex/age".into()]) };
    assert_eq!(
        materialize::build_select(&d).unwrap(),
        "SELECT ?subject ?age ?nick WHERE { GRAPH <http://ex/g> { ?subject <http://ex/age> ?_sig0 . ?subject <http://ex/age> ?age . OPTIONAL { ?subject <http://ex/nick> ?nick . } } }"
    );
    d.columns[1].predicate = None;
    assert_eq!(materialize::build_select(&d).unwrap_err(), "column `age` needs `predicate`");
    d.anchor = Anchor { class: None, predicate_signature: None };
    assert_eq!(
        materialize::build_select(&d).unwrap_err(),
        "wf_materialize: anchor missing both `class` and `predicate_signature`"
    );
}

#[test]
fn materialize_row_speaks_of_its_subject() {
    let d = people();
    let row = vec![bind("subject", named("http://ex/a")), bind("age", text("7"))];
    let quads = materialize::build_row_quads(&row, &d).unwrap();
    assert_eq!(
        quads,
        vec![
            Quad {
                subject: named("http://ex/a"),
                predicate: named(RDF_TYPE),
                object: named("http://ex/Person"),
                graph: None,
            },
            Quad {
                subject: named("http://ex/a"),
                predicate: named("http://ex/age"),
                object: typed("7", XSD_INTEGER),
                graph: None,
            },
        ]
    );
    assert!(materialize::build_row_quads(&vec![bind("age", text("7"))], &d).is_none());
}

#[test]
fn materialize_runs() {
    let d = people();
    let (stage, request) = materialize::begin(&d);
    assert!(matches!(request, Request::ListSinks));
    let (stage, request) = materialize::step(&d, stage, Reply::Sinks(vec!["rows".into()]));
    assert_eq!(query(&request), materialize::build_select(&d).unwrap());
    let (stage, request) =
        materialize::step(&d, stage, rows(vec![bind("subject", named("http://ex/a")), bind("age", text("7"))]));
    match &request {
        Request::Emit(sink, quads) => {
            assert_eq!(sink, "rows");
            assert_eq!(quads.len(), 2);
        },
        other => panic!("unexpected {other:?}"),
    }
    let (_, request) = materialize::step(&d, stage, Reply::Accepted(2));
    let report = json(request);
    assert_eq!(report.to_string(), r#"{"rows":1}"#);
    let (_, request) = materialize::step(&d, materialize::Stage::Rows, rows(vec![]));
    assert_eq!(json(request)["rows"], 0);
}

#[test]
fn materialize_fails_clearly() {
    let mut d = people();
    let (stage, _) = materialize::begin(&d);
    let (_, request) = materialize::step(&d, stage, Reply::Sinks(vec!["x".into()]));
    assert_eq!(
        failure(request),
        "wf_materialize: sink `rows` not registered with host (list-sinks returned 1 sinks)"
    );
    let (_, request) =
        materialize::step(&d, materialize::Stage::Rows, Reply::Result(QueryResult::Boolean(true)));
    assert_eq!(failure(request), "wf_materialize: descriptor SELECT must yield bindings, not CONSTRUCT/ASK");
    let (_, request) = materialize::step(&d, materialize::Stage::Rows, Reply::Failed("down".into()));
    assert_eq!(failure(request), "down");
    d.sink = None;
    assert_eq!(failure(materialize::begin(&d).1), "wf_materialize: descriptor has no `sink`");
    assert_eq!(
        materialize::descriptor_text(&vec![]).unwrap_err(),
        "wf_materialize: expected one arg (descriptor json)"
    );
    assert!(materialize::descriptor_text(&vec![named("http://ex/a")])
        .unwrap_err()
        .starts_with("wf_materialize: first arg must be a string literal, got "));
    assert_eq!(materialize::register()[0].name, "wf_materialize");
    assert_eq!(materialize::offers("x").unwrap_err(), "wf_materialize: unknown function 'x'");
}

fn playlist() -> materialize_list::Descriptor {
    materialize_list::Descriptor {
        name: "playlist".into(),
        shape: "list".into(),
        anchor: class("http://ex/Playlist"),
        list_predicate: "http://ex/tracks".into(),
        value_type: "string".into(),
        sink: Some("lists".into()),
        list_element_predicate: None,
    }
}

#[test]
fn materialize_list_walks_the_chain() {
    let d = playlist();
    assert_eq!(
        materialize_list::build_head_query(&d).unwrap(),
        "SELECT ?subject ?head WHERE { ?subject a <http://ex/Playlist> . ?subject <http://ex/tracks> ?head }"
    );
    let (stage, request) = materialize_list::begin(&d);
    assert!(matches!(request, Request::ListSinks));
    let (stage, _) = materialize_list::step(&d, stage, Reply::Sinks(vec!["lists".into()]));
    let heads = rows(vec![bind("subject", named("http://ex/p")), bind("head", Term::BlankNode("b1".into()))]);
    let (stage, request) = materialize_list::step(&d, stage, heads);
    match &request {
        Request::Prepare(q) => assert_eq!(q, materialize_list::STEP_QUERY),
        other => panic!("unexpected {other:?}"),
    }
    let (stage, request) = materialize_list::step(&d, stage, Reply::Done);
    match &request {
        Request::RunPrepared(b) => assert_eq!(*b, bind("head", Term::BlankNode("b1".into()))),
        other => panic!("unexpected {other:?}"),
    }
    let cell = |v: &str, rest: Term| Reply::Bindings(vec![bind("value", text(v)), bind("rest", rest)]);
    let (stage, request) = materialize_list::step(&d, stage, cell("x", Term::BlankNode("b2".into())));
    assert!(matches!(request, Request::RunPrepared(_)));
    let (stage, request) = materialize_list::step(&d, stage, cell("y", named(RDF_NIL)));
    assert!(matches!(request, Request::FreePrepared));
    let (stage, request) = materialize_list::step(&d, stage, Reply::Done);
    match &request {
        Request::Emit(_, quads) => {
            assert_eq!(quads.len(), 4);
            assert_eq!(quads[2].predicate, named("http://ex/tracks"));
            assert_eq!(quads[3].predicate, named(materialize_list::LIST_POSITION));
            assert_eq!(quads[3].object, typed("1", XSD_INTEGER));
        },
        other => panic!("unexpected {other:?}"),
    }
    let (_, request) = materialize_list::step(&d, stage, Reply::Accepted(4));
    let report = json(request);
    assert_eq!(report["source_rows"], 2);
    assert_eq!(report["quads_accepted"], 4);
}

#[test]
fn materialize_list_fails_clearly() {
    let mut d = playlist();
    d.shape = "table".into();
    assert_eq!(
        failure(materialize_list::begin(&d).1),
        "wf_materialize_list: descriptor shape must be `list`, got `table`"
    );
    let mut d = playlist();
    d.sink = None;
    assert_eq!(failure(materialize_list::begin(&d).1), "wf_materialize_list: descriptor has no `sink`");
    let (_, request) = materialize_list::step(
        &playlist(),
        materialize_list::Stage::Heads,
        Reply::Result(QueryResult::Boolean(true)),
    );
    assert_eq!(failure(request), "wf_materialize_list: head query must yield bindings, not CONSTRUCT/ASK");
    assert_eq!(
        materialize_list::descriptor_text(&vec![]).unwrap_err(),
        "wf_materialize_list: first arg must be a descriptor-json string literal"
    );
    assert_eq!(materialize_list::default_value_type(), "string");
    assert_eq!(materialize_list::register()[0].name, "wf_materialize_list");
}

fn org() -> materialize_tree::Descriptor {
    materialize_tree::Descriptor {
        name: "org".into(),
        shape: "tree".into(),
        anchor: class("http://ex/Unit"),
        columns: vec![
            column("parent", "parent_link", Some("http://ex/parent"), "string", "0..1"),
            column("size", "attribute", Some("http://ex/size"), "integer", "0..1"),
        ],
        sink: Some("docs".into()),
    }
}

#[test]
fn materialize_tree_puts_one_document_for_each_root() {
    let plan = materialize_tree::plan(&org()).unwrap();
    let (mut stage, mut request) = materialize_tree::begin();
    let mut puts: Vec<(String, serde_json::Value)> = vec![];
    let report = loop {
        let reply = match &request {
            Request::ListSinks => Reply::Sinks(vec!["docs".into()]),
            Request::Query(q) if q.starts_with("SELECT DISTINCT") => {
                assert_eq!(
                    q,
                    "SELECT DISTINCT ?s WHERE { ?s a <http://ex/Unit> FILTER NOT EXISTS { ?s <http://ex/parent> ?anyparent } }"
                );
                rows(vec![bind("s", named("http://ex/r")), bind("s", Term::BlankNode("b".into()))])
            },
            Request::Query(q) if q == "SELECT ?o WHERE { <http://ex/r> <http://ex/size> ?o } LIMIT 1" => {
                rows(vec![bind("o", text("12"))])
            },
            Request::Query(q) if q == "SELECT ?o WHERE { <http://ex/a> <http://ex/size> ?o } LIMIT 1" => rows(vec![]),
            Request::Query(q) if q == "SELECT ?c WHERE { ?c <http://ex/parent> <http://ex/r> }" => {
                rows(vec![bind("c", named("http://ex/a")), bind("c", named("http://ex/r"))])
            },
            Request::Query(q) if q == "SELECT ?c WHERE { ?c <http://ex/parent> <http://ex/a> }" => rows(vec![]),
            Request::Put(sink, key, content) => {
                assert_eq!(sink, "docs");
                puts.push((key.clone(), serde_json::from_str(content).unwrap()));
                Reply::Done
            },
            Request::Finish(_) => break json(request),
            other => panic!("unexpected {other:?}"),
        };
        let next = materialize_tree::step(&plan, stage, reply);
        stage = next.0;
        request = next.1;
    };
    assert_eq!(report["trees"], 1);
    assert_eq!(report["nodes"], 2);
    assert_eq!(puts.len(), 1);
    assert_eq!(puts[0].0, "http://ex/r");
    let expected: serde_json::Value = serde_json::from_str(
        r#"{ "id": "http://ex/r", "size": 12, "children": [
            { "id": "http://ex/a" }, { "id": "http://ex/r", "cycle": true } ] }"#,
    )
    .unwrap();
    assert_eq!(puts[0].1, expected);
}

#[test]
fn materialize_tree_fails_clearly() {
    let mut d = org();
    d.anchor = Anchor { class: None, predicate_signature: None };
    let plan = materialize_tree::plan(&d).unwrap();
    let (stage, _) = materialize_tree::begin();
    let (_, request) = materialize_tree::step(&plan, stage, Reply::Sinks(vec!["docs".into()]));
    assert_eq!(
        failure(request),
        "wf_materialize_tree: anchor.class required (predicate_signature not yet supported)"
    );
    d.sink = None;
    match materialize_tree::plan(&d) {
        Err(e) => assert_eq!(e, "wf_materialize_tree: descriptor has no `sink`"),
        Ok(_) => panic!("expected a failure"),
    }
    d.shape = "list".into();
    match materialize_tree::plan(&d) {
        Err(e) => assert_eq!(e, "wf_materialize_tree: descriptor shape must be `tree`, got `list`"),
        Ok(_) => panic!("expected a failure"),
    }
    let plan = materialize_tree::plan(&org()).unwrap();
    let (_, request) = materialize_tree::step(
        &plan,
        materialize_tree::Stage::Roots,
        Reply::Result(QueryResult::Boolean(false)),
    );
    assert_eq!(failure(request), "wf_materialize_tree: root query must yield bindings, not CONSTRUCT/ASK");
}

#[test]
fn materialize_tree_values() {
    let value = |t: &Term, ty: &str| materialize_tree::value_to_json(t, ty).render();
    assert_eq!(value(&text("7"), "integer"), "7");
    assert_eq!(value(&text("x"), "integer"), "\"x\"");
    assert_eq!(value(&text("1.5"), "decimal"), "1.5");
    assert_eq!(value(&text("1"), "boolean"), "true");
    assert_eq!(value(&text("maybe"), "boolean"), "\"maybe\"");
    assert_eq!(value(&text("7"), "string"), "\"7\"");
    assert_eq!(value(&Term::BlankNode("b".into()), "integer"), "\"_:b\"");
    assert_eq!(value(&Term::Triple("t".into()), "string"), "\"<<quoted triple>>\"");
    assert_eq!(
        materialize_tree::column_predicate(&org().columns, "parent_link").as_deref(),
        Some("http://ex/parent")
    );
    assert_eq!(materialize_tree::column_predicate(&org().columns, "child_link"), None);
}

#[test]
fn rows_are_mapped_in_order() {
    let job = mapping::read_args(&vec![named("http://ex/f"), text("SELECT ?x { }")]).unwrap();
    let (stage, request) = mapping::begin(&job);
    assert_eq!(query(&request), "SELECT ?x { }");
    let (stage, request) = mapping::step(
        &job,
        stage,
        rows(vec![bind("x", text("a")), bind("y", text("z")), bind("x", text("b"))]),
    );
    match &request {
        Request::Invoke(url, args) => {
            assert_eq!(url, "http://ex/f");
            assert_eq!(*args, vec![text("a")]);
        },
        other => panic!("unexpected {other:?}"),
    }
    let (stage, request) =
        mapping::step(&job, stage, Reply::Bindings(vec![bind("r", typed("4", XSD_INTEGER))]));
    match &request {
        Request::Invoke(_, args) => assert_eq!(*args, vec![text("b")]),
        other => panic!("unexpected {other:?}"),
    }
    let (_, request) = mapping::step(&job, stage, Reply::Bindings(vec![]));
    match request {
        Request::Finish(Ok(Term::Literal(l))) => assert_eq!(l.value, "[4,null]"),
        other => panic!("unexpected {other:?}"),
    }
}

#[test]
fn mapping_fails_clearly() {
    let args = |a: Term, b: Term| mapping::read_args(&vec![a, b]).err().unwrap();
    assert_eq!(
        mapping::read_args(&vec![]).err().unwrap(),
        "wf_map: expected 2 args (wasm URL, inner SPARQL), got 0"
    );
    assert!(args(Term::BlankNode("b".into()), text("q")).starts_with("wf_map: first arg must be an IRI or string, got "));
    assert!(args(text("u"), Term::BlankNode("b".into())).starts_with("wf_map: second arg must be a SPARQL string, got "));
    let job = mapping::Job { url: "u".into(), sparql: "q".into() };
    let (_, request) = mapping::step(&job, mapping::Stage::Rows, Reply::Result(QueryResult::Boolean(true)));
    assert_eq!(failure(request), "wf_map: inner query returned ASK-shape result");
    let (_, request) = mapping::step(&job, mapping::Stage::Rows, Reply::Result(QueryResult::Quads(vec![])));
    assert_eq!(failure(request), "wf_map: inner query returned CONSTRUCT-shape result");
}

#[test]
fn mapped_scalars() {
    let scalar = |t: Term| mapping::term_to_json_scalar(&t).render();
    assert_eq!(scalar(typed("4", XSD_INTEGER)), "4");
    assert_eq!(scalar(typed("x", XSD_INTEGER)), "\"x\"");
    assert_eq!(scalar(typed("2.5", "http://www.w3.org/2001/XMLSchema#double")), "2.5");
    assert_eq!(scalar(typed("inf", "http://www.w3.org/2001/XMLSchema#double")), "\"inf\"");
    assert_eq!(scalar(typed("0", "http://www.w3.org/2001/XMLSchema#boolean")), "false");
    assert_eq!(scalar(text("4")), "\"4\"");
    assert_eq!(scalar(named("http://ex/a")), "\"http://ex/a\"");
    assert_eq!(scalar(Term::BlankNode("b".into())), "\"_:b\"");
    assert_eq!(scalar(Term::Triple("t".into())), "\"<<quoted-triple>>\"");
    assert_eq!(mapping::first_scalar_of(&vec![bind("a", text("1")), bind("a", text("2"))]).render(), "\"1\"");
}

fn demoted() -> demote::Descriptor {
    demote::Descriptor {
        name: "people".into(),
        shape: "table".into(),
        anchor: class("http://ex/Person"),
        columns: vec![
            column("id", "subject_iri", Some("http://ex/id"), "string", "1"),
            column("age", "attribute", Some("http://ex/age"), "integer", "1"),
        ],
        sink: Some("rows".into()),
        graph: Some("http://ex/g".into()),
    }
}

fn statement(subject: Term) -> Quad {
    Quad { subject, predicate: named("http://ex/age"), object: text("1"), graph: None }
}

#[test]
fn demote_deletes_what_the_sink_holds() {
    let d = demoted();
    assert_eq!(demote::predicates(&d), vec!["http://ex/age".to_string(), RDF_TYPE.to_string()]);
    let (stage, _) = demote::begin(&d);
    let (stage, request) = demote::step(&d, stage, Reply::Sinks(vec!["rows".into()]));
    match &request {
        Request::Scan(sink, predicate) => {
            assert_eq!(sink, "rows");
            assert_eq!(predicate, "http://ex/age");
        },
        other => panic!("unexpected {other:?}"),
    }
    let found = vec![
        statement(named("http://ex/b")),
        statement(Term::BlankNode("x".into())),
        statement(named("http://ex/a")),
    ];
    let (stage, request) = demote::step(&d, stage, Reply::Quads(found));
    assert!(matches!(request, Request::Scan(_, _)));
    let (stage, request) = demote::step(&d, stage, Reply::Quads(vec![statement(named("http://ex/a"))]));
    assert_eq!(
        query(&request),
        "SELECT (COUNT(*) AS ?n) WHERE { GRAPH <http://ex/g> { ?s <http://ex/age> ?o } . VALUES ?s { _:x <http://ex/a> <http://ex/b> } }"
    );
    let (stage, request) = demote::step(&d, stage, rows(vec![bind("n", text("4"))]));
    match &request {
        Request::Update(u) => assert_eq!(
            u,
            "DELETE { GRAPH <http://ex/g> { ?s <http://ex/age> ?o } } WHERE { GRAPH <http://ex/g> { ?s <http://ex/age> ?o } . VALUES ?s { _:x <http://ex/a> <http://ex/b> } }"
        ),
        other => panic!("unexpected {other:?}"),
    }
    let (stage, request) = demote::step(&d, stage, Reply::Done);
    assert!(query(&request).contains(RDF_TYPE));
    let (stage, request) = demote::step(&d, stage, rows(vec![bind("n", text("2"))]));
    assert!(matches!(request, Request::Update(_)));
    let (_, request) = demote::step(&d, stage, Reply::Done);
    let report = json(request);
    assert_eq!(report["deleted"], 6);
    assert_eq!(report["predicates"], 2);
    assert_eq!(report["subjects"], 3);
}

#[test]
fn second_demotion_reports_none() {
    let d = demoted();
    let (stage, _) = demote::begin(&d);
    let (stage, _) = demote::step(&d, stage, Reply::Sinks(vec!["rows".into()]));
    let (stage, _) = demote::step(&d, stage, Reply::Quads(vec![statement(named("http://ex/a"))]));
    let (mut stage, mut request) = demote::step(&d, stage, Reply::Quads(vec![]));
    for _ in 0..2 {
        assert!(matches!(request, Request::Query(_)));
        (stage, request) = demote::step(&d, stage, rows(vec![bind("n", text("0"))]));
        assert!(matches!(request, Request::Update(_)));
        (stage, request) = demote::step(&d, stage, Reply::Done);
    }
    let report = json(request);
    assert_eq!(report["deleted"], 0);
    assert_eq!(report["subjects"], 1);
    assert!(matches!(stage, demote::Stage::Over));
}

#[test]
fn demote_with_nothing_to_delete() {
    let d = demoted();
    let (stage, _) = demote::begin(&d);
    let (stage, _) = demote::step(&d, stage, Reply::Sinks(vec!["rows".into()]));
    let (stage, _) = demote::step(&d, stage, Reply::Quads(vec![]));
    let (_, request) = demote::step(&d, stage, Reply::Quads(vec![]));
    let report = json(request);
    assert_eq!(report["deleted"], 0);
    assert_eq!(report["predicates"], 2);
    assert_eq!(report["subjects"], 0);
    let mut d = demoted();
    d.anchor = Anchor { class: None, predicate_signature: None };
    d.columns.clear();
    let (stage, _) = demote::begin(&d);
    let (_, request) = demote::step(&d, stage, Reply::Sinks(vec!["rows".into()]));
    assert_eq!(json(request)["predicates"], 0);
}

#[test]
fn demote_fails_clearly() {
    let mut d = demoted();
    let (stage, _) = demote::begin(&d);
    let (stage, _) = demote::step(&d, stage, Reply::Sinks(vec!["rows".into()]));
    let (stage, _) = demote::step(&d, stage, Reply::Quads(vec![statement(named("http://ex/a"))]));
    let (stage, _) = demote::step(&d, stage, Reply::Quads(vec![]));
    let (stage, _) = demote::step(&d, stage, rows(vec![bind("n", text("1"))]));
    let (_, request) = demote::step(&d, stage, Reply::Failed("down".into()));
    assert_eq!(failure(request), "wf_demote: delete predicate `http://ex/age` chunk of 1: down");
    let (stage, _) = demote::begin(&d);
    let (stage, _) = demote::step(&d, stage, Reply::Sinks(vec!["rows".into()]));
    let (stage, _) = demote::step(&d, stage, Reply::Quads(vec![statement(named("http://ex/a"))]));
    let (stage, _) = demote::step(&d, stage, Reply::Quads(vec![]));
    let (_, request) = demote::step(&d, stage, Reply::Failed("down".into()));
    assert_eq!(failure(request), "wf_demote: count predicate `http://ex/age` chunk of 1: down");
    d.sink = None;
    assert_eq!(failure(demote::begin(&d).1), "wf_demote: descriptor has no `sink`");
    assert_eq!(
        demote::descriptor_text(&vec![]).unwrap_err(),
        "wf_demote: expected one arg (descriptor json)"
    );
    assert_eq!(demote::register()[0].name, "urn:webfunction:demote");
}

#[test]
fn demote_goes_chunk_by_chunk() {
    let mut d = demoted();
    d.anchor = Anchor { class: None, predicate_signature: None };
    d.graph = None;
    let (stage, _) = demote::begin(&d);
    let (stage, _) = demote::step(&d, stage, Reply::Sinks(vec!["rows".into()]));
    let found: Vec<Quad> =
        (0..demote::CHUNK + 1).map(|i| statement(named(&format!("http://ex/{i:05}")))).collect();
    let (stage, request) = demote::step(&d, stage, Reply::Quads(found));
    assert!(query(&request).contains("<http://ex/00999>") && !query(&request).contains("<http://ex/01000>"));
    let (stage, request) = demote::step(&d, stage, rows(vec![bind("n", text("1000"))]));
    match &request {
        Request::Update(u) => {
            assert!(u.contains("<http://ex/00000>") && u.contains("<http://ex/00999>"));
            assert!(!u.contains("<http://ex/01000>"));
        },
        other => panic!("unexpected {other:?}"),
    }
    let (stage, request) = demote::step(&d, stage, Reply::Done);
    assert!(query(&request).contains("<http://ex/01000>"));
    let (stage, request) = demote::step(&d, stage, rows(vec![bind("n", text("1"))]));
    match &request {
        Request::Update(u) => assert_eq!(
            u,
            "DELETE { ?s <http://ex/age> ?o } WHERE { ?s <http://ex/age> ?o . VALUES ?s { <http://ex/01000> } }"
        ),
        other => panic!("unexpected {other:?}"),
    }
    let (_, request) = demote::step(&d, stage, Reply::Done);
    assert_eq!(json(request)["deleted"], 1001);
}

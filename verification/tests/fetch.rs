use webfunctions::fetch::{
    begin, map_http_err, offers, parse_body, read_args, register, step, syntax_from_content_type, take, Action, Event, HttpHeader,
    Job, Response, Stage, Syntax, UnreachableState, ACCEPT,
};
use webfunctions::guest::HttpError;
use webfunctions::rdf::{Literal, Term as WitTerm};

fn hdr(name: &str, value: &str) -> HttpHeader {
    HttpHeader {
        name: name.into(),
        value: value.into(),
    }
}

#[test]
fn content_type_sniff_turtle() {
    let s = syntax_from_content_type(&[hdr("content-type", "text/turtle")]);
    assert!(matches!(s, Syntax::Turtle));
}

#[test]
fn content_type_sniff_turtle_with_charset() {
    let s = syntax_from_content_type(&[hdr("content-type", "text/turtle; charset=utf-8")]);
    assert!(matches!(s, Syntax::Turtle));
}

#[test]
fn content_type_sniff_ntriples() {
    let s = syntax_from_content_type(&[hdr("content-type", "application/n-triples")]);
    assert!(matches!(s, Syntax::NTriples));
}

#[test]
fn content_type_sniff_nquads() {
    let s = syntax_from_content_type(&[hdr("content-type", "application/n-quads")]);
    assert!(matches!(s, Syntax::NQuads));
}

#[test]
fn content_type_sniff_missing_defaults_turtle() {
    let s = syntax_from_content_type(&[]);
    assert!(matches!(s, Syntax::Turtle));
}

#[test]
fn content_type_sniff_octet_stream_defaults_turtle() {
    let s = syntax_from_content_type(&[hdr("content-type", "application/octet-stream")]);
    assert!(matches!(s, Syntax::Turtle));
}

#[test]
fn parse_ntriples_two_triples() {
    let body = r#"<http://ex/s1> <http://ex/p> "v1" .
<http://ex/s2> <http://ex/p> "v2" .
"#;
    let quads = parse_body(Syntax::NTriples, body).expect("parses");
    assert_eq!(quads.len(), 2);
    match &quads[0].subject {
        WitTerm::NamedNode(iri) => assert_eq!(iri, "http://ex/s1"),
        other => panic!("expected named-node subject, got {other:?}"),
    }
    assert!(quads[0].graph.is_none());
}

#[test]
fn parse_turtle_one_triple() {
    let body = r#"@prefix ex: <http://ex/> .
ex:s ex:p "v" .
"#;
    let quads = parse_body(Syntax::Turtle, body).expect("parses");
    assert_eq!(quads.len(), 1);
    match &quads[0].predicate {
        WitTerm::NamedNode(iri) => assert_eq!(iri, "http://ex/p"),
        other => panic!("expected named-node predicate, got {other:?}"),
    }
}

#[test]
fn parse_nquads_carries_graph() {
    let body = r#"<http://ex/s> <http://ex/p> "v" <http://ex/g> .
"#;
    let quads = parse_body(Syntax::NQuads, body).expect("parses");
    assert_eq!(quads.len(), 1);
    assert_eq!(quads[0].graph.as_deref(), Some("http://ex/g"));
}

#[test]
fn parse_syntax_error_surfaces() {
    let body = "this is not turtle";
    let result = parse_body(Syntax::Turtle, body);
    assert!(result.is_err(), "expected parse error, got {result:?}");
}

#[test]
fn typed_literal_carries_datatype() {
    let body = r#"<http://ex/s> <http://ex/p> "42"^^<http://www.w3.org/2001/XMLSchema#integer> .
"#;
    let quads = parse_body(Syntax::NTriples, body).expect("parses");
    assert_eq!(quads.len(), 1);
    match &quads[0].object {
        WitTerm::Literal(l) => {
            assert_eq!(l.value, "42");
            assert_eq!(
                l.datatype.as_deref(),
                Some("http://www.w3.org/2001/XMLSchema#integer")
            );
            assert!(l.language.is_none());
        }
        other => panic!("expected literal object, got {other:?}"),
    }
}

#[test]
fn plain_string_literal_omits_datatype() {
    let body = r#"<http://ex/s> <http://ex/p> "hello" .
"#;
    let quads = parse_body(Syntax::NTriples, body).expect("parses");
    match &quads[0].object {
        WitTerm::Literal(l) => {
            assert_eq!(l.value, "hello");

            assert!(l.datatype.is_none());
        }
        other => panic!("expected literal, got {other:?}"),
    }
}

fn text(v: &str) -> WitTerm {
    WitTerm::Literal(Literal { value: v.into(), datatype: None, language: None })
}

fn job() -> Job {
    Job { url: "http://ex/doc".into(), sink: "graph".into() }
}

fn response(status: u16, content_type: &str, body: &str) -> Event {
    Event::Response(Response { status, headers: vec![hdr("Content-Type", content_type)], body: body.into() })
}

fn failure(action: Action) -> String {
    match action {
        Action::Finish(Err(e)) => e,
        _ => panic!("expected a failure"),
    }
}

#[test]
fn parameters_of_a_media_type_do_not_matter() {
    assert_eq!(
        syntax_from_content_type(&[hdr("Content-Type", "application/N-Quads ; q=1")]),
        syntax_from_content_type(&[hdr("content-type", "application/n-quads")])
    );
}

#[test]
fn blank_nodes_and_languages_are_kept() {
    let quads = parse_body(Syntax::NTriples, "_:a <http://ex/p> \"x\"@en .\n").expect("parses");
    match &quads[0].subject {
        WitTerm::BlankNode(label) => assert_eq!(label, "a"),
        other => panic!("expected blank node, got {other:?}"),
    }
    match &quads[0].object {
        WitTerm::Literal(l) => {
            assert_eq!(l.language.as_deref(), Some("en"));
            assert!(l.datatype.is_none());
        },
        other => panic!("expected literal, got {other:?}"),
    }
    let quads = parse_body(Syntax::NQuads, "<http://ex/s> <http://ex/p> <http://ex/o> _:g .\n").expect("parses");
    assert_eq!(quads[0].graph.as_deref(), Some("_:g"));
    let quads = parse_body(Syntax::Turtle, "[] <http://ex/p> <http://ex/o> .\n").expect("parses");
    assert!(matches!(quads[0].subject, WitTerm::BlankNode(_)));
}

fn label(t: &WitTerm) -> &str {
    match t {
        WitTerm::BlankNode(label) => label,
        other => panic!("expected blank node, got {other:?}"),
    }
}

#[test]
fn turtle_keeps_blank_nodes_apart() {
    let body = "_:a <http://ex/p> _:b .\n_:b <http://ex/q> _:a .\n_:1f <http://ex/p> 1 .\n\
                [] <http://ex/p> 2 .\n[ <http://ex/p> 3 ; <http://ex/q> 4 ] <http://ex/r> [] .\n";
    let quads = parse_body(Syntax::Turtle, body).expect("parses");
    assert_eq!(quads.len(), 7);
    assert_eq!((label(&quads[0].subject), label(&quads[0].object)), ("a", "b"));
    assert_eq!((label(&quads[1].subject), label(&quads[1].object)), ("b", "a"));
    assert_eq!(label(&quads[2].subject), "1f");
    let alone = label(&quads[3].subject);
    let listed = label(&quads[4].subject);
    assert_eq!(label(&quads[5].subject), listed);
    assert_eq!(label(&quads[6].subject), listed);
    let last = label(&quads[6].object);
    let mut all = vec!["a", "b", "1f", alone, listed, last];
    all.sort();
    all.dedup();
    assert_eq!(all.len(), 6);

    let (_, action) = step(&job(), Stage::Getting, response(200, "text/turtle", "_:a <http://ex/p> _:b ."));
    match action {
        Action::Emit(_, quads) => {
            assert_eq!((label(&quads[0].subject), label(&quads[0].object)), ("a", "b"));
        },
        _ => panic!("expected statements"),
    }
}

#[test]
fn fetched_statements_go_to_the_sink() {
    let (stage, action) = begin(&job());
    match action {
        Action::Get(url) => assert_eq!(url, "http://ex/doc"),
        _ => panic!("expected a request"),
    }
    assert_eq!(ACCEPT, "text/turtle, application/n-triples, application/n-quads;q=0.9");
    let body = "<http://ex/s> <http://ex/p> \"v\" .\n";
    let (stage, action) = step(&job(), stage, response(200, "application/n-triples", body));
    match action {
        Action::Emit(sink, quads) => {
            assert_eq!(sink, "graph");
            assert_eq!(quads.len(), 1);
        },
        _ => panic!("expected statements"),
    }
    let (stage, action) = step(&job(), stage, Event::Accepted(1));
    assert!(matches!(stage, Stage::Over));
    match action {
        Action::Finish(Ok(WitTerm::Literal(l))) => {
            let v: serde_json::Value = serde_json::from_str(&l.value).unwrap();
            assert_eq!(v["fetched"], body.len());
            assert_eq!(v["emitted"], 1);
        },
        _ => panic!("expected a report"),
    }
}

#[test]
fn fetching_fails_clearly() {
    let (_, action) = step(&job(), Stage::Getting, response(404, "text/turtle", ""));
    let e = failure(action);
    assert!(e.contains("404") && e.contains("http://ex/doc"), "{e}");
    let (_, action) = step(&job(), Stage::Getting, response(200, "text/turtle", "this is not turtle"));
    assert!(failure(action).starts_with("wf_fetch: "));
    let (_, action) = step(&job(), Stage::Getting, Event::Failed("down".into()));
    assert!(failure(action).contains("down"));
    let (_, action) = take(&job(), 3, Err("bad".into()));
    assert!(failure(action).contains("bad"));
    let (_, action) = take(&job(), 3, Ok(vec![]));
    match action {
        Action::Finish(Ok(WitTerm::Literal(l))) => assert_eq!(l.value, r#"{"emitted":0,"fetched":3}"#),
        _ => panic!("expected a report"),
    }
    let quads = parse_body(Syntax::NTriples, "<http://ex/s> <http://ex/p> <http://ex/o> .").unwrap();
    let (stage, _) = take(&job(), 3, Ok(quads));
    let (_, action) = step(&job(), stage, Event::Failed("full".into()));
    assert!(failure(action).contains("full"));
    assert_eq!(map_http_err(&HttpError::Status(404)), "http-callbacks non-2xx status: 404");
    assert_eq!(map_http_err(&HttpError::Network("x".into())), "http-callbacks network: x");
}

#[test]
fn fetch_arguments() {
    let job = read_args(&vec![WitTerm::NamedNode("http://ex/doc".into()), text("graph")]).unwrap();
    assert_eq!(job.url, "http://ex/doc");
    assert_eq!(job.sink, "graph");
    assert!(read_args(&vec![text("x")]).is_err());
    assert!(read_args(&vec![WitTerm::BlankNode("b".into()), text("graph")]).is_err());
    assert_eq!(register().len(), 1);
    assert!(offers(&register()[0].name).is_ok());
    assert_eq!(offers("x").unwrap_err(), "wf_fetch: unknown function 'x'");
    assert!(UnreachableState.finish().is_err());
}

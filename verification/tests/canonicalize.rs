use webfunctions::canonicalize::component::{bulk_reply, config_text, offers, register, scan_reply, UnreachableState};
use webfunctions::canonicalize::document_sweep::SweepResult;
use webfunctions::canonicalize::fulltext_sweep::{LiteralOrIri, SweepCounts};
use webfunctions::canonicalize::merge::{
    canonical_of, default_rule, delete_same_as, delete_update, fetch_query, literal_query, merge, pick_canonical,
    read_aliases, read_same_as, read_statements, rewrite, same_as_query, tracker_int, tracker_text, value_to_sparql,
    TrackerValue, OWL_SAME_AS,
};
use webfunctions::canonicalize::run::{begin, step, Action, Config, Event, Stage};
use webfunctions::canonicalize::tracker::{
    alias_columns, known_columns, known_doc_columns, read_known, read_known_docs, ColumnType,
};
use webfunctions::canonicalize::union_find::DisjointSetUnion;
use webfunctions::hash::{fnv1a64, fnv1a64_hex, mint_genid};
use webfunctions::rdf::{Binding, Literal, QueryResult, Term};
use webfunctions::table::Table;

fn named(i: &str) -> Term {
    Term::NamedNode(i.into())
}

fn text(v: &str) -> Term {
    Term::Literal(Literal { value: v.into(), datatype: None, language: None })
}

fn bind(variable: &str, value: Term) -> Binding {
    Binding { variable: variable.into(), value }
}

fn pair(a: &str, b: &str) -> (String, String) {
    (a.to_string(), b.to_string())
}

fn aliases(pairs: &[(&str, &str)]) -> Table<String> {
    let mut t: Table<String> = Table::new();
    for (a, c) in pairs {
        t.insert(a.to_string(), c.to_string());
    }
    t
}

fn texts(items: &[&str]) -> Vec<String> {
    items.iter().map(|s| s.to_string()).collect()
}

#[test]
fn joined_identifiers_share_a_representative() {
    let mut u = DisjointSetUnion::new();
    u.union("a", "b");
    u.union("c", "d");
    assert_eq!(u.find("a"), u.find("b"));
    assert_ne!(u.find("a"), u.find("c"));
    u.union("b", "c");
    assert_eq!(u.find("a"), u.find("d"));
    assert_eq!(u.find("e"), "e");
    let (classes, _) = u.classes();
    assert_eq!(classes.len(), 2);
    let mut largest = classes.into_iter().max_by_key(|c| c.len()).unwrap();
    largest.sort();
    assert_eq!(largest, texts(&["a", "b", "c", "d"]));
}

#[test]
fn canonical_identifiers() {
    let class = texts(&["http://ex/long", "http://ex/b", "http://ex/a"]);
    assert_eq!(pick_canonical(&class, "shortest_uri").unwrap(), "http://ex/a");
    assert_eq!(
        pick_canonical(&class, "mint_genid").unwrap(),
        mint_genid("http://ex/a\0http://ex/b\0http://ex/long")
    );
    assert_eq!(
        pick_canonical(&class, "mint_genid").unwrap(),
        pick_canonical(&texts(&["http://ex/a", "http://ex/b", "http://ex/long"]), "mint_genid").unwrap()
    );
    assert_eq!(pick_canonical(&vec![], "mint_genid").unwrap_err(), "wf_canonicalize: empty equivalence class");
    assert_eq!(
        pick_canonical(&class, "other").unwrap_err(),
        "wf_canonicalize: unknown rule `other` (v1 supports: mint_genid, shortest_uri)"
    );
    assert_eq!(canonical_of(&class, &texts(&["http://ex/long"]), "shortest_uri").unwrap(), "http://ex/long");
    assert_eq!(default_rule(), "mint_genid");
}

#[test]
fn known_identifiers_stay() {
    let known = vec![pair("http://ex/x", "http://ex/zzzz")];
    let declared = vec![pair("http://ex/x", "http://ex/y"), pair("http://ex/m", "http://ex/nn")];
    let m = merge(&known, &declared, "shortest_uri").unwrap();
    assert_eq!(m.classes, 2);
    assert_eq!(m.seeded, 1);
    assert_eq!(m.aliases.len(), 3);
    assert_eq!(m.aliases.get("http://ex/x").unwrap(), "http://ex/zzzz");
    assert_eq!(m.aliases.get("http://ex/y").unwrap(), "http://ex/zzzz");
    assert_eq!(m.aliases.get("http://ex/nn").unwrap(), "http://ex/m");
    assert!(m.aliases.get("http://ex/zzzz").is_none());
}

#[test]
fn unknown_rule_is_refused_where_it_is_needed() {
    let unknown = "wf_canonicalize: unknown rule `none` (v1 supports: mint_genid, shortest_uri)";
    let known = vec![pair("http://ex/x", "http://ex/zzzz")];
    let declared = vec![pair("http://ex/m", "http://ex/nn")];
    assert_eq!(merge(&known, &declared, "none").err().unwrap(), unknown);
    assert_eq!(merge(&vec![], &declared, "none").err().unwrap(), unknown);
    let m = merge(&known, &vec![pair("http://ex/x", "http://ex/y")], "none").ok().unwrap();
    assert_eq!(m.aliases.get("http://ex/y").unwrap(), "http://ex/zzzz");
    assert_eq!(merge(&vec![], &vec![], "none").ok().unwrap().classes, 0);

    let mut c = config();
    c.rule = "none".into();
    let same = vec![bind("a", named("http://ex/m")), bind("b", named("http://ex/nn"))];
    let (_, action) = step(&c, Stage::ReadingSameAs(vec![]), Event::Result(QueryResult::Bindings(same)));
    match action {
        Action::Finish(Err(e)) => assert_eq!(e, unknown),
        _ => panic!("expected a refusal"),
    }
}

#[test]
fn statements_are_rewritten() {
    let a = aliases(&[("http://ex/x", "http://ex/c")]);
    assert_eq!(value_to_sparql(&named("http://ex/x"), &a), "<http://ex/c>");
    assert_eq!(value_to_sparql(&named("http://ex/o"), &a), "<http://ex/o>");
    assert_eq!(value_to_sparql(&text("q\"\n"), &a), "\"q\\\"\\n\"");
    assert_eq!(value_to_sparql(&Term::BlankNode("b".into()), &a), "_:b");
    assert_eq!(
        value_to_sparql(&Term::Triple("t".into()), &a),
        "<urn:webfunction:canonicalize:unsupported-triple>"
    );
    let rows = vec![
        vec![bind("s", named("http://ex/x")), bind("p", named("http://ex/p")), bind("o", text("v"))],
        vec![bind("s", named("http://ex/x"))],
    ];
    let (update, n) = rewrite(&rows, &a);
    assert_eq!(update.unwrap(), "INSERT DATA { <http://ex/c> <http://ex/p> \"v\" .\n }");
    assert_eq!(n, 1);
    assert_eq!(rewrite(&vec![], &a), (None, 0));
    assert_eq!(
        delete_update(&a),
        "DELETE { ?s ?p ?o } WHERE { ?s ?p ?o . VALUES ?alias { <http://ex/x> } FILTER(?s = ?alias || ?o = ?alias) }"
    );
    assert_eq!(
        fetch_query(&a),
        format!("SELECT ?s ?p ?o WHERE {{ {{ VALUES ?target {{ <http://ex/x> }} ?target ?p ?o . BIND(?target AS ?s) }} UNION {{ VALUES ?target {{ <http://ex/x> }} ?s ?p ?target . BIND(?target AS ?o) }} FILTER(?p != <{OWL_SAME_AS}>) }}")
    );
    assert_eq!(same_as_query(), format!("SELECT ?a ?b WHERE {{ ?a <{OWL_SAME_AS}> ?b }}"));
    assert_eq!(delete_same_as(), format!("DELETE {{ ?a <{OWL_SAME_AS}> ?b }} WHERE {{ ?a <{OWL_SAME_AS}> ?b }}"));
}

#[test]
fn rows_are_read() {
    let rows = vec![
        vec![bind("a", named("http://ex/1")), bind("b", named("http://ex/2"))],
        vec![bind("a", text("x")), bind("b", named("http://ex/2"))],
    ];
    assert_eq!(read_same_as(&rows), vec![pair("http://ex/1", "http://ex/2")]);
    let rows = vec![
        vec![bind("s", named("http://ex/s")), bind("p", named("http://ex/p")), bind("o", text("v"))],
        vec![bind("s", named("http://ex/s")), bind("p", named("http://ex/p")), bind("o", named("http://ex/o"))],
    ];
    let statements = read_statements(&rows);
    assert_eq!(statements.len(), 2);
    assert_eq!(statements[0].2, LiteralOrIri::Literal { lex: "v".into(), lang: None });
    assert_eq!(
        literal_query(&texts(&["http://ex/p", "http://ex/q"])),
        "SELECT ?s ?p ?o WHERE { ?s ?p ?o . VALUES ?p { <http://ex/p> <http://ex/q> } }"
    );
}

#[test]
fn tables_are_read() {
    let row = |values: Vec<TrackerValue>| values;
    let t = |s: &str| TrackerValue::TextValue(s.into());
    assert_eq!(read_aliases(&vec![row(vec![t("a"), t("c")])]).unwrap(), vec![pair("a", "c")]);
    assert_eq!(tracker_text(&vec![t("a")], 1).unwrap_err(), "tracker-select: missing column 1");
    assert_eq!(
        tracker_text(&vec![TrackerValue::IntegerValue(4)], 0).unwrap_err(),
        "tracker-select: expected text at column 0, got TrackerValue::IntegerValue(4)"
    );
    assert_eq!(
        tracker_int(&vec![t("x")], 0).unwrap_err(),
        "tracker-select: expected integer at column 0, got TrackerValue::TextValue(\"x\")"
    );
    assert_eq!(tracker_int(&vec![TrackerValue::IntegerValue(4)], 0).unwrap(), 4);
    let known = read_known(&vec![row(vec![t("s"), t("h")])]).unwrap();
    assert_eq!(known.get("s").unwrap(), "h");
    let docs = read_known_docs(&vec![row(vec![t("u"), TrackerValue::IntegerValue(3), t("h")])]).unwrap();
    assert_eq!(docs.get("u").unwrap().last_seen_rev, 3);
    assert!(read_known_docs(&vec![row(vec![t("u")])]).is_err());
    assert_eq!(alias_columns().len(), 2);
    assert!(alias_columns()[0].primary_key);
    assert_eq!(known_columns()[1].name, "doc_hash");
    assert_eq!(known_doc_columns()[1].column_type, ColumnType::Integer);
}

#[test]
fn replies_with_a_bad_status_fail() {
    assert_eq!(bulk_reply(200, "u", "b".into()).unwrap(), "b");
    assert_eq!(bulk_reply(500, "u", "b".into()).unwrap_err(), "http-callbacks: non-2xx status 500 from u");
    assert_eq!(scan_reply(300, "u", "b".into()).unwrap_err(), "sirix POST /query: non-2xx status 300 from u");
}

fn config() -> Config {
    Config {
        sink: "trackers".into(),
        rule: "shortest_uri".into(),
        fulltext_indexes: vec![],
        document_indexes: vec![],
        full_scan: false,
    }
}

fn update(action: &Action) -> &str {
    match action {
        Action::Update(u) => u,
        _ => panic!("expected an update"),
    }
}

fn failure(action: Action) -> String {
    match action {
        Action::Finish(Err(e)) => e,
        _ => panic!("expected a failure"),
    }
}

#[test]
fn canonicalization_runs() {
    let c = config();
    let (stage, action) = begin();
    assert!(matches!(action, Action::RegisterAliases));
    let (stage, action) = step(&c, stage, Event::Done);
    assert!(matches!(action, Action::SelectAliases));
    let (stage, action) = step(&c, stage, Event::Rows(vec![]));
    match &action {
        Action::Query(q) => assert_eq!(*q, same_as_query()),
        _ => panic!("expected a query"),
    }
    let same = vec![bind("a", named("http://ex/aa")), bind("b", named("http://ex/a"))];
    let (stage, action) = step(&c, stage, Event::Result(QueryResult::Bindings(same)));
    match &action {
        Action::Query(q) => assert!(q.contains("VALUES ?target { <http://ex/aa> }")),
        _ => panic!("expected a query"),
    }
    let touched = vec![bind("s", named("http://ex/aa")), bind("p", named("http://ex/p")), bind("o", text("v"))];
    let (stage, action) = step(&c, stage, Event::Result(QueryResult::Bindings(touched)));
    assert_eq!(update(&action), "INSERT DATA { <http://ex/a> <http://ex/p> \"v\" .\n }");
    let (stage, action) = step(&c, stage, Event::Done);
    assert!(update(&action).starts_with("DELETE { ?s ?p ?o }"));
    let (stage, action) = step(&c, stage, Event::Done);
    match &action {
        Action::Remember(alias, canonical) => {
            assert_eq!(alias, "http://ex/aa");
            assert_eq!(canonical, "http://ex/a");
        },
        _ => panic!("expected an alias"),
    }
    let mut stage = stage;
    let mut action = step(&c, std::mem::replace(&mut stage, Stage::Over), Event::Done);
    if let Action::SweepFulltext = action.1 {
        action = step(&c, action.0, Event::Swept(SweepCounts { inserted: 0, deleted: 0, errors: 0 }));
    }
    if let Action::SweepDocuments = action.1 {
        let none = SweepResult { inserted: 0, deleted: 0, unchanged: 0, errors: 0 };
        action = step(&c, action.0, Event::Mirrored(none));
    }
    assert_eq!(update(&action.1), delete_same_as());
    let (_, action) = step(&c, action.0, Event::Done);
    match action {
        Action::Finish(Ok(Term::Literal(l))) => {
            let v: serde_json::Value = serde_json::from_str(&l.value).unwrap();
            assert_eq!(v["classes"], 1);
            assert_eq!(v["aliased"], 1);
            assert_eq!(v["rewritten"], 1);
            assert_eq!(v["seeded"], 0);
            assert_eq!(v["doc_errors"], 0);
        },
        _ => panic!("expected a report"),
    }
}

#[test]
fn canonicalization_without_aliases_only_deletes_the_assertions() {
    let c = config();
    let (stage, _) = begin();
    let (stage, _) = step(&c, stage, Event::Done);
    let (stage, _) = step(&c, stage, Event::Rows(vec![]));
    let mut next = step(&c, stage, Event::Result(QueryResult::Bindings(vec![])));
    if let Action::SweepFulltext = next.1 {
        next = step(&c, next.0, Event::Swept(SweepCounts { inserted: 0, deleted: 0, errors: 0 }));
    }
    if let Action::SweepDocuments = next.1 {
        let none = SweepResult { inserted: 0, deleted: 0, unchanged: 0, errors: 0 };
        next = step(&c, next.0, Event::Mirrored(none));
    }
    assert_eq!(update(&next.1), delete_same_as());
    let (_, action) = step(&c, next.0, Event::Failed("down".into()));
    assert_eq!(failure(action), "wf_canonicalize: delete sameAs assertions: down");
}

#[test]
fn canonicalization_fails_clearly() {
    let c = config();
    let (stage, _) = begin();
    let (_, action) = step(&c, stage, Event::Failed("no table".into()));
    assert_eq!(failure(action), "no table");
    let (_, action) = step(&c, Stage::ReadingSameAs(vec![]), Event::Result(QueryResult::Boolean(true)));
    assert_eq!(failure(action), "wf_canonicalize: SELECT expected but graph-callbacks returned boolean");
    assert_eq!(
        config_text(&vec![]).unwrap_err(),
        "wf_canonicalize: first arg must be a config-json string literal"
    );
    assert_eq!(config_text(&vec![text("{}")]).unwrap(), "{}");
    assert_eq!(register()[0].name, "urn:webfunction:canonicalize");
    assert_eq!(offers("x").unwrap_err(), "wf_canonicalize: unknown function 'x'");
    assert!(UnreachableState.finish().is_err());
}

#[test]
fn hashes_have_known_values() {
    assert_eq!(fnv1a64(""), 0xcbf2_9ce4_8422_2325);
    assert_eq!(fnv1a64("a"), 0xaf63_dc4c_8601_ec8c);
    assert_eq!(fnv1a64_hex("a"), "af63dc4c8601ec8c");
    assert_eq!(fnv1a64_hex("").len(), 16);
    let h1: u64 = 0x9E3779B97F4A7C15u64.wrapping_mul(0x100000001B3).wrapping_add(b'x' as u64);
    let h2: u64 = (h1.rotate_left(23) ^ 0x428A2F98D728AE22).wrapping_mul(0x100000001B3).wrapping_add(b'x' as u64);
    assert_eq!(mint_genid("x"), format!("https://tegmentum.ai/.well-known/genid/{h1:016x}{h2:016x}"));
}

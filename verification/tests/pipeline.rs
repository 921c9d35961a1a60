use serde_json::Value as JsonValue;
use webfunctions::pipeline::interpolate::{interpolate, interpolate_mode, Context, CtxValue, InterpMode};
use webfunctions::pipeline::outcome::{
    ask_verdict, render_values_clause, to_outcome, value_to_cell, wasm_args, Cell, QueryOutcome,
};
use webfunctions::pipeline::run::{
    begin, offers, plan_text, register, step, Action, Event, OnError, Plan, Row, Runner, Stage, Step,
};
use webfunctions::rdf::{Binding, Literal, QueryResult, Term, XSD_STRING};

fn read_text(v: &JsonValue, key: &str) -> Option<String> {
    v.get(key).and_then(|t| t.as_str()).map(|t| t.to_string())
}

fn read_steps(v: &JsonValue, key: &str) -> Vec<Step> {
    v.get(key).and_then(|s| s.as_array()).map(|s| s.iter().map(read_step).collect()).unwrap_or_default()
}

fn read_step(v: &JsonValue) -> Step {
    Step {
        kind: read_text(v, "kind").unwrap(),
        name: read_text(v, "name"),
        query: read_text(v, "query"),
        update: read_text(v, "update"),
        url: read_text(v, "url"),
        arg: read_text(v, "arg"),
        ask: read_text(v, "ask"),
        then_steps: read_steps(v, "then_steps"),
        else_steps: read_steps(v, "else_steps"),
        bind: v
            .get("bind")
            .and_then(|b| b.as_object())
            .map(|b| b.iter().map(|(k, t)| (k.clone(), t.as_str().unwrap().to_string())).collect())
            .unwrap_or_default(),
        bind_full: v.get("bind_full").and_then(|b| b.as_bool()).unwrap_or(false),
        on_error: v.get("on_error").map(|e| OnError {
            retry: e.get("retry").and_then(|n| n.as_u64()).unwrap_or(0) as u32,
            delay_ms: e.get("delay_ms").and_then(|n| n.as_u64()).unwrap_or(0),
            fallback_steps: read_steps(e, "fallback_steps"),
        }),
    }
}

fn read_plan(text: &str) -> Plan {
    let v: JsonValue = serde_json::from_str(text).unwrap();
    Plan { name: read_text(&v, "name").unwrap(), steps: read_steps(&v, "steps") }
}

#[derive(Default)]
struct Substrate {
    query_results: Vec<Result<QueryOutcome, String>>,
    update_results: Vec<Result<(), String>>,
    wasm_results: Vec<Result<QueryOutcome, String>>,
    ask_results: Vec<Result<bool, String>>,
    queries_seen: Vec<String>,
    updates_seen: Vec<String>,
    wasm_calls_seen: Vec<(String, Option<String>)>,
    asks_seen: Vec<String>,
    sleeps: Vec<u64>,
}

impl Substrate {
    fn stage_query(&mut self, r: Result<QueryOutcome, String>) {
        self.query_results.push(r);
    }

    fn stage_update(&mut self, r: Result<(), String>) {
        self.update_results.push(r);
    }

    fn stage_wasm(&mut self, r: Result<QueryOutcome, String>) {
        self.wasm_results.push(r);
    }

    fn stage_ask(&mut self, r: Result<bool, String>) {
        self.ask_results.push(r);
    }

    fn run_steps(&mut self, steps: Vec<Step>) -> Runner {
        let (mut stage, mut action) = begin(steps);
        loop {
            let event = match action {
                Action::Query(q) => {
                    self.queries_seen.push(q);
                    Event::Outcome(self.query_results.remove(0))
                },
                Action::Update(u) => {
                    self.updates_seen.push(u);
                    Event::Updated(self.update_results.remove(0))
                },
                Action::Invoke(url, arg) => {
                    self.wasm_calls_seen.push((url, arg));
                    Event::Outcome(self.wasm_results.remove(0))
                },
                Action::Ask(q) => {
                    self.asks_seen.push(q);
                    Event::Asked(self.ask_results.remove(0))
                },
                Action::Sleep(ms) => {
                    self.sleeps.push(ms);
                    Event::Slept
                },
                Action::Finish(_) => {
                    return match stage {
                        Stage::Over(r) => r,
                        _ => panic!("finished too early"),
                    };
                },
            };
            let next = step(stage, event);
            stage = next.0;
            action = next.1;
        }
    }
}

fn row_get(row: &Row, name: &str) -> String {
    match name {
        "step" => row.step.to_string(),
        "kind" => row.kind.clone(),
        "name" => row.name.clone(),
        "ok" => row.ok.to_string(),
        "detail" => row.detail.clone(),
        _ => String::new(),
    }
}

fn outcome(vars: &[&str], rows: Vec<Vec<(&str, &str)>>) -> QueryOutcome {
    QueryOutcome {
        vars: vars.iter().map(|s| s.to_string()).collect(),
        rows: rows
            .into_iter()
            .map(|r| {
                r.into_iter()
                    .map(|(n, v)| {
                        (
                            n.to_string(),
                            Cell::Literal {
                                label: v.to_string(),
                                datatype: XSD_STRING.into(),
                                lang: None,
                            },
                        )
                    })
                    .collect()
            })
            .collect(),
    }
}

fn outcome_iri(vars: &[&str], rows: Vec<Vec<(&str, &str)>>) -> QueryOutcome {
    QueryOutcome {
        vars: vars.iter().map(|s| s.to_string()).collect(),
        rows: rows
            .into_iter()
            .map(|r| {
                r.into_iter()
                    .map(|(n, v)| (n.to_string(), Cell::Iri(v.to_string())))
                    .collect()
            })
            .collect(),
    }
}

#[test]
fn interpolate_basic() {
    let mut ctx = Context::default();
    ctx.insert("count".into(), CtxValue::Scalar("3".into()));
    ctx.insert("name".into(), CtxValue::Scalar("person".into()));
    let out =
        interpolate("SELECT * WHERE { ?s a :${name} } LIMIT ${count}", &ctx).unwrap();
    assert_eq!(out, "SELECT * WHERE { ?s a :person } LIMIT 3");
}

#[test]
fn interpolate_unbound_var_errors_clearly() {
    let ctx = Context::default();
    let err = interpolate("LIMIT ${missing}", &ctx).unwrap_err();
    assert!(err.contains("unbound"), "err was: {err}");
    assert!(err.contains("missing"), "err was: {err}");
}

#[test]
fn interpolate_unterminated_errors() {
    let ctx = Context::default();
    let err = interpolate("LIMIT ${oops", &ctx).unwrap_err();
    assert!(err.contains("unterminated"), "err was: {err}");
}

#[test]
fn condition_true_runs_then_branch() {
    let plan_json = r#"{
        "name": "c",
        "steps": [
          { "kind": "condition",
            "name": "chk",
            "ask": "ASK { ?s a :T }",
            "then_steps": [
              { "kind": "sparql_update",
                "name": "yes",
                "update": "INSERT DATA { <a> <b> \"then\" }" }
            ],
            "else_steps": [
              { "kind": "sparql_update",
                "name": "no",
                "update": "INSERT DATA { <a> <b> \"else\" }" }
            ] }
        ]
    }"#;
    let plan = read_plan(plan_json);
    let mut sub = Substrate::default();
    sub.stage_ask(Ok(true));
    sub.stage_update(Ok(()));
    let r = sub.run_steps(plan.steps);

    assert_eq!(r.rows.len(), 2);
    assert_eq!(row_get(&r.rows[0], "kind"), "condition");
    assert_eq!(row_get(&r.rows[0], "detail"), "true");
    assert_eq!(row_get(&r.rows[1], "name"), "yes");
    assert_eq!(row_get(&r.rows[1], "ok"), "true");
    assert_eq!(sub.updates_seen.len(), 1);
    assert!(sub.updates_seen[0].contains("then"));
}

#[test]
fn condition_false_runs_else_branch() {
    let plan_json = r#"{
        "name": "c",
        "steps": [
          { "kind": "condition",
            "ask": "ASK { ?s a :T }",
            "then_steps": [
              { "kind": "sparql_update",
                "update": "INSERT DATA { <a> <b> \"then\" }" }
            ],
            "else_steps": [
              { "kind": "sparql_update",
                "update": "INSERT DATA { <a> <b> \"else\" }" }
            ] }
        ]
    }"#;
    let plan = read_plan(plan_json);
    let mut sub = Substrate::default();
    sub.stage_ask(Ok(false));
    sub.stage_update(Ok(()));
    let r = sub.run_steps(plan.steps);

    assert_eq!(r.rows.len(), 2);
    assert_eq!(row_get(&r.rows[0], "detail"), "false");
    assert!(sub.updates_seen[0].contains("else"));
}

#[test]
fn bind_from_step_a_interpolates_into_step_b() {
    let plan_json = r#"{
        "name": "b",
        "steps": [
          { "kind": "sparql_query",
            "name": "count",
            "query": "SELECT (COUNT(*) AS ?n) WHERE { ?s ?p ?o }",
            "bind": { "count": "?n" } },
          { "kind": "sparql_query",
            "name": "limited",
            "query": "SELECT * WHERE { ?s ?p ?o } LIMIT ${count}" }
        ]
    }"#;
    let plan = read_plan(plan_json);
    let mut sub = Substrate::default();
    sub.stage_query(Ok(outcome(&["n"], vec![vec![("n", "3")]])));
    sub.stage_query(Ok(outcome(
        &["s", "p", "o"],
        vec![
            vec![("s", "a"), ("p", "b"), ("o", "c")],
            vec![("s", "d"), ("p", "e"), ("o", "f")],
            vec![("s", "g"), ("p", "h"), ("o", "i")],
        ],
    )));

    let r = sub.run_steps(plan.steps);

    assert_eq!(r.rows.len(), 2);
    assert_eq!(row_get(&r.rows[0], "ok"), "true");
    assert_eq!(row_get(&r.rows[1], "ok"), "true");
    assert_eq!(row_get(&r.rows[1], "detail"), "3 rows");
    assert!(
        sub.queries_seen[1].ends_with("LIMIT 3"),
        "second query was: {}",
        sub.queries_seen[1]
    );
    match r.ctx.vars.get("count") {
        Some(CtxValue::Scalar(s)) => assert_eq!(s, "3"),
        other => panic!("expected Scalar(\"3\"), got {other:?}"),
    }
}

#[test]
fn unbound_interpolation_fails_step() {
    let plan_json = r#"{
        "name": "u",
        "steps": [
          { "kind": "sparql_query",
            "query": "SELECT * WHERE { ?s ?p ?o } LIMIT ${nope}" }
        ]
    }"#;
    let plan = read_plan(plan_json);
    let mut sub = Substrate::default();
    let r = sub.run_steps(plan.steps);

    assert_eq!(r.rows.len(), 1);
    assert_eq!(row_get(&r.rows[0], "ok"), "false");
    assert!(row_get(&r.rows[0], "detail").contains("unbound"));
}

#[test]
fn on_error_retry_succeeds_on_last_attempt() {
    let plan_json = r#"{
        "name": "r",
        "steps": [
          { "kind": "sparql_update",
            "name": "flaky",
            "update": "INSERT DATA { <a> <b> \"c\" }",
            "on_error": { "retry": 2, "delay_ms": 10 } }
        ]
    }"#;
    let plan = read_plan(plan_json);
    let mut sub = Substrate::default();
    sub.stage_update(Err("transient 1".into()));
    sub.stage_update(Err("transient 2".into()));
    sub.stage_update(Ok(()));

    let r = sub.run_steps(plan.steps);

    assert_eq!(r.rows.len(), 1);
    assert_eq!(row_get(&r.rows[0], "ok"), "true");
    assert_eq!(row_get(&r.rows[0], "detail"), "ok");
    assert_eq!(sub.updates_seen.len(), 3);
    assert_eq!(sub.sleeps.as_slice(), &[10u64, 20u64]);
}

#[test]
fn on_error_all_retries_exhaust_then_run_fallback() {
    let plan_json = r#"{
        "name": "f",
        "steps": [
          { "kind": "sparql_update",
            "name": "will_fail",
            "update": "INSERT DATA { <a> <b> \"c\" }",
            "on_error": {
              "retry": 1,
              "delay_ms": 0,
              "fallback_steps": [
                { "kind": "sparql_update",
                  "name": "fb",
                  "update": "INSERT DATA { <urn:log> <urn:msg> \"skipped\" }" }
              ]
            }
          },
          { "kind": "sparql_update",
            "name": "after",
            "update": "INSERT DATA { <x> <y> \"z\" }" }
        ]
    }"#;
    let plan = read_plan(plan_json);
    let mut sub = Substrate::default();
    sub.stage_update(Err("perm".into()));
    sub.stage_update(Err("perm".into()));
    sub.stage_update(Ok(()));
    sub.stage_update(Ok(()));

    let r = sub.run_steps(plan.steps);

    assert_eq!(r.rows.len(), 3, "rows: {:#?}", r.rows);
    assert_eq!(row_get(&r.rows[0], "name"), "will_fail");
    assert_eq!(row_get(&r.rows[0], "ok"), "false");
    assert_eq!(row_get(&r.rows[1], "name"), "fb");
    assert_eq!(row_get(&r.rows[1], "ok"), "true");
    assert_eq!(row_get(&r.rows[2], "name"), "after");
    assert_eq!(row_get(&r.rows[2], "ok"), "true");
    assert_eq!(sub.updates_seen.len(), 4);
}

#[test]
fn wasm_bind_and_interpolate() {
    let plan_json = r#"{
        "name": "w",
        "steps": [
          { "kind": "wasm",
            "name": "produce",
            "url": "file:///produce.wasm",
            "arg": "{\"n\": 5}",
            "bind": { "answer": "?out" } },
          { "kind": "wasm",
            "name": "consume",
            "url": "file:///consume.wasm",
            "arg": "{\"prev\": \"${answer}\"}" }
        ]
    }"#;
    let plan = read_plan(plan_json);
    let mut sub = Substrate::default();
    sub.stage_wasm(Ok(outcome(&["out"], vec![vec![("out", "42")]])));
    sub.stage_wasm(Ok(outcome(&["ok"], vec![vec![("ok", "done")]])));

    let r = sub.run_steps(plan.steps);

    assert_eq!(r.rows.len(), 2);
    assert_eq!(row_get(&r.rows[0], "detail"), "42");
    assert_eq!(row_get(&r.rows[1], "detail"), "done");
    let seen = &sub.wasm_calls_seen;
    assert_eq!(seen[1].1.as_deref(), Some("{\"prev\": \"42\"}"));
}

#[test]
fn bind_full_captures_binding_set() {
    let plan_json = r#"{
        "name": "cap",
        "steps": [
          { "kind": "sparql_query",
            "name": "people",
            "query": "SELECT ?p ?age WHERE { ?p a :Person ; :age ?age }",
            "bind_full": true }
        ]
    }"#;
    let plan = read_plan(plan_json);
    let mut sub = Substrate::default();
    sub.stage_query(Ok(outcome(
        &["p", "age"],
        vec![
            vec![("p", "alice"), ("age", "30")],
            vec![("p", "bob"), ("age", "25")],
        ],
    )));

    let r = sub.run_steps(plan.steps);

    assert_eq!(r.rows.len(), 1);
    assert_eq!(row_get(&r.rows[0], "ok"), "true");
    match r.ctx.vars.get("people") {
        Some(CtxValue::Full(oc)) => {
            assert_eq!(oc.vars, vec!["p".to_string(), "age".to_string()]);
            assert_eq!(oc.rows.len(), 2);
        }
        other => panic!("expected Full binding-set under `people`, got {other:?}"),
    }
}

#[test]
fn interpolation_expands_binding_set_as_values() {
    let plan_json = r#"{
        "name": "expand",
        "steps": [
          { "kind": "sparql_query",
            "name": "people",
            "query": "SELECT ?p ?age WHERE { ?p a :Person ; :age ?age }",
            "bind_full": true },
          { "kind": "sparql_query",
            "name": "join",
            "query": "SELECT * WHERE { ${people} ?p :city ?c }" }
        ]
    }"#;
    let plan = read_plan(plan_json);
    let mut sub = Substrate::default();
    sub.stage_query(Ok(outcome(
        &["p", "age"],
        vec![
            vec![("p", "alice"), ("age", "30")],
            vec![("p", "bob"), ("age", "25")],
        ],
    )));
    sub.stage_query(Ok(outcome(&["p", "c"], vec![])));

    let r = sub.run_steps(plan.steps);

    assert_eq!(r.rows.len(), 2, "rows: {:#?}", r.rows);
    assert_eq!(row_get(&r.rows[0], "ok"), "true");
    assert_eq!(row_get(&r.rows[1], "ok"), "true");

    let seen = &sub.queries_seen;
    let second = &seen[1];
    assert!(
        second.contains("VALUES (?p ?age)"),
        "expected VALUES header in second query, got: {second}"
    );
    assert!(
        second.contains("(\"alice\" \"30\")"),
        "expected alice row in second query, got: {second}"
    );
    assert!(
        second.contains("(\"bob\" \"25\")"),
        "expected bob row in second query, got: {second}"
    );
}

#[test]
fn bind_full_iri_expansion_uses_angle_brackets() {
    let plan_json = r#"{
        "name": "iri",
        "steps": [
          { "kind": "sparql_query",
            "name": "who",
            "query": "SELECT ?p WHERE { ?p a :Person }",
            "bind_full": true },
          { "kind": "sparql_query",
            "name": "join",
            "query": "SELECT * WHERE { ${who} ?p :name ?n }" }
        ]
    }"#;
    let plan = read_plan(plan_json);
    let mut sub = Substrate::default();
    sub.stage_query(Ok(outcome_iri(
        &["p"],
        vec![
            vec![("p", "http://ex/alice")],
            vec![("p", "http://ex/bob")],
        ],
    )));
    sub.stage_query(Ok(outcome(&["p", "n"], vec![])));

    let r = sub.run_steps(plan.steps);

    let seen = &sub.queries_seen;
    let second = &seen[1];
    assert!(
        second.contains("(<http://ex/alice>)"),
        "expected angle-bracketed alice, got: {second}"
    );
    assert!(
        second.contains("(<http://ex/bob>)"),
        "expected angle-bracketed bob, got: {second}"
    );
}

#[test]
fn scalar_bind_still_works() {
    let plan_json = r#"{
        "name": "compat",
        "steps": [
          { "kind": "sparql_query",
            "name": "cnt",
            "query": "SELECT (COUNT(*) AS ?n) WHERE { ?s ?p ?o }",
            "bind": { "count": "?n" } },
          { "kind": "sparql_query",
            "name": "limited",
            "query": "SELECT * WHERE { ?s ?p ?o } LIMIT ${count}" }
        ]
    }"#;
    let plan = read_plan(plan_json);
    let mut sub = Substrate::default();
    sub.stage_query(Ok(outcome(&["n"], vec![vec![("n", "7")]])));
    sub.stage_query(Ok(outcome(&["s", "p", "o"], vec![])));
    let r = sub.run_steps(plan.steps);

    match r.ctx.vars.get("count") {
        Some(CtxValue::Scalar(s)) => assert_eq!(s, "7"),
        other => panic!("expected Scalar count, got {other:?}"),
    }
    let seen = &sub.queries_seen;
    assert!(seen[1].ends_with("LIMIT 7"), "got: {}", seen[1]);
    assert!(!seen[1].contains("VALUES"), "got: {}", seen[1]);
}

#[test]
fn mixed_use_errors_clearly() {
    let plan_json = r#"{
        "name": "mix",
        "steps": [
          { "kind": "sparql_query",
            "name": "grid",
            "query": "SELECT ?a WHERE { ?a a :T }",
            "bind_full": true },
          { "kind": "wasm",
            "name": "consume",
            "url": "file:///consume.wasm",
            "arg": "{\"prev\": ${grid}}" }
        ]
    }"#;
    let plan = read_plan(plan_json);
    let mut sub = Substrate::default();
    sub.stage_query(Ok(outcome(&["a"], vec![vec![("a", "x")]])));
    let r = sub.run_steps(plan.steps);

    assert_eq!(r.rows.len(), 2);
    assert_eq!(row_get(&r.rows[0], "ok"), "true");
    assert_eq!(row_get(&r.rows[1], "ok"), "false");
    let detail = row_get(&r.rows[1], "detail");
    assert!(detail.contains("grid"), "detail was: {detail}");
    assert!(
        detail.contains("bind_full") || detail.contains("full binding-set"),
        "detail was: {detail}"
    );
    assert!(sub.wasm_calls_seen.is_empty());
}

#[test]
fn text_without_variables_stays() {
    let ctx = Context::default();
    assert_eq!(interpolate("a $ b { c }", &ctx).unwrap(), "a $ b { c }");
    let mut ctx = Context::default();
    ctx.insert("x".into(), CtxValue::Scalar("1".into()));
    ctx.insert("y".into(), CtxValue::Scalar("2".into()));
    assert_eq!(interpolate_mode("${x}", &ctx, InterpMode::Scalar).unwrap(), "1");
    assert!(interpolate("${}", &Context::default()).is_err());
}

#[test]
fn failed_step_stops_the_run() {
    let plan = read_plan(
        r#"{ "name": "n", "steps": [
            { "kind": "sparql_update", "name": "a", "update": "X" },
            { "kind": "sparql_update", "name": "b", "update": "Y" } ] }"#,
    );
    let mut sub = Substrate::default();
    sub.stage_update(Err("no".into()));
    let r = sub.run_steps(plan.steps);
    assert_eq!(r.rows.len(), 1);
    assert_eq!(row_get(&r.rows[0], "detail"), "sparql_update: no");
    assert_eq!(sub.updates_seen, vec!["X".to_string()]);
}

#[test]
fn every_step_has_a_row() {
    let plan = read_plan(
        r#"{ "name": "n", "steps": [
            { "kind": "sparql_update", "update": "X" },
            { "kind": "sparql_query", "query": "Q" } ] }"#,
    );
    let mut sub = Substrate::default();
    sub.stage_update(Ok(()));
    sub.stage_query(Ok(outcome(&["a"], vec![])));
    let r = sub.run_steps(plan.steps);
    assert_eq!(r.rows.iter().map(|row| row.step).collect::<Vec<i64>>(), vec![0, 1]);
}

#[test]
fn wrong_steps_fail() {
    for text in [
        r#"{ "kind": "nothing" }"#,
        r#"{ "kind": "sparql_query" }"#,
        r#"{ "kind": "sparql_update" }"#,
        r#"{ "kind": "wasm" }"#,
        r#"{ "kind": "condition" }"#,
    ] {
        let v: JsonValue = serde_json::from_str(text).unwrap();
        let r = Substrate::default().run_steps(vec![read_step(&v)]);
        assert_eq!(r.rows.len(), 1, "{text}");
        assert!(!r.rows[0].ok, "{text}");
    }
}

#[test]
fn outcomes_of_results() {
    let flat = vec![
        Binding { variable: "a".into(), value: Term::NamedNode("http://ex/1".into()) },
        Binding { variable: "b".into(), value: Term::BlankNode("x".into()) },
        Binding { variable: "a".into(), value: Term::NamedNode("http://ex/2".into()) },
    ];
    let oc = to_outcome(QueryResult::Bindings(flat)).unwrap();
    assert_eq!(oc.vars, vec!["a".to_string(), "b".to_string()]);
    assert_eq!(oc.rows.len(), 2);
    assert!(to_outcome(QueryResult::Boolean(true)).is_err());
    assert_eq!(to_outcome(QueryResult::Quads(vec![])).unwrap().vars, vec!["s", "p", "o"]);
    assert!(ask_verdict(&QueryResult::Boolean(true)));
    assert!(!ask_verdict(&QueryResult::Bindings(vec![])));
    assert!(wasm_args(&None).is_empty());
    assert_eq!(wasm_args(&Some("x".into())).len(), 1);
    let cell = value_to_cell(&Term::Literal(Literal {
        value: "a\"b".into(),
        datatype: None,
        language: Some("en".into()),
    }));
    assert_eq!(cell.as_sparql(), "\"a\\\"b\"@en");
    assert_eq!(cell.as_str(), "a\"b");
    let oc = QueryOutcome { vars: vec!["p".into()], rows: vec![vec![]] };
    assert!(render_values_clause(&oc).contains("UNDEF"));
}

#[test]
fn pipeline_component() {
    assert_eq!(register().len(), 1);
    assert!(offers(&register()[0].name).is_ok());
    assert_eq!(offers("x").unwrap_err(), "wf_pipeline: unknown function 'x'");
    assert!(plan_text(&vec![]).is_err());
    let arg = Term::Literal(Literal { value: "{}".into(), datatype: None, language: None });
    assert_eq!(plan_text(&vec![arg]).unwrap(), "{}");
}

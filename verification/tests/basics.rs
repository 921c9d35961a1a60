use webfunctions::grid::{self, cell_body_and_ct, cell_to_unsigned, column_names, position, sniff};
use webfunctions::guest::{
    map_doc_err, map_graph_err, map_http_err, map_prepared_err, map_sink_err, map_sink_query_err, map_tracker_err,
    map_wasm_err, unknown_aggregate, unknown_property, DocumentSinkError, GraphError, HttpError, PreparedError,
    SinkError, SinkQueryError, TrackerError, WasmError,
};
use webfunctions::json::{put_field, to_finite_real, to_flag, to_integer, to_real, Json};
use webfunctions::names::Names;
use webfunctions::number::{decimal, decimal_i64, hex, parse_i64, parse_u64};
use webfunctions::order::is_before;
use webfunctions::rdf::{
    group_bindings_into_rows, literal_to_sparql, node_term, show, term_iri, term_to_sparql, Binding, Literal, Term,
};
use webfunctions::sql::{quote_text, table};
use webfunctions::table::Table;
use webfunctions::text::{
    ascii_lower, decode, double_char, ends_with, escape_literal, is_white, join, quote, same_ignoring_case, split,
    split_whitespace, starts_with, strip_prefix, trim, trim_end_char,
};

#[test]
fn texts_are_cut() {
    assert_eq!(split("a,b,,c", ','), vec!["a", "b", "", "c"]);
    assert_eq!(split("", ','), vec![""]);
    assert_eq!(split_whitespace("  a \u{2003}b\t"), vec!["a", "b"]);
    assert_eq!(trim("\u{a0} x\n"), "x");
    assert_eq!(trim_end_char("x//", '/'), "x");
    assert_eq!(strip_prefix("_:b", "_:").as_deref(), Some("b"));
    assert_eq!(strip_prefix("b", "_:"), None);
    assert!(starts_with("abc", "ab") && !starts_with("a", "ab"));
    assert!(ends_with("abc", "bc") && !ends_with("c", "bc"));
    assert_eq!(join(&["a".to_string(), "b".to_string()], ", "), "a, b");
    assert_eq!(join(&[], ", "), "");
}

#[test]
fn white_space_and_case() {
    assert!(is_white(' ') && is_white('\u{85}') && is_white('\u{3000}'));
    assert!(!is_white('a') && !is_white('\u{200b}'));
    assert_eq!(ascii_lower("ÀB"), "Àb");
    assert!(same_ignoring_case("Content-Type", "content-type"));
    assert!(!same_ignoring_case("À", "à"));
}

#[test]
fn texts_are_quoted() {
    assert_eq!(escape_literal("a\"\\\n\r\tb"), "a\\\"\\\\\\n\\r\\tb");
    assert_eq!(double_char("a'b", '\''), "a''b");
    assert_eq!(quote_text("o'reilly"), "'o''reilly'");
    assert_eq!(table("d\"x", "r"), "\"d\"\"x\".\"r\"");
    assert_eq!(quote("a\"\u{1}"), format!("{:?}", "a\"\u{1}"));
    assert_eq!(show(&Term::NamedNode("x".into())), "Term::NamedNode(\"x\")");
}

#[test]
fn bytes_are_decoded() {
    assert_eq!(decode("é".as_bytes()).unwrap(), "é");
    assert_eq!(
        decode(&[0x61, 0xff]).unwrap_err(),
        "invalid utf-8 sequence of 1 bytes from index 1"
    );
}

#[test]
fn numbers_are_written_and_read() {
    assert_eq!(decimal(u64::MAX), u64::MAX.to_string());
    assert_eq!(decimal_i64(i64::MIN), i64::MIN.to_string());
    assert_eq!(hex(255, 16), "00000000000000ff");
    assert_eq!(parse_u64("18446744073709551615"), Some(u64::MAX));
    assert_eq!(parse_u64("18446744073709551616"), None);
    assert_eq!(parse_u64("+5"), Some(5));
    assert_eq!(parse_u64("-5"), None);
    assert_eq!(parse_u64(""), None);
    assert_eq!(parse_u64("+"), None);
    assert_eq!(parse_i64("-9223372036854775808"), Some(i64::MIN));
    assert_eq!(parse_i64("9223372036854775808"), None);
    assert_eq!(parse_i64("1x"), None);
}

#[test]
fn json_texts_round() {
    let text = r#"{"a":[1,-2,1.5,true,null,"x\"y"],"b":{}}"#;
    let tree = Json::parse(text).unwrap();
    assert_eq!(tree.render(), text);
    assert_eq!(tree.copy(), tree);
    assert_eq!(Json::parse(r#"{"b":1,"a":2,"b":3}"#).unwrap().render(), r#"{"a":2,"b":3}"#);
    assert!(Json::parse("{").unwrap_err().contains("EOF"));
    assert_eq!(tree.get("a").unwrap().as_array().unwrap().len(), 6);
    assert_eq!(Json::from_number(serde_json::Number::from(7u64)).as_unsigned(), Some(7));
    let mut fields: Vec<(String, Json)> = vec![];
    put_field(&mut fields, "k", Json::Null);
    put_field(&mut fields, "j", Json::Bool(true));
    put_field(&mut fields, "k", Json::text("v"));
    assert_eq!(Json::Object(fields).render(), r#"{"j":true,"k":"v"}"#);
}

#[test]
fn json_values_of_texts() {
    assert_eq!(to_integer("-4").render(), "-4");
    assert_eq!(to_integer("x").render(), "\"x\"");
    assert_eq!(to_real("2.50").render(), "2.5");
    assert_eq!(to_real("x").render(), "\"x\"");
    assert_eq!(to_real("NaN").render(), "null");
    assert!(to_finite_real("inf").is_none());
    assert_eq!(to_finite_real("1").unwrap().render(), "1.0");
    assert_eq!(to_flag("1").render(), "true");
    assert_eq!(to_flag("x").render(), "\"x\"");
}

#[test]
fn tables_keep_their_keys_in_order() {
    let mut t: Table<u64> = Table::new();
    t.insert("b".into(), 1);
    t.insert("a".into(), 2);
    t.insert("b".into(), 3);
    assert_eq!(t.len(), 2);
    assert_eq!(t.keys(), vec!["a", "b"]);
    assert_eq!(t.get("b"), Some(&3));
    assert_eq!(t.remove("a"), Some(2));
    assert_eq!(t.remove("a"), None);
    assert_eq!(t.key_at(0), "b");
    assert_eq!(t.value_at(0), &3);
    let mut n = Names::new();
    assert!(n.insert("z".into()));
    assert!(!n.insert("z".into()));
    assert!(n.insert("É".into()));
    assert_eq!(n.items(), vec!["z", "É"]);
    assert!(is_before("", "a") && is_before("Z", "a") && !is_before("a", "a"));
    assert!(is_before("\u{ffff}", "\u{10000}"));
}

#[test]
fn terms_are_written() {
    let l = Literal { value: "x".into(), datatype: None, language: Some("en".into()) };
    assert_eq!(literal_to_sparql(&l), "\"x\"@en");
    let l = Literal { value: "x".into(), datatype: Some("http://d".into()), language: None };
    assert_eq!(literal_to_sparql(&l), "\"x\"^^<http://d>");
    assert_eq!(term_to_sparql(&Term::BlankNode("b".into())), "_:b");
    for t in [Term::BlankNode("b".into()), Term::NamedNode("http://ex/a".into())] {
        assert_eq!(node_term(&term_iri(&t).unwrap()), t);
    }
}

#[test]
fn rows_break_at_a_repeated_variable() {
    let b = |v: &str| Binding { variable: v.into(), value: Term::NamedNode("n".into()) };
    let rows = group_bindings_into_rows(vec![b("a"), b("b"), b("a"), b("c"), b("a")]);
    assert_eq!(rows.iter().map(|r| r.len()).collect::<Vec<usize>>(), vec![2, 2, 1]);
    assert!(group_bindings_into_rows(vec![]).is_empty());
}

#[test]
fn cells_of_a_grid() {
    let columns = Json::parse(r#"["_REV", 3, "Document"]"#).unwrap();
    let names = column_names(columns.as_array().unwrap());
    assert_eq!(grid::column(&names, &vec!["_revision", "_rev"]), Some(0));
    assert_eq!(position(&names, "nothing"), None);
    assert_eq!(cell_to_unsigned(Some(&Json::text("12"))), Some(12));
    assert_eq!(cell_to_unsigned(Some(&Json::Null)), None);
    assert_eq!(cell_to_unsigned(None), None);
    assert_eq!(cell_body_and_ct(&Json::parse("{\"a\":1}").unwrap()).0, "{\"a\":1}");
    assert_eq!(sniff("{}"), "application/json");
}

#[test]
fn failures_of_the_host_are_told() {
    let m = || "m".to_string();
    assert_eq!(map_graph_err(&GraphError::SyntaxError(m())), "graph-callbacks syntax-error: m");
    assert_eq!(map_graph_err(&GraphError::BackendError(m())), "graph-callbacks backend-error: m");
    assert_eq!(map_graph_err(&GraphError::NotPermitted(m())), "graph-callbacks not-permitted: m");
    assert_eq!(map_sink_err(&SinkError::NoSuchSink(m())), "sink-callbacks no-such-sink: m");
    assert_eq!(map_sink_err(&SinkError::SchemaViolation(m())), "sink-callbacks schema-violation: m");
    assert_eq!(map_sink_err(&SinkError::BackendError(m())), "sink-callbacks backend-error: m");
    assert_eq!(map_sink_err(&SinkError::NotPermitted(m())), "sink-callbacks not-permitted: m");
    assert_eq!(map_wasm_err(&WasmError::NotFound(m())), "wasm-callbacks not-found: m");
    assert_eq!(map_wasm_err(&WasmError::InvocationError(m())), "wasm-callbacks invocation-error: m");
    assert_eq!(map_wasm_err(&WasmError::NotPermitted(m())), "wasm-callbacks not-permitted: m");
    assert_eq!(map_prepared_err(&PreparedError::SyntaxError(m())), "prepared-query syntax-error: m");
    assert_eq!(map_prepared_err(&PreparedError::BackendError(m())), "prepared-query backend-error: m");
    assert_eq!(map_sink_query_err(&SinkQueryError::NoSuchSink(m())), "sink-query no-such-sink: m");
    assert_eq!(map_sink_query_err(&SinkQueryError::SyntaxError(m())), "sink-query syntax-error: m");
    assert_eq!(map_doc_err(&DocumentSinkError::NoSuchDocument(m())), "document-sink no-such-document: m");
    assert_eq!(map_http_err(&HttpError::Status(404)), "http-callbacks non-2xx: 404");
    assert_eq!(map_tracker_err(&TrackerError::NoSuchTable(m())), "tracker-sink no-such-table: m");
    assert_eq!(unknown_aggregate("wf_map", "a"), "wf_map: unknown aggregate 'a' (this component provides none)");
    assert_eq!(
        unknown_property("wf_map", "p"),
        "wf_map: unknown property function 'p' (this component provides none)"
    );
}

use serde_json::Value as JsonValue;
use webfunctions::fulltext::component::{
    batch_reply, bulk_url, delete_batch_body, insert_batch_body, manticore_url, no_function, or_default, search_body,
    search_reply, SearchError, SearchRequest, UnreachableAggregateState,
};
use webfunctions::fulltext::manticore::{build_request_body, parse_response, PlainOpts};
use webfunctions::fulltext::manticore_admin::PlainDocWrite;
use webfunctions::rdf::Term;

fn json(text: &str) -> JsonValue {
    serde_json::from_str(text).unwrap()
}

fn opts() -> PlainOpts {
    PlainOpts { limit: None, offset: None, fields: vec![], highlight: false, lang: None, filter: None }
}

fn body(o: &PlainOpts) -> JsonValue {
    json(&build_request_body("docs", "fox", o).unwrap())
}

#[test]
fn fulltext_body_without_options() {
    let b = body(&opts());
    assert_eq!(b["table"], "docs");
    assert_eq!(b["query"], json(r#"{ "match": { "*": "fox" } }"#));
    assert!(b.get("limit").is_none());
    assert!(b.get("_source").is_none());
    assert_eq!(b["highlight"], json(r#"{ "pre_tags": "", "post_tags": "" }"#));
}

#[test]
fn fulltext_body_with_options() {
    let mut o = opts();
    o.limit = Some(5);
    o.offset = Some(2);
    o.fields = vec!["title".into()];
    o.highlight = true;
    o.lang = Some("en".into());
    o.filter = Some(r#"{ "equals": { "a": 1 } }"#.into());
    let b = body(&o);
    assert_eq!(b["limit"], 5);
    assert_eq!(b["offset"], 2);
    assert_eq!(b["_source"], json(r#"{ "includes": ["title"] }"#));
    assert_eq!(
        b["query"],
        json(
            r#"{ "bool": { "must": [{ "match": { "*": "fox" } }],
                 "filter": [{ "equals": { "lang": "en" } }, { "equals": { "a": 1 } }] } }"#
        )
    );
    o.filter = Some("{".into());
    assert!(build_request_body("docs", "fox", &o)
        .unwrap_err()
        .starts_with("wf_fulltext: opts.filter must be valid JSON: "));
}

#[test]
fn fulltext_hits_are_read() {
    let hits = parse_response(
        r#"{ "hits": { "hits": [ { "_id": "urn:s:1", "_score": 2,
            "_source": { "label": "x", "lang": "en", "n": 4, "nested": {} },
            "highlight": { "*": ["<b>x</b>"] } } ] } }"#,
    )
    .unwrap();
    assert_eq!(hits[0].doc, "urn:s:1");
    assert_eq!(hits[0].score.render(), "2");
    assert_eq!(hits[0].snippet.as_deref(), Some("<b>x</b>"));
    assert_eq!(hits[0].lang.as_deref(), Some("en"));
    assert!(hits[0].fields.contains(&("label".to_string(), "x".to_string())));
    assert!(hits[0].fields.contains(&("n".to_string(), "4".to_string())));
    assert!(parse_response("{}").unwrap_err().contains("missing `hits.hits` array"));
    assert_eq!(
        parse_response(r#"{ "hits": { "hits": [ { "_score": 2 } ] } }"#).unwrap_err(),
        "wf_fulltext: hit missing `_id`"
    );
    assert_eq!(
        parse_response(r#"{ "hits": { "hits": [ { "_id": "x" } ] } }"#).unwrap_err(),
        "wf_fulltext: hit missing numeric `_score`"
    );
}

#[test]
fn fulltext_search() {
    let request = SearchRequest { query: "fox".into(), limit: Some(3), offset: None };
    let b = match search_body("docs", &request) {
        Ok(b) => json(&b),
        Err(e) => panic!("{e:?}"),
    };
    assert_eq!(b["limit"], 3);
    let reply = r#"{ "hits": { "hits": [ { "_id": "urn:s:1", "_score": 1 } ] } }"#;
    let hits = search_reply("http://b", Ok(reply.to_string())).ok().unwrap();
    assert_eq!(hits[0].subject, Term::NamedNode("urn:s:1".into()));
    match search_reply("http://b/", Err("down".into())) {
        Err(SearchError::BackendError(e)) => assert_eq!(e, "POST http://b/search: down"),
        _ => panic!("expected a failure"),
    }
}

#[test]
fn fulltext_batches() {
    assert!(insert_batch_body("docs", &[]).is_none());
    assert!(delete_batch_body("docs", &[]).is_none());
    let doc = PlainDocWrite { id: "1".into(), fields: vec![], lang: None };
    assert!(insert_batch_body("docs", &[doc]).unwrap().contains("replace"));
    assert!(delete_batch_body("docs", &["1".to_string()]).unwrap().contains("delete"));
    assert_eq!(batch_reply("http://b", Ok(r#"{ "items": [ { "replace": {} } ] }"#.into())).unwrap(), 1);
    assert_eq!(batch_reply("http://b", Err("down".into())).unwrap_err(), "wf_fulltext: POST http://b/bulk: down");
}

#[test]
fn fulltext_component() {
    assert_eq!(manticore_url("http://b/search/"), "http://b/search");
    assert_eq!(bulk_url("http://b/"), "http://b/bulk");
    assert_eq!(or_default(None, "d"), "d");
    assert_eq!(or_default(Some("".into()), "d"), "d");
    assert_eq!(or_default(Some("x".into()), "d"), "x");
    assert_eq!(
        no_function("f"),
        "wf_fulltext: no filter function 'f' registered (search is dispatched via the named-extension interface)"
    );
    assert!(UnreachableAggregateState.finish().is_err());
}

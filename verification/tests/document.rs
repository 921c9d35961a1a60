use webfunctions::document::calls::{
    begin_like, begin_search, bulk_url, check_opts, delete_doc_reply, fetch_reply, insert_batch_request, is_empty_range,
    manticore_url, normalize_at_time, revisions_reply, seek_like, step, take_hits, wit_opts_to_plain, Action, DocRef, Search,
    SearchOpts, Stage,
};
use webfunctions::document::manticore::{AtTime, Hit, PlainOpts};
use webfunctions::document::snippet::{generate_snippet, populate_snippets, snippet_terms};
use webfunctions::json::Json;

#[test]
fn manticore_url_idempotent() {
    assert_eq!(manticore_url("http://x:9308"), "http://x:9308/search");
    assert_eq!(manticore_url("http://x:9308/"), "http://x:9308/search");
    assert_eq!(manticore_url("http://x:9308/search"), "http://x:9308/search");
}

#[test]
fn bulk_url_idempotent() {
    assert_eq!(bulk_url("http://x:9308"), "http://x:9308/bulk");
    assert_eq!(bulk_url("http://x:9308/bulk"), "http://x:9308/bulk");
}

#[test]
fn normalize_at_time_epoch_seconds() {
    assert_eq!(normalize_at_time("1735689600").unwrap(), AtTime::Epoch(1735689600));
    assert_eq!(normalize_at_time("0").unwrap(), AtTime::Epoch(0));
}

#[test]
fn normalize_at_time_iso_8601_verbatim() {
    assert_eq!(
        normalize_at_time("2026-01-01T00:00:00Z").unwrap(),
        AtTime::Iso("2026-01-01T00:00:00Z".into())
    );
}

#[test]
fn normalize_at_time_trims_whitespace() {
    assert_eq!(normalize_at_time("  2026-01-01  ").unwrap(), AtTime::Iso("2026-01-01".into()));
}

#[test]
fn normalize_at_time_empty_errors() {
    assert!(normalize_at_time("").is_err());
    assert!(normalize_at_time("   ").is_err());
}

#[test]
fn snippet_wraps_matching_term_with_mark() {
    let body = b"The quick brown fox jumps over the lazy dog.";
    let snippet = generate_snippet(body, &snippet_terms("fox")).expect("snippet from body");
    assert!(snippet.contains("<mark>fox</mark>"), "expected <mark>fox</mark>, got: {snippet}");
}

#[test]
fn snippet_case_insensitive_ascii() {
    let body = b"Waterproof rig for outdoor use";
    let snippet = generate_snippet(body, &snippet_terms("WATERPROOF")).expect("snippet");
    assert!(snippet.contains("<mark>Waterproof</mark>"), "case preserved in mark payload: {snippet}");
}

#[test]
fn snippet_multi_term_all_wrapped() {
    let body = b"waterproof tarp with sturdy grommets";
    let snippet = generate_snippet(body, &snippet_terms("tarp grommets")).expect("snippet");
    assert!(snippet.contains("<mark>tarp</mark>"), "tarp wrapped: {snippet}");
    assert!(snippet.contains("<mark>grommets</mark>"), "grommets wrapped: {snippet}");
}

#[test]
fn snippet_overlapping_terms_merge_into_one_mark() {
    let body = b"waterproof spec sheet";
    let snippet = generate_snippet(body, &snippet_terms("water waterproof")).expect("snippet");
    assert!(snippet.contains("<mark>waterproof</mark>"), "merged mark: {snippet}");
    assert!(!snippet.contains("<mark><mark>"), "no nested marks: {snippet}");
}

#[test]
fn snippet_no_match_returns_none() {
    let body = b"The quick brown fox jumps over the lazy dog";
    assert!(generate_snippet(body, &snippet_terms("zebra")).is_none());
}

#[test]
fn snippet_empty_body_returns_none() {
    assert!(generate_snippet(b"", &snippet_terms("fox")).is_none());
}

#[test]
fn snippet_non_utf8_body_returns_none() {
    let bad = &[0xff, 0xfe, 0xfd];
    assert!(generate_snippet(bad, &snippet_terms("fox")).is_none());
}

#[test]
fn snippet_takes_roughly_100_chars_each_side() {
    let mut body = vec![b'a'; 250];
    body.extend_from_slice(b" needle ");
    body.extend(std::iter::repeat(b'b').take(250));
    let snippet = generate_snippet(&body, &snippet_terms("needle")).expect("snippet");
    assert!(snippet.len() < 250, "snippet should be windowed, got {} chars", snippet.len());
    assert!(snippet.contains("<mark>needle</mark>"));
}

#[test]
fn snippet_terms_split_and_lowercase() {
    assert_eq!(snippet_terms("Waterproof  TARP"), vec!["waterproof".to_string(), "tarp".to_string()]);
    assert!(snippet_terms("   ").is_empty());
}

fn hit(snippet: Option<&str>, body: Option<&str>) -> Hit {
    Hit {
        doc: "sirix://docs/x/1".into(),
        score: Json::parse("1.0").unwrap(),
        snippet: snippet.map(|s| s.to_string()),
        lang: None,
        body: body.map(|b| b.as_bytes().to_vec()),
        content_type: body.map(|_| "text/plain".to_string()),
        fields: vec![],
        revision: None,
    }
}

#[test]
fn populate_snippets_preserves_manticore_snippet() {
    let out = populate_snippets(vec![hit(Some("<b>fox</b> from Manticore"), Some("the quick brown fox"))], "fox");
    assert_eq!(out[0].snippet.as_deref(), Some("<b>fox</b> from Manticore"));
}

#[test]
fn populate_snippets_generates_when_missing() {
    let out = populate_snippets(vec![hit(None, Some("the quick brown fox"))], "fox");
    assert!(out[0].snippet.as_deref().unwrap().contains("<mark>fox</mark>"));
}

#[test]
fn populate_snippets_body_none_leaves_snippet_none() {
    let out = populate_snippets(vec![hit(None, None)], "fox");
    assert_eq!(out[0].snippet, None);
}

#[test]
fn snippet_keeps_the_text_between_marks() {
    let snippet = generate_snippet(b"a fox and a Fox", &snippet_terms("fox")).unwrap();
    assert_eq!(snippet, "a <mark>fox</mark> and a <mark>Fox</mark>");
    assert_eq!(snippet.replace("<mark>", "").replace("</mark>", ""), "a fox and a Fox");
}

fn no_opts() -> SearchOpts {
    SearchOpts {
        limit: None,
        offset: None,
        fields: vec![],
        highlight: false,
        lang: None,
        filter: None,
        include_body: false,
        body_content_type: None,
        at_time: None,
        at_rev: None,
        indexes: None,
        after: None,
        before: None,
    }
}

fn plain(opts: &SearchOpts) -> PlainOpts {
    wit_opts_to_plain(opts).unwrap()
}

fn search(opts: &SearchOpts) -> Search {
    Search {
        search_url: "http://s".into(),
        sirix_url: "http://d".into(),
        index: "docs".into(),
        opts: plain(opts),
    }
}

fn sent(action: &Action) -> (String, String) {
    match action {
        Action::Send(p) => (p.url.clone(), p.body.clone()),
        Action::Finish(_) => panic!("nothing was sent"),
    }
}

#[test]
fn options_exclude_each_other() {
    let mut opts = no_opts();
    opts.at_time = Some("0".into());
    opts.at_rev = Some(1);
    assert!(check_opts(&opts, true).is_err());
    opts.at_rev = None;
    assert!(check_opts(&opts, true).is_ok());
    opts.after = Some("1".into());
    assert!(check_opts(&opts, true).is_err());
    opts.at_time = Some(" ".into());
    opts.after = None;
    assert_eq!(check_opts(&opts, true).unwrap_err(), "wf_document: at_time must not be empty");
}

#[test]
fn empty_ranges_are_not_sent() {
    assert!(is_empty_range(&Some(AtTime::Epoch(5)), &Some(AtTime::Epoch(4))));
    assert!(!is_empty_range(&Some(AtTime::Epoch(4)), &Some(AtTime::Epoch(5))));
    assert!(!is_empty_range(&None, &Some(AtTime::Epoch(5))));
    let mut opts = no_opts();
    opts.after = Some("10".into());
    opts.before = Some("1".into());
    let (stage, action) = begin_search(&search(&opts), "q");
    assert!(matches!(stage, Stage::Over));
    match action {
        Action::Finish(Ok(hits)) => assert!(hits.is_empty()),
        _ => panic!("expected no hits"),
    }
}

#[test]
fn search_then_fetch_composes() {
    let mut opts = no_opts();
    opts.include_body = true;
    opts.highlight = true;
    let c = search(&opts);
    let (stage, action) = begin_search(&c, "fox");
    assert_eq!(sent(&action).0, "http://s/search");
    let reply = r#"{"hits":{"hits":[{"_id":"sirix://db/res/1","_score":1.5,"_source":{}}]}}"#;
    let (stage, action) = step(&c, stage, Ok(reply.to_string()));
    let (url, body) = sent(&action);
    assert_eq!(url, "http://d/query");
    assert!(body.contains("SELECT"));
    let reply = r#"{"columns":["document"],"rows":[["the quick brown fox"]]}"#;
    let (stage, action) = step(&c, stage, Ok(reply.to_string()));
    assert!(matches!(stage, Stage::Over));
    match action {
        Action::Finish(Ok(hits)) => {
            assert_eq!(hits.len(), 1);
            assert_eq!(hits[0].doc, "sirix://db/res/1");
            assert_eq!(hits[0].body.as_deref(), Some("the quick brown fox".as_bytes()));
            assert!(hits[0].snippet.as_deref().unwrap().contains("<mark>fox</mark>"));
        },
        _ => panic!("expected hits"),
    }
}

#[test]
fn one_body_that_fails_does_not_fail_the_search() {
    let mut opts = no_opts();
    opts.include_body = true;
    let c = search(&opts);
    let (stage, _) = begin_search(&c, "fox");
    let reply = r#"{"hits":{"hits":[{"_id":"sirix://db/res/1","_score":1,"_source":{}}]}}"#;
    let (stage, _) = step(&c, stage, Ok(reply.to_string()));
    let (_, action) = step(&c, stage, Err("down".into()));
    match action {
        Action::Finish(Ok(hits)) => assert_eq!(hits[0].body, None),
        _ => panic!("expected hits"),
    }
}

#[test]
fn bodies_are_asked_for_only_where_they_are_missing() {
    let reply = r#"{"hits":{"hits":[
        {"_id":"sirix://db/res/1","_score":2,"_source":{"body":"kept"}},
        {"_id":"sirix://db/res/2","_score":1,"_source":{}}]}}"#;
    let c = search(&no_opts());
    let (stage, _) = begin_search(&c, "fox");
    let (stage, action) = step(&c, stage, Ok(reply.to_string()));
    assert!(matches!(stage, Stage::Over));
    match action {
        Action::Finish(Ok(hits)) => assert_eq!(hits[1].body, None),
        _ => panic!("expected hits"),
    }

    let mut opts = no_opts();
    opts.include_body = true;
    let c = search(&opts);
    let (stage, _) = begin_search(&c, "fox");
    let (stage, action) = step(&c, stage, Ok(reply.to_string()));
    assert!(matches!(stage, Stage::Fetching(_, _, 1)));
    assert_eq!(sent(&action).0, "http://d/query");
    let reply = r#"{"columns":["document"],"rows":[["fetched"]]}"#;
    let (_, action) = step(&c, stage, Ok(reply.to_string()));
    match action {
        Action::Finish(Ok(hits)) => {
            assert_eq!(hits.len(), 2);
            assert_eq!(hits[0].doc, "sirix://db/res/1");
            assert_eq!(hits[0].body.as_deref(), Some("kept".as_bytes()));
            assert_eq!(hits[1].doc, "sirix://db/res/2");
            assert_eq!(hits[1].body.as_deref(), Some("fetched".as_bytes()));
        },
        _ => panic!("expected hits"),
    }
}

#[test]
fn failed_search_tells_the_url() {
    let c = search(&no_opts());
    let (stage, _) = begin_search(&c, "fox");
    let (_, action) = step(&c, stage, Err("down".into()));
    match action {
        Action::Finish(Err(e)) => assert_eq!(e, "wf_document: POST http://s/search: down"),
        _ => panic!("expected a failure"),
    }
}

#[test]
fn probe_follows_an_empty_search_of_the_past() {
    let mut opts = no_opts();
    opts.at_time = Some("100".into());
    let c = search(&opts);
    let (stage, action) = take_hits(&c, "fox".into(), true, vec![]);
    assert!(matches!(stage, Stage::Probing(_, _)));
    assert_eq!(sent(&action).0, "http://s/search");
    let (stage, action) = take_hits(&c, "fox".into(), false, vec![]);
    assert!(matches!(stage, Stage::Over));
    assert!(matches!(action, Action::Finish(Ok(_))));
}

#[test]
fn likeness_starts_at_a_document() {
    let c = search(&no_opts());
    let seed = DocRef { id: "sirix://db/res/1".into(), revision: None };
    let (stage, action) = begin_like(&c, seed, 5);
    assert!(matches!(stage, Stage::Seeding(_, 5)));
    assert_eq!(sent(&action).0, "http://d/query");
    let seed = DocRef { id: "sirix://db/res/1".into(), revision: None };
    let (_, action) = seek_like(&c, &seed, 5, b"alpha alpha beta");
    assert!(sent(&action).1.contains("alpha"));
    let seed = DocRef { id: "nowhere".into(), revision: None };
    let (_, action) = begin_like(&c, seed, 5);
    assert!(matches!(action, Action::Finish(Err(_))));
}

#[test]
fn replies_of_the_store() {
    let doc = DocRef { id: "sirix://db/res/1".into(), revision: Some(2) };
    let reply = r#"{"columns":["document"],"rows":[["x"]]}"#;
    let d = fetch_reply("http://d", doc, Ok(reply.to_string())).unwrap();
    assert_eq!(d.body, b"x".to_vec());
    assert_eq!(d.doc.revision, Some(2));
    let doc = DocRef { id: "sirix://db/res/1".into(), revision: None };
    assert_eq!(
        fetch_reply("http://d", doc, Err("down".into())).unwrap_err(),
        "wf_document: POST http://d/query: down"
    );
    let doc = DocRef { id: "sirix://db/res/1".into(), revision: None };
    let revs = revisions_reply(
        "http://d",
        &doc,
        Ok(r#"{"columns":["_rev"],"rows":[[1],[2]]}"#.to_string()),
    )
    .unwrap();
    assert_eq!(revs, vec![1, 2]);
    assert!(delete_doc_reply("http://d", Err("down".into())).is_err());
    assert!(insert_batch_request("http://s", "docs", &[]).is_none());
}

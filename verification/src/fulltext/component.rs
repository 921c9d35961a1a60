//! The calls that `wf_fulltext` answers.

use vstd::prelude::*;
use vstd::string::*;

use crate::bulk::{command_lines, count_or_error, delete_commands, done_text};
use crate::endpoint::{endpoint, endpoint_of};
use crate::fulltext::manticore::{build_request_body, parse_response, reply_hits, searched, PlainOpts, COMPONENT};
use crate::fulltext::manticore_admin::{build_bulk_body, build_delete_body, parse_bulk_response, replace_commands,
    PlainDocWrite};
use crate::guest::{never_constructed, never_constructed_text};
use crate::json::{json_parse, Json, JsonView};
use crate::rdf::{Term, TermView};
use crate::search::FoundView;
use crate::text::{opt_view, views};

verus! {

/// A search.
#[derive(Debug)]
pub struct SearchRequest {
    pub query: String,
    pub limit: Option<u32>,
    pub offset: Option<u32>,
}

/// Why a search failed.
#[derive(Debug)]
pub enum SearchError {
    InvalidQuery(String),
    BackendError(String),
}

/// A hit: the subject that was found.
#[derive(Debug)]
pub struct SearchHit {
    pub subject: Term,
    /// The score, a number.
    pub score: Json,
    pub snippet: Option<String>,
}

pub struct SearchHitView {
    pub subject: TermView,
    pub score: JsonView,
    pub snippet: Option<Seq<char>>,
}

impl View for SearchHit {
    type V = SearchHitView;

    open spec fn view(&self) -> SearchHitView {
        SearchHitView { subject: self.subject@, score: self.score@, snippet: opt_view(self.snippet) }
    }
}

/// A setting, or its default where it is unset or empty.
pub fn or_default(value: Option<String>, default: &str) -> (r: String)
    ensures
        r@ == match opt_view(value) {
            Some(v) => if v.len() > 0 {
                v
            } else {
                default@
            },
            None => default@,
        },
{
    match value {
        Some(v) => if v.as_str().is_empty() {
            default.to_owned()
        } else {
            v
        },
        None => default.to_owned(),
    }
}

/// The endpoint that takes searches.
pub fn manticore_url(backend_url: &str) -> (r: String)
    ensures
        r@ == endpoint_of(backend_url@, "/search"@),
{
    endpoint(backend_url, "/search")
}

/// The endpoint that takes changes of an index.
pub fn bulk_url(backend_url: &str) -> (r: String)
    ensures
        r@ == endpoint_of(backend_url@, "/bulk"@),
{
    endpoint(backend_url, "/bulk")
}

/// The options of a search: its own limits, marked snippets, nothing else.
pub open spec fn searches_with(opts: PlainOpts, request: SearchRequest) -> bool {
    &&& opts.limit == request.limit && opts.offset == request.offset
    &&& opts.fields@.len() == 0 && opts.highlight && opts.lang is None && opts.filter is None
}

/// The body of a search.
pub fn search_body(index: &str, request: &SearchRequest) -> (r: Result<String, SearchError>)
    ensures
        exists|opts: PlainOpts| #[trigger]
            searches_with(opts, *request) && match r {
                Ok(body) => searched(index@, request.query@, opts) == Ok::<Seq<char>, Seq<char>>(body@),
                Err(SearchError::InvalidQuery(e)) => searched(index@, request.query@, opts) == Err::<
                    Seq<char>,
                    Seq<char>,
                >(e@),
                Err(_) => false,
            },
{
    let opts = PlainOpts {
        limit: request.limit,
        offset: request.offset,
        fields: Vec::new(),
        highlight: true,
        lang: None,
        filter: None,
    };
    proof {
        assert(searches_with(opts, *request));
    }
    match build_request_body(index, &request.query, &opts) {
        Ok(body) => Ok(body),
        Err(e) => Err(SearchError::InvalidQuery(e)),
    }
}

/// A hit as it is handed out.
pub open spec fn handed_out(h: FoundView) -> SearchHitView {
    SearchHitView { subject: TermView::NamedNode(h.doc), score: h.score, snippet: h.snippet }
}

/// What a reply to a search gives, or the message of the error.
pub open spec fn search_outcome(url: Seq<char>, reply: Result<String, String>) -> Result<Seq<FoundView>, Seq<char>> {
    match reply {
        Err(e) => Err("POST "@ + url + ": "@ + e@),
        Ok(text) => match json_parse(text@) {
            Err(message) => Err("wf_fulltext: response is not valid JSON: "@ + message),
            Ok(root) => reply_hits(root),
        },
    }
}

/// Reads the reply to a search.
pub fn search_reply(backend_url: &str, reply: Result<String, String>) -> (r: Result<Vec<SearchHit>, SearchError>)
    ensures
        match search_outcome(endpoint_of(backend_url@, "/search"@), reply) {
            Ok(hits) => r matches Ok(out) && out@.len() == hits.len() && forall|i: int|
                0 <= i < hits.len() ==> (#[trigger] out@[i])@ == handed_out(hits[i]),
            Err(e) => r matches Err(SearchError::BackendError(text)) && text@ == e,
        },
{
    let url = manticore_url(backend_url);
    let text = match reply {
        Ok(text) => text,
        Err(e) => {
            return Err(SearchError::BackendError("POST ".to_owned().concat(&url).concat(": ").concat(&e)));
        },
    };
    let hits = match parse_response(&text) {
        Ok(hits) => hits,
        Err(e) => {
            return Err(SearchError::BackendError(e));
        },
    };
    let ghost all = hits@;
    let mut out: Vec<SearchHit> = Vec::new();
    for h in iter: hits
        invariant
            iter.seq() == all,
            out@.len() == iter.index(),
            forall|i: int| 0 <= i < out@.len() ==> (#[trigger] out@[i])@ == handed_out(all[i]@),
    {
        out.push(SearchHit { subject: Term::NamedNode(h.doc), score: h.score, snippet: h.snippet });
    }
    proof {
        assert forall|i: int| 0 <= i < all.len() implies (#[trigger] out@[i])@ == handed_out(views(all)[i]) by {}
    }
    Ok(out)
}

/// The body that sends documents to an index; none where there are none.
pub fn insert_batch_body(index: &str, docs: &[PlainDocWrite]) -> (r: Option<String>)
    ensures
        opt_view(r) == if docs@.len() == 0 {
            None
        } else {
            Some(command_lines(replace_commands(index@, docs@)))
        },
{
    if docs.len() == 0 {
        None
    } else {
        Some(build_bulk_body(index, docs))
    }
}

/// The body that deletes documents from an index; none where there are none.
pub fn delete_batch_body(index: &str, ids: &[String]) -> (r: Option<String>)
    ensures
        opt_view(r) == if ids@.len() == 0 {
            None
        } else {
            Some(command_lines(delete_commands(index@, views(ids@))))
        },
{
    if ids.len() == 0 {
        None
    } else {
        Some(build_delete_body(index, ids))
    }
}

/// Reads the reply to a change of an index.
pub fn batch_reply(backend_url: &str, reply: Result<String, String>) -> (r: Result<u32, String>)
    ensures
        count_or_error(r) == match reply {
            Ok(text) => done_text(COMPONENT@, text@),
            Err(e) => Err("wf_fulltext: POST "@ + endpoint_of(backend_url@, "/bulk"@) + ": "@ + e@),
        },
{
    match reply {
        Ok(text) => parse_bulk_response(&text),
        Err(e) => Err(
            "wf_fulltext: POST ".to_owned().concat(&bulk_url(backend_url)).concat(": ").concat(&e),
        ),
    }
}

/// The refusal of a call by name: searches come by their own interface.
pub fn no_function(name: &str) -> (r: String)
    ensures
        r@ == "wf_fulltext: no filter function '"@ + name@
            + "' registered (search is dispatched via the named-extension interface)"@,
{
    "wf_fulltext: no filter function '".to_owned().concat(name).concat(
        "' registered (search is dispatched via the named-extension interface)",
    )
}

/// The state of an aggregate. The component has none, so none is ever made.
pub struct UnreachableAggregateState;

impl UnreachableAggregateState {
    pub fn step(&self, args: Vec<Term>) -> (r: Result<(), String>)
        ensures
            r matches Err(e) && e@ == never_constructed_text(COMPONENT@),
    {
        Err(never_constructed(COMPONENT))
    }

    pub fn finish(&self) -> (r: Result<Term, String>)
        ensures
            r matches Err(e) && e@ == never_constructed_text(COMPONENT@),
    {
        Err(never_constructed(COMPONENT))
    }
}

} // verus!

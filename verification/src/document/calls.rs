//! The calls that `wf_document` answers: what each sends to the backends, and
//! what it makes of their replies.

use vstd::prelude::*;
use vstd::string::*;


use crate::bulk::{command_lines, count_or_error, delete_commands, done_text};
use crate::document::manticore::{
    body_or_error, build_mlt_body, build_probe_body, build_request_body, facets_of, facets_or_error, hits_or_error,
    parse_facet_response, parse_response, probe_tree, reply_hits, schema_has_valid_from, searched, tells_validity,
    AtTime, Hit, HitView, PlainFacetResult, PlainOpts,
};
use crate::document::manticore_admin::{build_bulk_body, build_delete_body, parse_bulk_response, replace_commands,
    PlainDocWrite};
use crate::document::sirix::{
    addresses, address_error, build_fetch_body, build_fetch_sql, build_revisions_sql, fetch_sql, fetched_text,
    parse_fetch_response, parse_revisions_response, parse_sirix_uri, query_url, revisions_sql, revisions_text,
    DocIdView,
};
use crate::document::sirix_write::{build_delete_sql, build_insert_sql, build_update_sql, delete_sql, insert_sql,
    parse_write_response, update_sql, write_text};
use crate::document::snippet::{has_snippet, populate_snippets, query_words};
use crate::document::terms::{are_top, different, extract_top_terms, words_of};
use crate::endpoint::{endpoint, endpoint_of};
use crate::json::{json_parse, json_text, object1, JsonView};
use crate::number::{i64_of, parse_i64};
use crate::order::{before, is_before};
use crate::text::{copy_all, copy_opt, join, joined, opt_view, trim, trimmed, views};

verus! {

/// A document, at a revision or at the latest.
#[derive(Debug, PartialEq, Eq)]
pub struct DocRef {
    pub id: String,
    pub revision: Option<u64>,
}

/// A document that was read.
#[derive(Debug, PartialEq, Eq)]
pub struct Document {
    pub doc: DocRef,
    pub body: Vec<u8>,
    pub content_type: String,
}

/// A document that was written.
#[derive(Debug, PartialEq, Eq)]
pub struct WriteResult {
    pub doc: DocRef,
    pub valid_from: String,
}

/// A request to a backend.
#[derive(Debug, PartialEq, Eq)]
pub struct Post {
    pub url: String,
    pub body: String,
}

/// Whether `p` posts `body` to `url`.
pub open spec fn posts(p: Post, url: Seq<char>, body: Seq<char>) -> bool {
    p.url@ == url && p.body@ == body
}

/// The message of a request that failed.
pub open spec fn post_error(url: Seq<char>, e: Seq<char>) -> Seq<char> {
    "wf_document: POST "@ + url + ": "@ + e
}

fn post_failed(url: &str, e: &str) -> (r: String)
    ensures
        r@ == post_error(url@, e@),
{
    "wf_document: POST ".to_owned().concat(url).concat(": ").concat(e)
}

/// The endpoint that takes searches.
pub fn manticore_url(backend_url: &str) -> (r: String)
    ensures
        r@ == endpoint_of(backend_url@, "/search"@),
{
    endpoint(backend_url, "/search")
}

/// The endpoint that takes changes of an index.
pub fn bulk_url(backend_url: &str) -> (r: String)
    ensures
        r@ == endpoint_of(backend_url@, "/bulk"@),
{
    endpoint(backend_url, "/bulk")
}

// ---------------------------------------------------------------------------
// Moments
// ---------------------------------------------------------------------------

/// Whether a text, blanks aside, says the moment `t`: a number is seconds since
/// the epoch, and anything else is left as it is.
pub open spec fn says(raw: Seq<char>, t: AtTime) -> bool {
    let text = trimmed(raw);
    &&& text.len() > 0
    &&& match t {
        AtTime::Epoch(n) => i64_of(text) == Some(n),
        AtTime::Iso(s) => i64_of(text) is None && s@ == text,
    }
}

/// Reads a moment.
pub fn normalize_at_time(raw: &str) -> (r: Result<AtTime, String>)
    ensures
        match r {
            Ok(t) => says(raw@, t),
            Err(e) => trimmed(raw@).len() == 0 && e@ == "wf_document: at_time must not be empty"@,
        },
{
    let text = trim(raw);
    if text.as_str().is_empty() {
        return Err("wf_document: at_time must not be empty".to_owned());
    }
    match parse_i64(&text) {
        Some(n) => Ok(AtTime::Epoch(n)),
        None => Ok(AtTime::Iso(text)),
    }
}

/// Whether a range ends before it begins. Moments of different kinds are left
/// to the backend.
pub open spec fn ends_before_it_begins(after: Option<AtTime>, until: Option<AtTime>) -> bool {
    match (after, until) {
        (Some(AtTime::Epoch(a)), Some(AtTime::Epoch(b))) => a > b,
        (Some(AtTime::Iso(a)), Some(AtTime::Iso(b))) => before(b@, a@),
        _ => false,
    }
}

pub fn is_empty_range(after: &Option<AtTime>, until: &Option<AtTime>) -> (r: bool)
    ensures
        r == ends_before_it_begins(*after, *until),
{
    match (after, until) {
        (Some(a), Some(b)) => match (a, b) {
            (AtTime::Epoch(a), AtTime::Epoch(b)) => *a > *b,
            (AtTime::Iso(a), AtTime::Iso(b)) => is_before(b, a),
            _ => false,
        },
        _ => false,
    }
}

// ---------------------------------------------------------------------------
// Options
// ---------------------------------------------------------------------------

/// What a caller asks for beside the words of a search.
#[derive(Debug)]
pub struct SearchOpts {
    pub limit: Option<u32>,
    pub offset: Option<u32>,
    pub fields: Vec<String>,
    pub highlight: bool,
    pub lang: Option<String>,
    pub filter: Option<String>,
    pub include_body: bool,
    pub body_content_type: Option<String>,
    pub at_time: Option<String>,
    pub at_rev: Option<u64>,
    pub indexes: Option<Vec<String>>,
    pub after: Option<String>,
    pub before: Option<String>,
}

/// Whether a text that may be missing says a moment that may be missing.
pub open spec fn says_opt(raw: Option<String>, t: Option<AtTime>) -> bool {
    match (raw, t) {
        (Some(raw), Some(t)) => says(raw@, t),
        (None, None) => true,
        _ => false,
    }
}

/// Whether a moment is asked for and is blank.
pub open spec fn blank(raw: Option<String>) -> bool {
    raw matches Some(s) && trimmed(s@).len() == 0
}

fn read_time(raw: &Option<String>) -> (r: Result<Option<AtTime>, String>)
    ensures
        match r {
            Ok(t) => says_opt(*raw, t),
            Err(e) => blank(*raw) && e@ == "wf_document: at_time must not be empty"@,
        },
{
    match raw {
        Some(s) => match normalize_at_time(s) {
            Ok(t) => Ok(Some(t)),
            Err(e) => Err(e),
        },
        None => Ok(None),
    }
}

/// The indexes that a caller names.
pub open spec fn index_list(indexes: Option<Vec<String>>) -> Seq<Seq<char>> {
    match indexes {
        Some(v) => views(v@),
        None => Seq::empty(),
    }
}

/// Whether `p` are the options that `o` asks for.
pub open spec fn means(o: SearchOpts, p: PlainOpts) -> bool {
    &&& p.limit == o.limit && p.offset == o.offset && p.highlight == o.highlight
    &&& views(p.fields@) == views(o.fields@)
    &&& opt_view(p.lang) == opt_view(o.lang) && opt_view(p.filter) == opt_view(o.filter)
    &&& p.include_body == o.include_body && opt_view(p.body_content_type) == opt_view(o.body_content_type)
    &&& p.at_rev == o.at_rev && views(p.indexes@) == index_list(o.indexes)
    &&& says_opt(o.at_time, p.at_time) && says_opt(o.after, p.after) && says_opt(o.before, p.before)
}

/// Reads the options of a caller.
pub fn wit_opts_to_plain(opts: &SearchOpts) -> (r: Result<PlainOpts, String>)
    ensures
        match r {
            Ok(p) => means(*opts, p),
            Err(e) => (blank(opts.at_time) || blank(opts.after) || blank(opts.before)) && e@
                == "wf_document: at_time must not be empty"@,
        },
{
    let at_time = match read_time(&opts.at_time) {
        Ok(t) => t,
        Err(e) => {
            return Err(e);
        },
    };
    let after = match read_time(&opts.after) {
        Ok(t) => t,
        Err(e) => {
            return Err(e);
        },
    };
    let before = match read_time(&opts.before) {
        Ok(t) => t,
        Err(e) => {
            return Err(e);
        },
    };
    let indexes = match &opts.indexes {
        Some(v) => copy_all(v),
        None => {
            let none: Vec<String> = Vec::new();
            proof {
                assert(views(none@) =~= Seq::empty());
            }
            none
        },
    };
    Ok(
        PlainOpts {
            limit: opts.limit,
            offset: opts.offset,
            fields: copy_all(&opts.fields),
            highlight: opts.highlight,
            lang: copy_opt(&opts.lang),
            filter: copy_opt(&opts.filter),
            include_body: opts.include_body,
            body_content_type: copy_opt(&opts.body_content_type),
            at_time,
            at_rev: opts.at_rev,
            indexes,
            after,
            before,
        },
    )
}

/// Why options are refused: a moment and a revision at once, or for a search,
/// a range and one of those.
pub open spec fn conflict(o: SearchOpts, with_range: bool) -> Option<Seq<char>> {
    if o.at_time is Some && o.at_rev is Some {
        Some("at_time and at_rev are mutually exclusive"@)
    } else if with_range && (o.after is Some || o.before is Some) && (o.at_time is Some || o.at_rev is Some) {
        Some("after/before are mutually exclusive with at_time and at_rev"@)
    } else {
        None
    }
}

/// Reads the options of a caller, unless they are in conflict.
pub fn check_opts(opts: &SearchOpts, with_range: bool) -> (r: Result<PlainOpts, String>)
    ensures
        match r {
            Ok(p) => conflict(*opts, with_range) is None && means(*opts, p),
            Err(e) => match conflict(*opts, with_range) {
                Some(text) => e@ == text,
                None => (blank(opts.at_time) || blank(opts.after) || blank(opts.before)) && e@
                    == "wf_document: at_time must not be empty"@,
            },
        },
{
    if opts.at_time.is_some() && opts.at_rev.is_some() {
        return Err("at_time and at_rev are mutually exclusive".to_owned());
    }
    if with_range && (opts.after.is_some() || opts.before.is_some()) && (opts.at_time.is_some()
        || opts.at_rev.is_some()) {
        return Err("after/before are mutually exclusive with at_time and at_rev".to_owned());
    }
    wit_opts_to_plain(opts)
}

// ---------------------------------------------------------------------------
// A search, with the bodies of its hits
// ---------------------------------------------------------------------------

/// A search: where it goes, and what it asks for.
pub struct Search {
    pub search_url: String,
    pub sirix_url: String,
    pub index: String,
    pub opts: PlainOpts,
}

/// How far a search has come: what it waits for. The words are those that
/// snippets mark.
pub enum Stage {
    /// The document that others are to be like, for at most so many hits.
    Seeding(DocRef, u32),
    /// The hits; whether an empty reply calls for a probe.
    Searching(String, bool),
    /// The reply to the probe.
    Probing(String, Vec<Hit>),
    /// The body of the hit at a position.
    Fetching(String, Vec<Hit>, usize),
    Over,
}

/// What a search does next.
pub enum Action {
    Send(Post),
    Finish(Result<Vec<Hit>, String>),
}

pub open spec fn fails(next: Stage, action: Action, e: Seq<char>) -> bool {
    next is Over && (action matches Action::Finish(Err(text)) && text@ == e)
}

fn fail(e: String) -> (r: (Stage, Action))
    ensures
        fails(r.0, r.1, e@),
{
    (Stage::Over, Action::Finish(Err(e)))
}

/// Whether the hits are handed out, with their snippets where they are asked
/// for.
pub open spec fn hands_out(
    c: Search,
    words: Seq<char>,
    hits: Seq<HitView>,
    next: Stage,
    action: Action,
) -> bool {
    &&& next is Over
    &&& action matches Action::Finish(Ok(out)) && out@.len() == hits.len() && forall|i: int|
        0 <= i < hits.len() ==> if c.opts.include_body && c.opts.highlight {
            has_snippet(hits[i], query_words(words), (#[trigger] out@[i])@)
        } else {
            out@[i]@ == hits[i]
        }
}

fn hand_out(c: &Search, words: &str, hits: Vec<Hit>) -> (r: (Stage, Action))
    ensures
        hands_out(*c, words@, views(hits@), r.0, r.1),
{
    let ghost all = views(hits@);
    if c.opts.include_body && c.opts.highlight {
        let out = populate_snippets(hits, words);
        (Stage::Over, Action::Finish(Ok(out)))
    } else {
        (Stage::Over, Action::Finish(Ok(hits)))
    }
}

/// Whether the store can be asked for a hit's body.
pub open spec fn lacks_body(h: HitView) -> bool {
    h.body is None && exists|d: DocIdView| addresses(h.doc, d)
}

/// The first hit, from a position on, whose body can be asked for.
pub open spec fn next_lacking(hits: Seq<HitView>, from: int) -> Option<int>
    decreases hits.len() - from,
{
    if from < 0 || from >= hits.len() {
        None
    } else if lacks_body(hits[from]) {
        Some(from)
    } else {
        next_lacking(hits, from + 1)
    }
}

/// Whether the post asks the store for a document.
pub open spec fn asks_for(p: Post, sirix_url: Seq<char>, id: Seq<char>, revision: Option<u64>) -> bool {
    exists|d: DocIdView| #[trigger]
        addresses(id, d) && posts(
            p,
            endpoint_of(sirix_url, "/query"@),
            json_text(object1("sql"@, JsonView::Text(fetch_sql(d, revision)))),
        )
}

fn ask_for(sirix_url: &str, id: &str, revision: Option<u64>) -> (r: Result<Post, String>)
    ensures
        match r {
            Ok(p) => asks_for(p, sirix_url@, id@, revision),
            Err(e) => e@ == address_error(id@) && forall|d: DocIdView| !addresses(id@, d),
        },
{
    match parse_sirix_uri(id) {
        Ok(d) => {
            let sql = build_fetch_sql(&d, revision);
            Ok(Post { url: query_url(sirix_url), body: build_fetch_body(&sql) })
        },
        Err(e) => Err(e),
    }
}

/// Whether the search goes on with the bodies, from a position on.
pub open spec fn goes_to_bodies(
    c: Search,
    words: Seq<char>,
    hits: Seq<HitView>,
    from: int,
    next: Stage,
    action: Action,
) -> bool {
    match next_lacking(hits, from) {
        Some(i) => {
            &&& next matches Stage::Fetching(w, h, at) && w@ == words && views(h@) == hits && at == i
            &&& action matches Action::Send(p) && asks_for(p, c.sirix_url@, hits[i].doc, hits[i].revision)
        },
        None => hands_out(c, words, hits, next, action),
    }
}

fn to_bodies(c: &Search, words: String, hits: Vec<Hit>, from: usize) -> (r: (Stage, Action))
    ensures
        goes_to_bodies(*c, words@, views(hits@), from as int, r.0, r.1),
{
    let ghost all = views(hits@);
    let mut i: usize = from;
    while i < hits.len()
        invariant
            from <= i,
            all == views(hits@),
            next_lacking(all, from as int) == next_lacking(all, i as int),
        decreases hits@.len() - i,
    {
        proof {
            assert(all[i as int] == hits@[i as int]@);
        }
        if hits[i].body.is_none() {
            match ask_for(&c.sirix_url, &hits[i].doc, hits[i].revision) {
                Ok(post) => {
                    proof {
                        let d = choose|d: DocIdView| #[trigger]
                            addresses(all[i as int].doc, d) && posts(
                                post,
                                endpoint_of(c.sirix_url@, "/query"@),
                                json_text(
                                    object1("sql"@, JsonView::Text(fetch_sql(d, all[i as int].revision))),
                                ),
                            );
                        assert(addresses(all[i as int].doc, d));
                        assert(lacks_body(all[i as int]));
                    }
                    return (Stage::Fetching(words, hits, i), Action::Send(post));
                },
                Err(_) => {},
            }
        }
        i = i + 1;
    }
    hand_out(c, &words, hits)
}

/// Whether the search goes on once it has its hits.
pub open spec fn goes_on(c: Search, words: Seq<char>, hits: Seq<HitView>, next: Stage, action: Action) -> bool {
    if c.opts.include_body {
        goes_to_bodies(c, words, hits, 0, next, action)
    } else {
        hands_out(c, words, hits, next, action)
    }
}

fn go_on(c: &Search, words: String, hits: Vec<Hit>) -> (r: (Stage, Action))
    ensures
        goes_on(*c, words@, views(hits@), r.0, r.1),
{
    if c.opts.include_body {
        to_bodies(c, words, hits, 0)
    } else {
        hand_out(c, &words, hits)
    }
}

/// Whether a search begins rightly: a range that ends before it begins has no
/// hits, and needs no request.
pub open spec fn begins(c: Search, query: Seq<char>, next: Stage, action: Action) -> bool {
    if ends_before_it_begins(c.opts.after, c.opts.before) {
        next is Over && (action matches Action::Finish(Ok(out)) && out@.len() == 0)
    } else {
        match searched(c.index@, query, c.opts) {
            Ok(body) => {
                &&& next matches Stage::Searching(w, probes) && w@ == query && probes
                &&& action matches Action::Send(p) && posts(p, endpoint_of(c.search_url@, "/search"@), body)
            },
            Err(e) => fails(next, action, e),
        }
    }
}

/// Begins a search.
pub fn begin_search(c: &Search, query: &str) -> (r: (Stage, Action))
    ensures
        begins(*c, query@, r.0, r.1),
{
    if is_empty_range(&c.opts.after, &c.opts.before) {
        return (Stage::Over, Action::Finish(Ok(Vec::new())));
    }
    match build_request_body(&c.index, query, &c.opts) {
        Ok(body) => (
            Stage::Searching(query.to_owned(), true),
            Action::Send(Post { url: manticore_url(&c.search_url), body }),
        ),
        Err(e) => fail(e),
    }
}

/// Begins a search for what is like a document: the document comes first.
pub fn begin_like(c: &Search, doc: DocRef, limit: u32) -> (r: (Stage, Action))
    ensures
        match r.0 {
            Stage::Seeding(d, n) => d == doc && n == limit && (r.1 matches Action::Send(p) && asks_for(
                p,
                c.sirix_url@,
                doc.id@,
                doc.revision,
            )),
            _ => fails(r.0, r.1, address_error(doc.id@)) && forall|d: DocIdView| !addresses(doc.id@, d),
        },
{
    match ask_for(&c.sirix_url, &doc.id, doc.revision) {
        Ok(post) => (Stage::Seeding(doc, limit), Action::Send(post)),
        Err(e) => fail(e),
    }
}

/// Whether the search for what is like a document goes on rightly from the
/// document's body: by its ten most frequent terms, or to an end without hits
/// where it has none.
pub open spec fn seeks_like(c: Search, seed: DocRef, limit: u32, body: Seq<u8>, next: Stage, action: Action) -> bool {
    exists|terms: Seq<Seq<char>>| #[trigger]
        are_top(terms, different(words_of(body)), words_of(body), 10) && if terms.len() == 0 {
            next is Over && (action matches Action::Finish(Ok(out)) && out@.len() == 0)
        } else {
            match crate::document::manticore::own_filter(opt_view(c.opts.filter)) {
                Err(e) => fails(next, action, e),
                Ok(own) => match crate::document::manticore::body_of(
                    crate::document::manticore::mlt_tree(c.index@, seed.id@, terms, limit, c.opts, own),
                ) {
                    Err(e) => fails(next, action, e),
                    Ok(text) => {
                        &&& next matches Stage::Searching(w, probes) && w@ == joined(terms, " "@) && !probes
                        &&& action matches Action::Send(p) && posts(
                            p,
                            endpoint_of(c.search_url@, "/search"@),
                            text,
                        )
                    },
                },
            }
        }
}

/// Seeks what is like a document, given the document's body.
pub fn seek_like(c: &Search, seed: &DocRef, limit: u32, body: &[u8]) -> (r: (Stage, Action))
    ensures
        seeks_like(*c, *seed, limit, body@, r.0, r.1),
{
    let terms = extract_top_terms(body, 10);
    if terms.len() == 0 {
        return (Stage::Over, Action::Finish(Ok(Vec::new())));
    }
    match build_mlt_body(&c.index, &seed.id, &terms, limit, &c.opts) {
        Ok(text) => (
            Stage::Searching(join(&terms, " "), false),
            Action::Send(Post { url: manticore_url(&c.search_url), body: text }),
        ),
        Err(e) => fail(e),
    }
}

/// Whether an empty reply calls for a probe: only a search at a moment, in one
/// index.
pub open spec fn probes(c: Search, may: bool, hits: Seq<HitView>) -> bool {
    may && hits.len() == 0 && c.opts.at_time is Some && c.opts.indexes@.len() == 0 && c.index@.len() > 0
}

/// Whether the search goes on rightly from the hits of a reply.
pub open spec fn takes_hits(
    c: Search,
    words: Seq<char>,
    may: bool,
    hits: Seq<HitView>,
    next: Stage,
    action: Action,
) -> bool {
    if probes(c, may, hits) {
        &&& next matches Stage::Probing(w, h) && w@ == words && views(h@) == hits
        &&& action matches Action::Send(p) && posts(
            p,
            endpoint_of(c.search_url@, "/search"@),
            json_text(probe_tree(c.index@)),
        )
    } else {
        goes_on(c, words, hits, next, action)
    }
}

/// Takes the hits of a reply.
pub fn take_hits(c: &Search, words: String, may_probe: bool, hits: Vec<Hit>) -> (r: (Stage, Action))
    ensures
        takes_hits(*c, words@, may_probe, views(hits@), r.0, r.1),
{
    if may_probe && hits.len() == 0 && c.opts.at_time.is_some() && c.opts.indexes.len() == 0
        && !c.index.as_str().is_empty() {
        let post = Post { url: manticore_url(&c.search_url), body: build_probe_body(&c.index) };
        (Stage::Probing(words, hits), Action::Send(post))
    } else {
        go_on(c, words, hits)
    }
}

/// The hit with a body.
pub open spec fn with_body(h: HitView, body: Seq<u8>, content_type: Seq<char>) -> HitView {
    HitView { body: Some(body), content_type: Some(content_type), ..h }
}

/// The hits once a reply has come for the body of the one at a position. A reply
/// that is no document leaves the hit as it is.
pub open spec fn hits_with_body(
    hits: Seq<HitView>,
    at: int,
    fetched: Result<(Seq<u8>, Seq<char>), Seq<char>>,
) -> Seq<HitView> {
    match fetched {
        Ok((body, content_type)) => if 0 <= at < hits.len() {
            hits.update(at, with_body(hits[at], body, content_type))
        } else {
            hits
        },
        Err(_) => hits,
    }
}

/// The document that a reply holds, where there is one.
pub open spec fn fetched_reply(reply: Result<String, String>, content_type: Option<Seq<char>>) -> Result<
    (Seq<u8>, Seq<char>),
    Seq<char>,
> {
    match reply {
        Ok(text) => fetched_text(text@, content_type),
        Err(e) => Err(e@),
    }
}

fn fill_body(hits: Vec<Hit>, at: usize, reply: &Result<String, String>, content_type: &Option<String>) -> (r: Vec<Hit>)
    ensures
        views(r@) == hits_with_body(views(hits@), at as int, fetched_reply(*reply, opt_view(*content_type))),
{
    let mut hits = hits;
    let ghost all = views(hits@);
    let text = match reply {
        Ok(text) => text,
        Err(_) => {
            return hits;
        },
    };
    let override_type = match content_type {
        Some(t) => Some(t.as_str()),
        None => None,
    };
    match parse_fetch_response(text, override_type) {
        Ok(f) => {
            if at < hits.len() {
                let ghost old_hit = hits@[at as int]@;
                let mut rest: Vec<Hit> = hits.split_off(at);
                let mut tail: Vec<Hit> = rest.split_off(1);
                match rest.pop() {
                    Some(h) => {
                        let mut h = h;
                        h.body = Some(f.body);
                        h.content_type = Some(f.content_type);
                        hits.push(h);
                    },
                    None => {},
                }
                hits.append(&mut tail);
                proof {
                    assert(views(hits@) =~= all.update(at as int, with_body(old_hit, f.body@, f.content_type@)));
                }
            }
            hits
        },
        Err(_) => hits,
    }
}

/// Whether a reply leads from one stage to the next.
pub open spec fn leads(c: Search, stage: Stage, reply: Result<String, String>, next: Stage, action: Action) -> bool {
    match stage {
        Stage::Seeding(seed, limit) => match reply {
            Err(e) => fails(next, action, post_error(endpoint_of(c.sirix_url@, "/query"@), e@)),
            Ok(text) => match fetched_text(text@, None) {
                Err(e) => fails(next, action, e),
                Ok((body, _)) => seeks_like(c, seed, limit, body, next, action),
            },
        },
        Stage::Searching(words, may) => match reply {
            Err(e) => fails(next, action, post_error(endpoint_of(c.search_url@, "/search"@), e@)),
            Ok(text) => match json_parse(text@) {
                Err(message) => fails(next, action, "wf_document: response is not valid JSON: "@ + message),
                Ok(root) => match reply_hits(root) {
                    Err(e) => fails(next, action, e),
                    Ok(hits) => takes_hits(c, words@, may, hits, next, action),
                },
            },
        },
        Stage::Probing(words, hits) => {
            let latest_only = match reply {
                Ok(text) => match json_parse(text@) {
                    Ok(root) => !tells_validity(root),
                    Err(_) => true,
                },
                Err(_) => false,
            };
            if latest_only {
                fails(
                    next,
                    action,
                    "time-travel search requires retention=all sweep; index appears to hold latest-only"@,
                )
            } else {
                goes_on(c, words@, views(hits@), next, action)
            }
        },
        Stage::Fetching(words, hits, at) => goes_to_bodies(
            c,
            words@,
            hits_with_body(views(hits@), at as int, fetched_reply(reply, opt_view(c.opts.body_content_type))),
            at + 1,
            next,
            action,
        ),
        Stage::Over => fails(next, action, "wf_document: unexpected reply from the host"@),
    }
}

/// Moves a search on with a backend's reply.
pub fn step(c: &Search, stage: Stage, reply: Result<String, String>) -> (r: (Stage, Action))
    ensures
        leads(*c, stage, reply, r.0, r.1),
{
    match stage {
        Stage::Seeding(seed, limit) => match reply {
            Err(e) => fail(post_failed(&query_url(&c.sirix_url), &e)),
            Ok(text) => match parse_fetch_response(&text, None) {
                Err(e) => fail(e),
                Ok(f) => seek_like(c, &seed, limit, f.body.as_slice()),
            },
        },
        Stage::Searching(words, may) => match reply {
            Err(e) => fail(post_failed(&manticore_url(&c.search_url), &e)),
            Ok(text) => match parse_response(&text) {
                Err(e) => fail(e),
                Ok(hits) => take_hits(c, words, may, hits),
            },
        },
        Stage::Probing(words, hits) => {
            let latest_only = match &reply {
                Ok(text) => !schema_has_valid_from(text),
                Err(_) => false,
            };
            if latest_only {
                fail(
                    "time-travel search requires retention=all sweep; index appears to hold latest-only".to_owned(),
                )
            } else {
                go_on(c, words, hits)
            }
        },
        Stage::Fetching(words, hits, at) => {
            let hits = fill_body(hits, at, &reply, &c.opts.body_content_type);
            if at < hits.len() {
                to_bodies(c, words, hits, at + 1)
            } else {
                hand_out(c, &words, hits)
            }
        },
        Stage::Over => fail("wf_document: unexpected reply from the host".to_owned()),
    }
}

/// A search never fails for want of one hit's body: whatever comes back for it,
/// the search goes on with the others.
pub proof fn one_body_fails_softly(c: Search, stage: Stage, reply: Result<String, String>, next: Stage, action: Action)
    requires
        leads(c, stage, reply, next, action),
        stage is Fetching,
    ensures
        !(action matches Action::Finish(Err(_))),
{
}

/// Whether two hits differ in nothing but the body and the snippet.
pub open spec fn same_hit(a: HitView, b: HitView) -> bool {
    b == (HitView { snippet: b.snippet, body: b.body, content_type: b.content_type, ..a })
}

/// Whether two lists hold the same hits, in the same order.
pub open spec fn same_hits(a: Seq<HitView>, b: Seq<HitView>) -> bool {
    a.len() == b.len() && forall|i: int| 0 <= i < a.len() ==> same_hit(#[trigger] a[i], b[i])
}

/// A hit is neither lost nor moved once the search has it, whatever the replies
/// for the bodies are.
pub proof fn hits_are_kept(c: Search, stage: Stage, reply: Result<String, String>, next: Stage, action: Action)
    requires
        leads(c, stage, reply, next, action),
    ensures
        stage matches Stage::Fetching(_, hits, _) ==> {
            &&& next matches Stage::Fetching(_, h, _) ==> same_hits(views(hits@), views(h@))
            &&& action matches Action::Finish(Ok(out)) ==> same_hits(views(hits@), views(out@))
        },
        stage matches Stage::Probing(_, hits) ==> {
            &&& next matches Stage::Fetching(_, h, _) ==> same_hits(views(hits@), views(h@))
            &&& action matches Action::Finish(Ok(out)) ==> same_hits(views(hits@), views(out@))
        },
{
}

/// Without a wish for bodies the store is asked for none: the search sends to
/// the index alone.
pub proof fn bodies_are_fetched_on_demand(
    c: Search,
    stage: Stage,
    reply: Result<String, String>,
    next: Stage,
    action: Action,
)
    requires
        leads(c, stage, reply, next, action),
        !c.opts.include_body,
        stage !is Fetching,
    ensures
        next !is Fetching,
        action matches Action::Send(p) ==> p.url@ == endpoint_of(c.search_url@, "/search"@),
{
}

/// The store is not asked for a body that the index has handed out.
pub proof fn known_bodies_are_not_fetched(
    c: Search,
    stage: Stage,
    reply: Result<String, String>,
    next: Stage,
    action: Action,
)
    requires
        leads(c, stage, reply, next, action),
    ensures
        next matches Stage::Fetching(_, hits, at) ==> at < hits@.len() && views(hits@)[at as int].body is None,
{
    match stage {
        Stage::Searching(words, _) => {
            if let Ok(text) = reply {
                if let Ok(root) = json_parse(text@) {
                    if let Ok(hits) = reply_hits(root) {
                        lacking_is_lacking(hits, 0);
                    }
                }
            }
        },
        Stage::Probing(words, hits) => {
            lacking_is_lacking(views(hits@), 0);
        },
        Stage::Fetching(words, hits, at) => {
            lacking_is_lacking(
                hits_with_body(views(hits@), at as int, fetched_reply(reply, opt_view(c.opts.body_content_type))),
                at + 1,
            );
        },
        _ => {},
    }
}

proof fn lacking_is_lacking(hits: Seq<HitView>, from: int)
    ensures
        next_lacking(hits, from) matches Some(i) ==> from <= i < hits.len() && lacks_body(hits[i]),
    decreases hits.len() - from,
{
    if 0 <= from < hits.len() && !lacks_body(hits[from]) {
        lacking_is_lacking(hits, from + 1);
    }
}

// ---------------------------------------------------------------------------
// Calls of one request
// ---------------------------------------------------------------------------

/// The text that a backend answers, or the message of the request that failed.
pub open spec fn answered(url: Seq<char>, reply: Result<String, String>) -> Result<Seq<char>, Seq<char>> {
    match reply {
        Ok(text) => Ok(text@),
        Err(e) => Err(post_error(url, e@)),
    }
}

fn answer(url: &str, reply: Result<String, String>) -> (r: Result<String, String>)
    ensures
        body_or_error(r) == answered(url@, reply),
{
    match reply {
        Ok(text) => Ok(text),
        Err(e) => Err(post_failed(url, &e)),
    }
}

/// Whether the post asks the store to run a statement.
pub open spec fn runs(p: Post, sirix_url: Seq<char>, sql: Seq<char>) -> bool {
    posts(p, endpoint_of(sirix_url, "/query"@), json_text(object1("sql"@, JsonView::Text(sql))))
}

fn run_sql(sirix_url: &str, sql: &str) -> (r: Post)
    ensures
        runs(r, sirix_url@, sql@),
{
    Post { url: query_url(sirix_url), body: build_fetch_body(sql) }
}

/// Asks for a document.
pub fn fetch_request(sirix_url: &str, doc: &DocRef) -> (r: Result<Post, String>)
    ensures
        match r {
            Ok(p) => asks_for(p, sirix_url@, doc.id@, doc.revision),
            Err(e) => e@ == address_error(doc.id@) && forall|d: DocIdView| !addresses(doc.id@, d),
        },
{
    ask_for(sirix_url, &doc.id, doc.revision)
}

/// What a reply to a request for a document gives.
pub open spec fn fetch_outcome(sirix_url: Seq<char>, reply: Result<String, String>) -> Result<
    (Seq<u8>, Seq<char>),
    Seq<char>,
> {
    match answered(endpoint_of(sirix_url, "/query"@), reply) {
        Ok(text) => fetched_text(text, None),
        Err(e) => Err(e),
    }
}

/// Reads the reply to a request for a document.
pub fn fetch_reply(sirix_url: &str, doc: DocRef, reply: Result<String, String>) -> (r: Result<Document, String>)
    ensures
        match r {
            Ok(d) => d.doc == doc && fetch_outcome(sirix_url@, reply) == Ok::<(Seq<u8>, Seq<char>), Seq<char>>(
                (d.body@, d.content_type@),
            ),
            Err(e) => fetch_outcome(sirix_url@, reply) == Err::<(Seq<u8>, Seq<char>), Seq<char>>(e@),
        },
{
    match answer(&query_url(sirix_url), reply) {
        Ok(text) => match parse_fetch_response(&text, None) {
            Ok(f) => Ok(Document { doc, body: f.body, content_type: f.content_type }),
            Err(e) => Err(e),
        },
        Err(e) => Err(e),
    }
}

/// Asks for the revisions of a document.
pub fn revisions_request(sirix_url: &str, doc: &DocRef) -> (r: Result<Post, String>)
    ensures
        match r {
            Ok(p) => exists|d: DocIdView| #[trigger]
                addresses(doc.id@, d) && runs(p, sirix_url@, revisions_sql(d)),
            Err(e) => e@ == address_error(doc.id@) && forall|d: DocIdView| !addresses(doc.id@, d),
        },
{
    match parse_sirix_uri(&doc.id) {
        Ok(d) => {
            let post = run_sql(sirix_url, &build_revisions_sql(&d));
            proof {
                assert(addresses(doc.id@, d@));
            }
            Ok(post)
        },
        Err(e) => Err(e),
    }
}

/// The revisions that a reply lists. One that lists none, or cannot be read,
/// stands for the revision that was asked for, or the first.
pub open spec fn listed(doc: DocRef, text: Seq<char>) -> Seq<u64> {
    let only = match doc.revision {
        Some(n) => seq![n],
        None => seq![1u64],
    };
    match revisions_text(text) {
        Ok(revs) => if revs.len() > 0 {
            revs
        } else {
            only
        },
        Err(_) => only,
    }
}

/// Reads the reply to a request for revisions.
pub fn revisions_reply(sirix_url: &str, doc: &DocRef, reply: Result<String, String>) -> (r: Result<Vec<u64>, String>)
    ensures
        match r {
            Ok(revs) => reply matches Ok(text) && revs@ == listed(*doc, text@),
            Err(e) => reply matches Err(m) && e@ == post_error(endpoint_of(sirix_url@, "/query"@), m@),
        },
{
    let text = match reply {
        Ok(text) => text,
        Err(e) => {
            return Err(post_failed(&query_url(sirix_url), &e));
        },
    };
    match parse_revisions_response(&text) {
        Ok(revs) => {
            if revs.len() > 0 {
                return Ok(revs);
            }
        },
        Err(_) => {},
    }
    let mut only: Vec<u64> = Vec::new();
    match doc.revision {
        Some(n) => only.push(n),
        None => only.push(1),
    }
    proof {
        assert(only@ =~= listed(*doc, text@));
    }
    Ok(only)
}

/// Sends documents to an index; none where there are none.
pub fn insert_batch_request(search_url: &str, index: &str, docs: &[PlainDocWrite]) -> (r: Option<Post>)
    ensures
        match r {
            Some(p) => docs@.len() > 0 && posts(
                p,
                endpoint_of(search_url@, "/bulk"@),
                command_lines(replace_commands(index@, docs@)),
            ),
            None => docs@.len() == 0,
        },
{
    if docs.len() == 0 {
        None
    } else {
        Some(Post { url: bulk_url(search_url), body: build_bulk_body(index, docs) })
    }
}

/// Deletes documents from an index; none where there are none.
pub fn delete_batch_request(search_url: &str, index: &str, ids: &[String]) -> (r: Option<Post>)
    ensures
        match r {
            Some(p) => ids@.len() > 0 && posts(
                p,
                endpoint_of(search_url@, "/bulk"@),
                command_lines(delete_commands(index@, views(ids@))),
            ),
            None => ids@.len() == 0,
        },
{
    if ids.len() == 0 {
        None
    } else {
        Some(Post { url: bulk_url(search_url), body: build_delete_body(index, ids) })
    }
}

/// What the reply to a change of an index reports.
pub open spec fn batch_outcome(search_url: Seq<char>, reply: Result<String, String>) -> Result<u32, Seq<char>> {
    match answered(endpoint_of(search_url, "/bulk"@), reply) {
        Ok(text) => done_text("wf_document"@, text),
        Err(e) => Err(e),
    }
}

/// Reads the reply to a change of an index.
pub fn batch_reply(search_url: &str, reply: Result<String, String>) -> (r: Result<u32, String>)
    ensures
        count_or_error(r) == batch_outcome(search_url@, reply),
{
    match answer(&bulk_url(search_url), reply) {
        Ok(text) => parse_bulk_response(&text),
        Err(e) => Err(e),
    }
}

/// Writes a new document.
pub fn insert_doc_request(sirix_url: &str, database: &str, resource: &str, doc: &[u8]) -> (r: Result<Post, String>)
    ensures
        match r {
            Ok(p) => insert_sql(database@, resource@, doc@) is Ok && runs(
                p,
                sirix_url@,
                insert_sql(database@, resource@, doc@)->Ok_0,
            ),
            Err(e) => insert_sql(database@, resource@, doc@) == Err::<Seq<char>, Seq<char>>(e@),
        },
{
    match build_insert_sql(database, resource, doc) {
        Ok(sql) => Ok(run_sql(sirix_url, &sql)),
        Err(e) => Err(e),
    }
}

/// What the reply to a write acknowledges.
pub open spec fn write_outcome(sirix_url: Seq<char>, reply: Result<String, String>) -> Result<
    crate::document::sirix_write::AckView,
    Seq<char>,
> {
    match answered(endpoint_of(sirix_url, "/query"@), reply) {
        Ok(text) => write_text(text),
        Err(e) => Err(e),
    }
}

/// Reads the reply to the write of a new document. Its address takes the key
/// that the store gave it.
pub fn insert_doc_reply(sirix_url: &str, database: &str, resource: &str, reply: Result<String, String>) -> (r: Result<
    WriteResult,
    String,
>)
    ensures
        match r {
            Ok(w) => match write_outcome(sirix_url@, reply) {
                Ok(ack) => w.doc.id@ == crate::canonicalize::document_sweep::doc_uri(
                    database@,
                    resource@,
                    match ack.node_key {
                        Some(k) => k,
                        None => Seq::empty(),
                    },
                ) && w.doc.revision == Some(ack.revision) && w.valid_from@ == ack.valid_from,
                Err(_) => false,
            },
            Err(e) => write_outcome(sirix_url@, reply) is Err && write_outcome(sirix_url@, reply)->Err_0 == e@,
        },
{
    let text = match answer(&query_url(sirix_url), reply) {
        Ok(text) => text,
        Err(e) => {
            return Err(e);
        },
    };
    match parse_write_response(&text) {
        Ok(ack) => {
            let key = match ack.node_key {
                Some(k) => k,
                None => {
                    let none = String::new();
                    proof {
                        assert(none@ =~= Seq::empty());
                    }
                    none
                },
            };
            let id = crate::canonicalize::document_sweep::build_doc_uri(database, resource, &key);
            Ok(WriteResult { doc: DocRef { id, revision: Some(ack.revision) }, valid_from: ack.valid_from })
        },
        Err(e) => Err(e),
    }
}

/// The statement that updates a document, or why there is none.
pub open spec fn updates(doc: DocRef, body: Seq<u8>, sql: Result<Seq<char>, Seq<char>>) -> bool {
    ||| exists|d: DocIdView| #[trigger] addresses(doc.id@, d) && sql == update_sql(d, body, doc.revision)
    ||| sql == Err::<Seq<char>, Seq<char>>(address_error(doc.id@)) && forall|d: DocIdView| !addresses(doc.id@, d)
}

/// Writes a document anew.
pub fn update_doc_request(sirix_url: &str, doc: &DocRef, body: &[u8]) -> (r: Result<Post, String>)
    ensures
        exists|sql: Result<Seq<char>, Seq<char>>| #[trigger]
            updates(*doc, body@, sql) && match r {
                Ok(p) => sql is Ok && runs(p, sirix_url@, sql->Ok_0),
                Err(e) => sql == Err::<Seq<char>, Seq<char>>(e@),
            },
{
    match parse_sirix_uri(&doc.id) {
        Ok(d) => {
            proof {
                assert(addresses(doc.id@, d@));
                assert(updates(*doc, body@, update_sql(d@, body@, doc.revision)));
            }
            match build_update_sql(&d, body, doc.revision) {
                Ok(sql) => Ok(run_sql(sirix_url, &sql)),
                Err(e) => Err(e),
            }
        },
        Err(e) => {
            proof {
                assert(updates(*doc, body@, Err::<Seq<char>, Seq<char>>(e@)));
            }
            Err(e)
        },
    }
}

/// Reads the reply to the write of a document.
pub fn update_doc_reply(sirix_url: &str, doc: DocRef, reply: Result<String, String>) -> (r: Result<WriteResult, String>)
    ensures
        match r {
            Ok(w) => match write_outcome(sirix_url@, reply) {
                Ok(ack) => w.doc.id == doc.id && w.doc.revision == Some(ack.revision) && w.valid_from@
                    == ack.valid_from,
                Err(_) => false,
            },
            Err(e) => write_outcome(sirix_url@, reply) is Err && write_outcome(sirix_url@, reply)->Err_0 == e@,
        },
{
    match answer(&query_url(sirix_url), reply) {
        Ok(text) => match parse_write_response(&text) {
            Ok(ack) => Ok(
                WriteResult {
                    doc: DocRef { id: doc.id, revision: Some(ack.revision) },
                    valid_from: ack.valid_from,
                },
            ),
            Err(e) => Err(e),
        },
        Err(e) => Err(e),
    }
}

/// Deletes a document.
pub fn delete_doc_request(sirix_url: &str, doc: &DocRef) -> (r: Result<Post, String>)
    ensures
        match r {
            Ok(p) => exists|d: DocIdView| #[trigger]
                addresses(doc.id@, d) && runs(p, sirix_url@, delete_sql(d)),
            Err(e) => e@ == address_error(doc.id@) && forall|d: DocIdView| !addresses(doc.id@, d),
        },
{
    match parse_sirix_uri(&doc.id) {
        Ok(d) => {
            let post = run_sql(sirix_url, &build_delete_sql(&d));
            proof {
                assert(addresses(doc.id@, d@));
            }
            Ok(post)
        },
        Err(e) => Err(e),
    }
}

/// Reads the reply to a deletion.
pub fn delete_doc_reply(sirix_url: &str, reply: Result<String, String>) -> (r: Result<(), String>)
    ensures
        match r {
            Ok(_) => write_outcome(sirix_url@, reply) is Ok,
            Err(e) => write_outcome(sirix_url@, reply) is Err && write_outcome(sirix_url@, reply)->Err_0 == e@,
        },
{
    match answer(&query_url(sirix_url), reply) {
        Ok(text) => match parse_write_response(&text) {
            Ok(_) => Ok(()),
            Err(e) => Err(e),
        },
        Err(e) => Err(e),
    }
}

/// Reads the reply to a search that counts values.
pub fn facet_reply(search_url: &str, fields: &[String], reply: Result<String, String>) -> (r: Result<
    Vec<PlainFacetResult>,
    String,
>)
    ensures
        facets_or_error(r) == match answered(endpoint_of(search_url@, "/search"@), reply) {
            Err(e) => Err(e),
            Ok(text) => match json_parse(text) {
                Err(message) => Err("wf_document: facet response is not valid JSON: "@ + message),
                Ok(root) => facets_of(root, views(fields@)),
            },
        },
{
    match answer(&manticore_url(search_url), reply) {
        Ok(text) => parse_facet_response(&text, fields),
        Err(e) => Err(e),
    }
}

/// Reads the reply to a search for the nearest vectors.
pub fn vector_reply(search_url: &str, reply: Result<String, String>) -> (r: Result<Vec<Hit>, String>)
    ensures
        hits_or_error(r) == match answered(endpoint_of(search_url@, "/search"@), reply) {
            Err(e) => Err(e),
            Ok(text) => match json_parse(text) {
                Err(message) => Err("wf_document: response is not valid JSON: "@ + message),
                Ok(root) => reply_hits(root),
            },
        },
{
    match answer(&manticore_url(search_url), reply) {
        Ok(text) => parse_response(&text),
        Err(e) => Err(e),
    }
}

} // verus!

//! Searches for literals: requests to the search backend and its replies.

use vstd::prelude::*;
use vstd::string::*;

use crate::json::{all_wf, json_parse, json_text, no_fields, no_fields_wf, object1, object_of, object_view, put_field,
    put_wf, Fields, Json, JsonView};
use crate::search::{array_of, array_of_texts, equals, equals_clause, found, get_hits, hits_in, just, just_one,
    match_clause, matches_words, read_hit, text_array, FoundView};
use crate::text::{opt_view, views, views_push};

verus! {

pub const COMPONENT: &'static str = "wf_fulltext";

/// What a search asks for beside its words.
#[derive(Debug)]
pub struct PlainOpts {
    pub limit: Option<u32>,
    pub offset: Option<u32>,
    pub fields: Vec<String>,
    /// Whether the snippets mark the words.
    pub highlight: bool,
    pub lang: Option<String>,
    /// A clause of the caller's own, as JSON text.
    pub filter: Option<String>,
}

impl Default for PlainOpts {
    fn default() -> (r: Self)
        ensures
            r.limit is None && r.offset is None && r.fields@.len() == 0,
            !r.highlight && r.lang is None && r.filter is None,
    {
        PlainOpts { limit: None, offset: None, fields: Vec::new(), highlight: false, lang: None, filter: None }
    }
}

// ---------------------------------------------------------------------------
// Requests
// ---------------------------------------------------------------------------

/// The caller's own clause, where there is one that is not empty.
pub open spec fn own_filter(filter: Option<Seq<char>>) -> Result<Option<JsonView>, Seq<char>> {
    match filter {
        Some(text) => if text.len() == 0 {
            Ok(None)
        } else {
            match json_parse(text) {
                Ok(tree) => Ok(Some(tree)),
                Err(message) => Err("wf_fulltext: opts.filter must be valid JSON: "@ + message),
            }
        },
        None => Ok(None),
    }
}

/// The view of a clause that may be missing.
pub open spec fn json_opt(v: Option<Json>) -> Option<JsonView> {
    match v {
        Some(j) => Some(j@),
        None => None,
    }
}

/// Reads the caller's own clause.
pub fn read_filter(filter: &Option<String>) -> (r: Result<Option<Json>, String>)
    ensures
        match r {
            Ok(f) => own_filter(opt_view(*filter)) == Ok::<Option<JsonView>, Seq<char>>(json_opt(f)),
            Err(e) => own_filter(opt_view(*filter)) == Err::<Option<JsonView>, Seq<char>>(e@),
        },
        r matches Ok(Some(f)) ==> f@.wf(),
{
    match filter {
        Some(text) => if text.as_str().is_empty() {
            Ok(None)
        } else {
            match Json::parse(text) {
                Ok(tree) => Ok(Some(tree)),
                Err(message) => Err("wf_fulltext: opts.filter must be valid JSON: ".to_owned().concat(&message)),
            }
        },
        None => Ok(None),
    }
}

/// The clauses of a search: the language, and the caller's own clause.
pub open spec fn filters(lang: Option<Seq<char>>, own: Option<JsonView>) -> Seq<JsonView> {
    let of_lang = match lang {
        Some(tag) => if tag.len() == 0 {
            Seq::empty()
        } else {
            seq![equals("lang"@, JsonView::Text(tag))]
        },
        None => Seq::empty(),
    };
    match own {
        Some(f) => of_lang.push(f),
        None => of_lang,
    }
}

/// A query: the words match, and the filters hold where there are any.
pub open spec fn query_tree(words: Seq<char>, filter: Seq<JsonView>) -> JsonView {
    if filter.len() == 0 {
        matches_words(words)
    } else {
        object1(
            "bool"@,
            JsonView::Object(
                no_fields().with("must"@, just(matches_words(words))).with("filter"@, JsonView::Array(filter)),
            ),
        )
    }
}

pub fn build_query_clause(words: &str, lang: &Option<String>, own: Option<Json>) -> (r: Json)
    requires
        own matches Some(f) ==> f@.wf(),
    ensures
        r@ == query_tree(words@, filters(opt_view(*lang), json_opt(own))),
        r@.wf(),
{
    broadcast use {views_push, no_fields_wf, put_wf, object_view};

    let ghost given = json_opt(own);
    let mut filter: Vec<Json> = Vec::new();
    match lang {
        Some(tag) => {
            if !tag.as_str().is_empty() {
                filter.push(equals_clause("lang", Json::text(tag)));
            }
        },
        None => {},
    }
    match own {
        Some(f) => filter.push(f),
        None => {},
    }
    proof {
        assert(views(filter@) =~= filters(opt_view(*lang), given));
        assert(all_wf(views(filter@)));
    }
    if filter.len() == 0 {
        return match_clause(words);
    }
    let mut fields: Vec<(String, Json)> = Vec::new();
    proof {
        assert(views(fields@) =~= no_fields());
    }
    put_field(&mut fields, "must", just_one(match_clause(words)));
    put_field(&mut fields, "filter", array_of(filter));
    object_of("bool", Json::Object(fields))
}

/// How snippets are shown: with the backend's own marks, or plain.
pub open spec fn highlight_tree(marks: bool) -> JsonView {
    JsonView::Object(
        if marks {
            no_fields()
        } else {
            no_fields().with("pre_tags"@, JsonView::Text(""@)).with("post_tags"@, JsonView::Text(""@))
        },
    )
}

fn highlight_json(marks: bool) -> (r: Json)
    ensures
        r@ == highlight_tree(marks),
        r@.wf(),
{
    broadcast use {no_fields_wf, put_wf, object_view};

    let mut fields: Vec<(String, Json)> = Vec::new();
    proof {
        assert(views(fields@) =~= no_fields());
    }
    if !marks {
        put_field(&mut fields, "pre_tags", Json::text(""));
        put_field(&mut fields, "post_tags", Json::text(""));
    }
    Json::Object(fields)
}

/// The tree of a search. Snippets are always asked for.
pub open spec fn request_tree(index: Seq<char>, words: Seq<char>, opts: PlainOpts, own: Option<JsonView>) -> JsonView {
    let base = no_fields().with("table"@, JsonView::Text(index)).with(
        "query"@,
        query_tree(words, filters(opt_view(opts.lang), own)),
    );
    let limited = match opts.limit {
        Some(n) => base.with("limit"@, JsonView::Unsigned(n as u64)),
        None => base,
    };
    let shifted = match opts.offset {
        Some(n) => limited.with("offset"@, JsonView::Unsigned(n as u64)),
        None => limited,
    };
    let projected = if opts.fields@.len() == 0 {
        shifted
    } else {
        shifted.with("_source"@, object1("includes"@, text_array(views(opts.fields@))))
    };
    JsonView::Object(projected.with("highlight"@, highlight_tree(opts.highlight)))
}

/// The body of a search, given the caller's own clause.
pub fn request_body(index: &str, query: &str, opts: &PlainOpts, own: Option<Json>) -> (r: String)
    requires
        own matches Some(f) ==> f@.wf(),
    ensures
        r@ == json_text(request_tree(index@, query@, *opts, json_opt(own))),
{
    broadcast use {no_fields_wf, put_wf, object_view};

    let mut fields: Vec<(String, Json)> = Vec::new();
    proof {
        assert(views(fields@) =~= no_fields());
    }
    put_field(&mut fields, "table", Json::text(index));
    put_field(&mut fields, "query", build_query_clause(query, &opts.lang, own));
    match opts.limit {
        Some(n) => put_field(&mut fields, "limit", Json::Unsigned(n as u64)),
        None => {},
    }
    match opts.offset {
        Some(n) => put_field(&mut fields, "offset", Json::Unsigned(n as u64)),
        None => {},
    }
    if opts.fields.len() != 0 {
        put_field(&mut fields, "_source", object_of("includes", array_of_texts(&opts.fields)));
    }
    put_field(&mut fields, "highlight", highlight_json(opts.highlight));
    Json::Object(fields).render()
}

/// The view of a body or an error message.
pub open spec fn body_or_error(r: Result<String, String>) -> Result<Seq<char>, Seq<char>> {
    match r {
        Ok(s) => Ok(s@),
        Err(e) => Err(e@),
    }
}

/// The body of a search.
pub open spec fn searched(index: Seq<char>, words: Seq<char>, opts: PlainOpts) -> Result<Seq<char>, Seq<char>> {
    match own_filter(opt_view(opts.filter)) {
        Err(e) => Err(e),
        Ok(own) => Ok(json_text(request_tree(index, words, opts, own))),
    }
}

pub fn build_request_body(index: &str, query: &str, opts: &PlainOpts) -> (r: Result<String, String>)
    ensures
        body_or_error(r) == searched(index@, query@, *opts),
{
    match read_filter(&opts.filter) {
        Ok(own) => Ok(request_body(index, query, opts, own)),
        Err(e) => Err(e),
    }
}

// ---------------------------------------------------------------------------
// Replies
// ---------------------------------------------------------------------------

/// A hit.
#[derive(Debug)]
pub struct Hit {
    pub doc: String,
    /// The score, a number.
    pub score: Json,
    pub snippet: Option<String>,
    pub lang: Option<String>,
    pub fields: Vec<(String, String)>,
}

impl View for Hit {
    type V = FoundView;

    open spec fn view(&self) -> FoundView {
        FoundView {
            doc: self.doc@,
            score: self.score@,
            snippet: opt_view(self.snippet),
            lang: opt_view(self.lang),
            fields: views(self.fields@),
        }
    }
}

/// The hits; the first that is refused refuses all.
pub open spec fn hits_of(items: Seq<JsonView>) -> Result<Seq<FoundView>, Seq<char>>
    decreases items.len(),
{
    if items.len() == 0 {
        Ok(Seq::empty())
    } else {
        match hits_of(items.drop_last()) {
            Err(e) => Err(e),
            Ok(done) => match found(COMPONENT@, items.last()) {
                Err(e) => Err(e),
                Ok(h) => Ok(done.push(h)),
            },
        }
    }
}

proof fn hit_error_stays(items: Seq<JsonView>, k: int)
    requires
        0 <= k <= items.len(),
        hits_of(items.take(k)) is Err,
    ensures
        hits_of(items) == hits_of(items.take(k)),
    decreases items.len(),
{
    if k == items.len() {
        assert(items.take(k) =~= items);
    } else {
        assert(items.drop_last().take(k) =~= items.take(k));
        hit_error_stays(items.drop_last(), k);
    }
}

/// What a reply says.
pub open spec fn reply_hits(root: JsonView) -> Result<Seq<FoundView>, Seq<char>> {
    match hits_in(root) {
        None => Err("wf_fulltext: response missing `hits.hits` array"@),
        Some(items) => hits_of(items),
    }
}

/// The view of hits or an error message.
pub open spec fn hits_or_error(r: Result<Vec<Hit>, String>) -> Result<Seq<FoundView>, Seq<char>> {
    match r {
        Ok(v) => Ok(views(v@)),
        Err(e) => Err(e@),
    }
}

/// Reads the hits of a reply.
pub fn hits_from_json(root: &Json) -> (r: Result<Vec<Hit>, String>)
    requires
        root@.wf(),
    ensures
        hits_or_error(r) == reply_hits(root@),
{
    broadcast use views_push;

    let items = match get_hits(root) {
        Some(items) => items,
        None => {
            return Err("wf_fulltext: response missing `hits.hits` array".to_owned());
        },
    };
    let ghost all = views(items@);
    let mut out: Vec<Hit> = Vec::new();
    proof {
        assert(views(out@) =~= Seq::<FoundView>::empty());
        assert(hits_of(all.take(0)) == Ok::<Seq<FoundView>, Seq<char>>(views(out@)));
    }
    for i in 0..items.len()
        invariant
            all == views(items@),
            all_wf(all),
            hits_of(all.take(i as int)) == Ok::<Seq<FoundView>, Seq<char>>(views(out@)),
    {
        proof {
            assert(all.take(i + 1).drop_last() =~= all.take(i as int));
            assert(all[i as int] == items@[i as int]@);
            assert(all[i as int].wf());
        }
        match read_hit(COMPONENT, &items[i]) {
            Ok(h) => out.push(
                Hit { doc: h.doc, score: h.score, snippet: h.snippet, lang: h.lang, fields: h.fields },
            ),
            Err(e) => {
                proof {
                    hit_error_stays(all, i + 1);
                }
                return Err(e);
            },
        }
    }
    proof {
        assert(all.take(all.len() as int) =~= all);
    }
    Ok(out)
}

/// Reads the text of a reply.
pub fn parse_response(json_str: &str) -> (r: Result<Vec<Hit>, String>)
    ensures
        hits_or_error(r) == match json_parse(json_str@) {
            Err(message) => Err("wf_fulltext: response is not valid JSON: "@ + message),
            Ok(root) => reply_hits(root),
        },
{
    match Json::parse(json_str) {
        Ok(root) => hits_from_json(&root),
        Err(message) => Err("wf_fulltext: response is not valid JSON: ".to_owned().concat(&message)),
    }
}

} // verus!

//! Searches for documents: requests to the search backend and its replies.

use vstd::prelude::*;
use vstd::string::*;
use vstd::utf8::encode_utf8;

use crate::grid::{cell_to_unsigned, cell_unsigned};
use crate::json::{
    all_wf, array_field, fields_wf, get_array, integer, integer_json, json_parse, json_text, no_fields, no_fields_wf,
    object1, object1_wf, object_of, object_view, put_field, put_wf, Fields, Json, JsonView,
};
use crate::order::before;
use crate::search::{
    array_of, array_of_texts, equals, equals_clause, found, get_hits, get_source_text, hits_in, just, just_one,
    match_clause, matches_words, object_field, plain_text, range, range_clause, read_hit, source_text, text_array,
    to_plain_text,
};
use crate::text::{bytes_of, join, joined, opt_view, trim, trimmed, views, views_push};

verus! {

pub const COMPONENT: &'static str = "wf_document";

/// A moment: seconds since the epoch, or a date for the backend to read.
#[derive(Debug, PartialEq, Eq)]
pub enum AtTime {
    Epoch(i64),
    Iso(String),
}

impl Clone for AtTime {
    fn clone(&self) -> (r: Self)
        ensures
            moment(r) == moment(*self),
    {
        match self {
            AtTime::Epoch(n) => AtTime::Epoch(*n),
            AtTime::Iso(s) => AtTime::Iso(s.clone()),
        }
    }
}

/// A moment as a tree.
pub open spec fn moment(t: AtTime) -> JsonView {
    match t {
        AtTime::Epoch(n) => integer(n),
        AtTime::Iso(s) => JsonView::Text(s@),
    }
}

impl AtTime {
    pub fn to_json(&self) -> (r: Json)
        ensures
            r@ == moment(*self),
            r@.wf(),
    {
        match self {
            AtTime::Epoch(n) => integer_json(*n),
            AtTime::Iso(s) => Json::Text(s.clone()),
        }
    }
}

/// What a search asks for beside its words.
#[derive(Debug)]
pub struct PlainOpts {
    pub limit: Option<u32>,
    pub offset: Option<u32>,
    pub fields: Vec<String>,
    pub highlight: bool,
    pub lang: Option<String>,
    /// A clause of the caller's own, as JSON text.
    pub filter: Option<String>,
    pub include_body: bool,
    pub body_content_type: Option<String>,
    /// What was valid at a moment.
    pub at_time: Option<AtTime>,
    /// What a revision holds.
    pub at_rev: Option<u64>,
    /// The indexes to search together, in place of the one that is named.
    pub indexes: Vec<String>,
    /// What became valid at or after a moment.
    pub after: Option<AtTime>,
    /// What became valid at or before a moment.
    pub before: Option<AtTime>,
}

impl Default for PlainOpts {
    fn default() -> (r: Self)
        ensures
            r.limit is None && r.offset is None && r.fields@.len() == 0 && !r.highlight && r.lang is None,
            r.filter is None && !r.include_body && r.body_content_type is None && r.at_time is None,
            r.at_rev is None && r.indexes@.len() == 0 && r.after is None && r.before is None,
    {
        PlainOpts {
            limit: None,
            offset: None,
            fields: Vec::new(),
            highlight: false,
            lang: None,
            filter: None,
            include_body: false,
            body_content_type: None,
            at_time: None,
            at_rev: None,
            indexes: Vec::new(),
            after: None,
            before: None,
        }
    }
}

// ---------------------------------------------------------------------------
// Which tables
// ---------------------------------------------------------------------------

/// The names that are not blank.
pub open spec fn named_indexes(indexes: Seq<Seq<char>>) -> Seq<Seq<char>>
    decreases indexes.len(),
{
    if indexes.len() == 0 {
        Seq::empty()
    } else {
        let before = named_indexes(indexes.drop_last());
        if trimmed(indexes.last()).len() == 0 {
            before
        } else {
            before.push(indexes.last())
        }
    }
}

/// The tables to search: those that are named, or the default where none is.
pub open spec fn tables(index: Seq<char>, indexes: Seq<Seq<char>>) -> Seq<char> {
    let named = named_indexes(indexes);
    if named.len() == 0 {
        index
    } else {
        joined(named, ","@)
    }
}

fn table_names(index: &str, indexes: &Vec<String>) -> (r: String)
    ensures
        r@ == tables(index@, views(indexes@)),
{
    broadcast use views_push;

    let ghost all = views(indexes@);
    let mut named: Vec<String> = Vec::new();
    proof {
        assert(views(named@) =~= named_indexes(all.take(0)));
    }
    for i in 0..indexes.len()
        invariant
            all == views(indexes@),
            views(named@) == named_indexes(all.take(i as int)),
    {
        proof {
            assert(all.take(i + 1).drop_last() =~= all.take(i as int));
        }
        if !trim(&indexes[i]).as_str().is_empty() {
            named.push(indexes[i].clone());
        }
    }
    proof {
        assert(all.take(all.len() as int) =~= all);
    }
    if named.len() == 0 {
        index.to_owned()
    } else {
        join(&named, ",")
    }
}

// ---------------------------------------------------------------------------
// Filters
// ---------------------------------------------------------------------------

/// The caller's own clause, where there is one that is not empty.
pub open spec fn own_filter(filter: Option<Seq<char>>) -> Result<Option<JsonView>, Seq<char>> {
    match filter {
        Some(text) => if text.len() == 0 {
            Ok(None)
        } else {
            match json_parse(text) {
                Ok(tree) => Ok(Some(tree)),
                Err(message) => Err("wf_document: opts.filter must be valid JSON: "@ + message),
            }
        },
        None => Ok(None),
    }
}

/// The view of a clause that may be missing.
pub open spec fn json_opt(v: Option<Json>) -> Option<JsonView> {
    match v {
        Some(j) => Some(j@),
        None => None,
    }
}

/// Reads the caller's own clause.
pub fn read_filter(filter: &Option<String>) -> (r: Result<Option<Json>, String>)
    ensures
        match r {
            Ok(f) => own_filter(opt_view(*filter)) == Ok::<Option<JsonView>, Seq<char>>(json_opt(f)),
            Err(e) => own_filter(opt_view(*filter)) == Err::<Option<JsonView>, Seq<char>>(e@),
        },
        r matches Ok(Some(f)) ==> f@.wf(),
{
    match filter {
        Some(text) => if text.as_str().is_empty() {
            Ok(None)
        } else {
            match Json::parse(text) {
                Ok(tree) => Ok(Some(tree)),
                Err(message) => Err("wf_document: opts.filter must be valid JSON: ".to_owned().concat(&message)),
            }
        },
        None => Ok(None),
    }
}

/// The clause on when a document became valid.
pub open spec fn became_valid(after: Option<AtTime>, before: Option<AtTime>) -> JsonView {
    let lower = match after {
        Some(t) => no_fields().with("gte"@, moment(t)),
        None => no_fields(),
    };
    let both = match before {
        Some(t) => lower.with("lte"@, moment(t)),
        None => lower,
    };
    object1("range"@, object1("_valid_from"@, JsonView::Object(both)))
}

fn became_valid_clause(after: &Option<AtTime>, before: &Option<AtTime>) -> (r: Json)
    ensures
        r@ == became_valid(*after, *before),
        r@.wf(),
{
    broadcast use {no_fields_wf, put_wf, object_view};

    let mut bounds: Vec<(String, Json)> = Vec::new();
    proof {
        assert(views(bounds@) =~= no_fields());
    }
    match after {
        Some(t) => put_field(&mut bounds, "gte", t.to_json()),
        None => {},
    }
    match before {
        Some(t) => put_field(&mut bounds, "lte", t.to_json()),
        None => {},
    }
    object_of("range", object_of("_valid_from", Json::Object(bounds)))
}

/// Still valid: the document has no end.
pub open spec fn still_valid() -> JsonView {
    equals("_valid_to"@, JsonView::Null)
}

/// The clauses on time: at most one of a range, a moment and a revision may be
/// asked for; where none is, only what is still valid counts.
pub open spec fn time_clauses(opts: PlainOpts) -> Result<Seq<JsonView>, Seq<char>> {
    if opts.after is Some || opts.before is Some {
        if opts.at_time is Some || opts.at_rev is Some {
            Err("wf_document: after/before are mutually exclusive with at_time and at_rev"@)
        } else {
            Ok(seq![became_valid(opts.after, opts.before)])
        }
    } else {
        match (opts.at_time, opts.at_rev) {
            (Some(t), None) => Ok(
                seq![
                    range("_valid_from"@, "lte"@, moment(t)),
                    object1(
                        "bool"@,
                        object1(
                            "should"@,
                            JsonView::Array(seq![still_valid(), range("_valid_to"@, "gt"@, moment(t))]),
                        ),
                    ),
                ],
            ),
            (None, Some(rev)) => Ok(seq![equals("_rev"@, JsonView::Unsigned(rev))]),
            (None, None) => Ok(seq![still_valid()]),
            (Some(_), Some(_)) => Err("wf_document: at_time and at_rev are mutually exclusive"@),
        }
    }
}

/// The clauses of a search: the language, the caller's own clause, the time.
pub open spec fn filters(opts: PlainOpts, own: Option<JsonView>) -> Result<Seq<JsonView>, Seq<char>> {
    match time_clauses(opts) {
        Err(e) => Err(e),
        Ok(times) => Ok(lang_clauses(opts.lang) + own_clauses(own) + times),
    }
}

pub open spec fn lang_clauses(lang: Option<String>) -> Seq<JsonView> {
    match lang {
        Some(tag) => if tag@.len() == 0 {
            Seq::empty()
        } else {
            seq![equals("lang"@, JsonView::Text(tag@))]
        },
        None => Seq::empty(),
    }
}

pub open spec fn own_clauses(own: Option<JsonView>) -> Seq<JsonView> {
    match own {
        Some(f) => seq![f],
        None => Seq::empty(),
    }
}

fn push_time(out: &mut Vec<Json>, opts: &PlainOpts) -> (r: Result<(), String>)
    requires
        all_wf(views(old(out)@)),
    ensures
        match r {
            Ok(_) => time_clauses(*opts) is Ok && views(final(out)@) == views(old(out)@)
                + time_clauses(*opts)->Ok_0 && all_wf(views(final(out)@)),
            Err(e) => time_clauses(*opts) == Err::<Seq<JsonView>, Seq<char>>(e@),
        },
{
    broadcast use views_push;

    let ghost start = views(out@);
    if opts.after.is_some() || opts.before.is_some() {
        if opts.at_time.is_some() || opts.at_rev.is_some() {
            return Err("wf_document: after/before are mutually exclusive with at_time and at_rev".to_owned());
        }
        out.push(became_valid_clause(&opts.after, &opts.before));
        proof {
            assert(views(out@) =~= start + seq![became_valid(opts.after, opts.before)]);
        }
        return Ok(());
    }
    match (&opts.at_time, opts.at_rev) {
        (Some(t), None) => {
            let mut either: Vec<Json> = Vec::new();
            either.push(equals_clause("_valid_to", Json::Null));
            either.push(range_clause("_valid_to", "gt", t.to_json()));
            let ghost both = seq![still_valid(), range("_valid_to"@, "gt"@, moment(*t))];
            proof {
                assert(views(either@) =~= both);
                assert(all_wf(both)) by {
                    assert(either@[0]@.wf() && either@[1]@.wf());
                    assert(both[0] == either@[0]@ && both[1] == either@[1]@);
                }
            }
            let should = object_of("bool", object_of("should", array_of(either)));
            out.push(range_clause("_valid_from", "lte", t.to_json()));
            out.push(should);
            proof {
                assert(views(out@) =~= start + time_clauses(*opts)->Ok_0);
            }
            Ok(())
        },
        (None, Some(rev)) => {
            out.push(equals_clause("_rev", Json::Unsigned(rev)));
            proof {
                assert(views(out@) =~= start + time_clauses(*opts)->Ok_0);
            }
            Ok(())
        },
        (None, None) => {
            out.push(equals_clause("_valid_to", Json::Null));
            proof {
                assert(views(out@) =~= start + time_clauses(*opts)->Ok_0);
            }
            Ok(())
        },
        (Some(_), Some(_)) => Err("wf_document: at_time and at_rev are mutually exclusive".to_owned()),
    }
}

/// The clauses of a search, given the caller's own.
pub fn filter_clauses(opts: &PlainOpts, own: Option<Json>) -> (r: Result<Vec<Json>, String>)
    requires
        own matches Some(f) ==> f@.wf(),
    ensures
        match r {
            Ok(v) => filters(*opts, json_opt(own)) == Ok::<Seq<JsonView>, Seq<char>>(views(v@)) && all_wf(views(v@)),
            Err(e) => filters(*opts, json_opt(own)) == Err::<Seq<JsonView>, Seq<char>>(e@),
        },
{
    broadcast use views_push;

    let ghost given = json_opt(own);
    let mut out: Vec<Json> = Vec::new();
    match &opts.lang {
        Some(tag) => {
            if !tag.as_str().is_empty() {
                out.push(equals_clause("lang", Json::text(tag)));
            }
        },
        None => {},
    }
    proof {
        assert(views(out@) =~= lang_clauses(opts.lang));
    }
    match own {
        Some(f) => out.push(f),
        None => {},
    }
    proof {
        assert(views(out@) =~= lang_clauses(opts.lang) + own_clauses(given));
    }
    match push_time(&mut out, opts) {
        Ok(_) => Ok(out),
        Err(e) => Err(e),
    }
}

// ---------------------------------------------------------------------------
// Requests
// ---------------------------------------------------------------------------

/// A query: the words must match, and the filters must hold.
pub open spec fn query_tree(words: Seq<char>, filter: Seq<JsonView>) -> JsonView {
    object1(
        "bool"@,
        JsonView::Object(
            no_fields().with("must"@, just(matches_words(words))).with("filter"@, JsonView::Array(filter)),
        ),
    )
}

pub fn build_query_clause(words: &str, filter: Vec<Json>) -> (r: Json)
    requires
        all_wf(views(filter@)),
    ensures
        r@ == query_tree(words@, views(filter@)),
        r@.wf(),
{
    broadcast use {no_fields_wf, put_wf, object_view};

    let mut fields: Vec<(String, Json)> = Vec::new();
    proof {
        assert(views(fields@) =~= no_fields());
    }
    put_field(&mut fields, "must", just_one(match_clause(words)));
    put_field(&mut fields, "filter", array_of(filter));
    object_of("bool", Json::Object(fields))
}

/// The tree of a search.
pub open spec fn request_tree(
    index: Seq<char>,
    words: Seq<char>,
    opts: PlainOpts,
    own: Option<JsonView>,
) -> Result<JsonView, Seq<char>> {
    match filters(opts, own) {
        Err(e) => Err(e),
        Ok(filter) => {
            let base = no_fields().with("table"@, JsonView::Text(tables(index, views(opts.indexes@)))).with(
                "query"@,
                query_tree(words, filter),
            );
            let limited = match opts.limit {
                Some(n) => base.with("limit"@, JsonView::Unsigned(n as u64)),
                None => base,
            };
            let shifted = match opts.offset {
                Some(n) => limited.with("offset"@, JsonView::Unsigned(n as u64)),
                None => limited,
            };
            let projected = if opts.fields@.len() == 0 {
                shifted
            } else {
                shifted.with("_source"@, object1("includes"@, text_array(views(opts.fields@))))
            };
            Ok(
                JsonView::Object(
                    if opts.highlight {
                        projected.with("highlight"@, JsonView::Object(no_fields()))
                    } else {
                        projected
                    },
                ),
            )
        },
    }
}

/// The text of a tree or an error message.
pub open spec fn body_of(tree: Result<JsonView, Seq<char>>) -> Result<Seq<char>, Seq<char>> {
    match tree {
        Ok(t) => Ok(json_text(t)),
        Err(e) => Err(e),
    }
}

/// The view of a body or an error message.
pub open spec fn body_or_error(r: Result<String, String>) -> Result<Seq<char>, Seq<char>> {
    match r {
        Ok(s) => Ok(s@),
        Err(e) => Err(e@),
    }
}

/// The body of a search, given the caller's own clause.
pub fn request_body(index: &str, query: &str, opts: &PlainOpts, own: Option<Json>) -> (r: Result<String, String>)
    requires
        own matches Some(f) ==> f@.wf(),
    ensures
        body_or_error(r) == body_of(request_tree(index@, query@, *opts, json_opt(own))),
{
    broadcast use {no_fields_wf, put_wf, object_view};

    let filter = match filter_clauses(opts, own) {
        Ok(v) => v,
        Err(e) => {
            return Err(e);
        },
    };
    let mut fields: Vec<(String, Json)> = Vec::new();
    proof {
        assert(views(fields@) =~= no_fields());
    }
    put_field(&mut fields, "table", Json::Text(table_names(index, &opts.indexes)));
    put_field(&mut fields, "query", build_query_clause(query, filter));
    match opts.limit {
        Some(n) => put_field(&mut fields, "limit", Json::Unsigned(n as u64)),
        None => {},
    }
    match opts.offset {
        Some(n) => put_field(&mut fields, "offset", Json::Unsigned(n as u64)),
        None => {},
    }
    if opts.fields.len() != 0 {
        put_field(&mut fields, "_source", object_of("includes", array_of_texts(&opts.fields)));
    }
    if opts.highlight {
        let none: Vec<(String, Json)> = Vec::new();
        proof {
            assert(views(none@) =~= no_fields());
        }
        put_field(&mut fields, "highlight", Json::Object(none));
    }
    Ok(Json::Object(fields).render())
}

/// The body of a search.
pub open spec fn searched(index: Seq<char>, words: Seq<char>, opts: PlainOpts) -> Result<Seq<char>, Seq<char>> {
    match own_filter(opt_view(opts.filter)) {
        Err(e) => Err(e),
        Ok(own) => body_of(request_tree(index, words, opts, own)),
    }
}

pub fn build_request_body(index: &str, query: &str, opts: &PlainOpts) -> (r: Result<String, String>)
    ensures
        body_or_error(r) == searched(index@, query@, *opts),
{
    match read_filter(&opts.filter) {
        Ok(own) => request_body(index, query, opts, own),
        Err(e) => Err(e),
    }
}

/// The tree of a search for one document of any kind.
pub open spec fn probe_tree(index: Seq<char>) -> JsonView {
    JsonView::Object(
        no_fields().with("table"@, JsonView::Text(index)).with(
            "query"@,
            object1("match_all"@, JsonView::Object(no_fields())),
        ).with("limit"@, JsonView::Unsigned(1)),
    )
}

/// The body that asks for one document of any kind.
pub fn build_probe_body(index: &str) -> (r: String)
    ensures
        r@ == json_text(probe_tree(index@)),
{
    broadcast use {no_fields_wf, put_wf, object_view};

    let none: Vec<(String, Json)> = Vec::new();
    let mut fields: Vec<(String, Json)> = Vec::new();
    proof {
        assert(views(none@) =~= no_fields());
        assert(views(fields@) =~= no_fields());
    }
    put_field(&mut fields, "table", Json::text(index));
    put_field(&mut fields, "query", object_of("match_all", Json::Object(none)));
    put_field(&mut fields, "limit", Json::Unsigned(1));
    Json::Object(fields).render()
}

// ---------------------------------------------------------------------------
// Facets
// ---------------------------------------------------------------------------

/// How many values a facet lists at most.
pub const FACET_SIZE: u64 = 100;

/// The aggregation of a field.
pub open spec fn facet_clause(field: Seq<char>) -> JsonView {
    object1(
        "terms"@,
        JsonView::Object(
            no_fields().with("field"@, JsonView::Text(field)).with("size"@, JsonView::Unsigned(FACET_SIZE)),
        ),
    )
}

/// The aggregations of fields.
pub open spec fn facet_clauses(fields: Seq<Seq<char>>) -> Seq<(Seq<char>, JsonView)>
    decreases fields.len(),
{
    if fields.len() == 0 {
        no_fields()
    } else {
        facet_clauses(fields.drop_last()).with(fields.last(), facet_clause(fields.last()))
    }
}

/// The tree of a search that counts values in place of hits.
pub open spec fn facet_tree(
    index: Seq<char>,
    words: Seq<char>,
    fields: Seq<Seq<char>>,
    opts: PlainOpts,
    own: Option<JsonView>,
) -> Result<JsonView, Seq<char>> {
    if fields.len() == 0 {
        Err("wf_document: facet needs at least one field"@)
    } else {
        match filters(opts, own) {
            Err(e) => Err(e),
            Ok(filter) => Ok(
                JsonView::Object(
                    no_fields().with("table"@, JsonView::Text(tables(index, views(opts.indexes@)))).with(
                        "query"@,
                        query_tree(words, filter),
                    ).with("limit"@, JsonView::Unsigned(0)).with("aggs"@, JsonView::Object(facet_clauses(fields))),
                ),
            ),
        }
    }
}

fn facet_json(fields: &[String]) -> (r: Json)
    ensures
        r@ == JsonView::Object(facet_clauses(views(fields@))),
        r@.wf(),
{
    broadcast use {no_fields_wf, put_wf, object1_wf, object_view};

    let ghost all = views(fields@);
    let mut out: Vec<(String, Json)> = Vec::new();
    proof {
        assert(views(out@) =~= no_fields());
        assert(all.take(0) =~= Seq::<Seq<char>>::empty());
    }
    let n: usize = fields.len();
    for i in 0..n
        invariant
            n == fields@.len(),
            all == views(fields@),
            views(out@) == facet_clauses(all.take(i as int)),
            fields_wf(views(out@)),
    {
        proof {
            assert(all.take(i + 1).drop_last() =~= all.take(i as int));
            assert(all[i as int] == fields@[i as int]@);
        }
        let mut terms: Vec<(String, Json)> = Vec::new();
        proof {
            assert(views(terms@) =~= no_fields());
        }
        put_field(&mut terms, "field", Json::text(&fields[i]));
        put_field(&mut terms, "size", Json::Unsigned(FACET_SIZE));
        put_field(&mut out, &fields[i], object_of("terms", Json::Object(terms)));
    }
    proof {
        assert(all.take(all.len() as int) =~= all);
    }
    Json::Object(out)
}

/// The body of a search that counts values, given the caller's own clause.
pub fn facet_body(index: &str, query: &str, fields: &[String], opts: &PlainOpts, own: Option<Json>) -> (r: Result<
    String,
    String,
>)
    requires
        own matches Some(f) ==> f@.wf(),
    ensures
        body_or_error(r) == body_of(facet_tree(index@, query@, views(fields@), *opts, json_opt(own))),
{
    broadcast use {no_fields_wf, put_wf, object_view};

    if fields.len() == 0 {
        return Err("wf_document: facet needs at least one field".to_owned());
    }
    let filter = match filter_clauses(opts, own) {
        Ok(v) => v,
        Err(e) => {
            return Err(e);
        },
    };
    let mut out: Vec<(String, Json)> = Vec::new();
    proof {
        assert(views(out@) =~= no_fields());
    }
    put_field(&mut out, "table", Json::Text(table_names(index, &opts.indexes)));
    put_field(&mut out, "query", build_query_clause(query, filter));
    put_field(&mut out, "limit", Json::Unsigned(0));
    put_field(&mut out, "aggs", facet_json(fields));
    Ok(Json::Object(out).render())
}

/// The body of a search that counts values.
pub fn build_facet_body(index: &str, query: &str, fields: &[String], opts: &PlainOpts) -> (r: Result<String, String>)
    ensures
        body_or_error(r) == match own_filter(opt_view(opts.filter)) {
            Err(e) => Err(e),
            Ok(own) => body_of(facet_tree(index@, query@, views(fields@), *opts, own)),
        },
{
    match read_filter(&opts.filter) {
        Ok(own) => facet_body(index, query, fields, opts, own),
        Err(e) => Err(e),
    }
}

/// A value and how often it occurs.
#[derive(Debug, PartialEq, Eq)]
pub struct PlainFacetValue {
    pub value: String,
    pub count: u64,
}

impl View for PlainFacetValue {
    type V = (Seq<char>, u64);

    open spec fn view(&self) -> (Seq<char>, u64) {
        (self.value@, self.count)
    }
}

/// The values of a field.
#[derive(Debug, PartialEq, Eq)]
pub struct PlainFacetResult {
    pub field: String,
    pub values: Vec<PlainFacetValue>,
}

impl View for PlainFacetResult {
    type V = (Seq<char>, Seq<(Seq<char>, u64)>);

    open spec fn view(&self) -> (Seq<char>, Seq<(Seq<char>, u64)>) {
        (self.field@, views(self.values@))
    }
}

/// A bucket: its key as text and its count. What has no key or no count is no
/// bucket.
pub open spec fn bucket_of(b: JsonView) -> Option<(Seq<char>, u64)> {
    match (b.get("key"@), b.get("doc_count"@)) {
        (Some(key), Some(count)) => match count.as_unsigned() {
            Some(n) => Some((plain_text(key), n)),
            None => None,
        },
        _ => None,
    }
}

pub open spec fn buckets_of(items: Seq<JsonView>) -> Seq<(Seq<char>, u64)>
    decreases items.len(),
{
    if items.len() == 0 {
        Seq::empty()
    } else {
        let before = buckets_of(items.drop_last());
        match bucket_of(items.last()) {
            Some(b) => before.push(b),
            None => before,
        }
    }
}

/// The values that the aggregations give a field.
pub open spec fn facet_values(aggregations: JsonView, field: Seq<char>) -> Seq<(Seq<char>, u64)> {
    match aggregations.get(field) {
        Some(a) => match array_field(a, "buckets"@) {
            Some(items) => buckets_of(items),
            None => Seq::empty(),
        },
        None => Seq::empty(),
    }
}

/// What a reply says of the fields, in their order.
pub open spec fn facets_of(root: JsonView, fields: Seq<Seq<char>>) -> Result<
    Seq<(Seq<char>, Seq<(Seq<char>, u64)>)>,
    Seq<char>,
> {
    match root.get("aggregations"@) {
        None => Err("wf_document: facet response missing `aggregations`"@),
        Some(a) => Ok(Seq::new(fields.len(), |i: int| (fields[i], facet_values(a, fields[i])))),
    }
}

/// The view of facets or an error message.
pub open spec fn facets_or_error(r: Result<Vec<PlainFacetResult>, String>) -> Result<
    Seq<(Seq<char>, Seq<(Seq<char>, u64)>)>,
    Seq<char>,
> {
    match r {
        Ok(v) => Ok(views(v@)),
        Err(e) => Err(e@),
    }
}

fn read_buckets(items: &Vec<Json>) -> (r: Vec<PlainFacetValue>)
    requires
        all_wf(views(items@)),
    ensures
        views(r@) == buckets_of(views(items@)),
{
    broadcast use views_push;

    let ghost all = views(items@);
    let mut out: Vec<PlainFacetValue> = Vec::new();
    proof {
        assert(views(out@) =~= buckets_of(all.take(0)));
    }
    for i in 0..items.len()
        invariant
            all == views(items@),
            all_wf(all),
            views(out@) == buckets_of(all.take(i as int)),
    {
        proof {
            assert(all.take(i + 1).drop_last() =~= all.take(i as int));
            assert(all[i as int] == items@[i as int]@);
            assert(all[i as int].wf());
        }
        match (items[i].get("key"), items[i].get("doc_count")) {
            (Some(key), Some(count)) => match count.as_unsigned() {
                Some(n) => out.push(PlainFacetValue { value: to_plain_text(key), count: n }),
                None => {},
            },
            _ => {},
        }
    }
    proof {
        assert(all.take(all.len() as int) =~= all);
    }
    out
}

/// Reads the facets of a reply.
pub fn facets_from_json(root: &Json, fields: &[String]) -> (r: Result<Vec<PlainFacetResult>, String>)
    requires
        root@.wf(),
    ensures
        facets_or_error(r) == facets_of(root@, views(fields@)),
{
    let aggregations = match root.get("aggregations") {
        Some(a) => a,
        None => {
            return Err("wf_document: facet response missing `aggregations`".to_owned());
        },
    };
    let mut out: Vec<PlainFacetResult> = Vec::new();
    let n: usize = fields.len();
    for i in 0..n
        invariant
            n == fields@.len(),
            out@.len() == i,
            forall|j: int|
                0 <= j < i ==> (#[trigger] out@[j])@ == (fields@[j]@, facet_values(aggregations@, fields@[j]@)),
    {
        let items = match aggregations.get(&fields[i]) {
            Some(a) => get_array(a, "buckets"),
            None => None,
        };
        let values = match items {
            Some(items) => read_buckets(items),
            None => {
                let none: Vec<PlainFacetValue> = Vec::new();
                proof {
                    assert(views(none@) =~= Seq::empty());
                }
                none
            },
        };
        out.push(PlainFacetResult { field: fields[i].clone(), values });
    }
    proof {
        assert(views(out@) =~= facets_of(root@, views(fields@))->Ok_0);
    }
    Ok(out)
}

/// Reads the text of a reply with facets.
pub fn parse_facet_response(json_str: &str, fields: &[String]) -> (r: Result<Vec<PlainFacetResult>, String>)
    ensures
        facets_or_error(r) == match json_parse(json_str@) {
            Err(message) => Err("wf_document: facet response is not valid JSON: "@ + message),
            Ok(root) => facets_of(root, views(fields@)),
        },
{
    match Json::parse(json_str) {
        Ok(root) => facets_from_json(&root, fields),
        Err(message) => Err("wf_document: facet response is not valid JSON: ".to_owned().concat(&message)),
    }
}

// ---------------------------------------------------------------------------
// More like a document
// ---------------------------------------------------------------------------

/// The tree of a search for what is like a document: any of its terms matches,
/// and the document itself does not count.
pub open spec fn mlt_tree(
    index: Seq<char>,
    seed: Seq<char>,
    terms: Seq<Seq<char>>,
    limit: u32,
    opts: PlainOpts,
    own: Option<JsonView>,
) -> Result<JsonView, Seq<char>> {
    if terms.len() == 0 {
        Err("wf_document: more-like-this seed has no usable terms"@)
    } else {
        match filters(opts, own) {
            Err(e) => Err(e),
            Ok(filter) => Ok(
                JsonView::Object(
                    no_fields().with("table"@, JsonView::Text(tables(index, views(opts.indexes@)))).with(
                        "query"@,
                        object1(
                            "bool"@,
                            JsonView::Object(
                                no_fields().with("must"@, just(matches_words(joined(terms, " "@)))).with(
                                    "must_not"@,
                                    just(equals("_id"@, JsonView::Text(seed))),
                                ).with("filter"@, JsonView::Array(filter)),
                            ),
                        ),
                    ).with("limit"@, JsonView::Unsigned(limit as u64)),
                ),
            ),
        }
    }
}

/// The body of a search for what is like a document, given the caller's own
/// clause.
pub fn mlt_body(
    index: &str,
    seed_id: &str,
    terms: &[String],
    limit: u32,
    opts: &PlainOpts,
    own: Option<Json>,
) -> (r: Result<String, String>)
    requires
        own matches Some(f) ==> f@.wf(),
    ensures
        body_or_error(r) == body_of(mlt_tree(index@, seed_id@, views(terms@), limit, *opts, json_opt(own))),
{
    broadcast use {no_fields_wf, put_wf, object_view};

    if terms.len() == 0 {
        return Err("wf_document: more-like-this seed has no usable terms".to_owned());
    }
    let filter = match filter_clauses(opts, own) {
        Ok(v) => v,
        Err(e) => {
            return Err(e);
        },
    };
    let mut clauses: Vec<(String, Json)> = Vec::new();
    let mut fields: Vec<(String, Json)> = Vec::new();
    proof {
        assert(views(clauses@) =~= no_fields());
        assert(views(fields@) =~= no_fields());
    }
    put_field(&mut clauses, "must", just_one(match_clause(&join(terms, " "))));
    put_field(&mut clauses, "must_not", just_one(equals_clause("_id", Json::text(seed_id))));
    put_field(&mut clauses, "filter", array_of(filter));
    put_field(&mut fields, "table", Json::Text(table_names(index, &opts.indexes)));
    put_field(&mut fields, "query", object_of("bool", Json::Object(clauses)));
    put_field(&mut fields, "limit", Json::Unsigned(limit as u64));
    Ok(Json::Object(fields).render())
}

/// The body of a search for what is like a document.
pub fn build_mlt_body(index: &str, seed_id: &str, terms: &[String], limit: u32, opts: &PlainOpts) -> (r: Result<
    String,
    String,
>)
    ensures
        body_or_error(r) == match own_filter(opt_view(opts.filter)) {
            Err(e) => Err(e),
            Ok(own) => body_of(mlt_tree(index@, seed_id@, views(terms@), limit, *opts, own)),
        },
{
    match read_filter(&opts.filter) {
        Ok(own) => mlt_body(index, seed_id, terms, limit, opts, own),
        Err(e) => Err(e),
    }
}

// ---------------------------------------------------------------------------
// Nearest vectors
// ---------------------------------------------------------------------------

/// The tree of a search for the nearest vectors.
pub open spec fn vector_tree(
    index: Seq<char>,
    vector: Seq<JsonView>,
    k: u32,
    opts: PlainOpts,
    own: Option<JsonView>,
) -> Result<JsonView, Seq<char>> {
    if vector.len() == 0 {
        Err("wf_document: vector search requires a non-empty vector"@)
    } else if k == 0 {
        Err("wf_document: vector search requires k > 0"@)
    } else {
        match filters(opts, own) {
            Err(e) => Err(e),
            Ok(filter) => {
                let limit = match opts.limit {
                    Some(n) => n,
                    None => k,
                };
                Ok(
                    JsonView::Object(
                        no_fields().with("table"@, JsonView::Text(tables(index, views(opts.indexes@)))).with(
                            "knn"@,
                            JsonView::Object(
                                no_fields().with("field"@, JsonView::Text("vector"@)).with(
                                    "k"@,
                                    JsonView::Unsigned(k as u64),
                                ).with("query_vector"@, JsonView::Array(vector)).with(
                                    "filter"@,
                                    JsonView::Array(filter),
                                ),
                            ),
                        ).with("limit"@, JsonView::Unsigned(limit as u64)),
                    ),
                )
            },
        }
    }
}

/// The body of a search for the nearest vectors, given the caller's own clause.
/// The components of the vector are numbers.
pub fn vector_body(index: &str, vector: Vec<Json>, k: u32, opts: &PlainOpts, own: Option<Json>) -> (r: Result<
    String,
    String,
>)
    requires
        own matches Some(f) ==> f@.wf(),
        all_wf(views(vector@)),
    ensures
        body_or_error(r) == body_of(vector_tree(index@, views(vector@), k, *opts, json_opt(own))),
{
    broadcast use {no_fields_wf, put_wf, object_view};

    if vector.len() == 0 {
        return Err("wf_document: vector search requires a non-empty vector".to_owned());
    }
    if k == 0 {
        return Err("wf_document: vector search requires k > 0".to_owned());
    }
    let filter = match filter_clauses(opts, own) {
        Ok(v) => v,
        Err(e) => {
            return Err(e);
        },
    };
    let limit: u32 = match opts.limit {
        Some(n) => n,
        None => k,
    };
    let mut knn: Vec<(String, Json)> = Vec::new();
    let mut fields: Vec<(String, Json)> = Vec::new();
    proof {
        assert(views(knn@) =~= no_fields());
        assert(views(fields@) =~= no_fields());
    }
    put_field(&mut knn, "field", Json::text("vector"));
    put_field(&mut knn, "k", Json::Unsigned(k as u64));
    put_field(&mut knn, "query_vector", array_of(vector));
    put_field(&mut knn, "filter", array_of(filter));
    put_field(&mut fields, "table", Json::Text(table_names(index, &opts.indexes)));
    put_field(&mut fields, "knn", Json::Object(knn));
    put_field(&mut fields, "limit", Json::Unsigned(limit as u64));
    Ok(Json::Object(fields).render())
}

/// The trees of numbers.
pub open spec fn number_views(numbers: Seq<serde_json::Number>) -> Seq<JsonView> {
    Seq::new(numbers.len(), |i: int| crate::json::number_view(numbers[i]))
}

fn number_items(numbers: Vec<serde_json::Number>) -> (r: Vec<Json>)
    ensures
        views(r@) == number_views(numbers@),
        all_wf(views(r@)),
{
    let ghost all = numbers@;
    let mut out: Vec<Json> = Vec::new();
    for n in iter: numbers
        invariant
            iter.seq() == all,
            out@.len() == iter.index(),
            forall|j: int|
                0 <= j < out@.len() ==> (#[trigger] out@[j])@ == crate::json::number_view(all[j]) && out@[j]@.wf(),
    {
        out.push(Json::from_number(n));
    }
    proof {
        assert(views(out@) =~= number_views(all));
        assert forall|i: int| 0 <= i < views(out@).len() implies (#[trigger] views(out@)[i]).wf() by {
            assert(out@[i]@.wf());
        }
    }
    out
}

/// The body of a search for the nearest vectors.
pub fn build_vector_body(index: &str, vector: Vec<serde_json::Number>, k: u32, opts: &PlainOpts) -> (r: Result<
    String,
    String,
>)
    ensures
        body_or_error(r) == match own_filter(opt_view(opts.filter)) {
            Err(e) => Err(e),
            Ok(own) => body_of(vector_tree(index@, number_views(vector@), k, *opts, own)),
        },
{
    match read_filter(&opts.filter) {
        Ok(own) => vector_body(index, number_items(vector), k, opts, own),
        Err(e) => Err(e),
    }
}

// ---------------------------------------------------------------------------
// Hits
// ---------------------------------------------------------------------------

/// A hit.
#[derive(Debug)]
pub struct Hit {
    pub doc: String,
    /// The score, a number.
    pub score: Json,
    pub snippet: Option<String>,
    pub lang: Option<String>,
    pub body: Option<Vec<u8>>,
    pub content_type: Option<String>,
    pub fields: Vec<(String, String)>,
    pub revision: Option<u64>,
}

pub struct HitView {
    pub doc: Seq<char>,
    pub score: JsonView,
    pub snippet: Option<Seq<char>>,
    pub lang: Option<Seq<char>>,
    pub body: Option<Seq<u8>>,
    pub content_type: Option<Seq<char>>,
    pub fields: Seq<(Seq<char>, Seq<char>)>,
    pub revision: Option<u64>,
}

impl View for Hit {
    type V = HitView;

    open spec fn view(&self) -> HitView {
        HitView {
            doc: self.doc@,
            score: self.score@,
            snippet: opt_view(self.snippet),
            lang: opt_view(self.lang),
            body: opt_view(self.body),
            content_type: opt_view(self.content_type),
            fields: views(self.fields@),
            revision: self.revision,
        }
    }
}

/// The bytes of a text that may be missing.
pub open spec fn bytes_opt(s: Option<Seq<char>>) -> Option<Seq<u8>> {
    match s {
        Some(s) => Some(encode_utf8(s)),
        None => None,
    }
}

/// What a hit says. An index that mirrors bodies gives the body as well.
pub open spec fn hit_of(hit: JsonView) -> Result<HitView, Seq<char>> {
    match found(COMPONENT@, hit) {
        Err(e) => Err(e),
        Ok(f) => Ok(
            HitView {
                doc: f.doc,
                score: f.score,
                snippet: f.snippet,
                lang: f.lang,
                body: bytes_opt(source_text(hit, "body"@)),
                content_type: source_text(hit, "content_type"@),
                fields: f.fields,
                revision: match hit.get("_source"@) {
                    Some(source) => cell_unsigned(source.get("_rev"@)),
                    None => None,
                },
            },
        ),
    }
}

/// The hits; the first that is refused refuses all.
pub open spec fn hits_of(items: Seq<JsonView>) -> Result<Seq<HitView>, Seq<char>>
    decreases items.len(),
{
    if items.len() == 0 {
        Ok(Seq::empty())
    } else {
        match hits_of(items.drop_last()) {
            Err(e) => Err(e),
            Ok(done) => match hit_of(items.last()) {
                Err(e) => Err(e),
                Ok(h) => Ok(done.push(h)),
            },
        }
    }
}

proof fn hit_error_stays(items: Seq<JsonView>, k: int)
    requires
        0 <= k <= items.len(),
        hits_of(items.take(k)) is Err,
    ensures
        hits_of(items) == hits_of(items.take(k)),
    decreases items.len(),
{
    if k == items.len() {
        assert(items.take(k) =~= items);
    } else {
        assert(items.drop_last().take(k) =~= items.take(k));
        hit_error_stays(items.drop_last(), k);
    }
}

/// What a reply says.
pub open spec fn reply_hits(root: JsonView) -> Result<Seq<HitView>, Seq<char>> {
    match hits_in(root) {
        None => Err("wf_document: response missing `hits.hits` array"@),
        Some(items) => hits_of(items),
    }
}

/// The view of hits or an error message.
pub open spec fn hits_or_error(r: Result<Vec<Hit>, String>) -> Result<Seq<HitView>, Seq<char>> {
    match r {
        Ok(v) => Ok(views(v@)),
        Err(e) => Err(e@),
    }
}

pub fn parse_hit(hit: &Json) -> (r: Result<Hit, String>)
    requires
        hit@.wf(),
    ensures
        match r {
            Ok(h) => hit_of(hit@) == Ok::<HitView, Seq<char>>(h@),
            Err(e) => hit_of(hit@) == Err::<HitView, Seq<char>>(e@),
        },
{
    let f = match read_hit(COMPONENT, hit) {
        Ok(f) => f,
        Err(e) => {
            return Err(e);
        },
    };
    let body = match get_source_text(hit, "body") {
        Some(s) => Some(bytes_of(&s)),
        None => None,
    };
    let revision = match hit.get("_source") {
        Some(source) => cell_to_unsigned(source.get("_rev")),
        None => None,
    };
    Ok(
        Hit {
            doc: f.doc,
            score: f.score,
            snippet: f.snippet,
            lang: f.lang,
            body,
            content_type: get_source_text(hit, "content_type"),
            fields: f.fields,
            revision,
        },
    )
}

/// Reads the hits of a reply.
pub fn hits_from_json(root: &Json) -> (r: Result<Vec<Hit>, String>)
    requires
        root@.wf(),
    ensures
        hits_or_error(r) == reply_hits(root@),
{
    broadcast use views_push;

    let items = match get_hits(root) {
        Some(items) => items,
        None => {
            return Err("wf_document: response missing `hits.hits` array".to_owned());
        },
    };
    let ghost all = views(items@);
    let mut out: Vec<Hit> = Vec::new();
    proof {
        assert(views(out@) =~= Seq::<HitView>::empty());
        assert(hits_of(all.take(0)) == Ok::<Seq<HitView>, Seq<char>>(views(out@)));
    }
    for i in 0..items.len()
        invariant
            all == views(items@),
            all_wf(all),
            hits_of(all.take(i as int)) == Ok::<Seq<HitView>, Seq<char>>(views(out@)),
    {
        proof {
            assert(all.take(i + 1).drop_last() =~= all.take(i as int));
            assert(all[i as int] == items@[i as int]@);
            assert(all[i as int].wf());
        }
        match parse_hit(&items[i]) {
            Ok(h) => out.push(h),
            Err(e) => {
                proof {
                    hit_error_stays(all, i + 1);
                }
                return Err(e);
            },
        }
    }
    proof {
        assert(all.take(all.len() as int) =~= all);
    }
    Ok(out)
}

/// Reads the text of a reply.
pub fn parse_response(json_str: &str) -> (r: Result<Vec<Hit>, String>)
    ensures
        hits_or_error(r) == match json_parse(json_str@) {
            Err(message) => Err("wf_document: response is not valid JSON: "@ + message),
            Ok(root) => reply_hits(root),
        },
{
    match Json::parse(json_str) {
        Ok(root) => hits_from_json(&root),
        Err(message) => Err("wf_document: response is not valid JSON: ".to_owned().concat(&message)),
    }
}

/// Whether the first hit of a reply says since when it is valid.
pub open spec fn tells_validity(root: JsonView) -> bool {
    match hits_in(root) {
        None => false,
        Some(items) => items.len() > 0 && match object_field(items[0], "_source"@) {
            Some(fields) => JsonView::Object(fields).get("_valid_from"@) is Some,
            None => false,
        },
    }
}

pub fn first_tells_validity(root: &Json) -> (r: bool)
    ensures
        r == tells_validity(root@),
{
    match get_hits(root) {
        None => false,
        Some(items) => if items.len() == 0 {
            false
        } else {
            proof {
                assert(views(items@)[0] == items@[0]@);
            }
            match items[0].get("_source") {
                Some(source) => match source.as_object() {
                    Some(_) => source.get("_valid_from").is_some(),
                    None => false,
                },
                None => false,
            }
        },
    }
}

/// Whether the index keeps history, judged by the reply to a probe. What cannot
/// be read counts as no.
pub fn schema_has_valid_from(json_str: &str) -> (r: bool)
    ensures
        r == match json_parse(json_str@) {
            Ok(root) => tells_validity(root),
            Err(_) => false,
        },
{
    match Json::parse(json_str) {
        Ok(root) => first_tells_validity(&root),
        Err(_) => false,
    }
}

} // verus!

//! What a search asks an index for: which documents it admits, and what the
//! request says.

use vstd::prelude::*;
use vstd::utf8::encode_utf8;
use crate::document::manticore;
use crate::document::manticore::{became_valid, facet_clause, facet_clauses, facet_tree, filters, hits_of,
    lang_clauses, mlt_tree, moment, named_indexes, own_clauses, query_tree, request_tree, still_valid, tables,
    time_clauses, vector_tree, AtTime, PlainOpts};
use crate::fulltext;
use crate::json::{ascending, lookup, no_fields, object1, Fields, JsonView};
use crate::laws::objects::{nothing_is_found, with_is_found};
use crate::order::before;
use crate::search::{equals, just, matches_words, range, text_array};
use crate::text::{joined, opt_view, trimmed, views};

verus! {

// ---------------------------------------------------------------------------
// Which documents the clauses of a search admit
// ---------------------------------------------------------------------------

/// The value of a document's field; null where it has none.
pub open spec fn value_of(doc: Map<Seq<char>, JsonView>, field: Seq<char>) -> JsonView {
    if doc.contains_key(field) {
        doc[field]
    } else {
        JsonView::Null
    }
}

/// The number that a value is.
pub open spec fn as_number(v: JsonView) -> Option<int> {
    match v {
        JsonView::Unsigned(n) => Some(n as int),
        JsonView::Negative(n) => Some(n as int),
        _ => None,
    }
}

/// Whether two numbers stand in a relation.
pub open spec fn related(v: JsonView, relation: Seq<char>, limit: JsonView) -> bool {
    (as_number(v) matches Some(a) && (as_number(limit) matches Some(b) && {
        ||| relation == "gte"@ && a >= b
        ||| relation == "lte"@ && a <= b
        ||| relation == "gt"@ && a > b
        ||| relation == "lt"@ && a < b
    }))
}

/// Whether a number stands in all of the relations.
pub open spec fn within(v: JsonView, limits: Seq<(Seq<char>, JsonView)>) -> bool {
    forall|i: int| 0 <= i < limits.len() ==> related(v, (#[trigger] limits[i]).0, limits[i].1)
}

/// Whether a document has the one field that is asked for, with its value or in
/// all of the relations.
pub open spec fn simply_met(clause: JsonView, doc: Map<Seq<char>, JsonView>) -> bool {
    ||| clause.get("equals"@) matches Some(JsonView::Object(fields)) && fields.len() == 1 && value_of(doc, fields[0].0)
        == fields[0].1
    ||| clause.get("range"@) matches Some(JsonView::Object(fields)) && fields.len() == 1 && (
    fields[0].1 matches JsonView::Object(limits) && within(value_of(doc, fields[0].0), limits))
}

/// Whether a document meets a clause: simply, or one of several.
pub open spec fn met(clause: JsonView, doc: Map<Seq<char>, JsonView>) -> bool {
    ||| simply_met(clause, doc)
    ||| clause.get("bool"@) matches Some(inner) && (inner.get("should"@) matches Some(JsonView::Array(items))
        && exists|i: int| 0 <= i < items.len() && simply_met(#[trigger] items[i], doc))
}

/// Whether a document meets all of the clauses.
pub open spec fn all_met(clauses: Seq<JsonView>, doc: Map<Seq<char>, JsonView>) -> bool {
    forall|i: int| 0 <= i < clauses.len() ==> met(#[trigger] clauses[i], doc)
}

/// Whether a document became valid at a moment or before it.
pub open spec fn valid_from(doc: Map<Seq<char>, JsonView>, t: i64) -> bool {
    as_number(value_of(doc, "_valid_from"@)) matches Some(n) && n <= t
}

/// Whether a document has no end.
pub open spec fn is_current(doc: Map<Seq<char>, JsonView>) -> bool {
    value_of(doc, "_valid_to"@) == JsonView::Null
}

/// Whether a document ended after a moment.
pub open spec fn ended_after(doc: Map<Seq<char>, JsonView>, t: i64) -> bool {
    as_number(value_of(doc, "_valid_to"@)) matches Some(n) && n > t
}

proof fn field_is_one(key: Seq<char>, value: JsonView)
    ensures
        object1(key, value).get(key) == Some(value),
        forall|name: Seq<char>| name != key ==> (#[trigger] object1(key, value).get(name)) is None,
{
    reveal_with_fuel(lookup, 2);
    let fields = seq![(key, value)];
    assert(fields.drop_first() =~= Seq::empty());
}

proof fn clause_names_differ()
    ensures
        "equals"@ != "range"@,
        "equals"@ != "bool"@,
        "range"@ != "bool"@,
        "gte"@ != "lte"@,
        "gte"@ != "gt"@,
        "gte"@ != "lt"@,
        "lte"@ != "gt"@,
        "lte"@ != "lt"@,
        "gt"@ != "lt"@,
{
    reveal_strlit("equals");
    reveal_strlit("range");
    reveal_strlit("bool");
    reveal_strlit("gte");
    reveal_strlit("lte");
    reveal_strlit("gt");
    reveal_strlit("lt");
    assert("equals"@.len() == 6 && "range"@.len() == 5 && "bool"@.len() == 4);
    assert("gte"@[0] != "lte"@[0] && "gte"@.len() == 3 && "lte"@.len() == 3 && "gt"@.len() == 2 && "lt"@.len() == 2);
    assert("gt"@[0] != "lt"@[0]);
}

proof fn equals_is_met(field: Seq<char>, value: JsonView, doc: Map<Seq<char>, JsonView>)
    ensures
        met(equals(field, value), doc) <==> value_of(doc, field) == value,
        simply_met(equals(field, value), doc) <==> value_of(doc, field) == value,
{
    clause_names_differ();
    field_is_one("equals"@, object1(field, value));
    let clause = equals(field, value);
    assert(clause.get("range"@) is None);
    assert(clause.get("bool"@) is None);
}

proof fn range_is_met(field: Seq<char>, relation: Seq<char>, limit: JsonView, doc: Map<Seq<char>, JsonView>)
    ensures
        met(range(field, relation, limit), doc) <==> related(value_of(doc, field), relation, limit),
        simply_met(range(field, relation, limit), doc) <==> related(value_of(doc, field), relation, limit),
{
    clause_names_differ();
    let inner = object1(field, object1(relation, limit));
    field_is_one("range"@, inner);
    let clause = range(field, relation, limit);
    assert(clause.get("equals"@) is None);
    assert(clause.get("bool"@) is None);
    let limits = seq![(relation, limit)];
    assert(limits[0] == (relation, limit));
    let v = value_of(doc, field);
    assert(within(v, limits) <==> related(v, relation, limit)) by {
        if within(v, limits) {
            assert(related(v, limits[0].0, limits[0].1));
        }
    }
    let fields = seq![(field, JsonView::Object(limits))];
    assert(inner == JsonView::Object(fields));
    assert(fields[0] == (field, JsonView::Object(limits)));
}

proof fn moment_is_number(n: i64)
    ensures
        as_number(moment(AtTime::Epoch(n))) == Some(n as int),
{
}

/// A search at a moment admits what was valid then: what had become valid, and
/// had not ended.
pub proof fn search_at_a_moment_admits_what_was_valid(opts: PlainOpts, t: i64, doc: Map<Seq<char>, JsonView>)
    requires
        opts.at_time == Some(AtTime::Epoch(t)),
        opts.at_rev is None,
        opts.after is None,
        opts.before is None,
    ensures
        time_clauses(opts) matches Ok(clauses) && (all_met(clauses, doc) <==> valid_from(doc, t) && (is_current(doc)
            || ended_after(doc, t))),
{
    clause_names_differ();
    moment_is_number(t);
    let at = moment(AtTime::Epoch(t));
    let clauses = time_clauses(opts)->Ok_0;
    range_is_met("_valid_from"@, "lte"@, at, doc);
    equals_is_met("_valid_to"@, JsonView::Null, doc);
    range_is_met("_valid_to"@, "gt"@, at, doc);
    let items = seq![still_valid(), range("_valid_to"@, "gt"@, at)];
    let either = object1("bool"@, object1("should"@, JsonView::Array(items)));
    field_is_one("bool"@, object1("should"@, JsonView::Array(items)));
    field_is_one("should"@, JsonView::Array(items));
    assert(met(either, doc) <==> is_current(doc) || ended_after(doc, t)) by {
        assert(either.get("equals"@) is None);
        assert(either.get("range"@) is None);
        assert(items[0] == still_valid() && items[1] == range("_valid_to"@, "gt"@, at));
        if is_current(doc) {
            assert(simply_met(items[0], doc));
        }
        if ended_after(doc, t) {
            assert(simply_met(items[1], doc));
        }
    }
    assert(clauses[0] == range("_valid_from"@, "lte"@, at));
    assert(clauses[1] == either);
    if all_met(clauses, doc) {
        assert(met(clauses[0], doc) && met(clauses[1], doc));
    }
}

/// A search without any time admits what is still valid, and one for a revision
/// what that revision holds.
pub proof fn search_admits_the_latest_or_a_revision(opts: PlainOpts, doc: Map<Seq<char>, JsonView>)
    requires
        opts.at_time is None,
        opts.after is None,
        opts.before is None,
    ensures
        time_clauses(opts) matches Ok(clauses) && (all_met(clauses, doc) <==> match opts.at_rev {
            None => is_current(doc),
            Some(rev) => value_of(doc, "_rev"@) == JsonView::Unsigned(rev),
        }),
{
    let clauses = time_clauses(opts)->Ok_0;
    match opts.at_rev {
        None => equals_is_met("_valid_to"@, JsonView::Null, doc),
        Some(rev) => equals_is_met("_rev"@, JsonView::Unsigned(rev), doc),
    }
    if met(clauses[0], doc) {
        assert(all_met(clauses, doc));
    }
    if all_met(clauses, doc) {
        assert(met(clauses[0], doc));
    }
}

/// A search over a range admits what became valid in it, its ends counted in.
pub proof fn search_over_a_range_admits_what_began_in_it(
    opts: PlainOpts,
    first: Option<i64>,
    last: Option<i64>,
    doc: Map<Seq<char>, JsonView>,
)
    requires
        opts.at_time is None,
        opts.at_rev is None,
        first is Some || last is Some,
        opts.after == (match first {
            Some(t) => Some(AtTime::Epoch(t)),
            None => None,
        }),
        opts.before == (match last {
            Some(t) => Some(AtTime::Epoch(t)),
            None => None,
        }),
    ensures
        time_clauses(opts) matches Ok(clauses) && (all_met(clauses, doc) <==> (as_number(
            value_of(doc, "_valid_from"@),
        ) matches Some(n) && (first matches Some(t) ==> t <= n) && (last matches Some(t) ==> n <= t))),
{
    clause_names_differ();
    let clauses = time_clauses(opts)->Ok_0;
    let clause = became_valid(opts.after, opts.before);
    assert(clauses[0] == clause);
    let lower = match opts.after {
        Some(t) => no_fields().with("gte"@, moment(t)),
        None => no_fields(),
    };
    let both = match opts.before {
        Some(t) => lower.with("lte"@, moment(t)),
        None => lower,
    };
    field_is_one("range"@, object1("_valid_from"@, JsonView::Object(both)));
    assert(clause.get("equals"@) is None);
    assert(clause.get("bool"@) is None);
    limits_of_range(first, last);
    let outer = seq![("_valid_from"@, JsonView::Object(both))];
    assert(outer[0] == ("_valid_from"@, JsonView::Object(both)));
    assert(met(clause, doc) <==> within(value_of(doc, "_valid_from"@), both));
    let v = value_of(doc, "_valid_from"@);
    match (first, last) {
        (Some(a), Some(b)) => {
            moment_is_number(a);
            moment_is_number(b);
            assert(both[0] == ("gte"@, moment(AtTime::Epoch(a))) && both[1] == ("lte"@, moment(AtTime::Epoch(b))));
        },
        (Some(a), None) => {
            moment_is_number(a);
            assert(both[0] == ("gte"@, moment(AtTime::Epoch(a))));
        },
        (None, Some(b)) => {
            moment_is_number(b);
            assert(both[0] == ("lte"@, moment(AtTime::Epoch(b))));
        },
        (None, None) => {},
    }
    if met(clause, doc) {
        assert(all_met(clauses, doc));
    }
    if all_met(clauses, doc) {
        assert(met(clauses[0], doc));
    }
}

proof fn limits_of_range(first: Option<i64>, last: Option<i64>)
    requires
        first is Some || last is Some,
    ensures
        ({
            let lower = match first {
                Some(t) => no_fields().with("gte"@, moment(AtTime::Epoch(t))),
                None => no_fields(),
            };
            let both = match last {
                Some(t) => lower.with("lte"@, moment(AtTime::Epoch(t))),
                None => lower,
            };
            both == match (first, last) {
                (Some(a), Some(b)) => seq![("gte"@, moment(AtTime::Epoch(a))), ("lte"@, moment(AtTime::Epoch(b)))],
                (Some(a), None) => seq![("gte"@, moment(AtTime::Epoch(a)))],
                (None, Some(b)) => seq![("lte"@, moment(AtTime::Epoch(b)))],
                (None, None) => Seq::empty(),
            }
        }),
{
    clause_names_differ();
    reveal_strlit("gte");
    reveal_strlit("lte");
    reveal_with_fuel(crate::json::put, 3);
    match (first, last) {
        (Some(a), Some(b)) => {
            let lower = no_fields().with("gte"@, moment(AtTime::Epoch(a)));
            assert(lower =~= seq![("gte"@, moment(AtTime::Epoch(a)))]);
            assert(lower.last().0 == "gte"@);
            assert("gte"@[0] < "lte"@[0]);
            assert(before("gte"@, "lte"@));
            assert(lower.with("lte"@, moment(AtTime::Epoch(b))) =~= seq![
                ("gte"@, moment(AtTime::Epoch(a))),
                ("lte"@, moment(AtTime::Epoch(b))),
            ]);
        },
        _ => {},
    }
}

/// The clauses of a search are those on the language, on what the caller adds,
/// and on time; a language that is asked for must be the document's own.
pub proof fn search_admits_its_language(opts: PlainOpts, own: Option<JsonView>, doc: Map<Seq<char>, JsonView>)
    requires
        time_clauses(opts) is Ok,
    ensures
        filters(opts, own) matches Ok(clauses) && (all_met(clauses, doc) <==> {
            &&& opts.lang matches Some(tag) ==> tag@.len() > 0 ==> value_of(doc, "lang"@) == JsonView::Text(tag@)
            &&& own matches Some(clause) ==> met(clause, doc)
            &&& all_met(time_clauses(opts)->Ok_0, doc)
        }),
{
    let a = lang_clauses(opts.lang);
    let b = own_clauses(own);
    let c = time_clauses(opts)->Ok_0;
    both_met(a + b, c, doc);
    both_met(a, b, doc);
    match opts.lang {
        Some(tag) => {
            equals_is_met("lang"@, JsonView::Text(tag@), doc);
            if tag@.len() > 0 {
                assert(a[0] == equals("lang"@, JsonView::Text(tag@)));
                if all_met(a, doc) {
                    assert(met(a[0], doc));
                }
            }
        },
        None => {},
    }
    match own {
        Some(clause) => {
            assert(b[0] == clause);
            if all_met(b, doc) {
                assert(met(b[0], doc));
            }
        },
        None => {},
    }
}

proof fn both_met(a: Seq<JsonView>, b: Seq<JsonView>, doc: Map<Seq<char>, JsonView>)
    ensures
        all_met(a + b, doc) <==> all_met(a, doc) && all_met(b, doc),
{
    let both = a + b;
    if all_met(both, doc) {
        assert forall|i: int| 0 <= i < a.len() implies met(#[trigger] a[i], doc) by {
            assert(met(both[i], doc));
        }
        assert forall|i: int| 0 <= i < b.len() implies met(#[trigger] b[i], doc) by {
            assert(met(both[a.len() + i], doc));
        }
    }
    if all_met(a, doc) && all_met(b, doc) {
        assert forall|i: int| 0 <= i < both.len() implies met(#[trigger] both[i], doc) by {
            if i < a.len() {
                assert(met(a[i], doc));
            } else {
                assert(met(b[i - a.len()], doc));
            }
        }
    }
}

/// At most one of a range, a moment and a revision can be asked for.
pub proof fn times_exclude_each_other(opts: PlainOpts)
    ensures
        time_clauses(opts) is Err <==> {
            ||| (opts.after is Some || opts.before is Some) && (opts.at_time is Some || opts.at_rev is Some)
            ||| opts.at_time is Some && opts.at_rev is Some
        },
{
}

// ---------------------------------------------------------------------------
// What a request says
// ---------------------------------------------------------------------------

proof fn request_names_differ()
    ensures
        "table"@ != "query"@ && "table"@ != "limit"@ && "table"@ != "offset"@ && "table"@ != "_source"@ && "table"@
            != "highlight"@,
        "query"@ != "limit"@ && "query"@ != "offset"@ && "query"@ != "_source"@ && "query"@ != "highlight"@,
        "limit"@ != "offset"@ && "limit"@ != "_source"@ && "limit"@ != "highlight"@,
        "offset"@ != "_source"@ && "offset"@ != "highlight"@ && "_source"@ != "highlight"@,
        "must"@ != "filter"@ && "must"@ != "must_not"@ && "filter"@ != "must_not"@,
        "table"@ != "aggs"@ && "query"@ != "aggs"@ && "limit"@ != "aggs"@,
        "table"@ != "knn"@ && "limit"@ != "knn"@,
        "field"@ != "size"@ && "field"@ != "k"@ && "field"@ != "query_vector"@ && "field"@ != "filter"@,
        "k"@ != "query_vector"@ && "k"@ != "filter"@ && "query_vector"@ != "filter"@,
{
    reveal_strlit("table");
    reveal_strlit("query");
    reveal_strlit("limit");
    reveal_strlit("offset");
    reveal_strlit("_source");
    reveal_strlit("highlight");
    reveal_strlit("must");
    reveal_strlit("must_not");
    reveal_strlit("filter");
    reveal_strlit("aggs");
    reveal_strlit("knn");
    reveal_strlit("field");
    reveal_strlit("size");
    reveal_strlit("k");
    reveal_strlit("query_vector");
    assert("table"@[0] == 't' && "query"@[0] == 'q' && "limit"@[0] == 'l' && "offset"@[0] == 'o');
    assert("_source"@[0] == '_' && "highlight"@[0] == 'h' && "aggs"@[0] == 'a' && "knn"@[0] == 'k');
    assert("must"@.len() == 4 && "must_not"@.len() == 8 && "filter"@.len() == 6 && "field"@.len() == 5);
    assert("size"@.len() == 4 && "k"@.len() == 1 && "query_vector"@.len() == 12);
}

proof fn query_is_found(words: Seq<char>, filter: Seq<JsonView>)
    ensures
        query_tree(words, filter).get("bool"@) matches Some(inner) && inner.get("must"@) == Some(
            JsonView::Array(seq![object1("match"@, object1("*"@, JsonView::Text(words)))]),
        ) && inner.get("filter"@) == Some(JsonView::Array(filter)),
{
    request_names_differ();
    nothing_is_found();
    let must = just(matches_words(words));
    with_is_found(no_fields(), "must"@, must);
    with_is_found(no_fields().with("must"@, must), "filter"@, JsonView::Array(filter));
    field_is_one(
        "bool"@,
        JsonView::Object(no_fields().with("must"@, must).with("filter"@, JsonView::Array(filter))),
    );
}

/// The request of a search names the tables, wants the words to match and the
/// filters to hold, and passes on the limit, the offset, the fields and the wish
/// for snippets, where they are given and only then.
pub proof fn search_asks_for_what_is_wanted(index: Seq<char>, words: Seq<char>, opts: PlainOpts, own: Option<JsonView>)
    requires
        filters(opts, own) is Ok,
    ensures
        request_tree(index, words, opts, own) matches Ok(tree) && {
            &&& tree.get("table"@) == Some(JsonView::Text(tables(index, views(opts.indexes@))))
            &&& tree.get("query"@) matches Some(query) && (query.get("bool"@) matches Some(inner) && inner.get("must"@)
                == Some(JsonView::Array(seq![object1("match"@, object1("*"@, JsonView::Text(words)))]))
                && inner.get("filter"@) == Some(JsonView::Array(filters(opts, own)->Ok_0)))
            &&& tree.get("limit"@) == (match opts.limit {
                Some(n) => Some(JsonView::Unsigned(n as u64)),
                None => None,
            })
            &&& tree.get("offset"@) == (match opts.offset {
                Some(n) => Some(JsonView::Unsigned(n as u64)),
                None => None,
            })
            &&& tree.get("_source"@) == if opts.fields@.len() == 0 {
                None
            } else {
                Some(object1("includes"@, text_array(views(opts.fields@))))
            }
            &&& tree.get("highlight"@) is Some <==> opts.highlight
        },
{
    request_names_differ();
    nothing_is_found();
    let filter = filters(opts, own)->Ok_0;
    let table = JsonView::Text(tables(index, views(opts.indexes@)));
    let query = query_tree(words, filter);
    query_is_found(words, filter);
    with_is_found(no_fields(), "table"@, table);
    let f1 = no_fields().with("table"@, table);
    with_is_found(f1, "query"@, query);
    let base = f1.with("query"@, query);
    let limited = match opts.limit {
        Some(n) => base.with("limit"@, JsonView::Unsigned(n as u64)),
        None => base,
    };
    match opts.limit {
        Some(n) => with_is_found(base, "limit"@, JsonView::Unsigned(n as u64)),
        None => {},
    }
    let shifted = match opts.offset {
        Some(n) => limited.with("offset"@, JsonView::Unsigned(n as u64)),
        None => limited,
    };
    match opts.offset {
        Some(n) => with_is_found(limited, "offset"@, JsonView::Unsigned(n as u64)),
        None => {},
    }
    let wanted = object1("includes"@, text_array(views(opts.fields@)));
    let projected = if opts.fields@.len() == 0 {
        shifted
    } else {
        shifted.with("_source"@, wanted)
    };
    if opts.fields@.len() > 0 {
        with_is_found(shifted, "_source"@, wanted);
    }
    if opts.highlight {
        with_is_found(projected, "highlight"@, JsonView::Object(no_fields()));
    }
}

/// A search for what is like a document matches its terms, leaves the document
/// itself out, keeps to the filters, and gives so many.
pub proof fn likeness_search_leaves_its_seed_out(
    index: Seq<char>,
    seed: Seq<char>,
    terms: Seq<Seq<char>>,
    limit: u32,
    opts: PlainOpts,
    own: Option<JsonView>,
)
    requires
        filters(opts, own) is Ok,
        terms.len() > 0,
    ensures
        mlt_tree(index, seed, terms, limit, opts, own) matches Ok(tree) && {
            &&& tree.get("table"@) == Some(JsonView::Text(tables(index, views(opts.indexes@))))
            &&& tree.get("limit"@) == Some(JsonView::Unsigned(limit as u64))
            &&& tree.get("query"@) matches Some(query) && (query.get("bool"@) matches Some(inner) && inner.get("must"@)
                == Some(
                JsonView::Array(seq![object1("match"@, object1("*"@, JsonView::Text(joined(terms, " "@))))]),
            ) && inner.get("filter"@) == Some(JsonView::Array(filters(opts, own)->Ok_0)) && inner.get("must_not"@)
                == Some(JsonView::Array(seq![object1("equals"@, object1("_id"@, JsonView::Text(seed)))])))
        },
{
    request_names_differ();
    nothing_is_found();
    let filter = filters(opts, own)->Ok_0;
    let must = just(matches_words(joined(terms, " "@)));
    let must_not = just(equals("_id"@, JsonView::Text(seed)));
    with_is_found(no_fields(), "must"@, must);
    let q1 = no_fields().with("must"@, must);
    with_is_found(q1, "must_not"@, must_not);
    let q2 = q1.with("must_not"@, must_not);
    with_is_found(q2, "filter"@, JsonView::Array(filter));
    let inner = JsonView::Object(q2.with("filter"@, JsonView::Array(filter)));
    field_is_one("bool"@, inner);
    let table = JsonView::Text(tables(index, views(opts.indexes@)));
    with_is_found(no_fields(), "table"@, table);
    let f1 = no_fields().with("table"@, table);
    with_is_found(f1, "query"@, object1("bool"@, inner));
    let f2 = f1.with("query"@, object1("bool"@, inner));
    with_is_found(f2, "limit"@, JsonView::Unsigned(limit as u64));
}

/// A search by a vector wants the `k` nearest of the documents that the filters
/// admit, and as many hits unless another limit is given.
pub proof fn vector_search_wants_the_nearest(
    index: Seq<char>,
    vector: Seq<JsonView>,
    k: u32,
    opts: PlainOpts,
    own: Option<JsonView>,
)
    requires
        filters(opts, own) is Ok,
        vector.len() > 0,
        k > 0,
    ensures
        vector_tree(index, vector, k, opts, own) matches Ok(tree) && {
            &&& tree.get("table"@) == Some(JsonView::Text(tables(index, views(opts.indexes@))))
            &&& tree.get("limit"@) == Some(
                JsonView::Unsigned(
                    match opts.limit {
                        Some(n) => n as u64,
                        None => k as u64,
                    },
                ),
            )
            &&& tree.get("knn"@) matches Some(inner) && inner.get("field"@) == Some(JsonView::Text("vector"@))
                && inner.get("k"@) == Some(JsonView::Unsigned(k as u64)) && inner.get("query_vector"@) == Some(
                JsonView::Array(vector),
            ) && inner.get("filter"@) == Some(JsonView::Array(filters(opts, own)->Ok_0))
        },
{
    request_names_differ();
    nothing_is_found();
    let filter = filters(opts, own)->Ok_0;
    with_is_found(no_fields(), "field"@, JsonView::Text("vector"@));
    let q1 = no_fields().with("field"@, JsonView::Text("vector"@));
    with_is_found(q1, "k"@, JsonView::Unsigned(k as u64));
    let q2 = q1.with("k"@, JsonView::Unsigned(k as u64));
    with_is_found(q2, "query_vector"@, JsonView::Array(vector));
    let q3 = q2.with("query_vector"@, JsonView::Array(vector));
    with_is_found(q3, "filter"@, JsonView::Array(filter));
    let inner = JsonView::Object(q3.with("filter"@, JsonView::Array(filter)));
    let limit = match opts.limit {
        Some(n) => n,
        None => k,
    };
    let table = JsonView::Text(tables(index, views(opts.indexes@)));
    with_is_found(no_fields(), "table"@, table);
    let f1 = no_fields().with("table"@, table);
    with_is_found(f1, "knn"@, inner);
    let f2 = f1.with("knn"@, inner);
    with_is_found(f2, "limit"@, JsonView::Unsigned(limit as u64));
}

/// A search for facets wants no hits, and for each field the counts of its
/// values.
pub proof fn facet_search_counts_each_field(
    index: Seq<char>,
    words: Seq<char>,
    fields: Seq<Seq<char>>,
    opts: PlainOpts,
    own: Option<JsonView>,
    i: int,
)
    requires
        filters(opts, own) is Ok,
        0 <= i < fields.len(),
    ensures
        facet_tree(index, words, fields, opts, own) matches Ok(tree) && {
            &&& tree.get("table"@) == Some(JsonView::Text(tables(index, views(opts.indexes@))))
            &&& tree.get("limit"@) == Some(JsonView::Unsigned(0))
            &&& tree.get("query"@) matches Some(query) && (query.get("bool"@) matches Some(inner) && inner.get("must"@)
                == Some(JsonView::Array(seq![object1("match"@, object1("*"@, JsonView::Text(words)))]))
                && inner.get("filter"@) == Some(JsonView::Array(filters(opts, own)->Ok_0)))
            &&& tree.get("aggs"@) matches Some(aggs) && (aggs.get(fields[i]) matches Some(a) && (a.get(
                "terms"@,
            ) matches Some(terms) && terms.get("field"@) == Some(JsonView::Text(fields[i])) && terms.get("size"@)
                == Some(JsonView::Unsigned(100))))
        },
{
    request_names_differ();
    nothing_is_found();
    let filter = filters(opts, own)->Ok_0;
    let query = query_tree(words, filter);
    query_is_found(words, filter);
    let table = JsonView::Text(tables(index, views(opts.indexes@)));
    with_is_found(no_fields(), "table"@, table);
    let f1 = no_fields().with("table"@, table);
    with_is_found(f1, "query"@, query);
    let f2 = f1.with("query"@, query);
    with_is_found(f2, "limit"@, JsonView::Unsigned(0));
    let f3 = f2.with("limit"@, JsonView::Unsigned(0));
    let aggs = JsonView::Object(facet_clauses(fields));
    with_is_found(f3, "aggs"@, aggs);
    facets_are_found(fields, i);
    let field = fields[i];
    with_is_found(no_fields(), "field"@, JsonView::Text(field));
    let t1 = no_fields().with("field"@, JsonView::Text(field));
    with_is_found(t1, "size"@, JsonView::Unsigned(100));
    let terms = JsonView::Object(t1.with("size"@, JsonView::Unsigned(100)));
    field_is_one("terms"@, terms);
    assert(facet_clause(field) == object1("terms"@, terms));
}

proof fn facets_are_found(fields: Seq<Seq<char>>, i: int)
    requires
        0 <= i < fields.len(),
    ensures
        lookup(facet_clauses(fields), fields[i]) == Some(facet_clause(fields[i])),
    decreases fields.len(),
{
    let rest = fields.drop_last();
    facets_are_ordered(rest);
    with_is_found(facet_clauses(rest), fields.last(), facet_clause(fields.last()));
    if i < rest.len() {
        facets_are_found(rest, i);
        assert(rest[i] == fields[i]);
    }
}

proof fn facets_are_ordered(fields: Seq<Seq<char>>)
    ensures
        ascending(facet_clauses(fields)),
    decreases fields.len(),
{
    if fields.len() > 0 {
        facets_are_ordered(fields.drop_last());
        with_is_found(facet_clauses(fields.drop_last()), fields.last(), facet_clause(fields.last()));
    }
}

/// The hits of a reply are handed on one for one, in their order: the document,
/// its score, its language and its body are those that the index gives.
pub proof fn hits_keep_their_order(items: Seq<JsonView>, i: int)
    requires
        hits_of(items) is Ok,
        0 <= i < items.len(),
    ensures
        hits_of(items)->Ok_0.len() == items.len(),
        ({
            let h = hits_of(items)->Ok_0[i];
            &&& items[i].get("_score"@) == Some(h.score)
            &&& items[i].get("_id"@) matches Some(JsonView::Text(id)) ==> h.doc == id
            &&& items[i].get("_source"@) matches Some(source) ==> {
                &&& source.get("lang"@) matches Some(JsonView::Text(tag)) ==> h.lang == Some(tag)
                &&& source.get("body"@) matches Some(JsonView::Text(body)) ==> h.body == Some(encode_utf8(body))
                &&& source.get("body"@) is None ==> h.body is None
                &&& source.get("content_type"@) matches Some(JsonView::Text(ty)) ==> h.content_type == Some(ty)
                &&& source.get("_rev"@) matches Some(JsonView::Unsigned(rev)) ==> h.revision == Some(rev)
            }
        }),
    decreases items.len(),
{
    let rest = items.drop_last();
    if i < rest.len() {
        hits_keep_their_order(rest, i);
        assert(rest[i] == items[i]);
    }
    hits_are_as_many(items);
    hits_are_as_many(rest);
    assert(hits_of(rest) is Ok);
}

proof fn hits_are_as_many(items: Seq<JsonView>)
    ensures
        hits_of(items) matches Ok(hits) ==> hits.len() == items.len(),
    decreases items.len(),
{
    if items.len() > 0 {
        hits_are_as_many(items.drop_last());
    }
}

/// The tables are the index unless others are named; names that are blank do not
/// count, and the others stand with commas between them.
pub proof fn named_tables_replace_the_index(index: Seq<char>, names: Seq<Seq<char>>)
    ensures
        names.len() == 0 ==> tables(index, names) == index,
        (forall|i: int| 0 <= i < names.len() ==> trimmed(#[trigger] names[i]).len() == 0) ==> tables(index, names)
            == index,
        names.len() > 0 && (forall|i: int| 0 <= i < names.len() ==> trimmed(#[trigger] names[i]).len() > 0) ==> tables(
            index,
            names,
        ) == with_commas(names),
{
    if forall|i: int| 0 <= i < names.len() ==> trimmed(#[trigger] names[i]).len() == 0 {
        blanks_do_not_count(names);
    }
    if forall|i: int| 0 <= i < names.len() ==> trimmed(#[trigger] names[i]).len() > 0 {
        all_count(names);
        commas_join(names);
    }
}

/// Texts with commas between them.
pub open spec fn with_commas(names: Seq<Seq<char>>) -> Seq<char>
    decreases names.len(),
{
    if names.len() == 0 {
        Seq::empty()
    } else if names.len() == 1 {
        names[0]
    } else {
        with_commas(names.drop_last()) + ","@ + names.last()
    }
}

proof fn commas_join(names: Seq<Seq<char>>)
    ensures
        joined(names, ","@) == with_commas(names),
    decreases names.len(),
{
    if names.len() > 1 {
        commas_join(names.drop_last());
    }
}

proof fn blanks_do_not_count(names: Seq<Seq<char>>)
    requires
        forall|i: int| 0 <= i < names.len() ==> trimmed(#[trigger] names[i]).len() == 0,
    ensures
        named_indexes(names).len() == 0,
    decreases names.len(),
{
    if names.len() > 0 {
        let rest = names.drop_last();
        assert forall|i: int| 0 <= i < rest.len() implies trimmed(#[trigger] rest[i]).len() == 0 by {
            assert(rest[i] == names[i]);
        }
        blanks_do_not_count(rest);
        assert(trimmed(names[names.len() - 1]).len() == 0);
    }
}

proof fn all_count(names: Seq<Seq<char>>)
    requires
        forall|i: int| 0 <= i < names.len() ==> trimmed(#[trigger] names[i]).len() > 0,
    ensures
        named_indexes(names) == names,
    decreases names.len(),
{
    if names.len() > 0 {
        let rest = names.drop_last();
        assert forall|i: int| 0 <= i < rest.len() implies trimmed(#[trigger] rest[i]).len() > 0 by {
            assert(rest[i] == names[i]);
        }
        all_count(rest);
        assert(trimmed(names[names.len() - 1]).len() > 0);
        assert(rest.push(names.last()) =~= names);
    } else {
        assert(names =~= Seq::empty());
    }
}

/// The request of a full-text search names the index, wants the words to match,
/// and passes on the limit, the offset and the fields, where they are given.
/// Snippets are always wanted, and plain ones unless marks are.
pub proof fn fulltext_search_asks_for_what_is_wanted(
    index: Seq<char>,
    words: Seq<char>,
    opts: fulltext::manticore::PlainOpts,
    own: Option<JsonView>,
)
    ensures
        ({
            let tree = fulltext::manticore::request_tree(index, words, opts, own);
            let tagged = opts.lang matches Some(tag) && tag@.len() > 0;
            let word_clause = object1("match"@, object1("*"@, JsonView::Text(words)));
            &&& tree.get("table"@) == Some(JsonView::Text(index))
            &&& !tagged && own is None ==> tree.get("query"@) == Some(word_clause)
            &&& tagged || own is Some ==> (tree.get("query"@) matches Some(query) && (query.get("bool"@) matches Some(
                inner,
            ) && inner.get("must"@) == Some(JsonView::Array(seq![word_clause])) && (inner.get("filter"@) matches Some(
                JsonView::Array(clauses),
            ) && forall|doc: Map<Seq<char>, JsonView>| #[trigger]
                all_met(clauses, doc) <==> {
                    &&& tagged ==> value_of(doc, "lang"@) == JsonView::Text((opts.lang->0)@)
                    &&& own matches Some(clause) ==> met(clause, doc)
                })))
            &&& tree.get("limit"@) == (match opts.limit {
                Some(n) => Some(JsonView::Unsigned(n as u64)),
                None => None,
            })
            &&& tree.get("offset"@) == (match opts.offset {
                Some(n) => Some(JsonView::Unsigned(n as u64)),
                None => None,
            })
            &&& tree.get("_source"@) == if opts.fields@.len() == 0 {
                None
            } else {
                Some(object1("includes"@, text_array(views(opts.fields@))))
            }
            &&& tree.get("highlight"@) matches Some(h) && h.get("pre_tags"@) == (if opts.highlight {
                None
            } else {
                Some(JsonView::Text(""@))
            }) && h.get("post_tags"@) == (if opts.highlight {
                None
            } else {
                Some(JsonView::Text(""@))
            })
        }),
{
    request_names_differ();
    nothing_is_found();
    let clauses = fulltext::manticore::filters(opt_view(opts.lang), own);
    let query = fulltext::manticore::query_tree(words, clauses);
    query_is_found(words, clauses);
    assert forall|doc: Map<Seq<char>, JsonView>| #[trigger] all_met(clauses, doc) <==> {
        &&& (opts.lang matches Some(tag) && tag@.len() > 0) ==> value_of(doc, "lang"@) == JsonView::Text(
            (opts.lang->0)@,
        )
        &&& own matches Some(clause) ==> met(clause, doc)
    } by {
        fulltext_clauses_admit(opt_view(opts.lang), own, doc);
    }
    with_is_found(no_fields(), "table"@, JsonView::Text(index));
    let f1 = no_fields().with("table"@, JsonView::Text(index));
    with_is_found(f1, "query"@, query);
    let base = f1.with("query"@, query);
    let limited = match opts.limit {
        Some(n) => base.with("limit"@, JsonView::Unsigned(n as u64)),
        None => base,
    };
    match opts.limit {
        Some(n) => with_is_found(base, "limit"@, JsonView::Unsigned(n as u64)),
        None => {},
    }
    let shifted = match opts.offset {
        Some(n) => limited.with("offset"@, JsonView::Unsigned(n as u64)),
        None => limited,
    };
    match opts.offset {
        Some(n) => with_is_found(limited, "offset"@, JsonView::Unsigned(n as u64)),
        None => {},
    }
    let wanted = object1("includes"@, text_array(views(opts.fields@)));
    let projected = if opts.fields@.len() == 0 {
        shifted
    } else {
        shifted.with("_source"@, wanted)
    };
    if opts.fields@.len() > 0 {
        with_is_found(shifted, "_source"@, wanted);
    }
    let h = fulltext::manticore::highlight_tree(opts.highlight);
    with_is_found(projected, "highlight"@, h);
    reveal_strlit("pre_tags");
    reveal_strlit("post_tags");
    assert("pre_tags"@.len() != "post_tags"@.len());
    with_is_found(no_fields(), "pre_tags"@, JsonView::Text(""@));
    with_is_found(no_fields().with("pre_tags"@, JsonView::Text(""@)), "post_tags"@, JsonView::Text(""@));
}

proof fn fulltext_clauses_admit(lang: Option<Seq<char>>, own: Option<JsonView>, doc: Map<Seq<char>, JsonView>)
    ensures
        all_met(fulltext::manticore::filters(lang, own), doc) <==> {
            &&& (lang matches Some(tag) && tag.len() > 0) ==> value_of(doc, "lang"@) == JsonView::Text(lang->0)
            &&& own matches Some(clause) ==> met(clause, doc)
        },
{
    let clauses = fulltext::manticore::filters(lang, own);
    let of_lang = match lang {
        Some(tag) => if tag.len() == 0 {
            Seq::empty()
        } else {
            seq![equals("lang"@, JsonView::Text(tag))]
        },
        None => Seq::empty(),
    };
    let of_own = match own {
        Some(f) => seq![f],
        None => Seq::empty(),
    };
    assert(clauses =~= of_lang + of_own);
    both_met(of_lang, of_own, doc);
    match lang {
        Some(tag) => {
            equals_is_met("lang"@, JsonView::Text(tag), doc);
            if tag.len() > 0 {
                assert(of_lang[0] == equals("lang"@, JsonView::Text(tag)));
                if all_met(of_lang, doc) {
                    assert(met(of_lang[0], doc));
                }
            }
        },
        None => {},
    }
    match own {
        Some(clause) => {
            assert(of_own[0] == clause);
            if all_met(of_own, doc) {
                assert(met(of_own[0], doc));
            }
        },
        None => {},
    }
}

} // verus!

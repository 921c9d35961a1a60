//! What the search backend understands and answers: clauses of queries, and the
//! hits of a reply.

use vstd::prelude::*;
use vstd::string::*;

use crate::json::{
    all_wf, array_field, array_view, array_wf, fields_wf, get_array, json_text, object1, object_of, text_field, Fields,
    Json, JsonView,
};
use crate::text::{opt_view, views, views_push};

verus! {

// ---------------------------------------------------------------------------
// Clauses
// ---------------------------------------------------------------------------

/// A field has a value.
pub open spec fn equals(field: Seq<char>, value: JsonView) -> JsonView {
    object1("equals"@, object1(field, value))
}

/// A field stands in a relation to a value.
pub open spec fn range(field: Seq<char>, relation: Seq<char>, value: JsonView) -> JsonView {
    object1("range"@, object1(field, object1(relation, value)))
}

/// Any field matches the words.
pub open spec fn matches_words(words: Seq<char>) -> JsonView {
    object1("match"@, object1("*"@, JsonView::Text(words)))
}

pub fn equals_clause(field: &str, value: Json) -> (r: Json)
    ensures
        r@ == equals(field@, value@),
        value@.wf() ==> r@.wf(),
{
    object_of("equals", object_of(field, value))
}

pub fn range_clause(field: &str, relation: &str, value: Json) -> (r: Json)
    ensures
        r@ == range(field@, relation@, value@),
        value@.wf() ==> r@.wf(),
{
    object_of("range", object_of(field, object_of(relation, value)))
}

pub fn match_clause(words: &str) -> (r: Json)
    ensures
        r@ == matches_words(words@),
        r@.wf(),
{
    object_of("match", object_of("*", Json::text(words)))
}

/// One value as an array.
pub open spec fn just(value: JsonView) -> JsonView {
    JsonView::Array(seq![value])
}

pub fn just_one(value: Json) -> (r: Json)
    ensures
        r@ == just(value@),
        value@.wf() ==> r@.wf(),
{
    broadcast use array_view;

    let ghost v = value@;
    let mut items: Vec<Json> = Vec::new();
    items.push(value);
    proof {
        assert(views(items@) =~= seq![v]);
        if v.wf() {
            array_wf(seq![v]);
        }
    }
    Json::Array(items)
}

/// Values as an array.
pub fn array_of(items: Vec<Json>) -> (r: Json)
    ensures
        r@ == JsonView::Array(views(items@)),
        all_wf(views(items@)) ==> r@.wf(),
{
    broadcast use array_view;

    proof {
        if all_wf(views(items@)) {
            array_wf(views(items@));
        }
    }
    Json::Array(items)
}

/// Texts as an array.
pub open spec fn text_array(texts: Seq<Seq<char>>) -> JsonView {
    JsonView::Array(Seq::new(texts.len(), |i: int| JsonView::Text(texts[i])))
}

pub fn array_of_texts(texts: &Vec<String>) -> (r: Json)
    ensures
        r@ == text_array(views(texts@)),
        r@.wf(),
{
    broadcast use views_push;

    let mut items: Vec<Json> = Vec::new();
    let ghost all = text_array(views(texts@))->Array_0;
    proof {
        assert(views(items@) =~= all.take(0));
    }
    for i in 0..texts.len()
        invariant
            all == text_array(views(texts@))->Array_0,
            views(items@) == all.take(i as int),
    {
        items.push(Json::text(&texts[i]));
        proof {
            assert(views(items@) =~= all.take(i + 1));
        }
    }
    proof {
        assert(views(items@) =~= all);
        assert forall|i: int| 0 <= i < all.len() implies (#[trigger] all[i]).wf() by {
            assert(all[i] is Text);
        }
    }
    array_of(items)
}

// ---------------------------------------------------------------------------
// Hits
// ---------------------------------------------------------------------------

/// What every hit of a reply has.
#[derive(Debug)]
pub struct Found {
    pub doc: String,
    /// The score, a number.
    pub score: Json,
    pub snippet: Option<String>,
    pub lang: Option<String>,
    /// The scalar fields of the document, in ascending order of their names.
    pub fields: Vec<(String, String)>,
}

pub struct FoundView {
    pub doc: Seq<char>,
    pub score: JsonView,
    pub snippet: Option<Seq<char>>,
    pub lang: Option<Seq<char>>,
    pub fields: Seq<(Seq<char>, Seq<char>)>,
}

impl View for Found {
    type V = FoundView;

    open spec fn view(&self) -> FoundView {
        FoundView {
            doc: self.doc@,
            score: self.score@,
            snippet: opt_view(self.snippet),
            lang: opt_view(self.lang),
            fields: views(self.fields@),
        }
    }
}

/// A value as text: a string as it is, anything else as JSON.
pub open spec fn plain_text(v: JsonView) -> Seq<char> {
    match v {
        JsonView::Text(s) => s,
        other => json_text(other),
    }
}

pub fn to_plain_text(v: &Json) -> (r: String)
    requires
        v@.wf(),
    ensures
        r@ == plain_text(v@),
{
    match v {
        Json::Text(s) => s.clone(),
        _ => v.render(),
    }
}

/// The first fragment: that of the first field that has any, where it is text.
pub open spec fn first_fragment(fields: Seq<(Seq<char>, JsonView)>) -> Option<Seq<char>>
    decreases fields.len(),
{
    if fields.len() == 0 {
        None
    } else {
        match fields[0].1.as_array() {
            Some(items) => if items.len() > 0 {
                items[0].as_text()
            } else {
                first_fragment(fields.drop_first())
            },
            None => first_fragment(fields.drop_first()),
        }
    }
}

fn find_fragment(fields: &Vec<(String, Json)>) -> (r: Option<String>)
    ensures
        opt_view(r) == first_fragment(views(fields@)),
{
    let ghost all = views(fields@);
    proof {
        assert(all.skip(0) =~= all);
    }
    for i in 0..fields.len()
        invariant
            all == views(fields@),
            first_fragment(all) == first_fragment(all.skip(i as int)),
    {
        proof {
            assert(all.skip(i as int).drop_first() =~= all.skip(i + 1));
            assert(all[i as int] == (fields@[i as int].0@, fields@[i as int].1@));
        }
        match fields[i].1.as_array() {
            Some(items) => {
                if items.len() > 0 {
                    proof {
                        assert(views(items@)[0] == items@[0]@);
                    }
                    return match items[0].as_text() {
                        Some(s) => Some(s.clone()),
                        None => None,
                    };
                }
            },
            None => {},
        }
    }
    None
}

/// The scalar fields as texts: null as the empty text. Arrays and objects are
/// left out.
pub open spec fn scalar_fields(fields: Seq<(Seq<char>, JsonView)>) -> Seq<(Seq<char>, Seq<char>)>
    decreases fields.len(),
{
    if fields.len() == 0 {
        Seq::empty()
    } else {
        let before = scalar_fields(fields.drop_last());
        let (key, value) = fields.last();
        match value {
            JsonView::Array(_) => before,
            JsonView::Object(_) => before,
            JsonView::Null => before.push((key, Seq::empty())),
            _ => before.push((key, plain_text(value))),
        }
    }
}

fn flatten_source(fields: &Vec<(String, Json)>) -> (r: Vec<(String, String)>)
    requires
        fields_wf(views(fields@)),
    ensures
        views(r@) == scalar_fields(views(fields@)),
{
    broadcast use views_push;

    let ghost all = views(fields@);
    let mut out: Vec<(String, String)> = Vec::new();
    proof {
        assert(views(out@) =~= scalar_fields(all.take(0)));
    }
    for i in 0..fields.len()
        invariant
            all == views(fields@),
            fields_wf(all),
            views(out@) == scalar_fields(all.take(i as int)),
    {
        proof {
            assert(all.take(i + 1).drop_last() =~= all.take(i as int));
            assert(all[i as int] == (fields@[i as int].0@, fields@[i as int].1@));
            assert(all[i as int].1.wf());
        }
        match &fields[i].1 {
            Json::Array(_) => {},
            Json::Object(_) => {},
            Json::Null => out.push((fields[i].0.clone(), String::new())),
            other => {
                let text = to_plain_text(other);
                out.push((fields[i].0.clone(), text));
            },
        }
        proof {
            assert(views(out@) =~= scalar_fields(all.take(i + 1)));
        }
    }
    proof {
        assert(all.take(all.len() as int) =~= all);
    }
    out
}

/// The fields of an object field.
pub open spec fn object_field(root: JsonView, key: Seq<char>) -> Option<Seq<(Seq<char>, JsonView)>> {
    match root.get(key) {
        Some(JsonView::Object(fields)) => Some(fields),
        _ => None,
    }
}

pub fn get_object<'a>(root: &'a Json, key: &str) -> (r: Option<&'a Vec<(String, Json)>>)
    ensures
        match r {
            Some(fields) => object_field(root@, key@) == Some(views(fields@)),
            None => object_field(root@, key@) is None,
        },
        r matches Some(fields) ==> root@.wf() ==> fields_wf(views(fields@)),
{
    match root.get(key) {
        Some(v) => v.as_object(),
        None => None,
    }
}

/// What a hit says, or why it is refused.
pub open spec fn found(component: Seq<char>, hit: JsonView) -> Result<FoundView, Seq<char>> {
    match hit.get("_id"@) {
        None => Err(component + ": hit missing `_id`"@),
        Some(id) => match hit.get("_score"@) {
            None => Err(component + ": hit missing numeric `_score`"@),
            Some(score) => if !score.is_number() {
                Err(component + ": hit missing numeric `_score`"@)
            } else {
                Ok(
                    FoundView {
                        doc: plain_text(id),
                        score,
                        snippet: match object_field(hit, "highlight"@) {
                            Some(fields) => first_fragment(fields),
                            None => None,
                        },
                        lang: source_text(hit, "lang"@),
                        fields: match object_field(hit, "_source"@) {
                            Some(fields) => scalar_fields(fields),
                            None => Seq::empty(),
                        },
                    },
                )
            },
        },
    }
}

/// A text field of a hit's document.
pub open spec fn source_text(hit: JsonView, key: Seq<char>) -> Option<Seq<char>> {
    match hit.get("_source"@) {
        Some(source) => text_field(source, key),
        None => None,
    }
}

pub fn get_source_text(hit: &Json, key: &str) -> (r: Option<String>)
    ensures
        opt_view(r) == source_text(hit@, key@),
{
    match hit.get("_source") {
        Some(source) => match crate::json::get_text(source, key) {
            Some(s) => Some(s.clone()),
            None => None,
        },
        None => None,
    }
}

/// The view of a hit or an error message.
pub open spec fn found_or_error(r: Result<Found, String>) -> Result<FoundView, Seq<char>> {
    match r {
        Ok(h) => Ok(h@),
        Err(e) => Err(e@),
    }
}

/// Reads a hit.
pub fn read_hit(component: &str, hit: &Json) -> (r: Result<Found, String>)
    requires
        hit@.wf(),
    ensures
        found_or_error(r) == found(component@, hit@),
{
    let doc = match hit.get("_id") {
        Some(id) => to_plain_text(id),
        None => {
            return Err(component.to_owned().concat(": hit missing `_id`"));
        },
    };
    let score = match hit.get("_score") {
        Some(score) => score,
        None => {
            return Err(component.to_owned().concat(": hit missing numeric `_score`"));
        },
    };
    match score {
        Json::Unsigned(_) => {},
        Json::Negative(_) => {},
        Json::Real(_) => {},
        _ => {
            return Err(component.to_owned().concat(": hit missing numeric `_score`"));
        },
    }
    let snippet = match get_object(hit, "highlight") {
        Some(fields) => find_fragment(fields),
        None => None,
    };
    let fields = match get_object(hit, "_source") {
        Some(fields) => flatten_source(fields),
        None => {
            let none: Vec<(String, String)> = Vec::new();
            proof {
                assert(views(none@) =~= Seq::empty());
            }
            none
        },
    };
    Ok(Found { doc, score: score.copy(), snippet, lang: get_source_text(hit, "lang"), fields })
}

/// The hits of a reply.
pub open spec fn hits_in(root: JsonView) -> Option<Seq<JsonView>> {
    match root.get("hits"@) {
        Some(hits) => array_field(hits, "hits"@),
        None => None,
    }
}

pub fn get_hits<'a>(root: &'a Json) -> (r: Option<&'a Vec<Json>>)
    ensures
        match r {
            Some(items) => hits_in(root@) == Some(views(items@)),
            None => hits_in(root@) is None,
        },
        r matches Some(items) ==> root@.wf() ==> all_wf(views(items@)),
{
    match root.get("hits") {
        Some(hits) => get_array(hits, "hits"),
        None => None,
    }
}

} // verus!

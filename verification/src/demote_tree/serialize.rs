//! A part of the graph as a JSON document.
//!
//! A node becomes an object, keyed by the local names of its predicates; an RDF
//! list becomes an array. A node that is met again becomes a reference.

use vstd::prelude::*;
use vstd::string::*;

use crate::demote_tree::edges::{edges_from, Config, EdgeMap, EdgeMapView, Term, TermView};
use crate::hash::{genid, mint_genid};
use crate::json::{
    all_wf, fields_wf, flag_or_text, integer_or_text, no_fields, no_fields_wf, object1, object_of, object_view,
    put_field, put_wf, real_or_text, to_flag, to_integer, to_real, Fields, Json, JsonView,
};
use crate::names::{in_order, lists, Names};
use crate::rdf::{RDF_FIRST, RDF_NIL, RDF_REST, RDF_TYPE};
use crate::search::array_of;
use crate::table::Table;
use crate::text::{find_last_char, from_chars, opt_view, same, strip_prefix, to_chars, views, views_push};

verus! {

/// How deep nodes may be nested.
pub const MAX_DEPTH: usize = 4096;

// ---------------------------------------------------------------------------
// Names and values
// ---------------------------------------------------------------------------

/// What follows the last `c`, where there is one and something follows it.
pub open spec fn is_tail(s: Seq<char>, c: char, tail: Option<Seq<char>>) -> bool {
    match tail {
        Some(t) => exists|i: int|
            0 <= i < s.len() - 1 && #[trigger] s[i] == c && t == s.skip(i + 1) && !t.contains(c),
        None => !s.contains(c) || s.last() == c,
    }
}

fn tail_after(s: &str, c: char) -> (r: Option<String>)
    ensures
        is_tail(s@, c, opt_view(r)),
{
    let a = to_chars(s);
    match find_last_char(&a, c) {
        Some(i) => if a.len() - i > 1 {
            let t = from_chars(&a, i + 1, a.len());
            proof {
                assert(t@ =~= s@.skip(i + 1));
                assert(!t@.contains(c)) by {
                    if t@.contains(c) {
                        let j = choose|j: int| 0 <= j < t@.len() && t@[j] == c;
                        assert(s@[i + 1 + j] == c);
                    }
                }
                assert(s@[i as int] == c);
            }
            Some(t)
        } else {
            None
        },
        None => None,
    }
}

/// Whether `name` is what a document calls a predicate: `@type` for
/// `rdf:type`, otherwise what follows the last `#`, else what follows the last
/// `/`, else the predicate itself.
pub open spec fn names_predicate(predicate: Seq<char>, name: Seq<char>) -> bool {
    if predicate == RDF_TYPE@ {
        name == "@type"@
    } else {
        ||| is_tail(predicate, '#', Some(name))
        ||| is_tail(predicate, '#', None) && is_tail(predicate, '/', Some(name))
        ||| is_tail(predicate, '#', None) && is_tail(predicate, '/', None) && name == predicate
    }
}

/// What a document calls a predicate.
pub open spec fn local(predicate: Seq<char>) -> Seq<char> {
    choose|name: Seq<char>| names_predicate(predicate, name)
}

proof fn tail_is_unique(s: Seq<char>, c: char, a: Option<Seq<char>>, b: Option<Seq<char>>)
    requires
        is_tail(s, c, a),
        is_tail(s, c, b),
    ensures
        a == b,
{
    match (a, b) {
        (Some(x), Some(y)) => {
            let i = choose|i: int| 0 <= i < s.len() - 1 && #[trigger] s[i] == c && x == s.skip(i + 1) && !x.contains(c);
            let j = choose|j: int| 0 <= j < s.len() - 1 && #[trigger] s[j] == c && y == s.skip(j + 1) && !y.contains(c);
            if i < j {
                assert(x[j - i - 1] == c);
            }
            if j < i {
                assert(y[i - j - 1] == c);
            }
        },
        (Some(x), None) => {
            let i = choose|i: int| 0 <= i < s.len() - 1 && #[trigger] s[i] == c && x == s.skip(i + 1) && !x.contains(c);
            assert(s.contains(c));
            assert(x.last() == c);
            assert(x.contains(x[x.len() - 1]));
        },
        (None, Some(y)) => {
            let i = choose|i: int| 0 <= i < s.len() - 1 && #[trigger] s[i] == c && y == s.skip(i + 1) && !y.contains(c);
            assert(s.contains(c));
            assert(y.last() == c);
            assert(y.contains(y[y.len() - 1]));
        },
        (None, None) => {},
    }
}

/// A document has one name for a predicate.
pub proof fn local_name_is_unique(predicate: Seq<char>, a: Seq<char>, b: Seq<char>)
    requires
        names_predicate(predicate, a),
        names_predicate(predicate, b),
    ensures
        a == b,
{
    if predicate != RDF_TYPE@ {
        let none: Option<Seq<char>> = None;
        if is_tail(predicate, '#', none) {
            if is_tail(predicate, '#', Some(a)) {
                tail_is_unique(predicate, '#', none, Some(a));
            }
            if is_tail(predicate, '#', Some(b)) {
                tail_is_unique(predicate, '#', none, Some(b));
            }
            if is_tail(predicate, '/', none) {
                if is_tail(predicate, '/', Some(a)) {
                    tail_is_unique(predicate, '/', none, Some(a));
                }
                if is_tail(predicate, '/', Some(b)) {
                    tail_is_unique(predicate, '/', none, Some(b));
                }
            } else {
                tail_is_unique(predicate, '/', Some(a), Some(b));
            }
        } else {
            tail_is_unique(predicate, '#', Some(a), Some(b));
        }
    }
}

pub fn local_name(predicate: &str) -> (r: String)
    ensures
        r@ == local(predicate@),
        names_predicate(predicate@, r@),
{
    let r = if same(predicate, RDF_TYPE) {
        "@type".to_owned()
    } else {
        match tail_after(predicate, '#') {
            Some(t) => t,
            None => match tail_after(predicate, '/') {
                Some(t) => t,
                None => predicate.to_owned(),
            },
        }
    };
    proof {
        assert(names_predicate(predicate@, r@));
        local_name_is_unique(predicate@, r@, local(predicate@));
    }
    r
}

/// The identifier that a document shows for a node: a blank node gets a stable
/// one of its own.
pub open spec fn id_of(subject: Seq<char>) -> Seq<char> {
    if "_:"@.is_prefix_of(subject) {
        genid(subject.skip("_:"@.len() as int))
    } else {
        subject
    }
}

pub fn display_id(subject: &str) -> (r: String)
    ensures
        r@ == id_of(subject@),
{
    match strip_prefix(subject, "_:") {
        Some(label) => {
            proof {
                assert(subject@.skip("_:"@.len() as int) =~= label@);
            }
            mint_genid(&label)
        },
        None => subject.to_owned(),
    }
}

/// A literal as a value: one with a language is a text; otherwise the datatype
/// decides.
pub open spec fn literal_value(label: Seq<char>, datatype: Seq<char>, lang: Option<Seq<char>>) -> JsonView {
    if lang is Some {
        JsonView::Text(label)
    } else if datatype == "http://www.w3.org/2001/XMLSchema#integer"@ || datatype
        == "http://www.w3.org/2001/XMLSchema#int"@ || datatype == "http://www.w3.org/2001/XMLSchema#long"@ || datatype
        == "http://www.w3.org/2001/XMLSchema#short"@ || datatype == "http://www.w3.org/2001/XMLSchema#byte"@ {
        integer_or_text(label)
    } else if datatype == "http://www.w3.org/2001/XMLSchema#decimal"@ || datatype
        == "http://www.w3.org/2001/XMLSchema#double"@ || datatype == "http://www.w3.org/2001/XMLSchema#float"@ {
        real_or_text(label)
    } else if datatype == "http://www.w3.org/2001/XMLSchema#boolean"@ {
        flag_or_text(label)
    } else {
        JsonView::Text(label)
    }
}

pub fn literal_to_json(label: &str, datatype: &str, lang: &Option<String>) -> (r: Json)
    ensures
        r@ == literal_value(label@, datatype@, opt_view(*lang)),
        r@.wf(),
{
    if lang.is_some() {
        Json::text(label)
    } else if same(datatype, "http://www.w3.org/2001/XMLSchema#integer") || same(
        datatype,
        "http://www.w3.org/2001/XMLSchema#int",
    ) || same(datatype, "http://www.w3.org/2001/XMLSchema#long") || same(
        datatype,
        "http://www.w3.org/2001/XMLSchema#short",
    ) || same(datatype, "http://www.w3.org/2001/XMLSchema#byte") {
        to_integer(label)
    } else if same(datatype, "http://www.w3.org/2001/XMLSchema#decimal") || same(
        datatype,
        "http://www.w3.org/2001/XMLSchema#double",
    ) || same(datatype, "http://www.w3.org/2001/XMLSchema#float") {
        to_real(label)
    } else if same(datatype, "http://www.w3.org/2001/XMLSchema#boolean") {
        to_flag(label)
    } else {
        Json::text(label)
    }
}

// ---------------------------------------------------------------------------
// The properties of a node
// ---------------------------------------------------------------------------

/// The values of each name, in order.
pub open spec fn grouped_values(pairs: Seq<(Seq<char>, JsonView)>) -> Map<Seq<char>, Seq<JsonView>>
    decreases pairs.len(),
{
    if pairs.len() == 0 {
        Map::empty()
    } else {
        let before = grouped_values(pairs.drop_last());
        let (key, value) = pairs.last();
        before.insert(
            key,
            if before.contains_key(key) {
                before[key].push(value)
            } else {
                seq![value]
            },
        )
    }
}

/// Values as one: a single value as it is, several as an array.
pub open spec fn one_or_all(values: Seq<JsonView>) -> JsonView {
    if values.len() == 1 {
        values[0]
    } else {
        JsonView::Array(values)
    }
}

/// Fields with the groups added.
pub open spec fn with_groups(
    fields: Seq<(Seq<char>, JsonView)>,
    keys: Seq<Seq<char>>,
    groups: Map<Seq<char>, Seq<JsonView>>,
) -> Seq<(Seq<char>, JsonView)>
    decreases keys.len(),
{
    if keys.len() == 0 {
        fields
    } else {
        with_groups(fields, keys.drop_last(), groups).with(keys.last(), one_or_all(groups[keys.last()]))
    }
}

/// A node: its identifier where it is shown, and its properties.
pub open spec fn node_object(id: Seq<char>, include_id: bool, pairs: Seq<(Seq<char>, JsonView)>) -> JsonView {
    let groups = grouped_values(pairs);
    let start = if include_id {
        no_fields().with("@id"@, JsonView::Text(id))
    } else {
        no_fields()
    };
    JsonView::Object(with_groups(start, in_order(groups.dom()), groups))
}

/// The views of the groups.
spec fn group_views(m: Map<Seq<char>, Vec<Json>>) -> Map<Seq<char>, Seq<JsonView>> {
    m.map_values(|v: Vec<Json>| views(v@))
}

spec fn groups_wf(m: Map<Seq<char>, Seq<JsonView>>) -> bool {
    forall|k: Seq<char>| m.contains_key(k) ==> all_wf(#[trigger] m[k])
}

fn add_to_group(groups: &mut Table<Vec<Json>>, key: String, value: Json)
    requires
        value@.wf(),
        groups_wf(group_views(old(groups)@)),
    ensures
        group_views(final(groups)@) == group_views(old(groups)@).insert(
            key@,
            if group_views(old(groups)@).contains_key(key@) {
                group_views(old(groups)@)[key@].push(value@)
            } else {
                seq![value@]
            },
        ),
        groups_wf(group_views(final(groups)@)),
{
    broadcast use views_push;

    let ghost start = group_views(groups@);
    let ghost k = key@;
    let ghost v = value@;
    let mut values: Vec<Json> = match groups.remove(&key) {
        Some(values) => values,
        None => Vec::new(),
    };
    let ghost was = views(values@);
    values.push(value);
    let ghost now = views(values@);
    proof {
        assert(now =~= if start.contains_key(k) {
            start[k].push(v)
        } else {
            seq![v]
        });
        assert(all_wf(now));
    }
    groups.insert(key, values);
    proof {
        assert(group_views(groups@) =~= start.insert(k, now));
    }
}

fn make_object(id: &str, include_id: bool, groups: Table<Vec<Json>>, Ghost(pairs): Ghost<Seq<(Seq<char>, JsonView)>>) -> (r: Json)
    requires
        group_views(groups@) == grouped_values(pairs),
        groups_wf(group_views(groups@)),
    ensures
        r@ == node_object(id@, include_id, pairs),
        r@.wf(),
{
    broadcast use {no_fields_wf, put_wf, object_view};

    let ghost all = grouped_values(pairs);
    let mut groups = groups;
    let mut fields: Vec<(String, Json)> = Vec::new();
    proof {
        assert(views(fields@) =~= no_fields());
    }
    if include_id {
        put_field(&mut fields, "@id", Json::text(id));
    }
    let ghost start = views(fields@);
    let names = groups.keys();
    let ghost keys = views(names@);
    proof {
        assert forall|k: Seq<char>| #[trigger] keys.contains(k) <==> all.dom().contains(k) by {
            assert(groups@.contains_key(k) <==> all.contains_key(k));
        }
        assert(lists(keys, all.dom()));
        crate::names::lists_unique(keys, in_order(all.dom()), all.dom());
        assert(with_groups(start, keys.take(0), all) =~= start);
        assert forall|j: int| 0 <= j < keys.len() implies groups@.contains_key(#[trigger] keys[j]) && views(
            groups@[keys[j]]@,
        ) == all[keys[j]] by {
            assert(keys.contains(keys[j]));
            assert(group_views(groups@)[keys[j]] == views(groups@[keys[j]]@));
        }
    }
    for i in 0..names.len()
        invariant
            keys == views(names@),
            lists(keys, all.dom()),
            views(fields@) == with_groups(start, keys.take(i as int), all),
            fields_wf(views(fields@)),
            groups_wf(all),
            forall|j: int| i <= j < keys.len() ==> groups@.contains_key(#[trigger] keys[j]),
            forall|j: int| i <= j < keys.len() ==> views(groups@[#[trigger] keys[j]]@) == all[keys[j]],
    {
        proof {
            assert(keys.take(i + 1).drop_last() =~= keys.take(i as int));
            assert(keys[i as int] == names@[i as int]@);
            assert(keys.contains(keys[i as int]));
            assert(all_wf(all[keys[i as int]]));
        }
        let values = match groups.remove(&names[i]) {
            Some(values) => values,
            None => Vec::new(),
        };
        let ghost vs = all[keys[i as int]];
        proof {
            assert(views(values@) == vs);
            assert forall|j: int| i + 1 <= j < keys.len() implies groups@.contains_key(#[trigger] keys[j]) && views(
                groups@[keys[j]]@,
            ) == all[keys[j]] by {
                if keys[j] == keys[i as int] {
                    crate::table::ascends_distinct(keys, i as int, j);
                }
            }
        }
        let value = if values.len() == 1 {
            let mut values = values;
            match values.pop() {
                Some(v) => {
                    proof {
                        assert(vs[0] == v@);
                        assert(vs[0].wf());
                    }
                    v
                },
                None => Json::Null,
            }
        } else {
            array_of(values)
        };
        proof {
            assert(value@ == one_or_all(vs));
        }
        put_field(&mut fields, &names[i], value);
    }
    proof {
        assert(keys.take(keys.len() as int) =~= keys);
    }
    Json::Object(fields)
}

// ---------------------------------------------------------------------------
// Nodes
// ---------------------------------------------------------------------------

/// Whether a node is the head of a list: it has a first element and a rest.
pub open spec fn is_head(e: EdgeMapView, subject: Seq<char>) -> bool {
    &&& exists|i: int| 0 <= i < edges_from(e, subject).len() && (#[trigger] edges_from(e, subject)[i]).0 == RDF_FIRST@
    &&& exists|i: int| 0 <= i < edges_from(e, subject).len() && (#[trigger] edges_from(e, subject)[i]).0 == RDF_REST@
}

pub fn is_list_head(edges: &EdgeMap, subject: &str) -> (r: bool)
    ensures
        r == is_head(edges@, subject@),
{
    let out = match edges.edges_of(subject) {
        Some(out) => out,
        None => {
            return false;
        },
    };
    let ghost all = edges_from(edges@, subject@);
    let mut has_first = false;
    let mut has_rest = false;
    proof {
        reveal_strlit("http://www.w3.org/1999/02/22-rdf-syntax-ns#first");
        reveal_strlit("http://www.w3.org/1999/02/22-rdf-syntax-ns#rest");
        assert(RDF_FIRST@.len() != RDF_REST@.len());
    }
    for i in 0..out.len()
        invariant
            all == views(out@),
            has_first == exists|j: int| 0 <= j < i && (#[trigger] all[j]).0 == RDF_FIRST@,
            has_rest == exists|j: int| 0 <= j < i && (#[trigger] all[j]).0 == RDF_REST@,
    {
        proof {
            assert(all[i as int].0 == out@[i as int].0@);
        }
        if same(&out[i].0, RDF_FIRST) {
            has_first = true;
        } else if same(&out[i].0, RDF_REST) {
            has_rest = true;
        }
    }
    has_first && has_rest
}

/// What serializing gives: a value or an error, and the nodes that have been
/// met.
pub struct Walked<T> {
    pub value: Result<T, Seq<char>>,
    pub met: Set<Seq<char>>,
}

/// The subjects with edges that have not been met.
pub open spec fn unmet(e: EdgeMapView, met: Set<Seq<char>>) -> nat {
    e.out.dom().difference(met).len()
}

/// What is read of a list's cell: its element and what follows.
pub struct Cell {
    pub first: Option<JsonView>,
    pub rest: Option<Seq<char>>,
}

/// A node as a value.
pub open spec fn subject_value(
    e: EdgeMapView,
    c: Config,
    subject: Seq<char>,
    met: Set<Seq<char>>,
    depth: int,
) -> Walked<JsonView>
    decreases MAX_DEPTH + 2 - depth, 3int, 0int,
{
    if depth > MAX_DEPTH {
        Walked { value: Err("wf_demote_tree: max depth at "@ + subject), met }
    } else if met.contains(subject) {
        Walked { value: Ok(object1("$ref"@, JsonView::Text(id_of(subject)))), met }
    } else if c.collapse_rdf_lists && is_head(e, subject) {
        list_value(e, c, subject, met.insert(subject), depth)
    } else {
        let w = edge_values(e, c, edges_from(e, subject), met.insert(subject), depth + 1);
        match w.value {
            Err(error) => Walked { value: Err(error), met: w.met },
            Ok(pairs) => Walked { value: Ok(node_object(id_of(subject), c.include_id, pairs)), met: w.met },
        }
    }
}

/// Edges as names and values.
pub open spec fn edge_values(
    e: EdgeMapView,
    c: Config,
    edges: Seq<(Seq<char>, TermView)>,
    met: Set<Seq<char>>,
    depth: int,
) -> Walked<Seq<(Seq<char>, JsonView)>>
    decreases MAX_DEPTH + 2 - depth, 5int, edges.len(),
{
    if edges.len() == 0 {
        Walked { value: Ok(Seq::empty()), met }
    } else {
        let before = edge_values(e, c, edges.drop_last(), met, depth);
        match before.value {
            Err(_) => before,
            Ok(pairs) => {
                let w = object_value(e, c, edges.last().1, before.met, depth);
                match w.value {
                    Err(error) => Walked { value: Err(error), met: w.met },
                    Ok(value) => Walked { value: Ok(pairs.push((local(edges.last().0), value))), met: w.met },
                }
            },
        }
    }
}

/// What an edge leads to, as a value: a node with edges of its own is walked,
/// and any other node is named.
pub open spec fn object_value(
    e: EdgeMapView,
    c: Config,
    object: TermView,
    met: Set<Seq<char>>,
    depth: int,
) -> Walked<JsonView>
    decreases MAX_DEPTH + 2 - depth, 4int, 0int,
{
    match object {
        TermView::Iri(iri) => if iri == RDF_NIL@ {
            Walked { value: Ok(JsonView::Array(Seq::empty())), met }
        } else if e.out.contains_key(iri) {
            subject_value(e, c, iri, met, depth)
        } else {
            Walked { value: Ok(JsonView::Text(iri)), met }
        },
        TermView::Bnode(label) => if e.out.contains_key("_:"@ + label) {
            subject_value(e, c, "_:"@ + label, met, depth)
        } else {
            Walked { value: Ok(JsonView::Text(genid(label))), met }
        },
        TermView::Literal { label, datatype, lang } => Walked {
            value: Ok(literal_value(label, datatype, lang)),
            met,
        },
    }
}

/// A list as an array, from its head on. The head has been met already.
pub open spec fn list_value(
    e: EdgeMapView,
    c: Config,
    head: Seq<char>,
    met: Set<Seq<char>>,
    depth: int,
) -> Walked<JsonView>
    decreases MAX_DEPTH + 2 - depth, 2int, 0int,
{
    if depth > MAX_DEPTH {
        Walked { value: Err("wf_demote_tree: max depth at "@ + head), met }
    } else if head == RDF_NIL@ {
        Walked { value: Ok(JsonView::Array(Seq::empty())), met }
    } else {
        let w = cell_value(e, c, head, edges_from(e, head), met, depth + 1);
        match w.value {
            Err(error) => Walked { value: Err(error), met: w.met },
            Ok(cell) => rest_value(e, c, cell.rest, items_with(Seq::empty(), cell.first), w.met, depth),
        }
    }
}

/// The elements with one more, where there is one.
pub open spec fn items_with(items: Seq<JsonView>, first: Option<JsonView>) -> Seq<JsonView> {
    match first {
        Some(v) => items.push(v),
        None => items,
    }
}

/// The rest of a list, behind the elements that have been read. A cell that is
/// met again ends the list with a mark.
pub open spec fn rest_value(
    e: EdgeMapView,
    c: Config,
    rest: Option<Seq<char>>,
    items: Seq<JsonView>,
    met: Set<Seq<char>>,
    depth: int,
) -> Walked<JsonView>
    decreases
            MAX_DEPTH + 2 - depth,
            1int,
            (if rest is Some {
                unmet(e, met) + 1
            } else {
                0
            }),
    when e.out.dom().finite()
{
    match rest {
        None => Walked { value: Ok(JsonView::Array(items)), met },
        Some(node) => if depth > MAX_DEPTH || node == RDF_NIL@ {
            Walked { value: Ok(JsonView::Array(items)), met }
        } else if met.contains(node) {
            Walked {
                value: Ok(JsonView::Array(items.push(object1("$cycle"@, JsonView::Text(id_of(node)))))),
                met,
            }
        } else {
            let now = met.insert(node);
            let w = cell_value(e, c, node, edges_from(e, node), now, depth + 1);
            match w.value {
                Err(error) => Walked { value: Err(error), met: w.met },
                Ok(cell) => {
                    let all = w.met.union(now);
                    proof {
                        if cell.rest is Some {
                            unmet_shrinks(e, met, node, all);
                        }
                    }
                    if e.out.contains_key(node) {
                        rest_value(e, c, cell.rest, items_with(items, cell.first), all, depth)
                    } else {
                        rest_value(e, c, None, items_with(items, cell.first), all, depth)
                    }
                },
            }
        },
    }
}

/// Meeting a node with edges leaves fewer to meet.
pub proof fn unmet_shrinks(e: EdgeMapView, met: Set<Seq<char>>, node: Seq<char>, all: Set<Seq<char>>)
    requires
        e.out.dom().finite(),
        !met.contains(node),
        all.contains(node),
        met.subset_of(all),
    ensures
        e.out.contains_key(node) ==> unmet(e, all) < unmet(e, met),
        unmet(e, all) <= unmet(e, met),
{
    let a = e.out.dom().difference(all);
    let b = e.out.dom().difference(met);
    vstd::set_lib::lemma_len_subset(a, b);
    if e.out.contains_key(node) {
        assert(b.contains(node));
        vstd::set_lib::lemma_len_subset(a, b.remove(node));
    }
}

/// What is read of the edges of a list's cell: the last element and the last
/// rest count.
pub open spec fn cell_value(
    e: EdgeMapView,
    c: Config,
    node: Seq<char>,
    edges: Seq<(Seq<char>, TermView)>,
    met: Set<Seq<char>>,
    depth: int,
) -> Walked<Cell>
    decreases MAX_DEPTH + 2 - depth, 5int, edges.len(),
{
    if edges.len() == 0 {
        Walked { value: Ok(Cell { first: None, rest: None }), met }
    } else {
        let before = cell_value(e, c, node, edges.drop_last(), met, depth);
        match before.value {
            Err(_) => before,
            Ok(cell) => {
                let (predicate, object) = edges.last();
                if predicate == RDF_FIRST@ {
                    let w = object_value(e, c, object, before.met, depth);
                    match w.value {
                        Err(error) => Walked { value: Err(error), met: w.met },
                        Ok(value) => Walked { value: Ok(Cell { first: Some(value), ..cell }), met: w.met },
                    }
                } else if predicate == RDF_REST@ {
                    match object {
                        TermView::Iri(iri) => Walked { value: Ok(Cell { rest: Some(iri), ..cell }), met: before.met },
                        TermView::Bnode(label) => Walked {
                            value: Ok(Cell { rest: Some("_:"@ + label), ..cell }),
                            met: before.met,
                        },
                        TermView::Literal { .. } => Walked {
                            value: Err("wf_demote_tree: rdf:rest points to literal at "@ + node),
                            met: before.met,
                        },
                    }
                } else {
                    before
                }
            },
        }
    }
}

// ---------------------------------------------------------------------------
// What has been met stays met
// ---------------------------------------------------------------------------

proof fn subject_keeps(e: EdgeMapView, c: Config, subject: Seq<char>, met: Set<Seq<char>>, depth: int)
    requires
        e.out.dom().finite(),
    ensures
        met.subset_of(subject_value(e, c, subject, met, depth).met),
    decreases MAX_DEPTH + 2 - depth, 3int, 0int,
{
    if depth <= MAX_DEPTH && !met.contains(subject) {
        if c.collapse_rdf_lists && is_head(e, subject) {
            list_keeps(e, c, subject, met.insert(subject), depth);
        } else {
            edges_keep(e, c, edges_from(e, subject), met.insert(subject), depth + 1);
        }
    }
}

proof fn edges_keep(
    e: EdgeMapView,
    c: Config,
    edges: Seq<(Seq<char>, TermView)>,
    met: Set<Seq<char>>,
    depth: int,
)
    requires
        e.out.dom().finite(),
    ensures
        met.subset_of(edge_values(e, c, edges, met, depth).met),
    decreases MAX_DEPTH + 2 - depth, 5int, edges.len(),
{
    if edges.len() > 0 {
        edges_keep(e, c, edges.drop_last(), met, depth);
        let before = edge_values(e, c, edges.drop_last(), met, depth);
        if before.value is Ok {
            object_keeps(e, c, edges.last().1, before.met, depth);
        }
    }
}

proof fn object_keeps(e: EdgeMapView, c: Config, object: TermView, met: Set<Seq<char>>, depth: int)
    requires
        e.out.dom().finite(),
    ensures
        met.subset_of(object_value(e, c, object, met, depth).met),
    decreases MAX_DEPTH + 2 - depth, 4int, 0int,
{
    match object {
        TermView::Iri(iri) => {
            if iri != RDF_NIL@ && e.out.contains_key(iri) {
                subject_keeps(e, c, iri, met, depth);
            }
        },
        TermView::Bnode(label) => {
            if e.out.contains_key("_:"@ + label) {
                subject_keeps(e, c, "_:"@ + label, met, depth);
            }
        },
        TermView::Literal { .. } => {},
    }
}

proof fn list_keeps(e: EdgeMapView, c: Config, head: Seq<char>, met: Set<Seq<char>>, depth: int)
    requires
        e.out.dom().finite(),
    ensures
        met.subset_of(list_value(e, c, head, met, depth).met),
    decreases MAX_DEPTH + 2 - depth, 2int, 0int,
{
    if depth <= MAX_DEPTH && head != RDF_NIL@ {
        cell_keeps(e, c, head, edges_from(e, head), met, depth + 1);
        let w = cell_value(e, c, head, edges_from(e, head), met, depth + 1);
        match w.value {
            Ok(cell) => rest_keeps(e, c, cell.rest, items_with(Seq::empty(), cell.first), w.met, depth),
            Err(_) => {},
        }
    }
}

proof fn rest_keeps(
    e: EdgeMapView,
    c: Config,
    rest: Option<Seq<char>>,
    items: Seq<JsonView>,
    met: Set<Seq<char>>,
    depth: int,
)
    requires
        e.out.dom().finite(),
    ensures
        met.subset_of(rest_value(e, c, rest, items, met, depth).met),
    decreases
            MAX_DEPTH + 2 - depth,
            1int,
            (if rest is Some {
                unmet(e, met) + 1
            } else {
                0
            }),
{
    match rest {
        None => {},
        Some(node) => {
            if depth <= MAX_DEPTH && node != RDF_NIL@ && !met.contains(node) {
                let now = met.insert(node);
                cell_keeps(e, c, node, edges_from(e, node), now, depth + 1);
                let w = cell_value(e, c, node, edges_from(e, node), now, depth + 1);
                match w.value {
                    Ok(cell) => {
                        let all = w.met.union(now);
                        unmet_shrinks(e, met, node, all);
                        if e.out.contains_key(node) {
                            rest_keeps(e, c, cell.rest, items_with(items, cell.first), all, depth);
                        } else {
                            rest_keeps(e, c, None, items_with(items, cell.first), all, depth);
                        }
                    },
                    Err(_) => {},
                }
            }
        },
    }
}

proof fn cell_keeps(
    e: EdgeMapView,
    c: Config,
    node: Seq<char>,
    edges: Seq<(Seq<char>, TermView)>,
    met: Set<Seq<char>>,
    depth: int,
)
    requires
        e.out.dom().finite(),
    ensures
        met.subset_of(cell_value(e, c, node, edges, met, depth).met),
    decreases MAX_DEPTH + 2 - depth, 5int, edges.len(),
{
    if edges.len() > 0 {
        cell_keeps(e, c, node, edges.drop_last(), met, depth);
        let before = cell_value(e, c, node, edges.drop_last(), met, depth);
        if before.value is Ok && edges.last().0 == RDF_FIRST@ {
            object_keeps(e, c, edges.last().1, before.met, depth);
        }
    }
}

proof fn edge_error_stays(
    e: EdgeMapView,
    c: Config,
    edges: Seq<(Seq<char>, TermView)>,
    met: Set<Seq<char>>,
    depth: int,
    k: int,
)
    requires
        0 <= k <= edges.len(),
        edge_values(e, c, edges.take(k), met, depth).value is Err,
    ensures
        edge_values(e, c, edges, met, depth) == edge_values(e, c, edges.take(k), met, depth),
    decreases edges.len(),
{
    if k == edges.len() {
        assert(edges.take(k) =~= edges);
    } else {
        assert(edges.drop_last().take(k) =~= edges.take(k));
        edge_error_stays(e, c, edges.drop_last(), met, depth, k);
    }
}

proof fn cell_error_stays(
    e: EdgeMapView,
    c: Config,
    node: Seq<char>,
    edges: Seq<(Seq<char>, TermView)>,
    met: Set<Seq<char>>,
    depth: int,
    k: int,
)
    requires
        0 <= k <= edges.len(),
        cell_value(e, c, node, edges.take(k), met, depth).value is Err,
    ensures
        cell_value(e, c, node, edges, met, depth) == cell_value(e, c, node, edges.take(k), met, depth),
    decreases edges.len(),
{
    if k == edges.len() {
        assert(edges.take(k) =~= edges);
    } else {
        assert(edges.drop_last().take(k) =~= edges.take(k));
        cell_error_stays(e, c, node, edges.drop_last(), met, depth, k);
    }
}

// ---------------------------------------------------------------------------
// Serializing
// ---------------------------------------------------------------------------

/// The view of what serializing gave.
pub open spec fn walked(r: Result<Json, String>, met: Set<Seq<char>>) -> Walked<JsonView> {
    Walked {
        value: match r {
            Ok(j) => Ok(j@),
            Err(e) => Err(e@),
        },
        met,
    }
}

fn serialize_subject(edges: &EdgeMap, cfg: &Config, subject: &str, met: &mut Names, depth: usize) -> (r: Result<
    Json,
    String,
>)
    requires
        edges@.out.dom().finite(),
        depth <= MAX_DEPTH + 1,
    ensures
        walked(r, final(met)@) == subject_value(edges@, *cfg, subject@, old(met)@, depth as int),
        r matches Ok(j) ==> j@.wf(),
    decreases MAX_DEPTH + 2 - depth, 3int,
{
    if depth > MAX_DEPTH {
        return Err("wf_demote_tree: max depth at ".to_owned().concat(subject));
    }
    if met.contains(subject) {
        return Ok(object_of("$ref", Json::Text(display_id(subject))));
    }
    met.insert(subject.to_owned());
    if cfg.collapse_rdf_lists && is_list_head(edges, subject) {
        return serialize_list(edges, cfg, subject, met, depth);
    }
    let none: Vec<(String, Term)> = Vec::new();
    let out = match edges.edges_of(subject) {
        Some(out) => out,
        None => &none,
    };
    proof {
        assert(views(out@) =~= edges_from(edges@, subject@));
    }
    let ghost start = met@;
    match serialize_edges(edges, cfg, out, met, depth + 1) {
        Ok(groups) => {
            let ghost pairs = edge_values(edges@, *cfg, views(out@), start, depth + 1).value->Ok_0;
            Ok(make_object(&display_id(subject), cfg.include_id, groups, Ghost(pairs)))
        },
        Err(e) => Err(e),
    }
}

fn serialize_edges(
    edges: &EdgeMap,
    cfg: &Config,
    out: &Vec<(String, Term)>,
    met: &mut Names,
    depth: usize,
) -> (r: Result<Table<Vec<Json>>, String>)
    requires
        edges@.out.dom().finite(),
        depth <= MAX_DEPTH + 1,
    ensures
        ({
            let w = edge_values(edges@, *cfg, views(out@), old(met)@, depth as int);
            &&& final(met)@ == w.met
            &&& match r {
                Ok(groups) => w.value is Ok && group_views(groups@) == grouped_values(w.value->Ok_0) && groups_wf(
                    group_views(groups@),
                ),
                Err(e) => w.value == Err::<Seq<(Seq<char>, JsonView)>, Seq<char>>(e@),
            }
        }),
    decreases MAX_DEPTH + 2 - depth, 5int,
{
    let ghost all = views(out@);
    let ghost start = met@;
    let mut groups: Table<Vec<Json>> = Table::new();
    let ghost mut pairs: Seq<(Seq<char>, JsonView)> = Seq::empty();
    proof {
        assert(group_views(groups@) =~= grouped_values(pairs));
    }
    for i in 0..out.len()
        invariant
            all == views(out@),
            edge_values(edges@, *cfg, all.take(i as int), start, depth as int) == (Walked {
                value: Ok(pairs),
                met: met@,
            }),
            group_views(groups@) == grouped_values(pairs),
            groups_wf(group_views(groups@)),
    {
        proof {
            assert(all.take(i + 1).drop_last() =~= all.take(i as int));
            assert(all[i as int] == (out@[i as int].0@, out@[i as int].1@));
        }
        let key = local_name(&out[i].0);
        match serialize_object(edges, cfg, &out[i].1, met, depth) {
            Ok(value) => {
                proof {
                    let was = pairs;
                    pairs = pairs.push((key@, value@));
                    assert(pairs.drop_last() =~= was);
                }
                add_to_group(&mut groups, key, value);
            },
            Err(e) => {
                proof {
                    edge_error_stays(edges@, *cfg, all, start, depth as int, i + 1);
                }
                return Err(e);
            },
        }
    }
    proof {
        assert(all.take(all.len() as int) =~= all);
    }
    Ok(groups)
}

fn serialize_object(edges: &EdgeMap, cfg: &Config, object: &Term, met: &mut Names, depth: usize) -> (r: Result<
    Json,
    String,
>)
    requires
        edges@.out.dom().finite(),
        depth <= MAX_DEPTH + 1,
    ensures
        walked(r, final(met)@) == object_value(edges@, *cfg, object@, old(met)@, depth as int),
        r matches Ok(j) ==> j@.wf(),
    decreases MAX_DEPTH + 2 - depth, 4int,
{
    match object {
        Term::Iri(iri) => if same(iri, RDF_NIL) {
            let items: Vec<Json> = Vec::new();
            proof {
                assert(views(items@) =~= Seq::empty());
            }
            Ok(array_of(items))
        } else if edges.edges_of(iri).is_some() {
            serialize_subject(edges, cfg, iri, met, depth)
        } else {
            Ok(Json::text(iri))
        },
        Term::Bnode(label) => {
            let key = "_:".to_owned().concat(label);
            if edges.edges_of(&key).is_some() {
                serialize_subject(edges, cfg, &key, met, depth)
            } else {
                Ok(Json::Text(mint_genid(label)))
            }
        },
        Term::Literal { label, datatype, lang } => Ok(literal_to_json(label, datatype, lang)),
    }
}

/// The view of a cell.
spec fn cell_view(first: Option<Json>, rest: Option<String>) -> Cell {
    Cell {
        first: match first {
            Some(j) => Some(j@),
            None => None,
        },
        rest: opt_view(rest),
    }
}

fn serialize_cell(edges: &EdgeMap, cfg: &Config, node: &str, met: &mut Names, depth: usize) -> (r: Result<
    (Option<Json>, Option<String>),
    String,
>)
    requires
        edges@.out.dom().finite(),
        depth <= MAX_DEPTH + 1,
    ensures
        ({
            let w = cell_value(edges@, *cfg, node@, edges_from(edges@, node@), old(met)@, depth as int);
            &&& final(met)@ == w.met
            &&& match r {
                Ok((first, rest)) => w.value == Ok::<Cell, Seq<char>>(cell_view(first, rest)) && (first matches Some(j)
                    ==> j@.wf()),
                Err(e) => w.value == Err::<Cell, Seq<char>>(e@),
            }
        }),
    decreases MAX_DEPTH + 2 - depth, 5int,
{
    let ghost all = edges_from(edges@, node@);
    let ghost start = met@;
    let mut first: Option<Json> = None;
    let mut rest: Option<String> = None;
    let out = match edges.edges_of(node) {
        Some(out) => out,
        None => {
            return Ok((None, None));
        },
    };
    for i in 0..out.len()
        invariant
            all == views(out@),
            cell_value(edges@, *cfg, node@, all.take(i as int), start, depth as int) == (Walked {
                value: Ok(cell_view(first, rest)),
                met: met@,
            }),
            first matches Some(j) ==> j@.wf(),
    {
        proof {
            assert(all.take(i + 1).drop_last() =~= all.take(i as int));
            assert(all[i as int] == (out@[i as int].0@, out@[i as int].1@));
        }
        if same(&out[i].0, RDF_FIRST) {
            match serialize_object(edges, cfg, &out[i].1, met, depth) {
                Ok(value) => {
                    first = Some(value);
                },
                Err(e) => {
                    proof {
                        cell_error_stays(edges@, *cfg, node@, all, start, depth as int, i + 1);
                    }
                    return Err(e);
                },
            }
        } else if same(&out[i].0, RDF_REST) {
            match &out[i].1 {
                Term::Iri(iri) => {
                    rest = Some(iri.clone());
                },
                Term::Bnode(label) => {
                    rest = Some("_:".to_owned().concat(label));
                },
                Term::Literal { .. } => {
                    proof {
                        cell_error_stays(edges@, *cfg, node@, all, start, depth as int, i + 1);
                    }
                    return Err("wf_demote_tree: rdf:rest points to literal at ".to_owned().concat(node));
                },
            }
        }
    }
    proof {
        assert(all.take(all.len() as int) =~= all);
    }
    Ok((first, rest))
}

fn serialize_list(edges: &EdgeMap, cfg: &Config, head: &str, met: &mut Names, depth: usize) -> (r: Result<
    Json,
    String,
>)
    requires
        edges@.out.dom().finite(),
        depth <= MAX_DEPTH,
    ensures
        walked(r, final(met)@) == list_value(edges@, *cfg, head@, old(met)@, depth as int),
        r matches Ok(j) ==> j@.wf(),
    decreases MAX_DEPTH + 2 - depth, 2int,
{
    broadcast use views_push;

    let ghost e = edges@;
    let ghost goal = list_value(e, *cfg, head@, met@, depth as int);
    let mut items: Vec<Json> = Vec::new();
    proof {
        assert(views(items@) =~= Seq::empty());
    }
    if same(head, RDF_NIL) {
        return Ok(array_of(items));
    }
    let (first, rest) = match serialize_cell(edges, cfg, head, met, depth + 1) {
        Ok(cell) => cell,
        Err(error) => {
            return Err(error);
        },
    };
    let ghost seen = cell_view(first, rest);
    match first {
        Some(v) => items.push(v),
        None => {},
    }
    proof {
        assert(views(items@) =~= items_with(Seq::empty(), seen.first));
        assert(all_wf(views(items@)));
    }
    let mut cursor: Option<String> = rest;
    loop
        invariant
            e == edges@,
            e.out.dom().finite(),
            depth <= MAX_DEPTH,
            all_wf(views(items@)),
            rest_value(e, *cfg, opt_view(cursor), views(items@), met@, depth as int) == goal,
        decreases
                (if cursor is Some {
                    unmet(e, met@) + 1
                } else {
                    0
                }),
    {
        let node = match cursor {
            Some(node) => node,
            None => {
                return Ok(array_of(items));
            },
        };
        if same(&node, RDF_NIL) {
            return Ok(array_of(items));
        }
        let ghost was = met@;
        if !met.insert(node.clone()) {
            let ghost before = views(items@);
            items.push(object_of("$cycle", Json::Text(display_id(&node))));
            proof {
                assert(met@ =~= was);
                assert(all_wf(views(items@)));
            }
            return Ok(array_of(items));
        }
        let ghost now = met@;
        let (first, rest) = match serialize_cell(edges, cfg, &node, met, depth + 1) {
            Ok(cell) => cell,
            Err(error) => {
                return Err(error);
            },
        };
        let ghost read = cell_view(first, rest);
        let ghost before = views(items@);
        proof {
            cell_keeps(e, *cfg, node@, edges_from(e, node@), now, depth + 1);
            assert(met@.union(now) =~= met@);
            unmet_shrinks(e, was, node@, met@);
        }
        match first {
            Some(v) => items.push(v),
            None => {},
        }
        proof {
            assert(views(items@) =~= items_with(before, read.first));
            assert(all_wf(views(items@)));
        }
        cursor = rest;
    }
}

/// How many nodes a document shows, where these have been met on the way from
/// the root: all of them, but for the empty list as a root.
pub open spec fn shown_nodes(e: EdgeMapView, c: Config, root: Seq<char>, met: Set<Seq<char>>) -> nat {
    if root == RDF_NIL@ && c.collapse_rdf_lists && is_head(e, root) {
        0
    } else {
        in_order(met).len()
    }
}

/// A part of the graph as a document, from a root on. The nodes that it shows
/// are added to the count.
pub fn serialize_tree(edges: &EdgeMap, root: &str, cfg: &Config, node_count: &mut u64) -> (r: Result<Json, String>)
    ensures
        ({
            let w = subject_value(edges@, *cfg, root@, Set::empty(), 0);
            &&& match r {
                Ok(j) => w.value == Ok::<JsonView, Seq<char>>(j@) && j@.wf(),
                Err(e) => w.value == Err::<JsonView, Seq<char>>(e@),
            }
            &&& *final(node_count) == (*old(node_count)).wrapping_add(
                shown_nodes(edges@, *cfg, root@, w.met) as u64,
            )
        }),
{
    let _known: usize = edges.out.len();
    proof {
        assert(edges@.out.dom() =~= edges.out@.dom());
    }
    let mut met = Names::new();
    let r = serialize_subject(edges, cfg, root, &mut met, 0);
    if !(same(root, RDF_NIL) && cfg.collapse_rdf_lists && is_list_head(edges, root)) {
        let n: usize = met.len();
        *node_count = node_count.wrapping_add(n as u64);
    }
    r
}

// ---------------------------------------------------------------------------
// Laws
// ---------------------------------------------------------------------------

/// A literal of a list.
pub struct LiteralItem {
    pub label: Seq<char>,
    pub datatype: Seq<char>,
    pub lang: Option<Seq<char>>,
}

pub open spec fn item_term(l: LiteralItem) -> TermView {
    TermView::Literal { label: l.label, datatype: l.datatype, lang: l.lang }
}

pub open spec fn item_value(l: LiteralItem) -> JsonView {
    literal_value(l.label, l.datatype, l.lang)
}

/// Whether an edge leads to the node that is called `name`.
pub open spec fn leads_to(t: TermView, name: Seq<char>) -> bool {
    match t {
        TermView::Iri(iri) => iri == name,
        TermView::Bnode(label) => "_:"@ + label == name,
        TermView::Literal { .. } => false,
    }
}

/// Whether the edges of a node are those of a list's cell: a literal, and a rest
/// that is called `next`.
pub open spec fn is_cell(edges: Seq<(Seq<char>, TermView)>, item: LiteralItem, next: Seq<char>) -> bool {
    &&& edges.len() == 2
    &&& edges[0] == (RDF_FIRST@, item_term(item))
    &&& edges[1].0 == RDF_REST@ && leads_to(edges[1].1, next)
}

/// What follows the node at a position.
pub open spec fn next_name(nodes: Seq<Seq<char>>, i: int) -> Seq<char> {
    if i + 1 < nodes.len() {
        nodes[i + 1]
    } else {
        RDF_NIL@
    }
}

/// Whether the nodes are the cells of a list of literals.
pub open spec fn is_list(e: EdgeMapView, nodes: Seq<Seq<char>>, items: Seq<LiteralItem>) -> bool {
    &&& nodes.len() == items.len() && nodes.no_duplicates()
    &&& forall|i: int|
        0 <= i < nodes.len() ==> {
            &&& e.out.contains_key(#[trigger] nodes[i]) && nodes[i] != RDF_NIL@
            &&& is_cell(e.out[nodes[i]], items[i], next_name(nodes, i))
        }
}

/// The values of literals.
pub open spec fn item_values(items: Seq<LiteralItem>) -> Seq<JsonView> {
    Seq::new(items.len(), |i: int| item_value(items[i]))
}

proof fn cell_reads(
    e: EdgeMapView,
    c: Config,
    node: Seq<char>,
    edges: Seq<(Seq<char>, TermView)>,
    item: LiteralItem,
    next: Seq<char>,
    met: Set<Seq<char>>,
    depth: int,
)
    requires
        is_cell(edges, item, next),
    ensures
        cell_value(e, c, node, edges, met, depth) == (Walked::<Cell> {
            value: Ok(Cell { first: Some(item_value(item)), rest: Some(next) }),
            met,
        }),
{
    reveal_strlit("http://www.w3.org/1999/02/22-rdf-syntax-ns#first");
    reveal_strlit("http://www.w3.org/1999/02/22-rdf-syntax-ns#rest");
    assert(RDF_FIRST@.len() != RDF_REST@.len());
    let one = edges.drop_last();
    assert(one.last() == edges[0]);
    assert(one.drop_last() =~= Seq::empty());
    assert(cell_value(e, c, node, one.drop_last(), met, depth) == (Walked::<Cell> {
        value: Ok(Cell { first: None, rest: None }),
        met,
    }));
    assert(object_value(e, c, item_term(item), met, depth) == (Walked::<JsonView> {
        value: Ok(item_value(item)),
        met,
    }));
    assert(cell_value(e, c, node, one, met, depth) == (Walked::<Cell> {
        value: Ok(Cell { first: Some(item_value(item)), rest: None }),
        met,
    }));
}

proof fn rest_reads(
    e: EdgeMapView,
    c: Config,
    nodes: Seq<Seq<char>>,
    items: Seq<LiteralItem>,
    k: int,
    done: Seq<JsonView>,
    met: Set<Seq<char>>,
    depth: int,
)
    requires
        e.out.dom().finite(),
        is_list(e, nodes, items),
        0 <= k <= nodes.len(),
        nodes.len() > 0,
        depth <= MAX_DEPTH,
        forall|i: int| k <= i < nodes.len() ==> !met.contains(#[trigger] nodes[i]),
    ensures
        rest_value(e, c, Some(next_name(nodes, k - 1)), done, met, depth).value == Ok::<JsonView, Seq<char>>(
            JsonView::Array(done + item_values(items).skip(k)),
        ),
    decreases nodes.len() - k,
{
    if k == nodes.len() {
        assert(item_values(items).skip(k) =~= Seq::empty());
        assert(done + Seq::<JsonView>::empty() =~= done);
    } else {
        let node = nodes[k];
        assert(next_name(nodes, k - 1) == node);
        let now = met.insert(node);
        let next = next_name(nodes, k);
        assert(edges_from(e, node) == e.out[node]);
        cell_reads(e, c, node, edges_from(e, node), items[k], next, now, depth + 1);
        assert(now.union(now) =~= now);
        assert forall|i: int| k + 1 <= i < nodes.len() implies !now.contains(#[trigger] nodes[i]) by {
            assert(nodes[i] != nodes[k]);
        }
        let more = done.push(item_value(items[k]));
        rest_reads(e, c, nodes, items, k + 1, more, now, depth);
        assert(more + item_values(items).skip(k + 1) =~= done + item_values(items).skip(k));
        assert(next_name(nodes, k + 1 - 1) == next);
    }
}

/// A list of literals becomes the array of their values, in order.
pub proof fn list_becomes_array(e: EdgeMapView, c: Config, nodes: Seq<Seq<char>>, items: Seq<LiteralItem>)
    requires
        e.out.dom().finite(),
        c.collapse_rdf_lists,
        is_list(e, nodes, items),
        nodes.len() > 0,
    ensures
        subject_value(e, c, nodes[0], Set::empty(), 0).value == Ok::<JsonView, Seq<char>>(
            JsonView::Array(item_values(items)),
        ),
{
    let head = nodes[0];
    let edges = edges_from(e, head);
    assert(edges == e.out[head]);
    assert(is_cell(edges, items[0], next_name(nodes, 0)));
    assert(edges[0].0 == RDF_FIRST@ && edges[1].0 == RDF_REST@);
    assert(is_head(e, head));
    let met = Set::<Seq<char>>::empty().insert(head);
    cell_reads(e, c, head, edges, items[0], next_name(nodes, 0), met, 1);
    assert forall|i: int| 1 <= i < nodes.len() implies !met.contains(#[trigger] nodes[i]) by {
        assert(nodes[i] != nodes[0]);
    }
    let first = Seq::<JsonView>::empty().push(item_value(items[0]));
    rest_reads(e, c, nodes, items, 1, first, met, 0);
    assert(first + item_values(items).skip(1) =~= item_values(items));
}

proof fn rest_is_array(
    e: EdgeMapView,
    c: Config,
    rest: Option<Seq<char>>,
    items: Seq<JsonView>,
    met: Set<Seq<char>>,
    depth: int,
)
    requires
        e.out.dom().finite(),
    ensures
        rest_value(e, c, rest, items, met, depth).value matches Ok(v) ==> v is Array,
    decreases
            (if rest is Some {
                unmet(e, met) + 1
            } else {
                0
            }),
{
    match rest {
        None => {},
        Some(node) => {
            if depth <= MAX_DEPTH && node != RDF_NIL@ && !met.contains(node) {
                let now = met.insert(node);
                let w = cell_value(e, c, node, edges_from(e, node), now, depth + 1);
                if let Ok(cell) = w.value {
                    let all = w.met.union(now);
                    unmet_shrinks(e, met, node, all);
                    if e.out.contains_key(node) {
                        rest_is_array(e, c, cell.rest, items_with(items, cell.first), all, depth);
                    } else {
                        rest_is_array(e, c, None, items_with(items, cell.first), all, depth);
                    }
                }
            }
        },
    }
}

/// The head of a list is shown as an array, whatever its elements are and
/// wherever the list stands.
pub proof fn list_head_is_an_array(e: EdgeMapView, c: Config, head: Seq<char>, met: Set<Seq<char>>, depth: int)
    requires
        e.out.dom().finite(),
        c.collapse_rdf_lists,
        is_head(e, head),
        !met.contains(head),
    ensures
        subject_value(e, c, head, met, depth).value matches Ok(v) ==> v is Array,
{
    if depth <= MAX_DEPTH && head != RDF_NIL@ {
        let now = met.insert(head);
        let w = cell_value(e, c, head, edges_from(e, head), now, depth + 1);
        if let Ok(cell) = w.value {
            rest_is_array(e, c, cell.rest, items_with(Seq::empty(), cell.first), w.met, depth);
        }
        assert(subject_value(e, c, head, met, depth) == list_value(e, c, head, now, depth));
    }
}

/// A node that has been met is shown as a reference, and is not walked again.
pub proof fn met_again_is_a_reference(e: EdgeMapView, c: Config, subject: Seq<char>, met: Set<Seq<char>>, depth: int)
    requires
        depth <= MAX_DEPTH,
        met.contains(subject),
    ensures
        subject_value(e, c, subject, met, depth) == (Walked::<JsonView> {
            value: Ok(object1("$ref"@, JsonView::Text(id_of(subject)))),
            met,
        }),
{
}

} // verus!

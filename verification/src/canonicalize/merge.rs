//! Merging of identifiers that `owl:sameAs` declares equal: which identifier
//! stands for each class, and the updates that rewrite the graph to it.

use vstd::prelude::*;
use vstd::string::*;
use vstd::utf8::encode_utf8;

use crate::canonicalize::document_sweep::SweepResult;
use crate::canonicalize::fulltext_sweep::{texts, LiteralOrIri, SweepCounts};
use crate::canonicalize::union_find::{class_views, connected, elements_come_from_pairs, is_class, is_path, joined_by,
    merged, merged_all, partitions, sets_are_the_connected_elements, DisjointSetUnion};
use crate::hash::{genid, genid_shape, mint_genid};
use crate::json::{json_text, no_fields, no_fields_wf, object_view, put_field, put_wf, Fields, Json, JsonView};
use crate::number::{decimal_of, decimal_usize, int_text, decimal_i64};
use crate::order::{at_most, at_most_transitive, before_irreflexive, before_total, is_before, sort_by_key, stably_sorts,
    views_sorted, HasKey};
use crate::rdf::{bracket, bracketed, find_value, json_literal, literal_sparql, literal_to_sparql, row_views, typed,
    value_in, Binding, BindingView, Term, TermView, RDF_JSON};
use crate::table::{ascends_distinct, Table};
use crate::text::{copy_opt, debug_text, has_text, join, joined, opt_view, quote, same, views, views_push};

verus! {

pub const OWL_SAME_AS: &'static str = "http://www.w3.org/2002/07/owl#sameAs";

pub const ALIAS_TABLE: &'static str = "aliases";

/// The rule where none is configured.
pub fn default_rule() -> (r: String)
    ensures
        r@ == "mint_genid"@,
{
    "mint_genid".to_owned()
}

// ---------------------------------------------------------------------------
// Rows of the alias table
// ---------------------------------------------------------------------------

/// A value of a tracker's row. A value that is neither text nor integer is
/// carried as the host prints it.
#[derive(Debug)]
pub enum TrackerValue {
    TextValue(String),
    IntegerValue(i64),
    Other(String),
}

pub open spec fn tracker_value_text(v: TrackerValue) -> Seq<char> {
    match v {
        TrackerValue::TextValue(s) => "TrackerValue::TextValue("@ + debug_text(s@) + ")"@,
        TrackerValue::IntegerValue(i) => "TrackerValue::IntegerValue("@ + int_text(i as int) + ")"@,
        TrackerValue::Other(t) => t@,
    }
}

fn print_tracker_value(v: &TrackerValue) -> (r: String)
    ensures
        r@ == tracker_value_text(*v),
{
    match v {
        TrackerValue::TextValue(s) => {
            let q = quote(s);
            "TrackerValue::TextValue(".to_owned().concat(&q).concat(")")
        },
        TrackerValue::IntegerValue(i) => {
            let n = decimal_i64(*i);
            "TrackerValue::IntegerValue(".to_owned().concat(&n).concat(")")
        },
        TrackerValue::Other(t) => t.clone(),
    }
}

/// The text at a column.
pub open spec fn text_column(values: Seq<TrackerValue>, idx: int) -> Result<Seq<char>, Seq<char>> {
    if 0 <= idx < values.len() {
        match values[idx] {
            TrackerValue::TextValue(s) => Ok(s@),
            other => Err(
                "tracker-select: expected text at column "@ + decimal_of(idx as nat) + ", got "@
                    + tracker_value_text(other),
            ),
        }
    } else {
        Err("tracker-select: missing column "@ + decimal_of(idx as nat))
    }
}

/// The integer at a column.
pub open spec fn integer_column(values: Seq<TrackerValue>, idx: int) -> Result<i64, Seq<char>> {
    if 0 <= idx < values.len() {
        match values[idx] {
            TrackerValue::IntegerValue(i) => Ok(i),
            other => Err(
                "tracker-select: expected integer at column "@ + decimal_of(idx as nat) + ", got "@
                    + tracker_value_text(other),
            ),
        }
    } else {
        Err("tracker-select: missing column "@ + decimal_of(idx as nat))
    }
}

pub fn tracker_text(values: &Vec<TrackerValue>, idx: usize) -> (r: Result<String, String>)
    ensures
        match r {
            Ok(s) => text_column(values@, idx as int) == Ok::<Seq<char>, Seq<char>>(s@),
            Err(e) => text_column(values@, idx as int) == Err::<Seq<char>, Seq<char>>(e@),
        },
{
    let n = decimal_usize(idx);
    if idx >= values.len() {
        return Err("tracker-select: missing column ".to_owned().concat(&n));
    }
    match &values[idx] {
        TrackerValue::TextValue(s) => Ok(s.clone()),
        other => {
            let shown = print_tracker_value(other);
            Err("tracker-select: expected text at column ".to_owned().concat(&n).concat(", got ").concat(&shown))
        },
    }
}

pub fn tracker_int(values: &Vec<TrackerValue>, idx: usize) -> (r: Result<i64, String>)
    ensures
        match r {
            Ok(i) => integer_column(values@, idx as int) == Ok::<i64, Seq<char>>(i),
            Err(e) => integer_column(values@, idx as int) == Err::<i64, Seq<char>>(e@),
        },
{
    let n = decimal_usize(idx);
    if idx >= values.len() {
        return Err("tracker-select: missing column ".to_owned().concat(&n));
    }
    match &values[idx] {
        TrackerValue::IntegerValue(i) => Ok(*i),
        other => {
            let shown = print_tracker_value(other);
            Err(
                "tracker-select: expected integer at column ".to_owned().concat(&n).concat(", got ").concat(
                    &shown,
                ),
            )
        },
    }
}

/// A pair of identifiers.
pub open spec fn pair_views(pairs: Seq<(String, String)>) -> Seq<(Seq<char>, Seq<char>)> {
    views(pairs)
}

/// An alias and what it stands for, as a row of the alias table gives them.
pub open spec fn alias_row(values: Seq<TrackerValue>) -> Result<(Seq<char>, Seq<char>), Seq<char>> {
    match text_column(values, 0) {
        Err(e) => Err(e),
        Ok(alias) => match text_column(values, 1) {
            Err(e) => Err(e),
            Ok(canonical) => Ok((alias, canonical)),
        },
    }
}

/// The pairs of the alias table; the first row that is refused refuses all.
pub open spec fn alias_rows(rows: Seq<Seq<TrackerValue>>) -> Result<Seq<(Seq<char>, Seq<char>)>, Seq<char>>
    decreases rows.len(),
{
    if rows.len() == 0 {
        Ok(Seq::empty())
    } else {
        match alias_rows(rows.drop_last()) {
            Err(e) => Err(e),
            Ok(done) => match alias_row(rows.last()) {
                Err(e) => Err(e),
                Ok(pair) => Ok(done.push(pair)),
            },
        }
    }
}

proof fn alias_error_stays(rows: Seq<Seq<TrackerValue>>, k: int)
    requires
        0 <= k <= rows.len(),
        alias_rows(rows.take(k)) is Err,
    ensures
        alias_rows(rows) == alias_rows(rows.take(k)),
    decreases rows.len(),
{
    if k == rows.len() {
        assert(rows.take(k) =~= rows);
    } else {
        assert(rows.drop_last().take(k) =~= rows.take(k));
        alias_error_stays(rows.drop_last(), k);
    }
}

/// Reads the alias table.
pub fn read_aliases(rows: &Vec<Vec<TrackerValue>>) -> (r: Result<Vec<(String, String)>, String>)
    ensures
        match r {
            Ok(pairs) => alias_rows(views(rows@)) == Ok::<Seq<(Seq<char>, Seq<char>)>, Seq<char>>(
                pair_views(pairs@),
            ),
            Err(e) => alias_rows(views(rows@)) == Err::<Seq<(Seq<char>, Seq<char>)>, Seq<char>>(e@),
        },
{
    broadcast use views_push;

    let ghost all = views(rows@);
    let mut out: Vec<(String, String)> = Vec::new();
    proof {
        assert(pair_views(out@) =~= Seq::<(Seq<char>, Seq<char>)>::empty());
        assert(all.take(0) =~= Seq::<Seq<TrackerValue>>::empty());
    }
    for i in 0..rows.len()
        invariant
            all == views(rows@),
            alias_rows(all.take(i as int)) == Ok::<Seq<(Seq<char>, Seq<char>)>, Seq<char>>(
                pair_views(out@),
            ),
    {
        proof {
            assert(all.take(i + 1).drop_last() =~= all.take(i as int));
            assert(all[i as int] == rows@[i as int]@);
        }
        let alias = match tracker_text(&rows[i], 0) {
            Ok(s) => s,
            Err(e) => {
                proof {
                    alias_error_stays(all, i + 1);
                }
                return Err(e);
            },
        };
        let canonical = match tracker_text(&rows[i], 1) {
            Ok(s) => s,
            Err(e) => {
                proof {
                    alias_error_stays(all, i + 1);
                }
                return Err(e);
            },
        };
        out.push((alias, canonical));
    }
    proof {
        assert(all.take(all.len() as int) =~= all);
    }
    Ok(out)
}

// ---------------------------------------------------------------------------
// Rows of the graph
// ---------------------------------------------------------------------------

/// The IRI that a row gives a variable.
pub open spec fn iri_in(row: Seq<BindingView>, variable: Seq<char>) -> Option<Seq<char>> {
    match value_in(row, variable) {
        Some(TermView::NamedNode(iri)) => Some(iri),
        _ => None,
    }
}

pub fn binding_iri(row: &Vec<Binding>, variable: &str) -> (r: Option<String>)
    ensures
        opt_view(r) == iri_in(views(row@), variable@),
{
    match find_value(row, variable) {
        Some(t) => match t {
            Term::NamedNode(iri) => Some(iri.clone()),
            _ => None,
        },
        None => None,
    }
}

/// The query for the declared equalities.
pub open spec fn same_as_query_text() -> Seq<char> {
    "SELECT ?a ?b WHERE { ?a <"@ + OWL_SAME_AS@ + "> ?b }"@
}

pub fn same_as_query() -> (r: String)
    ensures
        r@ == same_as_query_text(),
{
    "SELECT ?a ?b WHERE { ?a <".to_owned().concat(OWL_SAME_AS).concat("> ?b }")
}

/// The pairs of IRIs that the rows give `?a` and `?b`.
pub open spec fn same_as_pairs(rows: Seq<Seq<BindingView>>) -> Seq<(Seq<char>, Seq<char>)>
    decreases rows.len(),
{
    if rows.len() == 0 {
        Seq::empty()
    } else {
        let before = same_as_pairs(rows.drop_last());
        match (iri_in(rows.last(), "a"@), iri_in(rows.last(), "b"@)) {
            (Some(a), Some(b)) => before.push((a, b)),
            _ => before,
        }
    }
}

pub fn read_same_as(rows: &Vec<Vec<Binding>>) -> (r: Vec<(String, String)>)
    ensures
        pair_views(r@) == same_as_pairs(row_views(rows@)),
{
    broadcast use views_push;

    let ghost all = row_views(rows@);
    let mut out: Vec<(String, String)> = Vec::new();
    proof {
        assert(pair_views(out@) =~= same_as_pairs(all.take(0)));
    }
    for i in 0..rows.len()
        invariant
            all == row_views(rows@),
            pair_views(out@) == same_as_pairs(all.take(i as int)),
    {
        proof {
            assert(all.take(i + 1).drop_last() =~= all.take(i as int));
            assert(all[i as int] == views(rows@[i as int]@));
        }
        let a = binding_iri(&rows[i], "a");
        let b = binding_iri(&rows[i], "b");
        match (a, b) {
            (Some(a), Some(b)) => out.push((a, b)),
            _ => {},
        }
    }
    proof {
        assert(all.take(all.len() as int) =~= all);
    }
    out
}

/// The query for the statements of some predicates.
pub open spec fn literal_query_text(predicates: Seq<Seq<char>>) -> Seq<char> {
    "SELECT ?s ?p ?o WHERE { ?s ?p ?o . VALUES ?p { "@ + bracketed_list(predicates) + " } }"@
}

/// IRIs in angle brackets with a space between them.
pub open spec fn bracketed_list(iris: Seq<Seq<char>>) -> Seq<char> {
    joined(Seq::new(iris.len(), |i: int| bracketed(iris[i])), " "@)
}

pub fn bracket_list(iris: &[String]) -> (r: String)
    ensures
        r@ == bracketed_list(views(iris@)),
{
    let mut parts: Vec<String> = Vec::new();
    let n: usize = iris.len();
    for i in 0..n
        invariant
            n == iris@.len(),
            parts@.len() == i,
            forall|j: int| 0 <= j < i ==> (#[trigger] parts@[j])@ == bracketed(iris@[j]@),
    {
        parts.push(bracket(&iris[i]));
    }
    proof {
        let ids = views(iris@);
        assert(views(parts@) =~= Seq::new(ids.len(), |i: int| bracketed(ids[i])));
    }
    join(&parts, " ")
}

pub fn literal_query(predicates: &[String]) -> (r: String)
    ensures
        r@ == literal_query_text(views(predicates@)),
{
    let list = bracket_list(predicates);
    "SELECT ?s ?p ?o WHERE { ?s ?p ?o . VALUES ?p { ".to_owned().concat(&list).concat(" } }")
}

/// A statement for the literal indexes.
pub open spec fn statement_of(row: Seq<BindingView>) -> Option<(Seq<char>, Seq<char>, TermView)> {
    match (iri_in(row, "s"@), iri_in(row, "p"@), value_in(row, "o"@)) {
        (Some(s), Some(p), Some(o)) => match o {
            TermView::Literal(_) => Some((s, p, o)),
            TermView::NamedNode(_) => Some((s, p, o)),
            _ => None,
        },
        _ => None,
    }
}

pub open spec fn statements_of(rows: Seq<Seq<BindingView>>) -> Seq<(Seq<char>, Seq<char>, TermView)>
    decreases rows.len(),
{
    if rows.len() == 0 {
        Seq::empty()
    } else {
        let before = statements_of(rows.drop_last());
        match statement_of(rows.last()) {
            Some(s) => before.push(s),
            None => before,
        }
    }
}

/// Whether a read statement is the one of the graph; a literal's datatype is
/// not read.
pub open spec fn reads(row: (String, String, LiteralOrIri), s: (Seq<char>, Seq<char>, TermView)) -> bool {
    &&& row.0@ == s.0
    &&& row.1@ == s.1
    &&& match (row.2, s.2) {
        (LiteralOrIri::Literal { lex, lang }, TermView::Literal(l)) => lex@ == l.value && opt_view(lang)
            == l.language,
        (LiteralOrIri::Iri(iri), TermView::NamedNode(i)) => iri@ == i,
        _ => false,
    }
}

/// Reads the statements for the literal indexes: subject and predicate are
/// IRIs, the object is a literal or an IRI.
pub fn read_statements(rows: &Vec<Vec<Binding>>) -> (r: Vec<(String, String, LiteralOrIri)>)
    ensures
        r@.len() == statements_of(row_views(rows@)).len(),
        forall|i: int| 0 <= i < r@.len() ==> reads(#[trigger] r@[i], statements_of(row_views(rows@))[i]),
{
    let ghost all = row_views(rows@);
    let mut out: Vec<(String, String, LiteralOrIri)> = Vec::new();
    for i in 0..rows.len()
        invariant
            all == row_views(rows@),
            out@.len() == statements_of(all.take(i as int)).len(),
            forall|j: int|
                0 <= j < out@.len() ==> reads(#[trigger] out@[j], statements_of(all.take(i as int))[j]),
    {
        proof {
            assert(all.take(i + 1).drop_last() =~= all.take(i as int));
            assert(all[i as int] == views(rows@[i as int]@));
        }
        let s = binding_iri(&rows[i], "s");
        let p = binding_iri(&rows[i], "p");
        let o = find_value(&rows[i], "o");
        match (s, p, o) {
            (Some(s), Some(p), Some(o)) => match o {
                Term::Literal(l) => {
                    out.push(
                        (s, p, LiteralOrIri::Literal { lex: l.value.clone(), lang: copy_opt(&l.language) }),
                    );
                },
                Term::NamedNode(iri) => {
                    out.push((s, p, LiteralOrIri::Iri(iri.clone())));
                },
                _ => {},
            },
            _ => {},
        }
    }
    proof {
        assert(all.take(all.len() as int) =~= all);
    }
    out
}

// ---------------------------------------------------------------------------
// Which identifier stands for a class
// ---------------------------------------------------------------------------

/// Whether `a` is shorter than `b` in bytes, or as long and no later.
pub open spec fn shorter(a: Seq<char>, b: Seq<char>) -> bool {
    encode_utf8(a).len() < encode_utf8(b).len() || (encode_utf8(a).len() == encode_utf8(b).len() && at_most(
        a,
        b,
    ))
}

/// Whether the rule picks `c` for a class. A rule that is not supported picks
/// nothing.
pub open spec fn picks(c: Seq<char>, class: Seq<Seq<char>>, rule: Seq<char>) -> bool {
    if rule == "mint_genid"@ {
        exists|order: Seq<Seq<char>>| #[trigger] stably_sorts(order, class) && c == genid(joined(order, "\0"@))
    } else if rule == "shortest_uri"@ {
        class.contains(c) && forall|m: Seq<char>| class.contains(m) ==> #[trigger] shorter(c, m)
    } else {
        false
    }
}

/// The refusal of a rule, or of a class without members.
pub open spec fn pick_error(class: Seq<Seq<char>>, rule: Seq<char>) -> Option<Seq<char>> {
    if rule == "mint_genid"@ || rule == "shortest_uri"@ {
        if class.len() == 0 {
            Some("wf_canonicalize: empty equivalence class"@)
        } else {
            None
        }
    } else {
        Some("wf_canonicalize: unknown rule `"@ + rule + "` (v1 supports: mint_genid, shortest_uri)"@)
    }
}

fn is_shorter(a: &str, b: &str) -> (r: bool)
    ensures
        r == shorter(a@, b@),
{
    let x: usize = a.as_bytes().len();
    let y: usize = b.as_bytes().len();
    x < y || (x == y && !is_before(b, a))
}

proof fn shorter_transitive(a: Seq<char>, b: Seq<char>, c: Seq<char>)
    requires
        shorter(a, b),
        shorter(b, c),
    ensures
        shorter(a, c),
{
    if encode_utf8(a).len() == encode_utf8(b).len() && encode_utf8(b).len() == encode_utf8(c).len() {
        at_most_transitive(a, b, c);
    }
}

proof fn shorter_total(a: Seq<char>, b: Seq<char>)
    ensures
        shorter(a, b) || shorter(b, a),
        shorter(a, a),
{
    before_total(a, b);
    before_irreflexive(a);
}

/// The identifier that the rule picks for a class.
pub fn pick_canonical(class: &Vec<String>, rule: &str) -> (r: Result<String, String>)
    ensures
        match r {
            Ok(c) => pick_error(views(class@), rule@) is None && picks(c@, views(class@), rule@),
            Err(e) => pick_error(views(class@), rule@) == Some(e@),
        },
{
    let ghost all = views(class@);
    let mint = same(rule, "mint_genid");
    let shortest = same(rule, "shortest_uri");
    if !mint && !shortest {
        return Err(
            "wf_canonicalize: unknown rule `".to_owned().concat(rule).concat(
                "` (v1 supports: mint_genid, shortest_uri)",
            ),
        );
    }
    if class.len() == 0 {
        return Err("wf_canonicalize: empty equivalence class".to_owned());
    }
    if mint {
        let sorted = sort_by_key(crate::text::copy_all(class));
        let input = join(&sorted, "\0");
        proof {
            let copy = choose|copy: Seq<String>| stably_sorts(sorted@, copy) && views(copy) == all;
            views_sorted(sorted@, copy);
            assert(stably_sorts(views(sorted@), all));
        }
        return Ok(mint_genid(&input));
    }
    let mut best: usize = 0;
    proof {
        shorter_total(all[0], all[0]);
    }
    for i in 1..class.len()
        invariant
            all == views(class@),
            best < class@.len(),
            forall|j: int| 0 <= j < i ==> #[trigger] shorter(all[best as int], all[j]),
    {
        proof {
            shorter_total(all[i as int], all[best as int]);
        }
        if !is_shorter(&class[best], &class[i]) {
            proof {
                assert forall|j: int| 0 <= j < i + 1 implies #[trigger] shorter(all[i as int], all[j]) by {
                    if j < i {
                        shorter_transitive(all[i as int], all[best as int], all[j]);
                    } else {
                        shorter_total(all[i as int], all[i as int]);
                    }
                }
            }
            best = i;
        }
    }
    proof {
        assert(all.contains(all[best as int]));
        assert(shortest && !mint);
        assert forall|m: Seq<char>| all.contains(m) implies #[trigger] shorter(all[best as int], m) by {
            let j = choose|j: int| 0 <= j < all.len() && all[j] == m;
            assert(shorter(all[best as int], all[j]));
        }
    }
    Ok(class[best].clone())
}

/// Whether `c` stands for a class: the first of its members that already stood
/// for a class, or what the rule picks.
pub open spec fn stands_for(
    c: Seq<char>,
    class: Seq<Seq<char>>,
    existing: Seq<Seq<char>>,
    rule: Seq<char>,
) -> bool {
    if exists|m: Seq<char>| class.contains(m) && existing.contains(m) {
        class.contains(c) && existing.contains(c) && forall|m: Seq<char>|
            class.contains(m) && existing.contains(m) ==> #[trigger] at_most(c, m)
    } else {
        picks(c, class, rule)
    }
}

/// The refusal of a class that has no member that already stood for a class.
pub open spec fn class_error(
    class: Seq<Seq<char>>,
    existing: Seq<Seq<char>>,
    rule: Seq<char>,
) -> Option<Seq<char>> {
    if exists|m: Seq<char>| class.contains(m) && existing.contains(m) {
        None
    } else {
        pick_error(class, rule)
    }
}

/// The identifier that stands for a class.
pub fn canonical_of(class: &Vec<String>, existing: &Vec<String>, rule: &str) -> (r: Result<String, String>)
    ensures
        match r {
            Ok(c) => class_error(views(class@), views(existing@), rule@) is None && stands_for(
                c@,
                views(class@),
                views(existing@),
                rule@,
            ),
            Err(e) => class_error(views(class@), views(existing@), rule@) == Some(e@),
        },
{
    let ghost all = views(class@);
    let ghost old_ones = views(existing@);
    let mut best: Option<usize> = None;
    for i in 0..class.len()
        invariant
            all == views(class@),
            old_ones == views(existing@),
            match best {
                Some(b) => b < class@.len() && old_ones.contains(all[b as int]) && forall|j: int|
                    0 <= j < i && old_ones.contains(#[trigger] all[j]) ==> at_most(all[b as int], all[j]),
                None => forall|j: int| 0 <= j < i ==> !old_ones.contains(#[trigger] all[j]),
            },
    {
        proof {
            assert(all[i as int] == class@[i as int]@);
        }
        if has_text(existing, &class[i]) {
            match best {
                Some(b) => {
                    if is_before(&class[i], &class[b]) {
                        proof {
                            before_total(all[i as int], all[b as int]);
                            before_irreflexive(all[i as int]);
                            assert forall|j: int| 0 <= j < i + 1 && old_ones.contains(#[trigger] all[j]) implies at_most(
                                all[i as int],
                                all[j],
                            ) by {
                                if j < i {
                                    at_most_transitive(all[i as int], all[b as int], all[j]);
                                }
                            }
                        }
                        best = Some(i);
                    }
                },
                None => {
                    proof {
                        before_irreflexive(all[i as int]);
                    }
                    best = Some(i);
                },
            }
        }
    }
    match best {
        Some(b) => {
            proof {
                assert(all.contains(all[b as int]));
                assert forall|m: Seq<char>| all.contains(m) && old_ones.contains(m) implies #[trigger] at_most(
                    all[b as int],
                    m,
                ) by {
                    let j = choose|j: int| 0 <= j < all.len() && all[j] == m;
                    assert(old_ones.contains(all[j]));
                }
            }
            Ok(class[b].clone())
        },
        None => {
            proof {
                assert forall|m: Seq<char>| all.contains(m) implies !old_ones.contains(m) by {
                    let j = choose|j: int| 0 <= j < all.len() && all[j] == m;
                    assert(!old_ones.contains(all[j]));
                }
            }
            pick_canonical(class, rule)
        },
    }
}

/// The aliases of one class: its members but the one that stands for it.
pub open spec fn class_aliases(class: Seq<Seq<char>>, c: Seq<char>) -> Map<Seq<char>, Seq<char>> {
    Map::new(|m: Seq<char>| class.contains(m) && m != c, |m: Seq<char>| c)
}

/// The aliases of all classes.
pub open spec fn all_aliases(
    classes: Seq<Seq<Seq<char>>>,
    canonicals: Seq<Seq<char>>,
) -> Map<Seq<char>, Seq<char>>
    decreases classes.len(),
{
    if classes.len() == 0 || canonicals.len() != classes.len() {
        Map::empty()
    } else {
        all_aliases(classes.drop_last(), canonicals.drop_last()).union_prefer_right(
            class_aliases(classes.last(), canonicals.last()),
        )
    }
}

/// The second elements of pairs.
pub open spec fn seconds(pairs: Seq<(Seq<char>, Seq<char>)>) -> Seq<Seq<char>> {
    Seq::new(pairs.len(), |i: int| pairs[i].1)
}

/// The result of merging.
pub struct Merge {
    /// How many classes there are.
    pub classes: usize,
    /// How many identifiers stood for a class before.
    pub seeded: usize,
    /// Every alias with the identifier that stands for it.
    pub aliases: Table<String>,
}

/// Whether `m` is the merge of known aliases and declared equalities: no class is
/// refused, and each has the identifier that stands for it.
pub open spec fn merges(
    m: Merge,
    known: Seq<(Seq<char>, Seq<char>)>,
    declared: Seq<(Seq<char>, Seq<char>)>,
    rule: Seq<char>,
) -> bool {
    exists|classes: Seq<Seq<Seq<char>>>, roots: Seq<Seq<char>>, canonicals: Seq<Seq<char>>|
        {
            &&& #[trigger] partitions(classes, roots, merged_all(Map::empty(), known + declared))
            &&& #[trigger] all_stand_for(canonicals, classes, seconds(known), rule)
            &&& none_refused(classes, seconds(known), rule)
            &&& texts(m.aliases@) == all_aliases(classes, canonicals)
            &&& m.classes == classes.len()
            &&& m.seeded == seconds(known).to_set().len()
        }
}

/// Whether no class is refused.
pub open spec fn none_refused(classes: Seq<Seq<Seq<char>>>, existing: Seq<Seq<char>>, rule: Seq<char>) -> bool {
    forall|i: int| 0 <= i < classes.len() ==> class_error(#[trigger] classes[i], existing, rule) is None
}

/// Whether each of `canonicals` stands for its class.
pub open spec fn all_stand_for(
    canonicals: Seq<Seq<char>>,
    classes: Seq<Seq<Seq<char>>>,
    existing: Seq<Seq<char>>,
    rule: Seq<char>,
) -> bool {
    &&& canonicals.len() == classes.len()
    &&& forall|i: int|
        0 <= i < classes.len() ==> stands_for(#[trigger] canonicals[i], classes[i], existing, rule)
}

proof fn merged_all_push(m: Map<Seq<char>, Seq<char>>, pairs: Seq<(Seq<char>, Seq<char>)>, pair: (Seq<char>, Seq<char>))
    ensures
        merged_all(m, pairs.push(pair)) == merged(merged_all(m, pairs), pair.0, pair.1),
{
    assert(pairs.push(pair).drop_last() =~= pairs);
}

/// Merges pairs into the sets.
fn union_all(dsu: &mut DisjointSetUnion, pairs: &Vec<(String, String)>, Ghost(done): Ghost<Seq<(Seq<char>, Seq<char>)>>)
    requires
        old(dsu).wf(),
        old(dsu).reps() == merged_all(Map::empty(), done),
    ensures
        final(dsu).wf(),
        final(dsu).reps() == merged_all(Map::empty(), done + pair_views(pairs@)),
{
    let ghost all = pair_views(pairs@);
    proof {
        assert(done + all.take(0) =~= done);
    }
    for i in 0..pairs.len()
        invariant
            all == pair_views(pairs@),
            dsu.wf(),
            dsu.reps() == merged_all(Map::empty(), done + all.take(i as int)),
    {
        proof {
            assert(all[i as int] == (pairs@[i as int].0@, pairs@[i as int].1@));
            assert(done + all.take(i + 1) =~= (done + all.take(i as int)).push(all[i as int]));
            merged_all_push(Map::empty(), done + all.take(i as int), all[i as int]);
        }
        dsu.union(&pairs[i].0, &pairs[i].1);
    }
    proof {
        assert(all.take(all.len() as int) =~= all);
    }
}

/// The different second elements of the pairs, and how many they are.
fn distinct_seconds(pairs: &Vec<(String, String)>) -> (r: Vec<String>)
    ensures
        views(r@).no_duplicates(),
        forall|k: Seq<char>| views(r@).contains(k) <==> seconds(pair_views(pairs@)).contains(k),
        r@.len() == seconds(pair_views(pairs@)).to_set().len(),
{
    broadcast use views_push;

    let ghost all = seconds(pair_views(pairs@));
    let mut r: Vec<String> = Vec::new();
    for i in 0..pairs.len()
        invariant
            all == seconds(pair_views(pairs@)),
            views(r@).no_duplicates(),
            forall|k: Seq<char>| #[trigger] views(r@).contains(k) <==> all.take(i as int).contains(k),
    {
        let ghost was = views(r@);
        proof {
            assert(all[i as int] == pairs@[i as int].1@);
            assert(all.take(i + 1) =~= all.take(i as int).push(all[i as int]));
        }
        if !has_text(&r, &pairs[i].1) {
            r.push(pairs[i].1.clone());
        }
        proof {
            assert forall|k: Seq<char>| #[trigger] views(r@).contains(k) <==> all.take(i + 1).contains(k) by {
                push_contains(all.take(i as int), all[i as int], k);
                push_contains(was, all[i as int], k);
            }
        }
    }
    proof {
        assert(all.take(all.len() as int) =~= all);
        views(r@).unique_seq_to_set();
        assert(views(r@).to_set() =~= all.to_set());
    }
    r
}

proof fn push_contains(s: Seq<Seq<char>>, x: Seq<char>, k: Seq<char>)
    ensures
        s.push(x).contains(k) <==> s.contains(k) || k == x,
{
    if s.push(x).contains(k) {
        let i = choose|i: int| 0 <= i < s.push(x).len() && s.push(x)[i] == k;
        if i < s.len() {
            assert(s[i] == k);
        }
    }
    if s.contains(k) {
        let i = choose|i: int| 0 <= i < s.len() && s[i] == k;
        assert(s.push(x)[i] == k);
    }
    assert(s.push(x)[s.len() as int] == x);
}

proof fn class_aliases_push(s: Seq<Seq<char>>, x: Seq<char>, c: Seq<char>)
    ensures
        class_aliases(s.push(x), c) == if x == c {
            class_aliases(s, c)
        } else {
            class_aliases(s, c).insert(x, c)
        },
{
    let all = class_aliases(s.push(x), c);
    let some = class_aliases(s, c);
    assert forall|k: Seq<char>| all.dom().contains(k) <==> (some.dom().contains(k) || (k == x && x != c)) by {
        push_contains(s, x, k);
    }
    if x == c {
        assert(all =~= some);
    } else {
        assert(all.dom() =~= some.insert(x, c).dom());
        assert(all =~= some.insert(x, c));
    }
}

/// Adds the aliases of one class.
fn add_aliases(aliases: &mut Table<String>, class: &Vec<String>, canonical: &str)
    ensures
        texts(final(aliases)@) == texts(old(aliases)@).union_prefer_right(
            class_aliases(views(class@), canonical@),
        ),
{
    let ghost all = views(class@);
    let ghost start = texts(aliases@);
    proof {
        assert(start =~= start.union_prefer_right(class_aliases(all.take(0), canonical@)));
    }
    for i in 0..class.len()
        invariant
            all == views(class@),
            texts(aliases@) == start.union_prefer_right(class_aliases(all.take(i as int), canonical@)),
    {
        let ghost was = texts(aliases@);
        proof {
            assert(all[i as int] == class@[i as int]@);
            assert(all.take(i + 1) =~= all.take(i as int).push(all[i as int]));
            class_aliases_push(all.take(i as int), all[i as int], canonical@);
        }
        if !same(&class[i], canonical) {
            aliases.insert(class[i].clone(), canonical.to_owned());
            proof {
                assert(texts(aliases@) =~= was.insert(all[i as int], canonical@));
            }
        }
        proof {
            assert(texts(aliases@) =~= start.union_prefer_right(class_aliases(all.take(i + 1), canonical@)));
        }
    }
    proof {
        assert(all.take(all.len() as int) =~= all);
    }
}

proof fn stands_for_same_members(c: Seq<char>, class: Seq<Seq<char>>, a: Seq<Seq<char>>, b: Seq<Seq<char>>, rule: Seq<char>)
    requires
        forall|k: Seq<char>| a.contains(k) <==> b.contains(k),
    ensures
        stands_for(c, class, a, rule) == stands_for(c, class, b, rule),
        class_error(class, a, rule) == class_error(class, b, rule),
{
    assert((exists|m: Seq<char>| class.contains(m) && a.contains(m)) <==> (exists|m: Seq<char>|
        class.contains(m) && b.contains(m)));
}

/// Whether some class is refused with the message `e`.
pub open spec fn refused(
    e: Seq<char>,
    known: Seq<(Seq<char>, Seq<char>)>,
    declared: Seq<(Seq<char>, Seq<char>)>,
    rule: Seq<char>,
) -> bool {
    exists|classes: Seq<Seq<Seq<char>>>, roots: Seq<Seq<char>>, i: int|
        {
            &&& #[trigger] partitions(classes, roots, merged_all(Map::empty(), known + declared))
            &&& 0 <= i < classes.len()
            &&& class_error(#[trigger] classes[i], seconds(known), rule) == Some(e)
        }
}

/// Merges what the alias table knows and what the graph declares, and settles
/// which identifier stands for each class.
#[verifier::rlimit(40)]
pub fn merge(known: &Vec<(String, String)>, declared: &Vec<(String, String)>, rule: &str) -> (r: Result<Merge, String>)
    ensures
        match r {
            Ok(m) => merges(m, pair_views(known@), pair_views(declared@), rule@),
            Err(e) => refused(e@, pair_views(known@), pair_views(declared@), rule@),
        },
{
    let ghost ks = pair_views(known@);
    let ghost ds = pair_views(declared@);
    let mut dsu = DisjointSetUnion::new();
    union_all(&mut dsu, known, Ghost(Seq::empty()));
    proof {
        assert(Seq::<(Seq<char>, Seq<char>)>::empty() + ks =~= ks);
    }
    union_all(&mut dsu, declared, Ghost(ks));
    let existing = distinct_seconds(known);
    let (classes, roots) = dsu.classes();
    let ghost cs = class_views(classes@);
    let ghost rs = views(roots@);
    let ghost old_ones = seconds(ks);
    let mut aliases: Table<String> = Table::new();
    let ghost mut canonicals: Seq<Seq<char>> = Seq::empty();
    proof {
        assert(texts(aliases@) =~= all_aliases(cs.take(0), canonicals));
    }
    for i in 0..classes.len()
        invariant
            cs == class_views(classes@),
            partitions(cs, rs, merged_all(Map::empty(), ks + ds)),
            forall|k: Seq<char>| views(existing@).contains(k) <==> old_ones.contains(k),
            canonicals.len() == i,
            forall|j: int|
                0 <= j < i ==> stands_for(#[trigger] canonicals[j], cs[j], old_ones, rule@),
            forall|j: int| 0 <= j < i ==> class_error(#[trigger] cs[j], old_ones, rule@) is None,
            texts(aliases@) == all_aliases(cs.take(i as int), canonicals),
    {
        proof {
            assert(cs[i as int] == views(classes@[i as int]@));
        }
        match canonical_of(&classes[i], &existing, rule) {
            Ok(c) => {
                proof {
                    stands_for_same_members(c@, cs[i as int], views(existing@), old_ones, rule@);
                    let was = canonicals;
                    canonicals = canonicals.push(c@);
                    assert(canonicals.drop_last() =~= was);
                    assert(cs.take(i + 1).drop_last() =~= cs.take(i as int));
                }
                add_aliases(&mut aliases, &classes[i], &c);
            },
            Err(e) => {
                proof {
                    stands_for_same_members(e@, cs[i as int], views(existing@), old_ones, rule@);
                    assert(class_error(cs[i as int], old_ones, rule@) == Some(e@));
                }
                return Err(e);
            },
        }
    }
    proof {
        assert(cs.take(cs.len() as int) =~= cs);
        assert(all_stand_for(canonicals, cs, old_ones, rule@));
        assert(none_refused(cs, old_ones, rule@));
    }
    Ok(Merge { classes: classes.len(), seeded: existing.len(), aliases })
}

// ---------------------------------------------------------------------------
// Laws of the merge
// ---------------------------------------------------------------------------

proof fn same_members_same_error(
    a: Seq<Seq<char>>,
    b: Seq<Seq<char>>,
    existing: Seq<Seq<char>>,
    rule: Seq<char>,
)
    requires
        forall|k: Seq<char>| a.contains(k) <==> b.contains(k),
    ensures
        class_error(a, existing, rule) == class_error(b, existing, rule),
{
    assert((exists|m: Seq<char>| a.contains(m) && existing.contains(m)) <==> (exists|m: Seq<char>|
        b.contains(m) && existing.contains(m)));
    if a.len() > 0 {
        assert(a.contains(a[0]));
    }
    if b.len() > 0 {
        assert(b.contains(b[0]));
    }
}

/// A merge is refused or carried out, never both: where one class is refused,
/// there is no merge.
pub proof fn refusal_excludes_a_merge(
    e: Seq<char>,
    m: Merge,
    known: Seq<(Seq<char>, Seq<char>)>,
    declared: Seq<(Seq<char>, Seq<char>)>,
    rule: Seq<char>,
)
    ensures
        !(refused(e, known, declared, rule) && merges(m, known, declared, rule)),
{
    if refused(e, known, declared, rule) && merges(m, known, declared, rule) {
        let reps = merged_all(Map::empty(), known + declared);
        let (bad, bad_roots, i) = choose|classes: Seq<Seq<Seq<char>>>, roots: Seq<Seq<char>>, i: int|
            {
                &&& #[trigger] partitions(classes, roots, reps)
                &&& 0 <= i < classes.len()
                &&& class_error(#[trigger] classes[i], seconds(known), rule) == Some(e)
            };
        let (classes, roots, canonicals) = choose|
            classes: Seq<Seq<Seq<char>>>,
            roots: Seq<Seq<char>>,
            canonicals: Seq<Seq<char>>,
        |
            {
                &&& #[trigger] partitions(classes, roots, reps)
                &&& #[trigger] all_stand_for(canonicals, classes, seconds(known), rule)
                &&& none_refused(classes, seconds(known), rule)
                &&& texts(m.aliases@) == all_aliases(classes, canonicals)
                &&& m.classes == classes.len()
                &&& m.seeded == seconds(known).to_set().len()
            };
        let r = bad_roots[i];
        assert(reps.contains_key(r) && reps[r] == r);
        assert(roots.contains(reps[r]));
        let j = choose|j: int| 0 <= j < roots.len() && roots[j] == r;
        assert(is_class(bad[i], reps, r));
        assert(is_class(classes[j], reps, r));
        assert forall|k: Seq<char>| bad[i].contains(k) <==> classes[j].contains(k) by {}
        same_members_same_error(bad[i], classes[j], seconds(known), rule);
    }
}

/// A supported rule is never refused.
pub proof fn supported_rule_is_not_refused(
    e: Seq<char>,
    known: Seq<(Seq<char>, Seq<char>)>,
    declared: Seq<(Seq<char>, Seq<char>)>,
    rule: Seq<char>,
)
    requires
        rule == "mint_genid"@ || rule == "shortest_uri"@,
    ensures
        !refused(e, known, declared, rule),
{
    if refused(e, known, declared, rule) {
        let reps = merged_all(Map::empty(), known + declared);
        let (classes, roots, i) = choose|classes: Seq<Seq<Seq<char>>>, roots: Seq<Seq<char>>, i: int|
            {
                &&& #[trigger] partitions(classes, roots, reps)
                &&& 0 <= i < classes.len()
                &&& class_error(#[trigger] classes[i], seconds(known), rule) == Some(e)
            };
        assert(is_class(classes[i], reps, roots[i]));
        assert(classes[i].contains(roots[i]));
    }
}

/// The identifier that stands for `x` after a merge.
pub open spec fn name_of(m: Merge, x: Seq<char>) -> Seq<char> {
    let aliases = texts(m.aliases@);
    if aliases.contains_key(x) {
        aliases[x]
    } else {
        x
    }
}

/// Whether no two of the classes have a member in common.
pub open spec fn disjoint(classes: Seq<Seq<Seq<char>>>) -> bool {
    forall|i: int, j: int, k: Seq<char>|
        0 <= i < classes.len() && 0 <= j < classes.len() && #[trigger] classes[i].contains(k)
            && #[trigger] classes[j].contains(k) ==> i == j
}

proof fn aliases_of_disjoint(classes: Seq<Seq<Seq<char>>>, canonicals: Seq<Seq<char>>, k: Seq<char>)
    requires
        disjoint(classes),
        canonicals.len() == classes.len(),
    ensures
        all_aliases(classes, canonicals).contains_key(k) ==> exists|i: int|
            0 <= i < classes.len() && (#[trigger] classes[i]).contains(k) && k != canonicals[i]
                && all_aliases(classes, canonicals)[k] == canonicals[i],
        forall|i: int|
            0 <= i < classes.len() && (#[trigger] classes[i]).contains(k) && k != canonicals[i]
                ==> all_aliases(classes, canonicals).contains_key(k) && all_aliases(classes, canonicals)[k]
                == canonicals[i],
    decreases classes.len(),
{
    if classes.len() > 0 {
        let n = classes.len() - 1;
        let rest = classes.drop_last();
        let heads = canonicals.drop_last();
        assert forall|i: int, j: int, x: Seq<char>|
            0 <= i < rest.len() && 0 <= j < rest.len() && #[trigger] rest[i].contains(x)
                && #[trigger] rest[j].contains(x) implies i == j by {
            assert(classes[i].contains(x) && classes[j].contains(x));
        }
        aliases_of_disjoint(rest, heads, k);
        let before = all_aliases(rest, heads);
        let last = class_aliases(classes.last(), canonicals.last());
        let all = all_aliases(classes, canonicals);
        assert(all == before.union_prefer_right(last));
        if all.contains_key(k) {
            if last.contains_key(k) {
                assert(classes[n].contains(k));
            } else {
                let i = choose|i: int|
                    0 <= i < rest.len() && (#[trigger] rest[i]).contains(k) && k != heads[i] && before[k] == heads[i];
                assert(classes[i].contains(k));
            }
        }
        assert forall|i: int|
            0 <= i < classes.len() && (#[trigger] classes[i]).contains(k) && k != canonicals[i] implies all.contains_key(
            k,
        ) && all[k] == canonicals[i] by {
            if i < n {
                assert(rest[i].contains(k));
                assert(!classes[n].contains(k));
                assert(!last.contains_key(k));
            }
        }
    }
}

proof fn partition_is_disjoint(
    classes: Seq<Seq<Seq<char>>>,
    roots: Seq<Seq<char>>,
    m: Map<Seq<char>, Seq<char>>,
)
    requires
        partitions(classes, roots, m),
    ensures
        disjoint(classes),
{
    assert forall|i: int, j: int, k: Seq<char>|
        0 <= i < classes.len() && 0 <= j < classes.len() && #[trigger] classes[i].contains(k)
            && #[trigger] classes[j].contains(k) implies i == j by {
        assert(is_class(classes[i], m, roots[i]));
        assert(is_class(classes[j], m, roots[j]));
        ascends_distinct(roots, i, j);
    }
}

proof fn member_is_named(
    classes: Seq<Seq<Seq<char>>>,
    roots: Seq<Seq<char>>,
    canonicals: Seq<Seq<char>>,
    reps: Map<Seq<char>, Seq<char>>,
    m: Merge,
    x: Seq<char>,
) -> (i: int)
    requires
        partitions(classes, roots, reps),
        canonicals.len() == classes.len(),
        texts(m.aliases@) == all_aliases(classes, canonicals),
        reps.contains_key(x),
    ensures
        0 <= i < classes.len(),
        classes[i].contains(x),
        roots[i] == reps[x],
        name_of(m, x) == canonicals[i],
{
    partition_is_disjoint(classes, roots, reps);
    aliases_of_disjoint(classes, canonicals, x);
    assert(roots.contains(reps[x]));
    let i = choose|i: int| 0 <= i < roots.len() && roots[i] == reps[x];
    assert(is_class(classes[i], reps, roots[i]));
    assert(classes[i].contains(x));
    if texts(m.aliases@).contains_key(x) {
        let j = choose|j: int|
            0 <= j < classes.len() && (#[trigger] classes[j]).contains(x) && x != canonicals[j]
                && all_aliases(classes, canonicals)[x] == canonicals[j];
        assert(i == j);
    }
    i
}

proof fn connected_is_element(pairs: Seq<(Seq<char>, Seq<char>)>, x: Seq<char>, y: Seq<char>)
    requires
        connected(pairs, x, y),
        x != y,
    ensures
        merged_all(Map::empty(), pairs).contains_key(x),
        merged_all(Map::empty(), pairs).contains_key(y),
{
    let p = choose|p: Seq<Seq<char>>|
        p.len() > 0 && p[0] == x && p.last() == y && #[trigger] is_path(pairs, p);
    assert(p.len() > 1);
    let n = p.len() as int;
    assert(joined_by(pairs, p[0], p[1]));
    assert(joined_by(pairs, p[n - 2], p[n - 1]));
    elements_come_from_pairs(pairs, x);
    elements_come_from_pairs(pairs, y);
    let i = choose|i: int| 0 <= i < pairs.len() && ((#[trigger] pairs[i]) == (p[0], p[1]) || pairs[i] == (p[1], p[0]));
    assert(pairs[i].0 == x || pairs[i].1 == x);
    let j = choose|j: int|
        0 <= j < pairs.len() && ((#[trigger] pairs[j]) == (p[n - 2], p[n - 1]) || pairs[j] == (p[n - 1], p[n - 2]));
    assert(pairs[j].0 == y || pairs[j].1 == y);
}

/// Identifiers that a chain of equalities connects get one name.
pub proof fn equal_identifiers_get_one_name(
    m: Merge,
    known: Seq<(Seq<char>, Seq<char>)>,
    declared: Seq<(Seq<char>, Seq<char>)>,
    rule: Seq<char>,
    x: Seq<char>,
    y: Seq<char>,
)
    requires
        merges(m, known, declared, rule),
        connected(known + declared, x, y),
    ensures
        name_of(m, x) == name_of(m, y),
{
    if x != y {
        let pairs = known + declared;
        let reps = merged_all(Map::empty(), pairs);
        let (classes, roots, canonicals) = choose|
            classes: Seq<Seq<Seq<char>>>,
            roots: Seq<Seq<char>>,
            canonicals: Seq<Seq<char>>,
        |
            {
                &&& #[trigger] partitions(classes, roots, reps)
                &&& #[trigger] all_stand_for(canonicals, classes, seconds(known), rule)
                &&& none_refused(classes, seconds(known), rule)
                &&& texts(m.aliases@) == all_aliases(classes, canonicals)
                &&& m.classes == classes.len()
                &&& m.seeded == seconds(known).to_set().len()
            };
        connected_is_element(pairs, x, y);
        sets_are_the_connected_elements(pairs, x, y);
        let i = member_is_named(classes, roots, canonicals, reps, m, x);
        let j = member_is_named(classes, roots, canonicals, reps, m, y);
        ascends_distinct(roots, i, j);
    }
}

/// An identifier that no equality mentions keeps its name.
pub proof fn other_identifiers_keep_their_name(
    m: Merge,
    known: Seq<(Seq<char>, Seq<char>)>,
    declared: Seq<(Seq<char>, Seq<char>)>,
    rule: Seq<char>,
    x: Seq<char>,
)
    requires
        merges(m, known, declared, rule),
        forall|i: int|
            0 <= i < (known + declared).len() ==> (#[trigger] (known + declared)[i]).0 != x && (known + declared)[i].1
                != x,
    ensures
        name_of(m, x) == x,
{
    let pairs = known + declared;
    let reps = merged_all(Map::empty(), pairs);
    let (classes, roots, canonicals) = choose|
        classes: Seq<Seq<Seq<char>>>,
        roots: Seq<Seq<char>>,
        canonicals: Seq<Seq<char>>,
    |
        {
            &&& #[trigger] partitions(classes, roots, reps)
            &&& #[trigger] all_stand_for(canonicals, classes, seconds(known), rule)
            &&& none_refused(classes, seconds(known), rule)
            &&& texts(m.aliases@) == all_aliases(classes, canonicals)
            &&& m.classes == classes.len()
            &&& m.seeded == seconds(known).to_set().len()
        };
    elements_come_from_pairs(pairs, x);
    partition_is_disjoint(classes, roots, reps);
    aliases_of_disjoint(classes, canonicals, x);
    if texts(m.aliases@).contains_key(x) {
        let i = choose|i: int|
            0 <= i < classes.len() && (#[trigger] classes[i]).contains(x) && x != canonicals[i]
                && all_aliases(classes, canonicals)[x] == canonicals[i];
        assert(is_class(classes[i], reps, roots[i]));
        assert(reps.contains_key(x));
    }
}

/// An identifier that already stood for a class is not given up for a new one:
/// what it is called afterwards already stood for a class too, and comes no
/// later.
pub proof fn names_are_sticky(
    m: Merge,
    known: Seq<(Seq<char>, Seq<char>)>,
    declared: Seq<(Seq<char>, Seq<char>)>,
    rule: Seq<char>,
    x: Seq<char>,
)
    requires
        merges(m, known, declared, rule),
        seconds(known).contains(x),
    ensures
        seconds(known).contains(name_of(m, x)),
        at_most(name_of(m, x), x),
        connected(known + declared, x, name_of(m, x)),
{
    let pairs = known + declared;
    let reps = merged_all(Map::empty(), pairs);
    let (classes, roots, canonicals) = choose|
        classes: Seq<Seq<Seq<char>>>,
        roots: Seq<Seq<char>>,
        canonicals: Seq<Seq<char>>,
    |
        {
            &&& #[trigger] partitions(classes, roots, reps)
            &&& #[trigger] all_stand_for(canonicals, classes, seconds(known), rule)
            &&& none_refused(classes, seconds(known), rule)
            &&& texts(m.aliases@) == all_aliases(classes, canonicals)
            &&& m.classes == classes.len()
            &&& m.seeded == seconds(known).to_set().len()
        };
    let at = choose|at: int| 0 <= at < seconds(known).len() && seconds(known)[at] == x;
    assert(pairs[at] == known[at]);
    elements_come_from_pairs(pairs, x);
    let i = member_is_named(classes, roots, canonicals, reps, m, x);
    assert(stands_for(canonicals[i], classes[i], seconds(known), rule));
    assert(classes[i].contains(canonicals[i]));
    assert(is_class(classes[i], reps, roots[i]));
    sets_are_the_connected_elements(pairs, x, canonicals[i]);
}

/// What stands for identifiers none of which stood for a class before is chosen by
/// the rule: under `shortest_uri` the one of them with the fewest bytes, and of
/// those the first; under `mint_genid` a new identifier.
pub proof fn rule_chooses_new_names(
    m: Merge,
    known: Seq<(Seq<char>, Seq<char>)>,
    declared: Seq<(Seq<char>, Seq<char>)>,
    rule: Seq<char>,
    x: Seq<char>,
    y: Seq<char>,
    i: int,
)
    requires
        merges(m, known, declared, rule),
        0 <= i < (known + declared).len(),
        (known + declared)[i].0 == x || (known + declared)[i].1 == x,
        connected(known + declared, x, y),
        forall|z: Seq<char>| #[trigger] connected(known + declared, x, z) ==> !seconds(known).contains(z),
    ensures
        rule == "shortest_uri"@ ==> {
            let name = name_of(m, x);
            &&& connected(known + declared, x, name)
            &&& encode_utf8(name).len() <= encode_utf8(y).len()
            &&& encode_utf8(name).len() == encode_utf8(y).len() ==> at_most(name, y)
        },
        rule == "mint_genid"@ ==> "https://tegmentum.ai/.well-known/genid/"@.is_prefix_of(name_of(m, x)),
        rule == "shortest_uri"@ || rule == "mint_genid"@,
{
    let pairs = known + declared;
    let reps = merged_all(Map::empty(), pairs);
    let (classes, roots, canonicals) = choose|
        classes: Seq<Seq<Seq<char>>>,
        roots: Seq<Seq<char>>,
        canonicals: Seq<Seq<char>>,
    |
        {
            &&& #[trigger] partitions(classes, roots, reps)
            &&& #[trigger] all_stand_for(canonicals, classes, seconds(known), rule)
            &&& none_refused(classes, seconds(known), rule)
            &&& texts(m.aliases@) == all_aliases(classes, canonicals)
            &&& m.classes == classes.len()
            &&& m.seeded == seconds(known).to_set().len()
        };
    elements_come_from_pairs(pairs, x);
    let c = member_is_named(classes, roots, canonicals, reps, m, x);
    assert(stands_for(canonicals[c], classes[c], seconds(known), rule));
    assert(class_error(classes[c], seconds(known), rule) is None);
    assert(is_class(classes[c], reps, roots[c]));
    assert forall|z: Seq<char>| classes[c].contains(z) implies #[trigger] connected(pairs, x, z) by {
        sets_are_the_connected_elements(pairs, x, z);
    }
    if exists|z: Seq<char>| classes[c].contains(z) && seconds(known).contains(z) {
        let z = choose|z: Seq<char>| classes[c].contains(z) && seconds(known).contains(z);
        assert(connected(pairs, x, z));
    }
    if x != y {
        connected_is_element(pairs, x, y);
    }
    sets_are_the_connected_elements(pairs, x, y);
    assert(classes[c].contains(y));
    reveal_strlit("shortest_uri");
    reveal_strlit("mint_genid");
    assert("shortest_uri"@.len() != "mint_genid"@.len());
    if rule == "shortest_uri"@ {
        assert(shorter(canonicals[c], y));
    } else {
        let order = choose|order: Seq<Seq<char>>| #[trigger]
            stably_sorts(order, classes[c]) && canonicals[c] == genid(joined(order, "\0"@));
        genid_shape(joined(order, "\0"@));
    }
}

// ---------------------------------------------------------------------------
// Updates
// ---------------------------------------------------------------------------

/// The SPARQL text of a term with aliases replaced.
pub open spec fn rewritten_term(t: TermView, aliases: Map<Seq<char>, Seq<char>>) -> Seq<char> {
    match t {
        TermView::NamedNode(iri) => bracketed(
            if aliases.contains_key(iri) {
                aliases[iri]
            } else {
                iri
            },
        ),
        TermView::BlankNode(label) => "_:"@ + label,
        TermView::Literal(l) => literal_sparql(l),
        TermView::Triple(_) => "<urn:webfunction:canonicalize:unsupported-triple>"@,
    }
}

pub fn value_to_sparql(v: &Term, aliases: &Table<String>) -> (r: String)
    ensures
        r@ == rewritten_term(v@, texts(aliases@)),
{
    match v {
        Term::NamedNode(iri) => match aliases.get(iri) {
            Some(target) => bracket(target),
            None => bracket(iri),
        },
        Term::BlankNode(label) => "_:".to_owned().concat(label),
        Term::Literal(l) => literal_to_sparql(l),
        Term::Triple(_) => "<urn:webfunction:canonicalize:unsupported-triple>".to_owned(),
    }
}

/// The query for the statements that mention an alias.
pub open spec fn fetch_query_text(aliases: Seq<Seq<char>>) -> Seq<char> {
    let vals = bracketed_list(aliases);
    "SELECT ?s ?p ?o WHERE { { VALUES ?target { "@ + vals
        + " } ?target ?p ?o . BIND(?target AS ?s) } UNION { VALUES ?target { "@ + vals
        + " } ?s ?p ?target . BIND(?target AS ?o) } FILTER(?p != <"@ + OWL_SAME_AS@ + ">) }"@
}

pub fn fetch_query(aliases: &Table<String>) -> (r: String)
    ensures
        r@ == fetch_query_text(aliases.key_seq()),
{
    let vals = bracket_list(&aliases.keys());
    "SELECT ?s ?p ?o WHERE { { VALUES ?target { ".to_owned().concat(&vals).concat(
        " } ?target ?p ?o . BIND(?target AS ?s) } UNION { VALUES ?target { ",
    ).concat(&vals).concat(" } ?s ?p ?target . BIND(?target AS ?o) } FILTER(?p != <").concat(OWL_SAME_AS).concat(
        ">) }",
    )
}

/// The update that deletes the statements that mention an alias.
pub open spec fn delete_update_text(aliases: Seq<Seq<char>>) -> Seq<char> {
    "DELETE { ?s ?p ?o } WHERE { ?s ?p ?o . VALUES ?alias { "@ + bracketed_list(aliases)
        + " } FILTER(?s = ?alias || ?o = ?alias) }"@
}

pub fn delete_update(aliases: &Table<String>) -> (r: String)
    ensures
        r@ == delete_update_text(aliases.key_seq()),
{
    let vals = bracket_list(&aliases.keys());
    "DELETE { ?s ?p ?o } WHERE { ?s ?p ?o . VALUES ?alias { ".to_owned().concat(&vals).concat(
        " } FILTER(?s = ?alias || ?o = ?alias) }",
    )
}

/// The update that deletes the declared equalities.
pub open spec fn delete_same_as_text() -> Seq<char> {
    "DELETE { ?a <"@ + OWL_SAME_AS@ + "> ?b } WHERE { ?a <"@ + OWL_SAME_AS@ + "> ?b }"@
}

pub fn delete_same_as() -> (r: String)
    ensures
        r@ == delete_same_as_text(),
{
    "DELETE { ?a <".to_owned().concat(OWL_SAME_AS).concat("> ?b } WHERE { ?a <").concat(OWL_SAME_AS).concat("> ?b }")
}

/// The statement of a row with aliases replaced; none where the row lacks a
/// part of it.
pub open spec fn rewritten_row(row: Seq<BindingView>, aliases: Map<Seq<char>, Seq<char>>) -> Option<Seq<char>> {
    match (value_in(row, "s"@), value_in(row, "p"@), value_in(row, "o"@)) {
        (Some(s), Some(p), Some(o)) => Some(
            rewritten_term(s, aliases) + " "@ + rewritten_term(p, aliases) + " "@ + rewritten_term(o, aliases)
                + " .\n"@,
        ),
        _ => None,
    }
}

/// The rewritten statements of the rows, and how many they are.
pub open spec fn rewritten_rows(
    rows: Seq<Seq<BindingView>>,
    aliases: Map<Seq<char>, Seq<char>>,
) -> (Seq<char>, nat)
    decreases rows.len(),
{
    if rows.len() == 0 {
        (Seq::empty(), 0)
    } else {
        let (text, n) = rewritten_rows(rows.drop_last(), aliases);
        match rewritten_row(rows.last(), aliases) {
            Some(line) => (text + line, n + 1),
            None => (text, n),
        }
    }
}

proof fn rewritten_rows_bound(rows: Seq<Seq<BindingView>>, aliases: Map<Seq<char>, Seq<char>>)
    ensures
        rewritten_rows(rows, aliases).1 <= rows.len(),
        rewritten_rows(rows, aliases).1 > 0 ==> rewritten_rows(rows, aliases).0.len() > 0,
        rewritten_rows(rows, aliases).1 == 0 ==> rewritten_rows(rows, aliases).0.len() == 0,
    decreases rows.len(),
{
    if rows.len() > 0 {
        rewritten_rows_bound(rows.drop_last(), aliases);
        reveal_strlit(" .\n");
    }
}

/// The update that inserts the rewritten statements, where there are any, and
/// how many they are.
pub fn rewrite(rows: &Vec<Vec<Binding>>, aliases: &Table<String>) -> (r: (Option<String>, u64))
    ensures
        r.1 == rewritten_rows(row_views(rows@), texts(aliases@)).1,
        opt_view(r.0) == if r.1 == 0 {
            None
        } else {
            Some("INSERT DATA { "@ + rewritten_rows(row_views(rows@), texts(aliases@)).0 + " }"@)
        },
{
    let ghost all = row_views(rows@);
    let ghost m = texts(aliases@);
    let mut body = String::new();
    let mut count: u64 = 0;
    for i in 0..rows.len()
        invariant
            all == row_views(rows@),
            m == texts(aliases@),
            count <= i,
            rewritten_rows(all.take(i as int), m) == (body@, count as nat),
    {
        proof {
            assert(all.take(i + 1).drop_last() =~= all.take(i as int));
            assert(all[i as int] == views(rows@[i as int]@));
        }
        let s = find_value(&rows[i], "s");
        let p = find_value(&rows[i], "p");
        let o = find_value(&rows[i], "o");
        match (s, p, o) {
            (Some(s), Some(p), Some(o)) => {
                let st = value_to_sparql(s, aliases);
                let pt = value_to_sparql(p, aliases);
                let ot = value_to_sparql(o, aliases);
                let line = st.concat(" ").concat(&pt).concat(" ").concat(&ot).concat(" .\n");
                body.append(&line);
                count = count + 1;
            },
            _ => {},
        }
    }
    proof {
        assert(all.take(all.len() as int) =~= all);
        rewritten_rows_bound(all, m);
    }
    if count == 0 {
        (None, 0)
    } else {
        (Some("INSERT DATA { ".to_owned().concat(&body).concat(" }")), count)
    }
}

// ---------------------------------------------------------------------------
// Summary
// ---------------------------------------------------------------------------

/// The tree of a run's summary.
pub open spec fn summary_tree(
    classes: u64,
    aliased: u64,
    rewritten: u64,
    seeded: u64,
    fulltext: SweepCounts,
    documents: SweepResult,
) -> JsonView {
    JsonView::Object(
        no_fields().with("classes"@, JsonView::Unsigned(classes)).with(
            "aliased"@,
            JsonView::Unsigned(aliased),
        ).with("rewritten"@, JsonView::Unsigned(rewritten)).with(
            "seeded"@,
            JsonView::Unsigned(seeded),
        ).with("ft_inserted"@, JsonView::Unsigned(fulltext.inserted)).with(
            "ft_deleted"@,
            JsonView::Unsigned(fulltext.deleted),
        ).with("ft_errors"@, JsonView::Unsigned(fulltext.errors)).with(
            "doc_inserted"@,
            JsonView::Unsigned(documents.inserted),
        ).with("doc_deleted"@, JsonView::Unsigned(documents.deleted)).with(
            "doc_unchanged"@,
            JsonView::Unsigned(documents.unchanged),
        ).with("doc_errors"@, JsonView::Unsigned(documents.errors)),
    )
}

/// The summary of a run as a literal.
pub fn summary(
    merge: &Merge,
    rewritten: u64,
    fulltext: &SweepCounts,
    documents: &SweepResult,
) -> (r: Term)
    ensures
        r@ == typed(
            json_text(
                summary_tree(
                    merge.classes as u64,
                    merge.aliases.key_seq().len() as u64,
                    rewritten,
                    merge.seeded as u64,
                    *fulltext,
                    *documents,
                ),
            ),
            RDF_JSON@,
        ),
{
    broadcast use {no_fields_wf, put_wf, object_view};

    let mut fields: Vec<(String, Json)> = Vec::new();
    proof {
        assert(views(fields@) =~= no_fields());
    }
    put_field(&mut fields, "classes", Json::Unsigned(merge.classes as u64));
    put_field(&mut fields, "aliased", Json::Unsigned(merge.aliases.len() as u64));
    put_field(&mut fields, "rewritten", Json::Unsigned(rewritten));
    put_field(&mut fields, "seeded", Json::Unsigned(merge.seeded as u64));
    put_field(&mut fields, "ft_inserted", Json::Unsigned(fulltext.inserted));
    put_field(&mut fields, "ft_deleted", Json::Unsigned(fulltext.deleted));
    put_field(&mut fields, "ft_errors", Json::Unsigned(fulltext.errors));
    put_field(&mut fields, "doc_inserted", Json::Unsigned(documents.inserted));
    put_field(&mut fields, "doc_deleted", Json::Unsigned(documents.deleted));
    put_field(&mut fields, "doc_unchanged", Json::Unsigned(documents.unchanged));
    put_field(&mut fields, "doc_errors", Json::Unsigned(documents.errors));
    let text = Json::Object(fields).render();
    json_literal(&text)
}

} // verus!

//! What goes to a sink for the collections of a graph.

use vstd::prelude::*;
use crate::host::{ReplyView, RequestView};
use crate::laws::graph::{bound, first_binding_counts, regular, rows_are_told_apart};
use crate::laws::tables::{anchored, retyped};
use crate::materialize_list::{asked_at, element_quad, entered, next, position_quad, spaced, walked, Descriptor,
    PlaceView, StageView, WalkView};
use crate::number::{decimal_of, int_text};
use crate::rdf::{flattened, grouped, node_id, term_of, typed, value_in, BindingView, QuadView, QueryResultView,
    TermView, RDF_NIL};
use crate::shape::{anchor_patterns, coerced, signature_patterns, AnchorView};

verus! {

/// A collection of a subject: its cells and their values.
pub struct Collection {
    pub subject: TermView,
    pub cells: Seq<TermView>,
    pub values: Seq<TermView>,
}

/// The empty collection.
pub open spec fn nil() -> TermView {
    TermView::NamedNode("http://www.w3.org/1999/02/22-rdf-syntax-ns#nil"@)
}

pub open spec fn is_node(t: TermView) -> bool {
    t is NamedNode || t is BlankNode
}

/// Whether the parts make up a collection that can be walked: nodes that are not
/// the empty collection, one for each value, and not too many.
pub open spec fn well_formed(c: Collection) -> bool {
    &&& is_node(c.subject)
    &&& plain(c.subject)
    &&& c.cells.len() == c.values.len()
    &&& c.cells.len() <= 100000
    &&& forall|i: int|
        0 <= i < c.cells.len() ==> is_node(#[trigger] c.cells[i]) && plain(c.cells[i]) && c.cells[i] != nil()
}

/// Whether a node is not an IRI that looks like a blank node.
pub open spec fn plain(t: TermView) -> bool {
    t matches TermView::NamedNode(iri) ==> !"_:"@.is_prefix_of(iri)
}

/// The node that the cells from a position on start with.
pub open spec fn from_cell(c: Collection, i: int) -> TermView {
    if i < c.cells.len() {
        c.cells[i]
    } else {
        nil()
    }
}

/// What a store that holds the collection gives for a cell: its value and what
/// follows.
pub open spec fn cell_bindings(c: Collection, i: int) -> Seq<BindingView> {
    seq![bound("value"@, c.values[i]), bound("rest"@, from_cell(c, i + 1))]
}

/// A call after the cells from a position on have been asked for.
pub open spec fn after_cells(d: Descriptor, c: Collection, at: (StageView, RequestView), i: int) -> (
    StageView,
    RequestView,
)
    decreases c.cells.len() - i,
{
    if i < 0 || i >= c.cells.len() {
        at
    } else {
        after_cells(d, c, next(d, at.0, ReplyView::Bindings(cell_bindings(c, i))), i + 1)
    }
}

/// The two statements of an element: its value under the element's predicate,
/// and its position.
pub open spec fn element_statements(subject: TermView, predicate: Seq<char>, value: TermView, at: int) -> Seq<QuadView> {
    seq![
        QuadView { subject, predicate: TermView::NamedNode(predicate), object: value, graph: None },
        QuadView {
            subject,
            predicate: TermView::NamedNode("http://tegmentum.ai/ns/list/position"@),
            object: typed(int_text(at), "http://www.w3.org/2001/XMLSchema#integer"@),
            graph: None,
        },
    ]
}

/// The statements of a collection's elements from a position on.
pub open spec fn collection_statements(c: Collection, predicate: Seq<char>, ty: Seq<char>, i: int) -> Seq<QuadView>
    decreases c.values.len() - i,
{
    if i < 0 || i >= c.values.len() {
        Seq::empty()
    } else {
        element_statements(c.subject, predicate, retyped(c.values[i], ty), i) + collection_statements(
            c,
            predicate,
            ty,
            i + 1,
        )
    }
}

/// The predicate of the elements: that of the collection unless another is
/// named.
pub open spec fn elements_under(d: Descriptor) -> Seq<char> {
    match d.list_element_predicate {
        Some(p) => p@,
        None => d.list_predicate@,
    }
}

proof fn cell_is_read(c: Collection, i: int)
    ensures
        grouped(cell_bindings(c, i)) == seq![cell_bindings(c, i)],
        value_in(cell_bindings(c, i), "value"@) == Some(c.values[i]),
        value_in(cell_bindings(c, i), "rest"@) == Some(from_cell(c, i + 1)),
{
    reveal_strlit("value");
    reveal_strlit("rest");
    assert("value"@.len() != "rest"@.len());
    let row = cell_bindings(c, i);
    let variables = seq!["value"@, "rest"@];
    assert(variables.no_duplicates());
    assert(regular(seq![row], variables));
    rows_are_told_apart(seq![row], variables);
    assert(flattened(seq![row]) =~= row) by {
        reveal_with_fuel(flattened, 2);
        assert(seq![row].drop_last() =~= Seq::empty());
    }
    assert(row[0].variable == "value"@ && row[1].variable == "rest"@);
    first_binding_counts(row, "value"@, 0);
    first_binding_counts(row, "rest"@, 1);
}

proof fn node_is_named(t: TermView)
    requires
        is_node(t),
        plain(t),
    ensures
        node_id(t) matches Some(id) && term_of(id) == t,
{
    reveal_strlit("_:");
    match t {
        TermView::BlankNode(label) => {
            let id = "_:"@ + label;
            assert("_:"@.is_prefix_of(id)) by {
                assert(id.subrange(0, 2) =~= "_:"@);
            }
            assert(id.skip(2) =~= label);
        },
        _ => {},
    }
}

proof fn nil_is_plain()
    ensures
        is_node(nil()),
        plain(nil()),
        node_id(nil()) == Some(RDF_NIL@),
{
    reveal_strlit("_:");
    reveal_strlit("http://www.w3.org/1999/02/22-rdf-syntax-ns#nil");
    let id = "http://www.w3.org/1999/02/22-rdf-syntax-ns#nil"@;
    if "_:"@.is_prefix_of(id) {
        assert(id[0] == "_:"@[0]);
    }
}

proof fn walk_reads_on(d: Descriptor, c: Collection, rows: Seq<Seq<BindingView>>, quads: Seq<QuadView>, i: int)
    requires
        well_formed(c),
        0 <= i < c.cells.len(),
    ensures
        ({
            let w = WalkView { rows, subject: c.subject, node: node_id(c.cells[i])->0, at: i, quads };
            after_cells(d, c, asked_at(PlaceView::At(w)), i) == asked_at(
                entered(rows, quads + collection_statements(c, elements_under(d), d.value_type@, i)),
            )
        }),
    decreases c.cells.len() - i,
{
    let w = WalkView { rows, subject: c.subject, node: node_id(c.cells[i])->0, at: i, quads };
    let predicate = elements_under(d);
    let ty = d.value_type@;
    cell_is_read(c, i);
    nil_is_plain();
    let flat = cell_bindings(c, i);
    let two = element_statements(c.subject, predicate, retyped(c.values[i], ty), i);
    let more = collection_statements(c, predicate, ty, i + 1);
    let now = quads.push(element_quad(w.subject, predicate, coerced(c.values[i], ty))).push(position_quad(w.subject, w.at));
    assert(coerced(c.values[i], ty) == retyped(c.values[i], ty));
    assert(now =~= quads + two);
    assert(quads + (two + more) =~= now + more);
    let place = walked(w, predicate, ty, grouped(flat));
    let first = asked_at(PlaceView::At(w));
    assert(next(d, first.0, ReplyView::Bindings(flat)) == asked_at(place));
    reveal_with_fuel(after_cells, 2);
    if i + 1 < c.cells.len() {
        let rest = c.cells[i + 1];
        node_is_named(rest);
        assert(node_id(rest) != Some(RDF_NIL@)) by {
            if node_id(rest) == Some(RDF_NIL@) {
                node_is_named(nil());
                assert(rest == nil());
            }
        }
        let v = WalkView { rows, subject: c.subject, node: node_id(rest)->0, at: i + 1, quads: now };
        assert(place == PlaceView::At(v));
        walk_reads_on(d, c, rows, now, i + 1);
    } else {
        assert(more =~= Seq::empty());
        assert(now + more =~= now);
        assert(place == entered(rows, now));
    }
}

/// The rows of subjects and the heads of their collections.
pub open spec fn head_row(c: Collection) -> Seq<BindingView> {
    seq![bound("subject"@, c.subject), bound("head"@, from_cell(c, 0))]
}

/// The elements of a subject's collection are asked for cell by cell, from the
/// head on, and go to the sink in the order of the collection: each with its
/// value as one of the wanted type, and with its position, counted from zero.
pub proof fn collection_goes_out_in_order(d: Descriptor, c: Collection, sink: String)
    requires
        well_formed(c),
        c.cells.len() > 0,
        d.sink == Some(sink),
    ensures
        ({
            let statements = collection_statements(c, elements_under(d), d.value_type@, 0);
            let first = next(d, StageView::Preparing(seq![head_row(c)]), ReplyView::Done);
            let last = after_cells(d, c, first, 0);
            &&& first.1 == RequestView::RunPrepared(bound("head"@, c.cells[0]))
            &&& last == (StageView::Freeing(statements), RequestView::FreePrepared)
            &&& next(d, last.0, ReplyView::Done).1 == RequestView::Emit(sink@, statements)
        }),
{
    let row = head_row(c);
    reveal_strlit("subject");
    reveal_strlit("head");
    assert("subject"@.len() != "head"@.len());
    assert(row[0].variable == "subject"@ && row[1].variable == "head"@);
    first_binding_counts(row, "subject"@, 0);
    first_binding_counts(row, "head"@, 1);
    node_is_named(c.subject);
    node_is_named(c.cells[0]);
    nil_is_plain();
    assert(node_id(c.cells[0]) != Some(RDF_NIL@)) by {
        if node_id(c.cells[0]) == Some(RDF_NIL@) {
            node_is_named(nil());
        }
    }
    let rows = seq![row];
    assert(rows.drop_first() =~= Seq::empty());
    let statements = collection_statements(c, elements_under(d), d.value_type@, 0);
    walk_reads_on(d, c, Seq::empty(), Seq::empty(), 0);
    assert(Seq::<QuadView>::empty() + statements =~= statements);
    reveal_with_fuel(entered, 2);
    assert(statements.len() > 0) by {
        reveal_with_fuel(collection_statements, 2);
    }
}

/// The empty collection gives no statement, and neither does a row without a
/// subject or a head.
pub proof fn empty_collection_gives_nothing(row: Seq<BindingView>, quads: Seq<QuadView>)
    requires
        value_in(row, "head"@) == Some(nil()) || value_in(row, "head"@) is None || value_in(row, "subject"@) is None,
    ensures
        entered(seq![row], quads) == PlaceView::Behind(quads),
{
    nil_is_plain();
    reveal_with_fuel(entered, 2);
    assert(seq![row].drop_first() =~= Seq::empty());
}

/// The patterns of an anchor, each with a blank behind it.
pub open spec fn anchor_patterns_text(a: AnchorView) -> Seq<char> {
    match a.class {
        Some(c) => "?subject a <"@ + c + "> . "@,
        None => match a.predicate_signature {
            Some(sig) => signature_patterns_text(sig),
            None => Seq::empty(),
        },
    }
}

pub open spec fn signature_patterns_text(sig: Seq<Seq<char>>) -> Seq<char>
    decreases sig.len(),
{
    if sig.len() == 0 {
        Seq::empty()
    } else {
        signature_patterns_text(sig.drop_last()) + "?subject <"@ + sig.last() + "> ?_sig"@ + decimal_of(
            (sig.len() - 1) as nat,
        ) + " . "@
    }
}

proof fn signature_is_spaced(sig: Seq<Seq<char>>)
    ensures
        spaced(signature_patterns(sig)) == signature_patterns_text(sig),
    decreases sig.len(),
{
    reveal_strlit(" .");
    reveal_strlit(" ");
    reveal_strlit(" . ");
    let parts = signature_patterns(sig);
    if sig.len() > 0 {
        signature_is_spaced(sig.drop_last());
        assert(parts.drop_last() =~= signature_patterns(sig.drop_last()));
        assert(spaced(parts) =~= signature_patterns_text(sig));
    }
}

/// The heads are asked for under the collection's predicate, for every subject of
/// the anchor; then a cell's value and rest are asked for, one cell at a time.
pub proof fn heads_are_asked_for(d: Descriptor, names: Seq<Seq<char>>, flat: Seq<BindingView>)
    requires
        d.sink matches Some(sink) && names.contains(sink@),
        anchored(d.anchor@),
    ensures
        next(d, StageView::Sinks, ReplyView::Sinks(names)) == (
            StageView::Heads,
            RequestView::Query(
                "SELECT ?subject ?head WHERE { "@ + anchor_patterns_text(d.anchor@) + "?subject <"@ + d.list_predicate@
                    + "> ?head }"@,
            ),
        ),
        next(d, StageView::Heads, ReplyView::Result(QueryResultView::Bindings(flat))) == (
            StageView::Preparing(grouped(flat)),
            RequestView::Prepare(
                "SELECT ?value ?rest WHERE { ?head <http://www.w3.org/1999/02/22-rdf-syntax-ns#first> ?value ; <http://www.w3.org/1999/02/22-rdf-syntax-ns#rest>  ?rest }"@,
            ),
        ),
{
    reveal_strlit("> .");
    reveal_strlit("> . ");
    reveal_strlit(" ");
    match d.anchor@.class {
        Some(c) => {
            reveal_with_fuel(spaced, 2);
            let parts = anchor_patterns(d.anchor@)->0;
            assert(parts.drop_last() =~= Seq::empty());
            assert(spaced(parts) =~= anchor_patterns_text(d.anchor@));
        },
        None => signature_is_spaced(d.anchor@.predicate_signature->0),
    }
}

} // verus!

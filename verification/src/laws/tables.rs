//! What goes to a sink as a table, and what is taken from the graph for it.

use vstd::prelude::*;
use crate::demote;
use crate::host::{ReplyView, RequestView};
use crate::infer::engine::size_in;
use crate::materialize;
use crate::materialize::{all_quads, class_quads, column_pattern, column_quad, column_quads, row_quads, select_text,
    with_columns, BodyView, Stage};
use crate::number::decimal_of;
use crate::rdf::{grouped, node_id, value_in, BindingView, LiteralView, QuadView, QueryResultView, TermView, RDF_TYPE};
use crate::shape::{anchor_patterns, signature_patterns, AnchorView, ColumnView};
use crate::text::{joined, opt_view, views};

verus! {

// ---------------------------------------------------------------------------
// Tables of statements
// ---------------------------------------------------------------------------

/// A value under a column's type: a literal gets the datatype of the type and
/// loses its language, every other term stays.
pub open spec fn retyped(t: TermView, ty: Seq<char>) -> TermView {
    match t {
        TermView::Literal(l) => TermView::Literal(
            LiteralView {
                value: l.value,
                datatype: if ty == "integer"@ {
                    Some("http://www.w3.org/2001/XMLSchema#integer"@)
                } else if ty == "decimal"@ {
                    Some("http://www.w3.org/2001/XMLSchema#decimal"@)
                } else if ty == "boolean"@ {
                    Some("http://www.w3.org/2001/XMLSchema#boolean"@)
                } else if ty == "date"@ {
                    Some("http://www.w3.org/2001/XMLSchema#date"@)
                } else if ty == "datetime"@ {
                    Some("http://www.w3.org/2001/XMLSchema#dateTime"@)
                } else {
                    None
                },
                language: None,
            },
        ),
        _ => t,
    }
}

/// Whether a statement is that of a row's class.
pub open spec fn states_class(q: QuadView, subject: TermView, class: Option<Seq<char>>, graph: Option<Seq<char>>) -> bool {
    class matches Some(c) && q == (QuadView {
        subject,
        predicate: TermView::NamedNode("http://www.w3.org/1999/02/22-rdf-syntax-ns#type"@),
        object: TermView::NamedNode(c),
        graph,
    })
}

/// Whether a statement is that of a row's value in a column.
pub open spec fn states_column(
    q: QuadView,
    row: Seq<BindingView>,
    subject: TermView,
    c: ColumnView,
    graph: Option<Seq<char>>,
) -> bool {
    c.role != "subject_iri"@ && (c.predicate matches Some(p) && (value_in(row, c.name) matches Some(v) && q
        == (QuadView {
        subject,
        predicate: TermView::NamedNode(p),
        object: retyped(v, c.value_type),
        graph,
    })))
}

/// Whether a statement is one of a row's: of its class, or of its value in one of
/// the columns.
pub open spec fn row_states(
    q: QuadView,
    row: Seq<BindingView>,
    class: Option<Seq<char>>,
    columns: Seq<ColumnView>,
    graph: Option<Seq<char>>,
) -> bool {
    value_in(row, "subject"@) matches Some(subject) && {
        ||| states_class(q, subject, class, graph)
        ||| exists|j: int| 0 <= j < columns.len() && states_column(q, row, subject, #[trigger] columns[j], graph)
    }
}

/// Whether one of the rows states a statement.
pub open spec fn rows_state(
    q: QuadView,
    rows: Seq<Seq<BindingView>>,
    class: Option<Seq<char>>,
    columns: Seq<ColumnView>,
    graph: Option<Seq<char>>,
) -> bool {
    exists|i: int| 0 <= i < rows.len() && row_states(q, #[trigger] rows[i], class, columns, graph)
}

/// How many rows name a subject.
pub open spec fn named_rows(rows: Seq<Seq<BindingView>>) -> nat
    decreases rows.len(),
{
    if rows.len() == 0 {
        0
    } else {
        named_rows(rows.drop_first()) + if value_in(rows[0], "subject"@) is Some {
            1nat
        } else {
            0nat
        }
    }
}

proof fn push_has<A>(s: Seq<A>, a: A, x: A)
    ensures
        s.push(a).contains(x) <==> s.contains(x) || x == a,
{
    if s.contains(x) {
        let i = choose|i: int| 0 <= i < s.len() && s[i] == x;
        assert(s.push(a)[i] == x);
    }
    if x == a {
        assert(s.push(a)[s.len() as int] == x);
    }
    if s.push(a).contains(x) && x != a {
        let i = choose|i: int| 0 <= i < s.push(a).len() && s.push(a)[i] == x;
        assert(s[i] == x);
    }
}

proof fn sum_has<A>(s: Seq<A>, t: Seq<A>, x: A)
    ensures
        (s + t).contains(x) <==> s.contains(x) || t.contains(x),
{
    if s.contains(x) {
        let i = choose|i: int| 0 <= i < s.len() && s[i] == x;
        assert((s + t)[i] == x);
    }
    if t.contains(x) {
        let i = choose|i: int| 0 <= i < t.len() && t[i] == x;
        assert((s + t)[s.len() + i] == x);
    }
    if (s + t).contains(x) {
        let i = choose|i: int| 0 <= i < (s + t).len() && (s + t)[i] == x;
        if i < s.len() {
            assert(s[i] == x);
        } else {
            assert(t[i - s.len()] == x);
        }
    }
}

proof fn columns_state(
    q: QuadView,
    row: Seq<BindingView>,
    subject: TermView,
    columns: Seq<ColumnView>,
    graph: Option<Seq<char>>,
)
    ensures
        column_quads(row, subject, columns, graph).contains(q) <==> exists|j: int|
            0 <= j < columns.len() && states_column(q, row, subject, #[trigger] columns[j], graph),
    decreases columns.len(),
{
    let all = column_quads(row, subject, columns, graph);
    if columns.len() > 0 {
        let rest = columns.drop_last();
        let last = columns.last();
        columns_state(q, row, subject, rest, graph);
        let before = column_quads(row, subject, rest, graph);
        assert(states_column(q, row, subject, last, graph) <==> column_quad(row, subject, last, graph) == Some(q));
        match column_quad(row, subject, last, graph) {
            Some(x) => push_has(before, x, q),
            None => {},
        }
        if exists|j: int| 0 <= j < rest.len() && states_column(q, row, subject, #[trigger] rest[j], graph) {
            let j = choose|j: int| 0 <= j < rest.len() && states_column(q, row, subject, #[trigger] rest[j], graph);
            assert(columns[j] == rest[j]);
        }
        if states_column(q, row, subject, last, graph) {
            assert(columns[columns.len() - 1] == last);
        }
        if exists|j: int| 0 <= j < columns.len() && states_column(q, row, subject, #[trigger] columns[j], graph) {
            let j = choose|j: int|
                0 <= j < columns.len() && states_column(q, row, subject, #[trigger] columns[j], graph);
            if j < rest.len() {
                assert(rest[j] == columns[j]);
            }
        }
    } else {
        assert(!all.contains(q));
    }
}

proof fn one_row_states(q: QuadView, row: Seq<BindingView>, d: materialize::Descriptor)
    ensures
        (row_quads(row, d) matches Some(quads) && quads.contains(q)) <==> row_states(
            q,
            row,
            opt_view(d.anchor.class),
            views(d.columns@),
            opt_view(d.graph),
        ),
{
    match value_in(row, "subject"@) {
        Some(subject) => {
            let (class, columns, graph) = (opt_view(d.anchor.class), views(d.columns@), opt_view(d.graph));
            let own = class_quads(subject, class, graph);
            columns_state(q, row, subject, columns, graph);
            sum_has(own, column_quads(row, subject, columns, graph), q);
            assert(own.contains(q) <==> states_class(q, subject, class, graph)) by {
                match class {
                    Some(c) => {
                        if states_class(q, subject, class, graph) {
                            assert(own[0] == q);
                        }
                    },
                    None => {},
                }
            }
        },
        None => {},
    }
}

proof fn all_rows_state(q: QuadView, rows: Seq<Seq<BindingView>>, d: materialize::Descriptor)
    ensures
        all_quads(rows, d).0.contains(q) <==> rows_state(
            q,
            rows,
            opt_view(d.anchor.class),
            views(d.columns@),
            opt_view(d.graph),
        ),
    decreases rows.len(),
{
    let (class, columns, graph) = (opt_view(d.anchor.class), views(d.columns@), opt_view(d.graph));
    if rows.len() > 0 {
        let rest = rows.drop_last();
        all_rows_state(q, rest, d);
        one_row_states(q, rows.last(), d);
        match row_quads(rows.last(), d) {
            Some(quads) => sum_has(all_quads(rest, d).0, quads, q),
            None => {},
        }
        if rows_state(q, rest, class, columns, graph) {
            let i = choose|i: int| 0 <= i < rest.len() && row_states(q, #[trigger] rest[i], class, columns, graph);
            assert(rows[i] == rest[i]);
        }
        if row_states(q, rows.last(), class, columns, graph) {
            assert(rows[rows.len() - 1] == rows.last());
        }
        if rows_state(q, rows, class, columns, graph) {
            let i = choose|i: int| 0 <= i < rows.len() && row_states(q, #[trigger] rows[i], class, columns, graph);
            if i < rest.len() {
                assert(rest[i] == rows[i]);
            }
        }
    } else {
        assert(!all_quads(rows, d).0.contains(q));
    }
}

proof fn named_rows_push(rows: Seq<Seq<BindingView>>, row: Seq<BindingView>)
    ensures
        named_rows(rows.push(row)) == named_rows(rows) + if value_in(row, "subject"@) is Some {
            1nat
        } else {
            0nat
        },
    decreases rows.len(),
{
    if rows.len() == 0 {
        reveal_with_fuel(named_rows, 2);
        assert(rows.push(row).drop_first() =~= Seq::empty());
    } else {
        named_rows_push(rows.drop_first(), row);
        assert(rows.push(row).drop_first() =~= rows.drop_first().push(row));
        assert(rows.push(row)[0] == rows[0]);
    }
}

proof fn rows_are_counted(rows: Seq<Seq<BindingView>>, d: materialize::Descriptor)
    requires
        rows.len() <= u64::MAX,
    ensures
        all_quads(rows, d).1 == named_rows(rows),
        named_rows(rows) <= rows.len(),
    decreases rows.len(),
{
    if rows.len() > 0 {
        rows_are_counted(rows.drop_last(), d);
        named_rows_push(rows.drop_last(), rows.last());
        assert(rows.drop_last().push(rows.last()) =~= rows);
    }
}

/// What is sent to the sink is exactly what the rows state: the class of each
/// subject, and under each column's predicate the subject's value as one of the
/// column's type.
pub proof fn sink_gets_what_the_rows_state(
    d: materialize::Descriptor,
    flat: Seq<BindingView>,
    stage: Stage,
    request: RequestView,
)
    requires
        (stage, request) == materialize::next(
            d,
            Stage::Rows,
            ReplyView::Result(QueryResultView::Bindings(flat)),
        ),
        d.sink is Some,
        grouped(flat).len() <= u64::MAX,
    ensures
        ({
            let (class, columns, graph) = (opt_view(d.anchor.class), views(d.columns@), opt_view(d.graph));
            let rows = grouped(flat);
            &&& (exists|q: QuadView| #[trigger] rows_state(q, rows, class, columns, graph)) ==> {
                &&& request matches RequestView::Emit(sink, quads) && sink == (d.sink->0)@ && forall|q: QuadView| #[trigger]
                    quads.contains(q) <==> rows_state(q, rows, class, columns, graph)
                &&& stage == Stage::Emitting(named_rows(rows) as u64)
            }
            &&& !(exists|q: QuadView| #[trigger] rows_state(q, rows, class, columns, graph)) ==> stage is Over
        }),
{
    let rows = grouped(flat);
    let (class, columns, graph) = (opt_view(d.anchor.class), views(d.columns@), opt_view(d.graph));
    let quads = all_quads(rows, d).0;
    rows_are_counted(rows, d);
    assert forall|q: QuadView| #[trigger] quads.contains(q) <==> rows_state(q, rows, class, columns, graph) by {
        all_rows_state(q, rows, d);
    }
    if quads.len() > 0 {
        assert(quads.contains(quads[0]));
    }
    if exists|q: QuadView| #[trigger] rows_state(q, rows, class, columns, graph) {
        let q = choose|q: QuadView| #[trigger] rows_state(q, rows, class, columns, graph);
        assert(quads.contains(q));
    }
}

// ---------------------------------------------------------------------------
// The query for the rows
// ---------------------------------------------------------------------------

/// The variables of the columns.
pub open spec fn column_variables(columns: Seq<ColumnView>) -> Seq<char>
    decreases columns.len(),
{
    if columns.len() == 0 {
        Seq::empty()
    } else if columns.last().role == "subject_iri"@ {
        column_variables(columns.drop_last())
    } else {
        column_variables(columns.drop_last()) + " ?"@ + columns.last().name
    }
}

/// The patterns of the columns: a column of which every subject has a value must
/// match, any other may.
pub open spec fn columns_text(columns: Seq<ColumnView>) -> Seq<char>
    decreases columns.len(),
{
    if columns.len() == 0 {
        Seq::empty()
    } else {
        let before = columns_text(columns.drop_last());
        let c = columns.last();
        if c.role == "subject_iri"@ {
            before
        } else if c.cardinality == "1"@ || c.cardinality == "1..n"@ {
            before + " ?subject <"@ + c.predicate->0 + "> ?"@ + c.name + " ."@
        } else {
            before + " OPTIONAL { ?subject <"@ + c.predicate->0 + "> ?"@ + c.name + " . }"@
        }
    }
}

/// The patterns of an anchor: membership in the class, or a value under each
/// predicate of the signature.
pub open spec fn anchor_text(a: AnchorView) -> Seq<char> {
    match a.class {
        Some(c) => "?subject a <"@ + c + "> ."@,
        None => match a.predicate_signature {
            Some(sig) => signature_text(sig),
            None => Seq::empty(),
        },
    }
}

pub open spec fn signature_text(sig: Seq<Seq<char>>) -> Seq<char>
    decreases sig.len(),
{
    if sig.len() == 0 {
        Seq::empty()
    } else {
        let own = "?subject <"@ + sig.last() + "> ?_sig"@ + decimal_of((sig.len() - 1) as nat) + " ."@;
        if sig.len() == 1 {
            own
        } else {
            signature_text(sig.drop_last()) + " "@ + own
        }
    }
}

/// Whether an anchor asks for anything.
pub open spec fn anchored(a: AnchorView) -> bool {
    a.class is Some || (a.predicate_signature matches Some(sig) && sig.len() > 0)
}

/// Whether every column but the subject's has a predicate.
pub open spec fn all_have_predicates(columns: Seq<ColumnView>) -> bool {
    forall|i: int|
        0 <= i < columns.len() ==> (#[trigger] columns[i]).role == "subject_iri"@ || columns[i].predicate is Some
}

proof fn joined_push(parts: Seq<Seq<char>>, part: Seq<char>)
    requires
        parts.len() > 0,
    ensures
        joined(parts.push(part), " "@) == joined(parts, " "@) + " "@ + part,
{
    assert(parts.push(part).drop_last() =~= parts);
}

proof fn signature_is_written(sig: Seq<Seq<char>>)
    requires
        sig.len() > 0,
    ensures
        joined(signature_patterns(sig), " "@) == signature_text(sig),
    decreases sig.len(),
{
    let parts = signature_patterns(sig);
    if sig.len() > 1 {
        signature_is_written(sig.drop_last());
        assert(parts.drop_last() =~= signature_patterns(sig.drop_last()));
    }
}

proof fn body_is_written(start: BodyView, columns: Seq<ColumnView>)
    requires
        all_have_predicates(columns),
        start.variables.len() > 0,
        start.patterns.len() > 0,
    ensures
        with_columns(start, columns) matches Ok(body) && {
            &&& body.variables.len() > 0
            &&& body.patterns.len() > 0
            &&& joined(body.variables, " "@) == joined(start.variables, " "@) + column_variables(columns)
            &&& joined(body.patterns, " "@) == joined(start.patterns, " "@) + columns_text(columns)
        },
    decreases columns.len(),
{
    reveal_strlit(" ?");
    reveal_strlit("?");
    reveal_strlit(" ");
    reveal_strlit("?subject <");
    reveal_strlit(" ?subject <");
    reveal_strlit("> ");
    reveal_strlit("> ?");
    reveal_strlit(" .");
    reveal_strlit(" }");
    reveal_strlit(" . }");
    reveal_strlit("OPTIONAL { ");
    reveal_strlit(" OPTIONAL { ?subject <");
    if columns.len() > 0 {
        let rest = columns.drop_last();
        let c = columns.last();
        assert(all_have_predicates(rest)) by {
            assert forall|i: int| 0 <= i < rest.len() implies (#[trigger] rest[i]).role == "subject_iri"@
                || rest[i].predicate is Some by {
                assert(rest[i] == columns[i]);
            }
        }
        body_is_written(start, rest);
        assert(columns[columns.len() - 1] == c);
        let before = with_columns(start, rest)->Ok_0;
        if c.role != "subject_iri"@ {
            let p = c.predicate->0;
            joined_push(before.variables, "?"@ + c.name);
            joined_push(before.patterns, column_pattern(c, p));
            let body = with_columns(start, columns)->Ok_0;
            assert(joined(body.variables, " "@) =~= joined(start.variables, " "@) + column_variables(columns));
            assert(joined(body.patterns, " "@) =~= joined(start.patterns, " "@) + columns_text(columns));
        }
    } else {
        assert(joined(start.variables, " "@) + column_variables(columns) =~= joined(start.variables, " "@));
        assert(joined(start.patterns, " "@) + columns_text(columns) =~= joined(start.patterns, " "@));
    }
}

/// The rows are asked for in one query: the subject and each column's variable,
/// for every subject of the anchor, in the shape's graph where it has one.
pub proof fn rows_are_asked_for(d: materialize::Descriptor, names: Seq<Seq<char>>)
    requires
        d.sink matches Some(sink) && names.contains(sink@),
        anchored(d.anchor@),
        all_have_predicates(views(d.columns@)),
    ensures
        ({
            let body = anchor_text(d.anchor@) + columns_text(views(d.columns@));
            materialize::next(d, Stage::Sinks, ReplyView::Sinks(names)) == (
                Stage::Rows,
                RequestView::Query(
                    "SELECT ?subject"@ + column_variables(views(d.columns@)) + " WHERE { "@ + (match d.graph {
                        Some(g) => "GRAPH <"@ + g@ + "> { "@ + body + " }"@,
                        None => body,
                    }) + " }"@,
                ),
            )
        }),
{
    reveal_strlit("SELECT ?subject");
    reveal_strlit("SELECT ");
    reveal_strlit("?subject");
    let patterns = anchor_patterns(d.anchor@)->0;
    let start = BodyView { variables: seq!["?subject"@], patterns };
    let columns = views(d.columns@);
    body_is_written(start, columns);
    assert(joined(patterns, " "@) == anchor_text(d.anchor@)) by {
        match d.anchor@.class {
            Some(c) => {},
            None => signature_is_written(d.anchor@.predicate_signature->0),
        }
    }
    let body = anchor_text(d.anchor@) + columns_text(columns);
    let wanted = match d.graph {
        Some(g) => "GRAPH <"@ + g@ + "> { "@ + body + " }"@,
        None => body,
    };
    assert(select_text(d)->Ok_0 =~= "SELECT ?subject"@ + column_variables(columns) + " WHERE { "@ + wanted + " }"@);
}

// ---------------------------------------------------------------------------
// Taking the table's statements from the graph
// ---------------------------------------------------------------------------

/// Whether a table has statements with a predicate.
pub open spec fn table_has(class: Option<Seq<char>>, columns: Seq<ColumnView>, p: Seq<char>) -> bool {
    ||| class is Some && p == "http://www.w3.org/1999/02/22-rdf-syntax-ns#type"@
    ||| exists|j: int|
        0 <= j < columns.len() && (#[trigger] columns[j]).role != "subject_iri"@ && columns[j].predicate == Some(p)
}

proof fn columns_have(columns: Seq<ColumnView>, p: Seq<char>)
    ensures
        demote::column_predicates(columns).contains(p) <==> exists|j: int|
            0 <= j < columns.len() && (#[trigger] columns[j]).role != "subject_iri"@ && columns[j].predicate == Some(p),
    decreases columns.len(),
{
    let all = demote::column_predicates(columns);
    if columns.len() > 0 {
        let rest = columns.drop_last();
        let last = columns.last();
        columns_have(rest, p);
        let before = demote::column_predicates(rest);
        match last.predicate {
            Some(x) => push_has(before, x, p),
            None => {},
        }
        if exists|j: int|
            0 <= j < rest.len() && (#[trigger] rest[j]).role != "subject_iri"@ && rest[j].predicate == Some(p) {
            let j = choose|j: int|
                0 <= j < rest.len() && (#[trigger] rest[j]).role != "subject_iri"@ && rest[j].predicate == Some(p);
            assert(columns[j] == rest[j]);
        }
        assert(columns[columns.len() - 1] == last);
        if exists|j: int|
            0 <= j < columns.len() && (#[trigger] columns[j]).role != "subject_iri"@ && columns[j].predicate == Some(
                p,
            ) {
            let j = choose|j: int|
                0 <= j < columns.len() && (#[trigger] columns[j]).role != "subject_iri"@ && columns[j].predicate
                    == Some(p);
            if j < rest.len() {
                assert(rest[j] == columns[j]);
            }
        }
    } else {
        assert(!all.contains(p));
    }
}

/// What is deleted are the statements under the predicates that the table has,
/// and under no other.
pub proof fn predicates_of_the_table_are_demoted(d: demote::Descriptor, p: Seq<char>)
    ensures
        demote::demoted_predicates(d).contains(p) <==> table_has(opt_view(d.anchor.class), views(d.columns@), p),
{
    let of_columns = demote::column_predicates(views(d.columns@));
    columns_have(views(d.columns@), p);
    if d.anchor.class is Some {
        push_has(of_columns, RDF_TYPE@, p);
    }
}

/// Every statement that a table puts on its sink is under a predicate that the
/// same table deletes.
pub proof fn what_is_sent_is_demoted(
    m: materialize::Descriptor,
    d: demote::Descriptor,
    rows: Seq<Seq<BindingView>>,
    q: QuadView,
)
    requires
        opt_view(m.anchor.class) == opt_view(d.anchor.class),
        views(m.columns@) == views(d.columns@),
        all_quads(rows, m).0.contains(q),
    ensures
        q.predicate matches TermView::NamedNode(p) && demote::demoted_predicates(d).contains(p),
{
    all_rows_state(q, rows, m);
    let (class, columns, graph) = (opt_view(m.anchor.class), views(m.columns@), opt_view(m.graph));
    let i = choose|i: int| 0 <= i < rows.len() && row_states(q, #[trigger] rows[i], class, columns, graph);
    let subject = value_in(rows[i], "subject"@)->0;
    let p = q.predicate->NamedNode_0;
    if !states_class(q, subject, class, graph) {
        let j = choose|j: int|
            0 <= j < columns.len() && states_column(q, rows[i], subject, #[trigger] columns[j], graph);
        assert(columns[j].predicate == Some(p));
    }
    predicates_of_the_table_are_demoted(d, p);
}

/// Nodes as a list of values is written.
pub open spec fn nodes_text(ids: Seq<Seq<char>>) -> Seq<char>
    decreases ids.len(),
{
    if ids.len() == 0 {
        Seq::empty()
    } else {
        let own = if "_:"@.is_prefix_of(ids.last()) {
            ids.last()
        } else {
            "<"@ + ids.last() + ">"@
        };
        if ids.len() == 1 {
            own
        } else {
            nodes_text(ids.drop_last()) + " "@ + own
        }
    }
}

proof fn nodes_are_written(ids: Seq<Seq<char>>)
    ensures
        joined(demote::subject_texts(ids), " "@) == nodes_text(ids),
    decreases ids.len(),
{
    let parts = demote::subject_texts(ids);
    if ids.len() > 1 {
        nodes_are_written(ids.drop_last());
        assert(parts.drop_last() =~= demote::subject_texts(ids.drop_last()));
    }
}

/// The statements of a predicate in a graph, or in the default graph.
pub open spec fn statements_pattern(graph: Option<Seq<char>>, p: Seq<char>) -> Seq<char> {
    match graph {
        Some(g) => "GRAPH <"@ + g + "> { ?s <"@ + p + "> ?o }"@,
        None => "?s <"@ + p + "> ?o"@,
    }
}

/// The update that deletes the statements of nodes under a predicate.
pub open spec fn nodes_deletion(graph: Option<Seq<char>>, p: Seq<char>, ids: Seq<Seq<char>>) -> Seq<char> {
    "DELETE { "@ + statements_pattern(graph, p) + " } WHERE { "@ + statements_pattern(graph, p) + " . VALUES ?s { "@
        + nodes_text(ids) + " } }"@
}

/// The query that counts the statements of nodes under a predicate.
pub open spec fn nodes_count(graph: Option<Seq<char>>, p: Seq<char>, ids: Seq<Seq<char>>) -> Seq<char> {
    "SELECT (COUNT(*) AS ?n) WHERE { "@ + statements_pattern(graph, p) + " . VALUES ?s { "@ + nodes_text(ids) + " } }"@
}

proof fn deletion_is_written(graph: Option<Seq<char>>, p: Seq<char>, ids: Seq<Seq<char>>)
    ensures
        demote::delete_text(graph, p, ids) == nodes_deletion(graph, p, ids),
        demote::count_text(graph, p, ids) == nodes_count(graph, p, ids),
{
    nodes_are_written(ids);
    reveal_strlit("> { ");
    reveal_strlit("?s <");
    reveal_strlit("> { ?s <");
    reveal_strlit("> ?o");
    reveal_strlit(" }");
    reveal_strlit("> ?o }");
    reveal_strlit(" WHERE { ");
    reveal_strlit(" } WHERE { ");
    reveal_strlit("SELECT (COUNT(*) AS ?n)");
    reveal_strlit("SELECT (COUNT(*) AS ?n) WHERE { ");
    assert(demote::pattern_text(graph, p) =~= statements_pattern(graph, p));
    assert(demote::delete_text(graph, p, ids) =~= nodes_deletion(graph, p, ids));
    assert(demote::count_text(graph, p, ids) =~= nodes_count(graph, p, ids));
}

/// A call after so many chunks have been counted and deleted.
pub open spec fn after_chunks(
    d: demote::Descriptor,
    at: (demote::StageView, RequestView),
    count: QueryResultView,
    n: nat,
) -> (demote::StageView, RequestView)
    decreases n,
{
    if n == 0 {
        at
    } else {
        let counted = demote::next(d, at.0, ReplyView::Result(count));
        after_chunks(d, demote::next(d, counted.0, ReplyView::Done), count, (n - 1) as nat)
    }
}

proof fn chunk_comes(
    d: demote::Descriptor,
    p: demote::ProgressView,
    count: QueryResultView,
    at: nat,
    k: int,
) -> (r: (nat, Seq<Seq<char>>))
    requires
        d.sink is Some,
        at < p.predicates.len(),
        0 <= k < p.subjects.len(),
        p.at < at || (p.at == at && p.from <= k),
        p.from < p.subjects.len(),
    ensures
        ({
            let place = after_chunks(d, demote::count_on(d, p), count, r.0);
            &&& place.1 == RequestView::Query(nodes_count(opt_view(d.graph), p.predicates[at as int], r.1))
            &&& demote::next(d, place.0, ReplyView::Result(count)).1 == RequestView::Update(
                nodes_deletion(opt_view(d.graph), p.predicates[at as int], r.1),
            )
            &&& r.1.contains(p.subjects[k])
        }),
    decreases at - p.at, p.subjects.len() - p.from,
{
    let end = demote::chunk_end(p.subjects.len(), p.from);
    let ids = demote::chunk_at(p.subjects, p.from);
    if p.at == at && k < end {
        deletion_is_written(opt_view(d.graph), p.predicates[at as int], ids);
        assert(ids[k - p.from] == p.subjects[k]);
        (0, ids)
    } else {
        let counted = demote::ProgressView { deleted: crate::number::capped(p.deleted, size_in(count)), ..p };
        let r = chunk_comes(d, demote::past_chunk(counted), count, at, k);
        (r.0 + 1, r.1)
    }
}

/// By the end of a call every subject that the sink names has been named in a
/// deletion under every predicate of the table, each in the table's graph.
pub proof fn every_subject_is_demoted(
    d: demote::Descriptor,
    p: demote::ProgressView,
    count: QueryResultView,
    at: nat,
    k: int,
)
    requires
        d.sink is Some,
        p.at == 0,
        p.from == 0,
        at < p.predicates.len(),
        0 <= k < p.subjects.len(),
    ensures
        exists|n: nat, ids: Seq<Seq<char>>|
            {
                &&& demote::next(
                    d,
                    (#[trigger] after_chunks(d, demote::count_on(d, p), count, n)).0,
                    ReplyView::Result(count),
                ).1 == RequestView::Update(
                    #[trigger] nodes_deletion(opt_view(d.graph), p.predicates[at as int], ids),
                )
                &&& ids.contains(p.subjects[k])
            },
{
    let r = chunk_comes(d, p, count, at, k);
    let place = after_chunks(d, demote::count_on(d, p), count, r.0);
    assert(demote::next(d, place.0, ReplyView::Result(count)).1 == RequestView::Update(
        nodes_deletion(opt_view(d.graph), p.predicates[at as int], r.1),
    ));
}

/// The sink is asked for its statements under each predicate of the table in
/// turn, and the subjects of all of these are what the deletions are for.
pub proof fn every_predicate_is_scanned(
    d: demote::Descriptor,
    names: Seq<Seq<char>>,
    at: nat,
    found: Set<Seq<char>>,
    quads: Seq<QuadView>,
)
    requires
        d.sink matches Some(sink) && names.contains(sink@),
        found.finite(),
    ensures
        ({
            let predicates = demote::demoted_predicates(d);
            let first = demote::next(d, demote::StageView::Sinks, ReplyView::Sinks(names));
            let (stage, request) = demote::next(
                d,
                demote::StageView::Scanning(predicates, at, found),
                ReplyView::Quads(quads),
            );
            &&& predicates.len() > 0 ==> first.0 == demote::StageView::Scanning(predicates, 0, Set::empty())
                && first.1 == RequestView::Scan((d.sink->0)@, predicates[0])
            &&& at + 1 < predicates.len() ==> {
                &&& request == RequestView::Scan((d.sink->0)@, predicates[at as int + 1])
                &&& stage matches demote::StageView::Scanning(ps, a, f) && ps == predicates && a == at + 1
                    && forall|id: Seq<char>| #[trigger]
                        f.contains(id) <==> found.contains(id) || exists|i: int|
                            0 <= i < quads.len() && node_id((#[trigger] quads[i]).subject) == Some(id)
            }
            &&& at + 1 >= predicates.len() ==> (stage matches demote::StageView::Counting(p) ==> {
                &&& p.predicates == predicates
                &&& p.at == 0 && p.from == 0 && p.deleted == 0
                &&& forall|id: Seq<char>| #[trigger]
                    p.subjects.contains(id) <==> found.contains(id) || exists|i: int|
                        0 <= i < quads.len() && node_id((#[trigger] quads[i]).subject) == Some(id)
            })
        }),
{
    let now = demote::with_subjects(found, quads);
    assert forall|id: Seq<char>| #[trigger] now.contains(id) <==> found.contains(id) || exists|i: int|
        0 <= i < quads.len() && node_id((#[trigger] quads[i]).subject) == Some(id) by {
        demote::subjects_come_from_the_sink(found, quads, id);
    }
    demote::subjects_are_finite(found, quads);
    crate::names::listed(now);
}

} // verus!

//! `wf_materialize`: turns the members of a class, or the subjects with certain
//! predicates, into rows of typed statements at a sink.

use vstd::prelude::*;
use vstd::string::*;

use crate::guest::{describes, never_constructed, never_constructed_text, one_function, unknown_function,
    unknown_function_text, FunctionDescriptor};
use crate::host::{count_views, fail, failure, give_up, given_up, literal_arg, literal_or, missing_sink, summarize,
    summary_of, text_or_error, validate_sink_present, Reply, ReplyView, Request, RequestView};
use crate::rdf::{find_value, group_bindings_into_rows, grouped, row_views, value_in, Binding, BindingView, Quad,
    QuadView, QueryResult, QueryResultView, Term, TermView, RDF_TYPE};
use crate::shape::{anchor_patterns, coerce, coerced, patterns_of, Anchor, Column, ColumnView};
use crate::text::{copy_opt, join, joined, opt_view, same, views, views_push};

verus! {

pub const COMPONENT: &'static str = "wf_materialize";

/// What to materialize.
pub struct Descriptor {
    pub name: String,
    pub shape: String,
    pub anchor: Anchor,
    pub columns: Vec<Column>,
    pub sink: Option<String>,
    pub registry: Option<String>,
    pub graph: Option<String>,
}

/// The descriptor's text among the arguments of a call.
pub fn descriptor_text(args: &Vec<Term>) -> (r: Result<String, String>)
    ensures
        text_or_error(r) == literal_or(
            views(args@),
            "wf_materialize: expected one arg (descriptor json)"@,
            "wf_materialize: first arg must be a string literal, got "@,
        ),
{
    literal_arg(
        args,
        "wf_materialize: expected one arg (descriptor json)",
        "wf_materialize: first arg must be a string literal, got ",
    )
}

// ---------------------------------------------------------------------------
// The query
// ---------------------------------------------------------------------------

/// The variables and the patterns of a query.
pub struct Body {
    pub variables: Vec<String>,
    pub patterns: Vec<String>,
}

pub struct BodyView {
    pub variables: Seq<Seq<char>>,
    pub patterns: Seq<Seq<char>>,
}

impl View for Body {
    type V = BodyView;

    open spec fn view(&self) -> BodyView {
        BodyView { variables: views(self.variables@), patterns: views(self.patterns@) }
    }
}

/// The pattern of a column: required where each subject has a value, optional
/// otherwise.
pub open spec fn column_pattern(c: ColumnView, predicate: Seq<char>) -> Seq<char> {
    let triple = "?subject <"@ + predicate + "> "@ + ("?"@ + c.name) + " ."@;
    if c.cardinality == "1"@ || c.cardinality == "1..n"@ {
        triple
    } else {
        "OPTIONAL { "@ + triple + " }"@
    }
}

/// A query's body with the columns added to it. A column needs a predicate
/// unless it is the subject itself, which adds nothing.
pub open spec fn with_columns(start: BodyView, columns: Seq<ColumnView>) -> Result<BodyView, Seq<char>>
    decreases columns.len(),
{
    if columns.len() == 0 {
        Ok(start)
    } else {
        let c = columns.last();
        match with_columns(start, columns.drop_last()) {
            Err(e) => Err(e),
            Ok(body) => if c.role == "subject_iri"@ {
                Ok(body)
            } else {
                match c.predicate {
                    None => Err("column `"@ + c.name + "` needs `predicate`"@),
                    Some(predicate) => Ok(
                        BodyView {
                            variables: body.variables.push("?"@ + c.name),
                            patterns: body.patterns.push(column_pattern(c, predicate)),
                        },
                    ),
                }
            },
        }
    }
}

proof fn column_error_stays(start: BodyView, columns: Seq<ColumnView>, k: int)
    requires
        0 <= k <= columns.len(),
        with_columns(start, columns.take(k)) is Err,
    ensures
        with_columns(start, columns) == with_columns(start, columns.take(k)),
    decreases columns.len() - k,
{
    if k < columns.len() {
        assert(columns.take(k + 1).drop_last() =~= columns.take(k));
        column_error_stays(start, columns, k + 1);
    } else {
        assert(columns.take(k) =~= columns);
    }
}

/// The query for the rows.
pub open spec fn select_text(d: Descriptor) -> Result<Seq<char>, Seq<char>> {
    match anchor_patterns(d.anchor@) {
        None => Err("wf_materialize: anchor missing both `class` and `predicate_signature`"@),
        Some(patterns) => match with_columns(
            BodyView { variables: seq!["?subject"@], patterns },
            views(d.columns@),
        ) {
            Err(e) => Err(e),
            Ok(body) => {
                let all = joined(body.patterns, " "@);
                let wanted = match d.graph {
                    Some(g) => "GRAPH <"@ + g@ + "> { "@ + all + " }"@,
                    None => all,
                };
                Ok("SELECT "@ + joined(body.variables, " "@) + " WHERE { "@ + wanted + " }"@)
            },
        },
    }
}

pub fn build_select(d: &Descriptor) -> (r: Result<String, String>)
    ensures
        text_or_error(r) == select_text(*d),
{
    broadcast use views_push;

    let mut patterns = match patterns_of(&d.anchor) {
        Some(patterns) => patterns,
        None => {
            return Err("wf_materialize: anchor missing both `class` and `predicate_signature`".to_owned());
        },
    };
    let ghost all = views(d.columns@);
    let mut variables = vec!["?subject".to_owned()];
    let ghost start = BodyView { variables: seq!["?subject"@], patterns: views(patterns@) };
    proof {
        assert(views(variables@) =~= seq!["?subject"@]);
    }
    for i in 0..d.columns.len()
        invariant
            all == views(d.columns@),
            with_columns(start, all.take(i as int)) == Ok::<BodyView, Seq<char>>(
                BodyView { variables: views(variables@), patterns: views(patterns@) },
            ),
    {
        let c = &d.columns[i];
        proof {
            assert(all.take(i + 1).drop_last() =~= all.take(i as int));
            assert(all.take(i + 1).last() == c@);
        }
        if !same(&c.role, "subject_iri") {
            match &c.predicate {
                None => {
                    proof {
                        column_error_stays(start, all, i + 1);
                    }
                    return Err("column `".to_owned().concat(&c.name).concat("` needs `predicate`"));
                },
                Some(predicate) => {
                    let variable = "?".to_owned().concat(&c.name);
                    let triple = "?subject <".to_owned().concat(predicate).concat("> ").concat(&variable).concat(" .");
                    variables.push(variable);
                    if same(&c.cardinality, "1") || same(&c.cardinality, "1..n") {
                        patterns.push(triple);
                    } else {
                        patterns.push("OPTIONAL { ".to_owned().concat(&triple).concat(" }"));
                    }
                },
            }
        }
    }
    proof {
        assert(all.take(all.len() as int) =~= all);
    }
    let joined_patterns = join(&patterns, " ");
    let wanted = match &d.graph {
        Some(g) => "GRAPH <".to_owned().concat(g).concat("> { ").concat(&joined_patterns).concat(" }"),
        None => joined_patterns,
    };
    Ok("SELECT ".to_owned().concat(&join(&variables, " ")).concat(" WHERE { ").concat(&wanted).concat(" }"))
}

// ---------------------------------------------------------------------------
// Rows
// ---------------------------------------------------------------------------

/// The statement that a row gives for a column, if the row has a value.
pub open spec fn column_quad(
    row: Seq<BindingView>,
    subject: TermView,
    c: ColumnView,
    graph: Option<Seq<char>>,
) -> Option<QuadView> {
    if c.role == "subject_iri"@ {
        None
    } else {
        match (c.predicate, value_in(row, c.name)) {
            (Some(predicate), Some(value)) => Some(
                QuadView {
                    subject,
                    predicate: TermView::NamedNode(predicate),
                    object: coerced(value, c.value_type),
                    graph,
                },
            ),
            _ => None,
        }
    }
}

/// The statements that a row gives for the columns.
pub open spec fn column_quads(
    row: Seq<BindingView>,
    subject: TermView,
    columns: Seq<ColumnView>,
    graph: Option<Seq<char>>,
) -> Seq<QuadView>
    decreases columns.len(),
{
    if columns.len() == 0 {
        Seq::empty()
    } else {
        let before = column_quads(row, subject, columns.drop_last(), graph);
        match column_quad(row, subject, columns.last(), graph) {
            Some(q) => before.push(q),
            None => before,
        }
    }
}

/// The statement of a subject's class.
pub open spec fn class_quads(subject: TermView, class: Option<Seq<char>>, graph: Option<Seq<char>>) -> Seq<QuadView> {
    match class {
        Some(class) => seq![
            QuadView {
                subject,
                predicate: TermView::NamedNode(RDF_TYPE@),
                object: TermView::NamedNode(class),
                graph,
            },
        ],
        None => Seq::empty(),
    }
}

/// The statements of a row; none where the row names no subject.
pub open spec fn row_quads(row: Seq<BindingView>, d: Descriptor) -> Option<Seq<QuadView>> {
    match value_in(row, "subject"@) {
        Some(subject) => Some(
            class_quads(subject, opt_view(d.anchor.class), opt_view(d.graph)) + column_quads(
                row,
                subject,
                views(d.columns@),
                opt_view(d.graph),
            ),
        ),
        None => None,
    }
}

pub open spec fn quads_view(r: Option<Vec<Quad>>) -> Option<Seq<QuadView>> {
    match r {
        Some(quads) => Some(views(quads@)),
        None => None,
    }
}

pub fn build_row_quads(row: &Vec<Binding>, d: &Descriptor) -> (r: Option<Vec<Quad>>)
    ensures
        quads_view(r) == row_quads(views(row@), *d),
{
    broadcast use views_push;

    let subject = match find_value(row, "subject") {
        Some(subject) => subject,
        None => {
            return None;
        },
    };
    let mut quads: Vec<Quad> = Vec::new();
    match &d.anchor.class {
        Some(class) => {
            quads.push(
                Quad {
                    subject: subject.clone(),
                    predicate: Term::NamedNode(RDF_TYPE.to_owned()),
                    object: Term::NamedNode(class.clone()),
                    graph: copy_opt(&d.graph),
                },
            );
        },
        None => {},
    }
    let ghost first = class_quads(subject@, opt_view(d.anchor.class), opt_view(d.graph));
    let ghost all = views(d.columns@);
    proof {
        assert(views(quads@) =~= first);
        assert(first + column_quads(views(row@), subject@, all.take(0), opt_view(d.graph)) =~= first);
    }
    for i in 0..d.columns.len()
        invariant
            all == views(d.columns@),
            views(quads@) == first + column_quads(views(row@), subject@, all.take(i as int), opt_view(d.graph)),
    {
        let c = &d.columns[i];
        proof {
            assert(all.take(i + 1).drop_last() =~= all.take(i as int));
            assert(all.take(i + 1).last() == c@);
        }
        if !same(&c.role, "subject_iri") {
            match &c.predicate {
                Some(predicate) => match find_value(row, &c.name) {
                    Some(value) => {
                        quads.push(
                            Quad {
                                subject: subject.clone(),
                                predicate: Term::NamedNode(predicate.clone()),
                                object: coerce(value, &c.value_type),
                                graph: copy_opt(&d.graph),
                            },
                        );
                    },
                    None => {},
                },
                None => {},
            }
        }
        proof {
            let before = column_quads(views(row@), subject@, all.take(i as int), opt_view(d.graph));
            match column_quad(views(row@), subject@, c@, opt_view(d.graph)) {
                Some(q) => {
                    assert(first + before.push(q) =~= (first + before).push(q));
                },
                None => {},
            }
        }
    }
    proof {
        assert(all.take(all.len() as int) =~= all);
    }
    Some(quads)
}

/// The statements of all rows, and how many rows name a subject.
pub open spec fn all_quads(rows: Seq<Seq<BindingView>>, d: Descriptor) -> (Seq<QuadView>, u64)
    decreases rows.len(),
{
    if rows.len() == 0 {
        (Seq::empty(), 0)
    } else {
        let before = all_quads(rows.drop_last(), d);
        match row_quads(rows.last(), d) {
            Some(quads) => (before.0 + quads, before.1.wrapping_add(1)),
            None => before,
        }
    }
}

fn build_quads(rows: &Vec<Vec<Binding>>, d: &Descriptor) -> (r: (Vec<Quad>, u64))
    ensures
        (views(r.0@), r.1) == all_quads(row_views(rows@), *d),
{
    let ghost all = row_views(rows@);
    let mut quads: Vec<Quad> = Vec::new();
    let mut count: u64 = 0;
    proof {
        assert(views(quads@) =~= all_quads(all.take(0), *d).0);
    }
    for i in 0..rows.len()
        invariant
            all == row_views(rows@),
            (views(quads@), count) == all_quads(all.take(i as int), *d),
    {
        proof {
            assert(all.take(i + 1).drop_last() =~= all.take(i as int));
            assert(all.take(i + 1).last() == views(rows@[i as int]@));
        }
        match build_row_quads(&rows[i], d) {
            Some(more) => {
                let ghost before = quads@;
                let ghost added = more@;
                let mut more = more;
                quads.append(&mut more);
                proof {
                    assert(views(quads@) =~= views(before) + views(added));
                }
                count = count.wrapping_add(1);
            },
            None => {},
        }
    }
    proof {
        assert(all.take(all.len() as int) =~= all);
    }
    (quads, count)
}

// ---------------------------------------------------------------------------
// The call
// ---------------------------------------------------------------------------

/// How far a call has come: what it waits for.
pub enum Stage {
    /// The names of the sinks.
    Sinks,
    Rows,
    /// The sink, to take the statements of so many rows.
    Emitting(u64),
    /// Nothing: the call has finished.
    Over,
}

/// The first request of a call.
pub open spec fn begun(d: Descriptor) -> (Stage, RequestView) {
    match d.sink {
        Some(_) => (Stage::Sinks, RequestView::ListSinks),
        None => (Stage::Over, failure("wf_materialize: descriptor has no `sink`"@)),
    }
}

pub fn begin(d: &Descriptor) -> (r: (Stage, Request))
    ensures
        (r.0, r.1@) == begun(*d),
{
    match &d.sink {
        Some(_) => (Stage::Sinks, Request::ListSinks),
        None => (Stage::Over, fail("wf_materialize: descriptor has no `sink`".to_owned())),
    }
}

/// The sink's name.
pub open spec fn sink_of(d: Descriptor) -> Seq<char> {
    match d.sink {
        Some(sink) => sink@,
        None => Seq::empty(),
    }
}

fn sink_name(d: &Descriptor) -> (r: String)
    ensures
        r@ == sink_of(*d),
{
    match &d.sink {
        Some(sink) => sink.clone(),
        None => {
            let none = String::new();
            proof {
                assert(none@ =~= Seq::empty());
            }
            none
        },
    }
}

/// What a reply leads to.
pub open spec fn next(d: Descriptor, stage: Stage, reply: ReplyView) -> (Stage, RequestView) {
    match (stage, reply) {
        (Stage::Sinks, ReplyView::Sinks(names)) => if names.contains(sink_of(d)) {
            match select_text(d) {
                Ok(text) => (Stage::Rows, RequestView::Query(text)),
                Err(e) => (Stage::Over, failure(e)),
            }
        } else {
            (Stage::Over, failure(missing_sink(COMPONENT@, sink_of(d), names.len())))
        },
        (Stage::Rows, ReplyView::Result(result)) => match result {
            QueryResultView::Bindings(flat) => {
                let (quads, rows) = all_quads(grouped(flat), d);
                if quads.len() == 0 {
                    (Stage::Over, RequestView::Finish(Ok(summary_of(seq![("rows"@, rows)]))))
                } else {
                    (Stage::Emitting(rows), RequestView::Emit(sink_of(d), quads))
                }
            },
            _ => (
                Stage::Over,
                failure("wf_materialize: descriptor SELECT must yield bindings, not CONSTRUCT/ASK"@),
            ),
        },
        (Stage::Emitting(rows), ReplyView::Accepted(_)) => (
            Stage::Over,
            RequestView::Finish(Ok(summary_of(seq![("rows"@, rows)]))),
        ),
        (_, reply) => (Stage::Over, given_up(COMPONENT@, reply)),
    }
}

/// Moves a call on with the host's reply.
pub fn step(d: &Descriptor, stage: Stage, reply: Reply) -> (r: (Stage, Request))
    ensures
        (r.0, r.1@) == next(*d, stage, reply@),
{
    match stage {
        Stage::Sinks => match reply {
            Reply::Sinks(names) => {
                let sink = sink_name(d);
                match validate_sink_present(COMPONENT, &sink, &names) {
                    Ok(_) => match build_select(d) {
                        Ok(text) => (Stage::Rows, Request::Query(text)),
                        Err(e) => (Stage::Over, fail(e)),
                    },
                    Err(e) => (Stage::Over, fail(e)),
                }
            },
            other => (Stage::Over, give_up(COMPONENT, other)),
        },
        Stage::Rows => match reply {
            Reply::Result(result) => match result {
                QueryResult::Bindings(flat) => {
                    let (quads, rows) = build_quads(&group_bindings_into_rows(flat), d);
                    if quads.len() == 0 {
                        let counts = vec![("rows", rows)];
                        proof {
                            assert(count_views(counts@) =~= seq![("rows"@, rows)]);
                        }
                        (Stage::Over, Request::Finish(Ok(summarize(&counts))))
                    } else {
                        (Stage::Emitting(rows), Request::Emit(sink_name(d), quads))
                    }
                },
                _ => (
                    Stage::Over,
                    fail("wf_materialize: descriptor SELECT must yield bindings, not CONSTRUCT/ASK".to_owned()),
                ),
            },
            other => (Stage::Over, give_up(COMPONENT, other)),
        },
        Stage::Emitting(rows) => match reply {
            Reply::Accepted(_) => {
                let counts = vec![("rows", rows)];
                proof {
                    assert(count_views(counts@) =~= seq![("rows"@, rows)]);
                }
                (Stage::Over, Request::Finish(Ok(summarize(&counts))))
            },
            other => (Stage::Over, give_up(COMPONENT, other)),
        },
        Stage::Over => (Stage::Over, give_up(COMPONENT, reply)),
    }
}

// ---------------------------------------------------------------------------
// Laws
// ---------------------------------------------------------------------------

/// Every statement that a row gives is about the row's subject, and stands in
/// the descriptor's graph.
pub proof fn row_speaks_of_its_subject(row: Seq<BindingView>, d: Descriptor, i: int)
    requires
        row_quads(row, d) matches Some(quads) && 0 <= i < quads.len(),
    ensures
        value_in(row, "subject"@) == Some(row_quads(row, d)->0[i].subject),
        row_quads(row, d)->0[i].graph == opt_view(d.graph),
{
    let subject = value_in(row, "subject"@)->0;
    let first = class_quads(subject, opt_view(d.anchor.class), opt_view(d.graph));
    columns_speak_of(row, subject, views(d.columns@), opt_view(d.graph));
    let rest = column_quads(row, subject, views(d.columns@), opt_view(d.graph));
    if i >= first.len() {
        assert((first + rest)[i] == rest[i - first.len()]);
    }
}

proof fn columns_speak_of(
    row: Seq<BindingView>,
    subject: TermView,
    columns: Seq<ColumnView>,
    graph: Option<Seq<char>>,
)
    ensures
        ({
            let quads = column_quads(row, subject, columns, graph);
            forall|i: int|
                0 <= i < quads.len() ==> (#[trigger] quads[i]).subject == subject && quads[i].graph == graph
        }),
    decreases columns.len(),
{
    if columns.len() > 0 {
        columns_speak_of(row, subject, columns.drop_last(), graph);
    }
}

/// A row without a value for a column gives no statement with that column: the
/// statements are those of the other columns.
pub proof fn absent_value_gives_no_statement(
    row: Seq<BindingView>,
    subject: TermView,
    columns: Seq<ColumnView>,
    c: ColumnView,
    graph: Option<Seq<char>>,
)
    requires
        value_in(row, c.name) is None,
    ensures
        column_quads(row, subject, columns.push(c), graph) == column_quads(row, subject, columns, graph),
{
    assert(columns.push(c).drop_last() =~= columns);
}

// ---------------------------------------------------------------------------
// The component
// ---------------------------------------------------------------------------

pub fn register() -> (r: Vec<FunctionDescriptor>)
    ensures
        r@.len() == 1,
        describes(r@[0], "wf_materialize"@, 1),
{
    one_function("wf_materialize", 1)
}

/// Whether the component offers the function.
pub fn offers(name: &str) -> (r: Result<(), String>)
    ensures
        r is Ok <==> name@ == "wf_materialize"@,
        r matches Err(e) ==> e@ == unknown_function_text(COMPONENT@, name@),
{
    if same(name, "wf_materialize") {
        Ok(())
    } else {
        Err(unknown_function(COMPONENT, name))
    }
}

/// The state of an aggregate. The component has none, so none is ever made.
pub struct UnreachableState;

impl UnreachableState {
    pub fn step(&self, args: Vec<Term>) -> (r: Result<(), String>)
        ensures
            r matches Err(e) && e@ == never_constructed_text(COMPONENT@),
    {
        Err(never_constructed(COMPONENT))
    }

    pub fn finish(&self) -> (r: Result<Term, String>)
        ensures
            r matches Err(e) && e@ == never_constructed_text(COMPONENT@),
    {
        Err(never_constructed(COMPONENT))
    }
}

} // verus!

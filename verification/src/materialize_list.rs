//! `wf_materialize_list`: turns RDF collections into ordered statements at a
//! sink. Each element of a collection becomes two statements about the subject
//! that holds the collection: the element, and its position.

use vstd::prelude::*;
use vstd::string::*;

use crate::guest::{describes, never_constructed, never_constructed_text, one_function, unknown_function,
    unknown_function_text, FunctionDescriptor};
use crate::host::{count_views, fail, failure, first_literal, first_text, give_up, given_up, missing_sink, summarize,
    summary_of, validate_sink_present, Reply, ReplyView, Request, RequestView};
use crate::number::{decimal_i64, int_text};
use crate::order::turned;
use crate::rdf::{find_node, find_value, group_bindings_into_rows, grouped, node_id, node_in, node_term, row_views, term_of,
    typed, typed_literal, value_in, Binding, BindingView, Quad, QuadView, QueryResult, QueryResultView, Term, TermView,
    RDF_NIL, XSD_INTEGER};
use crate::shape::{anchor_patterns, coerce, coerced, patterns_of, Anchor, AnchorView};
use crate::text::{same, views, views_push};

verus! {

pub const COMPONENT: &'static str = "wf_materialize_list";

pub const LIST_POSITION: &'static str = "http://tegmentum.ai/ns/list/position";

pub const STEP_QUERY: &'static str = "SELECT ?value ?rest WHERE { ?head <http://www.w3.org/1999/02/22-rdf-syntax-ns#first> ?value ; <http://www.w3.org/1999/02/22-rdf-syntax-ns#rest>  ?rest }";

/// How many elements of one collection are read at most.
pub const MAX_CHAIN_STEPS: i64 = 100_000;

/// What to materialize.
#[derive(Debug)]
pub struct Descriptor {
    pub name: String,
    pub shape: String,
    pub anchor: Anchor,
    pub list_predicate: String,
    pub value_type: String,
    pub sink: Option<String>,
    /// The predicate of an element's statement; that of the collection where
    /// it is absent.
    pub list_element_predicate: Option<String>,
}

/// The type of values where none is given.
pub fn default_value_type() -> (r: String)
    ensures
        r@ == "string"@,
{
    "string".to_owned()
}

// ---------------------------------------------------------------------------
// Queries
// ---------------------------------------------------------------------------

/// Patterns, each with a blank behind it.
pub open spec fn spaced(patterns: Seq<Seq<char>>) -> Seq<char>
    decreases patterns.len(),
{
    if patterns.len() == 0 {
        Seq::empty()
    } else {
        spaced(patterns.drop_last()) + patterns.last() + " "@
    }
}

/// The query for the subjects and the heads of their collections.
pub open spec fn head_query(anchor: AnchorView, list_predicate: Seq<char>) -> Result<Seq<char>, Seq<char>> {
    match anchor_patterns(anchor) {
        Some(patterns) => Ok(
            "SELECT ?subject ?head WHERE { "@ + spaced(patterns) + "?subject <"@ + list_predicate
                + "> ?head }"@,
        ),
        None => Err("wf_materialize_list: anchor missing both `class` and `predicate_signature`"@),
    }
}

pub fn build_head_query(d: &Descriptor) -> (r: Result<String, String>)
    ensures
        match r {
            Ok(q) => head_query(d.anchor@, d.list_predicate@) == Ok::<Seq<char>, Seq<char>>(q@),
            Err(e) => head_query(d.anchor@, d.list_predicate@) == Err::<Seq<char>, Seq<char>>(e@),
        },
{
    match patterns_of(&d.anchor) {
        Some(patterns) => {
            let ghost all = views(patterns@);
            let mut body = String::new();
            for i in 0..patterns.len()
                invariant
                    all == views(patterns@),
                    body@ == spaced(all.take(i as int)),
            {
                proof {
                    assert(all.take(i + 1).drop_last() =~= all.take(i as int));
                }
                body.append(&patterns[i]);
                body.append(" ");
            }
            proof {
                assert(all.take(all.len() as int) =~= all);
            }
            Ok(
                "SELECT ?subject ?head WHERE { ".to_owned().concat(&body).concat("?subject <").concat(
                    &d.list_predicate,
                ).concat("> ?head }"),
            )
        },
        None => Err("wf_materialize_list: anchor missing both `class` and `predicate_signature`".to_owned()),
    }
}

// ---------------------------------------------------------------------------
// The walk along the collections
// ---------------------------------------------------------------------------

/// The predicate of an element's statement.
pub open spec fn element_predicate(d: Descriptor) -> Seq<char> {
    match d.list_element_predicate {
        Some(p) => p@,
        None => d.list_predicate@,
    }
}

/// The statement of an element.
pub open spec fn element_quad(subject: TermView, predicate: Seq<char>, value: TermView) -> QuadView {
    QuadView { subject, predicate: TermView::NamedNode(predicate), object: value, graph: None }
}

/// The statement of a position.
pub open spec fn position_quad(subject: TermView, at: int) -> QuadView {
    QuadView {
        subject,
        predicate: TermView::NamedNode(LIST_POSITION@),
        object: typed(int_text(at), XSD_INTEGER@),
        graph: None,
    }
}

/// A place in a collection, with the collections still to come and the
/// statements made so far.
pub struct Walk {
    /// The rows of the head query that have not been looked at, last first.
    pub ahead: Vec<Vec<Binding>>,
    pub subject: Term,
    pub node: String,
    pub at: i64,
    pub quads: Vec<Quad>,
}

pub struct WalkView {
    /// The rows that have not been looked at.
    pub rows: Seq<Seq<BindingView>>,
    pub subject: TermView,
    pub node: Seq<char>,
    pub at: int,
    pub quads: Seq<QuadView>,
}

impl View for Walk {
    type V = WalkView;

    open spec fn view(&self) -> WalkView {
        WalkView {
            rows: row_views(self.ahead@).reverse(),
            subject: self.subject@,
            node: self.node@,
            at: self.at as int,
            quads: views(self.quads@),
        }
    }
}

/// Where a walk stands: at an element, or behind the last collection.
pub enum Place {
    At(Walk),
    Behind(Vec<Quad>),
}

pub enum PlaceView {
    At(WalkView),
    Behind(Seq<QuadView>),
}

impl View for Place {
    type V = PlaceView;

    open spec fn view(&self) -> PlaceView {
        match self {
            Place::At(w) => PlaceView::At(w@),
            Place::Behind(quads) => PlaceView::Behind(views(quads@)),
        }
    }
}

/// The first element of the collections that are still to come.
pub open spec fn entered(rows: Seq<Seq<BindingView>>, quads: Seq<QuadView>) -> PlaceView
    decreases rows.len(),
{
    if rows.len() == 0 {
        PlaceView::Behind(quads)
    } else {
        let rest = rows.drop_first();
        match (node_in(rows[0], "subject"@), node_in(rows[0], "head"@)) {
            (Some(subject), Some(head)) => if head == RDF_NIL@ {
                entered(rest, quads)
            } else {
                PlaceView::At(WalkView { rows: rest, subject: term_of(subject), node: head, at: 0, quads })
            },
            _ => entered(rest, quads),
        }
    }
}

fn enter(ahead: Vec<Vec<Binding>>, quads: Vec<Quad>) -> (r: Place)
    ensures
        r@ == entered(row_views(ahead@).reverse(), views(quads@)),
{
    let ghost goal = entered(row_views(ahead@).reverse(), views(quads@));
    let mut ahead = ahead;
    while ahead.len() > 0
        invariant
            entered(row_views(ahead@).reverse(), views(quads@)) == goal,
        decreases ahead@.len(),
    {
        let ghost was = row_views(ahead@).reverse();
        match ahead.pop() {
            Some(row) => {
                proof {
                    assert(was[0] == views(row@));
                    assert(was.drop_first() =~= row_views(ahead@).reverse());
                }
                match (find_node(&row, "subject"), find_node(&row, "head")) {
                    (Some(subject), Some(head)) => {
                        if !same(&head, RDF_NIL) {
                            return Place::At(
                                Walk { ahead, subject: node_term(&subject), node: head, at: 0, quads },
                            );
                        }
                    },
                    _ => {},
                }
            },
            None => {},
        }
    }
    Place::Behind(quads)
}

/// The walk after the element at hand has been read.
pub open spec fn walked(
    w: WalkView,
    predicate: Seq<char>,
    value_type: Seq<char>,
    solutions: Seq<Seq<BindingView>>,
) -> PlaceView {
    if solutions.len() == 0 {
        entered(w.rows, w.quads)
    } else {
        match value_in(solutions[0], "value"@) {
            None => entered(w.rows, w.quads),
            Some(value) => {
                let quads = w.quads.push(element_quad(w.subject, predicate, coerced(value, value_type))).push(
                    position_quad(w.subject, w.at),
                );
                match node_in(solutions[0], "rest"@) {
                    Some(node) => if node != RDF_NIL@ && w.at + 1 < MAX_CHAIN_STEPS {
                        PlaceView::At(WalkView { node, at: w.at + 1, quads, ..w })
                    } else {
                        entered(w.rows, quads)
                    },
                    None => entered(w.rows, quads),
                }
            },
        }
    }
}

/// Reads the element at hand from the solutions of the step query.
pub fn walk(w: Walk, predicate: &str, value_type: &str, solutions: &Vec<Vec<Binding>>) -> (r: Place)
    ensures
        r@ == walked(w@, predicate@, value_type@, row_views(solutions@)),
{
    broadcast use views_push;

    let mut quads = w.quads;
    if solutions.len() == 0 {
        return enter(w.ahead, quads);
    }
    let row = &solutions[0];
    proof {
        assert(row_views(solutions@)[0] == views(row@));
    }
    match find_value(row, "value") {
        None => enter(w.ahead, quads),
        Some(value) => {
            quads.push(
                Quad {
                    subject: w.subject.clone(),
                    predicate: Term::NamedNode(predicate.to_owned()),
                    object: coerce(value, value_type),
                    graph: None,
                },
            );
            quads.push(
                Quad {
                    subject: w.subject.clone(),
                    predicate: Term::NamedNode(LIST_POSITION.to_owned()),
                    object: typed_literal(&decimal_i64(w.at), XSD_INTEGER),
                    graph: None,
                },
            );
            match find_node(row, "rest") {
                Some(node) => if !same(&node, RDF_NIL) && w.at < MAX_CHAIN_STEPS - 1 {
                    Place::At(
                        Walk { ahead: w.ahead, subject: w.subject, node, at: w.at + 1, quads },
                    )
                } else {
                    enter(w.ahead, quads)
                },
                None => enter(w.ahead, quads),
            }
        },
    }
}

// ---------------------------------------------------------------------------
// Laws of the walk
// ---------------------------------------------------------------------------

/// What the step query answers at a cell of a collection.
pub open spec fn solution(value: TermView, rest: TermView) -> Seq<Seq<BindingView>> {
    seq![seq![
        BindingView { variable: "value"@, value },
        BindingView { variable: "rest"@, value: rest },
    ]]
}

/// A walk over cells, each given by its value and what follows it.
pub open spec fn walked_over(
    w: WalkView,
    predicate: Seq<char>,
    value_type: Seq<char>,
    cells: Seq<(TermView, TermView)>,
) -> PlaceView
    decreases cells.len(),
{
    if cells.len() == 0 {
        PlaceView::At(w)
    } else {
        match walked(w, predicate, value_type, solution(cells[0].0, cells[0].1)) {
            PlaceView::At(v) => walked_over(v, predicate, value_type, cells.drop_first()),
            p => p,
        }
    }
}

/// The statements of elements that stand at consecutive positions.
pub open spec fn list_quads(
    subject: TermView,
    predicate: Seq<char>,
    value_type: Seq<char>,
    cells: Seq<(TermView, TermView)>,
    at: int,
) -> Seq<QuadView>
    decreases cells.len(),
{
    if cells.len() == 0 {
        Seq::empty()
    } else {
        seq![
            element_quad(subject, predicate, coerced(cells[0].0, value_type)),
            position_quad(subject, at),
        ] + list_quads(subject, predicate, value_type, cells.drop_first(), at + 1)
    }
}

/// Whether the cells make up a collection: each but the last is followed by a
/// node, and the last by `rdf:nil`.
pub open spec fn is_chain(cells: Seq<(TermView, TermView)>) -> bool {
    &&& cells.len() > 0
    &&& node_id(cells.last().1) == Some(RDF_NIL@)
    &&& forall|i: int|
        0 <= i < cells.len() - 1 ==> {
            &&& node_id((#[trigger] cells[i]).1) is Some
            &&& node_id(cells[i].1) != Some(RDF_NIL@)
        }
}

proof fn solution_values(value: TermView, rest: TermView)
    ensures
        value_in(solution(value, rest)[0], "value"@) == Some(value),
        value_in(solution(value, rest)[0], "rest"@) == Some(rest),
{
    let row = solution(value, rest)[0];
    reveal_strlit("value");
    reveal_strlit("rest");
    assert("value"@.len() != "rest"@.len());
    assert(row.drop_first()[0] == row[1]);
    assert(row.drop_first().len() == 1);
    reveal_with_fuel(value_in, 3);
}

/// The elements of a collection come out in order, each with its position, and
/// the walk goes on with the next collection.
pub proof fn collection_comes_out_in_order(
    w: WalkView,
    predicate: Seq<char>,
    value_type: Seq<char>,
    cells: Seq<(TermView, TermView)>,
)
    requires
        is_chain(cells),
        w.at + cells.len() <= MAX_CHAIN_STEPS,
    ensures
        walked_over(w, predicate, value_type, cells) == entered(
            w.rows,
            w.quads + list_quads(w.subject, predicate, value_type, cells, w.at),
        ),
    decreases cells.len(),
{
    let value = cells[0].0;
    let rest = cells[0].1;
    solution_values(value, rest);
    let two = seq![element_quad(w.subject, predicate, coerced(value, value_type)), position_quad(w.subject, w.at)];
    let quads = w.quads.push(two[0]).push(two[1]);
    assert(quads =~= w.quads + two);
    let tail = cells.drop_first();
    let more = list_quads(w.subject, predicate, value_type, tail, w.at + 1);
    assert(w.quads + (two + more) =~= quads + more);
    if cells.len() == 1 {
        assert(more =~= Seq::empty());
        assert(quads + more =~= quads);
        assert(cells.last() == cells[0]);
        reveal_with_fuel(walked_over, 2);
    } else {
        assert(node_id(cells[0].1) is Some);
        let v = WalkView { node: node_id(rest)->0, at: w.at + 1, quads, ..w };
        assert(tail.last() == cells.last());
        assert forall|i: int| 0 <= i < tail.len() - 1 implies {
            &&& node_id((#[trigger] tail[i]).1) is Some
            &&& node_id(tail[i].1) != Some(RDF_NIL@)
        } by {
            assert(tail[i] == cells[i + 1]);
        }
        collection_comes_out_in_order(v, predicate, value_type, tail);
    }
}

/// Every element that is read adds the statement of the element and that of its
/// position, and nothing else changes what was said before.
pub proof fn statements_come_in_pairs(
    w: WalkView,
    predicate: Seq<char>,
    value_type: Seq<char>,
    solutions: Seq<Seq<BindingView>>,
)
    requires
        w.quads.len() % 2 == 0,
    ensures
        match walked(w, predicate, value_type, solutions) {
            PlaceView::At(v) => v.quads.len() % 2 == 0 && w.quads.is_prefix_of(v.quads),
            PlaceView::Behind(quads) => quads.len() % 2 == 0 && w.quads.is_prefix_of(quads),
        },
{
    entering_keeps(w.rows, w.quads);
    if solutions.len() > 0 {
        match value_in(solutions[0], "value"@) {
            Some(value) => {
                let quads = w.quads.push(element_quad(w.subject, predicate, coerced(value, value_type))).push(
                    position_quad(w.subject, w.at),
                );
                entering_keeps(w.rows, quads);
            },
            None => {},
        }
    }
}

proof fn entering_keeps(rows: Seq<Seq<BindingView>>, quads: Seq<QuadView>)
    ensures
        match entered(rows, quads) {
            PlaceView::At(v) => v.quads == quads,
            PlaceView::Behind(q) => q == quads,
        },
    decreases rows.len(),
{
    if rows.len() > 0 {
        entering_keeps(rows.drop_first(), quads);
    }
}

// ---------------------------------------------------------------------------
// The call
// ---------------------------------------------------------------------------

/// How far a call has come: what it waits for.
pub enum Stage {
    /// The names of the sinks.
    Sinks,
    /// The subjects and the heads of their collections.
    Heads,
    /// The step query, to be ready.
    Preparing(Vec<Vec<Binding>>),
    /// The element at hand.
    Walking(Walk),
    /// The step query, to be dropped.
    Freeing(Vec<Quad>),
    /// The sink, to take the statements of so many elements.
    Emitting(u64),
    /// Nothing: the call has finished.
    Over,
}

pub enum StageView {
    Sinks,
    Heads,
    Preparing(Seq<Seq<BindingView>>),
    Walking(WalkView),
    Freeing(Seq<QuadView>),
    Emitting(u64),
    Over,
}

impl View for Stage {
    type V = StageView;

    open spec fn view(&self) -> StageView {
        match self {
            Stage::Sinks => StageView::Sinks,
            Stage::Heads => StageView::Heads,
            Stage::Preparing(rows) => StageView::Preparing(row_views(rows@)),
            Stage::Walking(w) => StageView::Walking(w@),
            Stage::Freeing(quads) => StageView::Freeing(views(quads@)),
            Stage::Emitting(n) => StageView::Emitting(*n),
            Stage::Over => StageView::Over,
        }
    }
}

/// A call that ends.
pub open spec fn ends(request: RequestView) -> (StageView, RequestView) {
    (StageView::Over, request)
}

/// A call's summary.
pub open spec fn list_summary(elements: u64, accepted: u64) -> RequestView {
    RequestView::Finish(Ok(summary_of(seq![("source_rows"@, elements), ("quads_accepted"@, accepted)])))
}

fn finish(elements: u64, accepted: u64) -> (r: Request)
    ensures
        r@ == list_summary(elements, accepted),
{
    let counts = vec![("source_rows", elements), ("quads_accepted", accepted)];
    proof {
        assert(count_views(counts@) =~= seq![("source_rows"@, elements), ("quads_accepted"@, accepted)]);
    }
    Request::Finish(Ok(summarize(&counts)))
}

/// What a place on the walk asks for.
pub open spec fn asked_at(p: PlaceView) -> (StageView, RequestView) {
    match p {
        PlaceView::At(w) => (
            StageView::Walking(w),
            RequestView::RunPrepared(BindingView { variable: "head"@, value: term_of(w.node) }),
        ),
        PlaceView::Behind(quads) => (StageView::Freeing(quads), RequestView::FreePrepared),
    }
}

fn ask_at(p: Place) -> (r: (Stage, Request))
    ensures
        (r.0@, r.1@) == asked_at(p@),
{
    match p {
        Place::At(w) => {
            let head = Binding { variable: "head".to_owned(), value: node_term(&w.node) };
            (Stage::Walking(w), Request::RunPrepared(head))
        },
        Place::Behind(quads) => (Stage::Freeing(quads), Request::FreePrepared),
    }
}

/// The first request of a call.
pub open spec fn begun(d: Descriptor) -> (StageView, RequestView) {
    if d.shape@ != "list"@ {
        ends(failure("wf_materialize_list: descriptor shape must be `list`, got `"@ + d.shape@ + "`"@))
    } else if d.sink is None {
        ends(failure("wf_materialize_list: descriptor has no `sink`"@))
    } else {
        (StageView::Sinks, RequestView::ListSinks)
    }
}

/// Begins a call.
pub fn begin(d: &Descriptor) -> (r: (Stage, Request))
    ensures
        (r.0@, r.1@) == begun(*d),
{
    if !same(&d.shape, "list") {
        (
            Stage::Over,
            fail(
                "wf_materialize_list: descriptor shape must be `list`, got `".to_owned().concat(&d.shape).concat("`"),
            ),
        )
    } else if d.sink.is_none() {
        (Stage::Over, fail("wf_materialize_list: descriptor has no `sink`".to_owned()))
    } else {
        (Stage::Sinks, Request::ListSinks)
    }
}

/// What a reply leads to.
pub open spec fn next(d: Descriptor, stage: StageView, reply: ReplyView) -> (StageView, RequestView) {
    match (stage, reply) {
        (StageView::Sinks, ReplyView::Sinks(names)) => match d.sink {
            Some(sink) => if names.contains(sink@) {
                match head_query(d.anchor@, d.list_predicate@) {
                    Ok(q) => (StageView::Heads, RequestView::Query(q)),
                    Err(e) => ends(failure(e)),
                }
            } else {
                ends(failure(missing_sink(COMPONENT@, sink@, names.len())))
            },
            None => ends(failure("wf_materialize_list: descriptor has no `sink`"@)),
        },
        (StageView::Heads, ReplyView::Result(result)) => match result {
            QueryResultView::Bindings(flat) => (
                StageView::Preparing(grouped(flat)),
                RequestView::Prepare(STEP_QUERY@),
            ),
            _ => ends(failure("wf_materialize_list: head query must yield bindings, not CONSTRUCT/ASK"@)),
        },
        (StageView::Preparing(rows), ReplyView::Done) => asked_at(entered(rows, Seq::empty())),
        (StageView::Walking(w), ReplyView::Bindings(flat)) => asked_at(
            walked(w, element_predicate(d), d.value_type@, grouped(flat)),
        ),
        (StageView::Freeing(quads), ReplyView::Done) => if quads.len() == 0 {
            ends(list_summary(0, 0))
        } else {
            match d.sink {
                Some(sink) => (
                    StageView::Emitting((quads.len() / 2) as u64),
                    RequestView::Emit(sink@, quads),
                ),
                None => ends(failure("wf_materialize_list: descriptor has no `sink`"@)),
            }
        },
        (StageView::Emitting(elements), ReplyView::Accepted(n)) => ends(list_summary(elements, n)),
        (_, reply) => ends(given_up(COMPONENT@, reply)),
    }
}

/// Moves a call on with the host's reply.
pub fn step(d: &Descriptor, stage: Stage, reply: Reply) -> (r: (Stage, Request))
    ensures
        (r.0@, r.1@) == next(*d, stage@, reply@),
{
    match stage {
        Stage::Sinks => match reply {
            Reply::Sinks(names) => match &d.sink {
                Some(sink) => match validate_sink_present(COMPONENT, sink, &names) {
                    Ok(_) => match build_head_query(d) {
                        Ok(q) => (Stage::Heads, Request::Query(q)),
                        Err(e) => (Stage::Over, fail(e)),
                    },
                    Err(e) => (Stage::Over, fail(e)),
                },
                None => (Stage::Over, fail("wf_materialize_list: descriptor has no `sink`".to_owned())),
            },
            other => (Stage::Over, give_up(COMPONENT, other)),
        },
        Stage::Heads => match reply {
            Reply::Result(result) => match result {
                QueryResult::Bindings(flat) => (
                    Stage::Preparing(group_bindings_into_rows(flat)),
                    Request::Prepare(STEP_QUERY.to_owned()),
                ),
                _ => (
                    Stage::Over,
                    fail("wf_materialize_list: head query must yield bindings, not CONSTRUCT/ASK".to_owned()),
                ),
            },
            other => (Stage::Over, give_up(COMPONENT, other)),
        },
        Stage::Preparing(rows) => match reply {
            Reply::Done => {
                let ghost all = row_views(rows@);
                let ahead = turned(rows);
                let quads: Vec<Quad> = Vec::new();
                proof {
                    assert(row_views(ahead@).reverse() =~= all);
                    assert(views(quads@) =~= Seq::empty());
                }
                ask_at(enter(ahead, quads))
            },
            other => (Stage::Over, give_up(COMPONENT, other)),
        },
        Stage::Walking(w) => match reply {
            Reply::Bindings(flat) => {
                let solutions = group_bindings_into_rows(flat);
                let predicate = match &d.list_element_predicate {
                    Some(p) => p,
                    None => &d.list_predicate,
                };
                ask_at(walk(w, predicate, &d.value_type, &solutions))
            },
            other => (Stage::Over, give_up(COMPONENT, other)),
        },
        Stage::Freeing(quads) => match reply {
            Reply::Done => if quads.len() == 0 {
                (Stage::Over, finish(0, 0))
            } else {
                match &d.sink {
                    Some(sink) => {
                        let elements: u64 = (quads.len() / 2) as u64;
                        (Stage::Emitting(elements), Request::Emit(sink.clone(), quads))
                    },
                    None => (Stage::Over, fail("wf_materialize_list: descriptor has no `sink`".to_owned())),
                }
            },
            other => (Stage::Over, give_up(COMPONENT, other)),
        },
        Stage::Emitting(elements) => match reply {
            Reply::Accepted(n) => (Stage::Over, finish(elements, n)),
            other => (Stage::Over, give_up(COMPONENT, other)),
        },
        Stage::Over => (Stage::Over, give_up(COMPONENT, reply)),
    }
}

// ---------------------------------------------------------------------------
// The component
// ---------------------------------------------------------------------------

/// The descriptor's text among the arguments of a call.
pub fn descriptor_text(args: &Vec<Term>) -> (r: Result<String, String>)
    ensures
        match r {
            Ok(text) => first_literal(views(args@)) == Some(text@),
            Err(e) => first_literal(views(args@)) is None && e@
                == "wf_materialize_list: first arg must be a descriptor-json string literal"@,
        },
{
    match first_text(args) {
        Some(text) => Ok(text),
        None => Err("wf_materialize_list: first arg must be a descriptor-json string literal".to_owned()),
    }
}

pub fn register() -> (r: Vec<FunctionDescriptor>)
    ensures
        r@.len() == 1,
        describes(r@[0], "wf_materialize_list"@, 1),
{
    one_function("wf_materialize_list", 1)
}

/// Whether the component offers the function.
pub fn offers(name: &str) -> (r: Result<(), String>)
    ensures
        r is Ok <==> name@ == "wf_materialize_list"@,
        r matches Err(e) ==> e@ == unknown_function_text(COMPONENT@, name@),
{
    if same(name, "wf_materialize_list") {
        Ok(())
    } else {
        Err(unknown_function(COMPONENT, name))
    }
}

/// The state of an aggregate. The component has none, so none is ever made.
pub struct UnreachableState;

impl UnreachableState {
    pub fn step(&self, args: Vec<Term>) -> (r: Result<(), String>)
        ensures
            r matches Err(e) && e@ == never_constructed_text(COMPONENT@),
    {
        Err(never_constructed(COMPONENT))
    }

    pub fn finish(&self) -> (r: Result<Term, String>)
        ensures
            r matches Err(e) && e@ == never_constructed_text(COMPONENT@),
    {
        Err(never_constructed(COMPONENT))
    }
}

} // verus!

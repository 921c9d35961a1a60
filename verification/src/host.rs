//! The conversation between a component and the host that runs it. A component
//! is a machine that asks for one thing at a time: each reply of the host moves
//! it on to the next request, until it finishes.

use vstd::prelude::*;
use vstd::string::*;

use crate::json::{json_text, no_fields, no_fields_wf, object_view, put_field, put_wf, Fields, Json, JsonView};
use crate::number::{decimal_of, decimal_usize};
use crate::rdf::{json_literal, show, shown, typed, Binding, BindingView, Quad, QuadView, QueryResult, QueryResultView, Term,
    TermView, RDF_JSON};
use crate::text::{has_text, views};

verus! {

/// What a component asks of the host.
#[derive(Debug)]
pub enum Request {
    /// The names of the registered sinks.
    ListSinks,
    /// The result of a query over the graph.
    Query(String),
    /// An update of the graph.
    Update(String),
    /// A query kept ready to be run many times.
    Prepare(String),
    /// The prepared query, with one variable bound.
    RunPrepared(Binding),
    /// The prepared query is no longer needed.
    FreePrepared,
    /// Statements for a sink.
    Emit(String, Vec<Quad>),
    /// The statements of a sink that have a predicate.
    Scan(String, String),
    /// A document for a sink, under a key.
    Put(String, String, String),
    /// A call of another component.
    Invoke(String, Vec<Term>),
    /// Nothing more: the result of the call.
    Finish(Result<Term, String>),
}

pub enum RequestView {
    ListSinks,
    Query(Seq<char>),
    Update(Seq<char>),
    Prepare(Seq<char>),
    RunPrepared(BindingView),
    FreePrepared,
    Emit(Seq<char>, Seq<QuadView>),
    Scan(Seq<char>, Seq<char>),
    Put(Seq<char>, Seq<char>, Seq<char>),
    Invoke(Seq<char>, Seq<TermView>),
    Finish(Result<TermView, Seq<char>>),
}

impl View for Request {
    type V = RequestView;

    open spec fn view(&self) -> RequestView {
        match self {
            Request::ListSinks => RequestView::ListSinks,
            Request::Query(q) => RequestView::Query(q@),
            Request::Update(u) => RequestView::Update(u@),
            Request::Prepare(q) => RequestView::Prepare(q@),
            Request::RunPrepared(b) => RequestView::RunPrepared(b@),
            Request::FreePrepared => RequestView::FreePrepared,
            Request::Emit(sink, quads) => RequestView::Emit(sink@, views(quads@)),
            Request::Scan(sink, predicate) => RequestView::Scan(sink@, predicate@),
            Request::Put(sink, key, content) => RequestView::Put(sink@, key@, content@),
            Request::Invoke(url, args) => RequestView::Invoke(url@, views(args@)),
            Request::Finish(r) => RequestView::Finish(outcome(*r)),
        }
    }
}

/// The view of a call's result.
pub open spec fn outcome(r: Result<Term, String>) -> Result<TermView, Seq<char>> {
    match r {
        Ok(t) => Ok(t@),
        Err(e) => Err(e@),
    }
}

/// What the host answers.
#[derive(Debug)]
pub enum Reply {
    /// The request was carried out.
    Done,
    /// The request was refused or failed.
    Failed(String),
    Sinks(Vec<String>),
    Result(QueryResult),
    Bindings(Vec<Binding>),
    Quads(Vec<Quad>),
    /// How many statements the sink took.
    Accepted(u64),
}

pub enum ReplyView {
    Done,
    Failed(Seq<char>),
    Sinks(Seq<Seq<char>>),
    Result(QueryResultView),
    Bindings(Seq<BindingView>),
    Quads(Seq<QuadView>),
    Accepted(u64),
}

impl View for Reply {
    type V = ReplyView;

    open spec fn view(&self) -> ReplyView {
        match self {
            Reply::Done => ReplyView::Done,
            Reply::Failed(e) => ReplyView::Failed(e@),
            Reply::Sinks(names) => ReplyView::Sinks(views(names@)),
            Reply::Result(r) => ReplyView::Result(r@),
            Reply::Bindings(b) => ReplyView::Bindings(views(b@)),
            Reply::Quads(q) => ReplyView::Quads(views(q@)),
            Reply::Accepted(n) => ReplyView::Accepted(*n),
        }
    }
}

// ---------------------------------------------------------------------------
// Endings
// ---------------------------------------------------------------------------

/// The end of a call that failed.
pub open spec fn failure(e: Seq<char>) -> RequestView {
    RequestView::Finish(Err(e))
}

/// The end of a call whose reply did not answer the request.
pub open spec fn out_of_turn(component: Seq<char>) -> RequestView {
    failure(component + ": unexpected reply from the host"@)
}

pub fn fail(e: String) -> (r: Request)
    ensures
        r@ == failure(e@),
{
    Request::Finish(Err(e))
}

/// The end of a call whose reply brings the host's error, or does not answer
/// the request.
pub open spec fn given_up(component: Seq<char>, reply: ReplyView) -> RequestView {
    match reply {
        ReplyView::Failed(e) => failure(e),
        _ => out_of_turn(component),
    }
}

pub fn give_up(component: &str, reply: Reply) -> (r: Request)
    ensures
        r@ == given_up(component@, reply@),
{
    match reply {
        Reply::Failed(e) => fail(e),
        _ => fail(component.to_owned().concat(": unexpected reply from the host")),
    }
}

// ---------------------------------------------------------------------------
// Sinks
// ---------------------------------------------------------------------------

/// The refusal of a sink that the host does not know.
pub open spec fn missing_sink(component: Seq<char>, sink: Seq<char>, known: nat) -> Seq<char> {
    component + ": sink `"@ + sink + "` not registered with host (list-sinks returned "@ + decimal_of(known)
        + " sinks)"@
}

/// Whether the sink is registered.
pub fn validate_sink_present(component: &str, sink: &str, known: &Vec<String>) -> (r: Result<(), String>)
    ensures
        r is Ok <==> views(known@).contains(sink@),
        r matches Err(e) ==> e@ == missing_sink(component@, sink@, known@.len()),
{
    if has_text(known, sink) {
        Ok(())
    } else {
        Err(
            component.to_owned().concat(": sink `").concat(sink).concat(
                "` not registered with host (list-sinks returned ",
            ).concat(&decimal_usize(known.len())).concat(" sinks)"),
        )
    }
}

// ---------------------------------------------------------------------------
// Arguments
// ---------------------------------------------------------------------------

/// The literal that comes first among the arguments.
pub open spec fn first_literal(args: Seq<TermView>) -> Option<Seq<char>> {
    if args.len() == 0 {
        None
    } else {
        match args[0] {
            TermView::Literal(l) => Some(l.value),
            _ => None,
        }
    }
}

/// The lexical form of the first argument, where it is a literal.
pub fn first_text(args: &Vec<Term>) -> (r: Option<String>)
    ensures
        crate::text::opt_view(r) == first_literal(views(args@)),
{
    if args.len() == 0 {
        None
    } else {
        proof {
            assert(views(args@)[0] == args@[0]@);
        }
        match &args[0] {
            Term::Literal(l) => Some(l.value.clone()),
            _ => None,
        }
    }
}

/// The literal that comes first among the arguments, or the refusal: `missing`
/// where there is no argument, `wrong` with the argument where it is no literal.
pub open spec fn literal_or(args: Seq<TermView>, missing: Seq<char>, wrong: Seq<char>) -> Result<Seq<char>, Seq<char>> {
    if args.len() == 0 {
        Err(missing)
    } else {
        match args[0] {
            TermView::Literal(l) => Ok(l.value),
            other => Err(wrong + shown(other)),
        }
    }
}

/// The view of a text or an error message.
pub open spec fn text_or_error(r: Result<String, String>) -> Result<Seq<char>, Seq<char>> {
    match r {
        Ok(s) => Ok(s@),
        Err(e) => Err(e@),
    }
}

pub fn literal_arg(args: &Vec<Term>, missing: &str, wrong: &str) -> (r: Result<String, String>)
    ensures
        text_or_error(r) == literal_or(views(args@), missing@, wrong@),
{
    if args.len() == 0 {
        Err(missing.to_owned())
    } else {
        proof {
            assert(views(args@)[0] == args@[0]@);
        }
        match &args[0] {
            Term::Literal(l) => Ok(l.value.clone()),
            other => Err(wrong.to_owned().concat(&show(other))),
        }
    }
}

// ---------------------------------------------------------------------------
// Summaries
// ---------------------------------------------------------------------------

/// The counts of a summary.
pub open spec fn count_views(counts: Seq<(&str, u64)>) -> Seq<(Seq<char>, u64)> {
    Seq::new(counts.len(), |i: int| (counts[i].0@, counts[i].1))
}

/// The fields of a summary.
pub open spec fn count_fields(counts: Seq<(Seq<char>, u64)>) -> Seq<(Seq<char>, JsonView)>
    decreases counts.len(),
{
    if counts.len() == 0 {
        no_fields()
    } else {
        count_fields(counts.drop_last()).with(counts.last().0, JsonView::Unsigned(counts.last().1))
    }
}

/// A summary: a JSON object of counts, as a literal.
pub open spec fn summary_of(counts: Seq<(Seq<char>, u64)>) -> TermView {
    typed(json_text(JsonView::Object(count_fields(counts))), RDF_JSON@)
}

/// Renders a summary.
pub fn summarize(counts: &Vec<(&str, u64)>) -> (r: Term)
    ensures
        r@ == summary_of(count_views(counts@)),
{
    broadcast use {no_fields_wf, put_wf, object_view};

    let ghost all = count_views(counts@);
    let mut fields: Vec<(String, Json)> = Vec::new();
    proof {
        assert(views(fields@) =~= no_fields());
    }
    for i in 0..counts.len()
        invariant
            all == count_views(counts@),
            views(fields@) == count_fields(all.take(i as int)),
            crate::json::fields_wf(views(fields@)),
    {
        proof {
            assert(all.take(i + 1).drop_last() =~= all.take(i as int));
        }
        put_field(&mut fields, counts[i].0, Json::Unsigned(counts[i].1));
    }
    proof {
        assert(all.take(all.len() as int) =~= all);
    }
    let text = Json::Object(fields).render();
    json_literal(&text)
}

} // verus!

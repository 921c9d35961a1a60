//! `wf_profile-extension`: the count and the classification of one predicate.

use vstd::prelude::*;
use vstd::string::*;

use crate::guest::{describes, never_constructed, never_constructed_text, unknown_function, unknown_function_text,
    FunctionDescriptor};
use crate::host::{outcome, Reply, ReplyView};
use crate::json::json_text;
use crate::number::{decimal_i64, decimal_of, decimal_usize, int_text};
use crate::profile::classify::{
    begin_classify, build_entry, cardinality_text, classify, count_in, entry_of, first_row, probed, read_count,
    take_first_row, ActionView, Event, EventView, Probing, ProbingView, Progress, ProgressView, Subject, SubjectView,
};
use crate::rdf::{json_literal, typed, typed_literal, QueryResult, QueryResultView, Term, TermView, RDF_JSON,
    XSD_INTEGER};
use crate::text::{same, views};

verus! {

pub const COMPONENT: &'static str = "wf_profile-extension";

/// How the query for the elements of lists begins.
pub const LIST_HEAD: &'static str = "SELECT ?dt (COUNT(*) AS ?n) WHERE { ";

// ---------------------------------------------------------------------------
// Arguments
// ---------------------------------------------------------------------------

/// What is asked about a predicate.
pub enum Call {
    Count(String),
    Classify(String),
}

pub enum CallView {
    Count(Seq<char>),
    Classify(Seq<char>),
}

pub open spec fn call_view(r: Result<Call, String>) -> Result<CallView, Seq<char>> {
    match r {
        Ok(Call::Count(iri)) => Ok(CallView::Count(iri@)),
        Ok(Call::Classify(iri)) => Ok(CallView::Classify(iri@)),
        Err(e) => Err(e@),
    }
}

/// The predicate among the arguments of a function.
pub open spec fn iri_of(args: Seq<TermView>, function: Seq<char>) -> Result<Seq<char>, Seq<char>> {
    if args.len() != 1 {
        Err(function + ": expected 1 argument (predicate IRI), got "@ + decimal_of(args.len()))
    } else {
        match args[0] {
            TermView::NamedNode(iri) => Ok(iri),
            TermView::BlankNode(_) => Err(function + ": argument must be an IRI, got blank node"@),
            TermView::Literal(_) => Err(function + ": argument must be an IRI, got literal"@),
            TermView::Triple(_) => Err(function + ": argument must be an IRI, got quoted triple"@),
        }
    }
}

pub open spec fn iri_view(r: Result<String, String>) -> Result<Seq<char>, Seq<char>> {
    match r {
        Ok(iri) => Ok(iri@),
        Err(e) => Err(e@),
    }
}

pub fn require_iri(args: &Vec<Term>, function: &str) -> (r: Result<String, String>)
    ensures
        iri_view(r) == iri_of(views(args@), function@),
{
    if args.len() != 1 {
        return Err(
            function.to_owned().concat(": expected 1 argument (predicate IRI), got ").concat(
                &decimal_usize(args.len()),
            ),
        );
    }
    proof {
        assert(views(args@)[0] == args@[0]@);
    }
    match &args[0] {
        Term::NamedNode(iri) => Ok(iri.clone()),
        Term::BlankNode(_) => Err(function.to_owned().concat(": argument must be an IRI, got blank node")),
        Term::Literal(_) => Err(function.to_owned().concat(": argument must be an IRI, got literal")),
        Term::Triple(_) => Err(function.to_owned().concat(": argument must be an IRI, got quoted triple")),
    }
}

/// The call that a function's name and arguments make.
pub open spec fn call_of(name: Seq<char>, args: Seq<TermView>) -> Result<CallView, Seq<char>> {
    if name == "predicate-triple-count"@ {
        match iri_of(args, name) {
            Ok(iri) => Ok(CallView::Count(iri)),
            Err(e) => Err(e),
        }
    } else if name == "classify-predicate"@ {
        match iri_of(args, name) {
            Ok(iri) => Ok(CallView::Classify(iri)),
            Err(e) => Err(e),
        }
    } else {
        Err(unknown_function_text(COMPONENT@, name))
    }
}

pub fn read_call(name: &str, args: &Vec<Term>) -> (r: Result<Call, String>)
    ensures
        call_view(r) == call_of(name@, views(args@)),
{
    if same(name, "predicate-triple-count") {
        match require_iri(args, name) {
            Ok(iri) => Ok(Call::Count(iri)),
            Err(e) => Err(e),
        }
    } else if same(name, "classify-predicate") {
        match require_iri(args, name) {
            Ok(iri) => Ok(Call::Classify(iri)),
            Err(e) => Err(e),
        }
    } else {
        Err(unknown_function(COMPONENT, name))
    }
}

// ---------------------------------------------------------------------------
// The call
// ---------------------------------------------------------------------------

/// What a call asks for.
pub enum Action {
    /// Something that a classification needs.
    Probe(crate::profile::classify::Action),
    /// Nothing more: the result of the call.
    Finish(Result<Term, String>),
}

pub enum SingleView {
    Probe(ActionView),
    Finish(Result<TermView, Seq<char>>),
}

impl View for Action {
    type V = SingleView;

    open spec fn view(&self) -> SingleView {
        match self {
            Action::Probe(a) => SingleView::Probe(a@),
            Action::Finish(r) => SingleView::Finish(outcome(*r)),
        }
    }
}

/// How far a call has come: what it waits for.
pub enum Stage {
    /// The number of a predicate's statements.
    Counting,
    /// The numbers of a predicate's statements and subjects.
    Enumerating(String),
    /// The classification of a predicate with so many subjects and statements.
    Probing(String, i64, i64, Probing),
    /// Nothing: the call has finished.
    Over,
}

pub enum StageView {
    Counting,
    Enumerating(Seq<char>),
    Probing(Seq<char>, i64, i64, ProbingView),
    Over,
}

impl View for Stage {
    type V = StageView;

    open spec fn view(&self) -> StageView {
        match self {
            Stage::Counting => StageView::Counting,
            Stage::Enumerating(iri) => StageView::Enumerating(iri@),
            Stage::Probing(iri, subjects, triples, p) => StageView::Probing(iri@, *subjects, *triples, p@),
            Stage::Over => StageView::Over,
        }
    }
}

pub open spec fn failing(e: Seq<char>) -> (StageView, SingleView) {
    (StageView::Over, SingleView::Finish(Err(e)))
}

fn fail(e: String) -> (r: (Stage, Action))
    ensures
        (r.0@, r.1@) == failing(e@),
{
    (Stage::Over, Action::Finish(Err(e)))
}

/// The query for the number of a predicate's statements.
pub open spec fn count_text(iri: Seq<char>) -> Seq<char> {
    "SELECT (COUNT(*) AS ?n) WHERE { ?s <"@ + iri + "> ?o }"@
}

/// The query for the numbers of a predicate's statements and subjects.
pub open spec fn numbers_text(iri: Seq<char>) -> Seq<char> {
    "SELECT (COUNT(*) AS ?triples) (COUNT(DISTINCT ?s) AS ?subjects) WHERE { ?s <"@ + iri + "> ?o }"@
}

/// The first request of a call.
pub open spec fn begun(call: CallView) -> (StageView, SingleView) {
    match call {
        CallView::Count(iri) => (StageView::Counting, SingleView::Probe(ActionView::Query(count_text(iri)))),
        CallView::Classify(iri) => (
            StageView::Enumerating(iri),
            SingleView::Probe(ActionView::Query(numbers_text(iri))),
        ),
    }
}

pub fn begin(call: Call) -> (r: (Stage, Action))
    ensures
        (r.0@, r.1@) == begun(
            match call {
                Call::Count(iri) => CallView::Count(iri@),
                Call::Classify(iri) => CallView::Classify(iri@),
            },
        ),
{
    match call {
        Call::Count(iri) => {
            let query = "SELECT (COUNT(*) AS ?n) WHERE { ?s <".to_owned().concat(&iri).concat("> ?o }");
            (Stage::Counting, Action::Probe(crate::profile::classify::Action::Query(query)))
        },
        Call::Classify(iri) => {
            let query = "SELECT (COUNT(*) AS ?triples) (COUNT(DISTINCT ?s) AS ?subjects) WHERE { ?s <".to_owned().concat(
                &iri,
            ).concat("> ?o }");
            (Stage::Enumerating(iri), Action::Probe(crate::profile::classify::Action::Query(query)))
        },
    }
}

/// Why a query gave no rows, where it gave none.
pub open spec fn refusal(reply: ReplyView) -> Option<Seq<char>> {
    match reply {
        ReplyView::Result(QueryResultView::Bindings(_)) => None,
        ReplyView::Result(QueryResultView::Quads(_)) => Some(
            "graph-callbacks: SELECT unexpectedly returned quads"@,
        ),
        ReplyView::Result(QueryResultView::Boolean(_)) => Some(
            "graph-callbacks: SELECT unexpectedly returned boolean"@,
        ),
        ReplyView::Failed(e) => Some(e),
        _ => Some("wf_profile-extension: reply out of turn"@),
    }
}

fn refuse(reply: &Reply) -> (r: Option<String>)
    ensures
        crate::text::opt_view(r) == refusal(reply@),
{
    match reply {
        Reply::Result(result) => match result {
            QueryResult::Bindings(_) => None,
            QueryResult::Quads(_) => Some("graph-callbacks: SELECT unexpectedly returned quads".to_owned()),
            QueryResult::Boolean(_) => Some("graph-callbacks: SELECT unexpectedly returned boolean".to_owned()),
        },
        Reply::Failed(e) => Some(e.clone()),
        _ => Some("wf_profile-extension: reply out of turn".to_owned()),
    }
}

/// A predicate to classify.
pub open spec fn subject_of(predicate: Seq<char>) -> SubjectView {
    SubjectView { predicate, list_head: LIST_HEAD@ }
}

fn subject_for(predicate: &str) -> (r: Subject)
    ensures
        r@ == subject_of(predicate@),
{
    Subject { predicate: predicate.to_owned(), list_head: LIST_HEAD.to_owned() }
}

/// What an event leads to.
pub open spec fn next(stage: StageView, event: EventView) -> (StageView, SingleView) {
    match (stage, event) {
        (StageView::Counting, EventView::Reply(reply)) => match refusal(reply) {
            Some(e) => failing(e),
            None => (
                StageView::Over,
                SingleView::Finish(
                    Ok(typed(int_text(count_in(first_row(reply), "n"@) as int), XSD_INTEGER@)),
                ),
            ),
        },
        (StageView::Enumerating(iri), EventView::Reply(reply)) => match refusal(reply) {
            Some(e) => failing(e),
            None => (
                StageView::Probing(
                    iri,
                    count_in(first_row(reply), "subjects"@),
                    count_in(first_row(reply), "triples"@),
                    ProbingView::Cardinality,
                ),
                SingleView::Probe(ActionView::Query(cardinality_text(iri))),
            ),
        },
        (StageView::Probing(iri, subjects, triples, p), event) => match probed(subject_of(iri), p, event) {
            ProgressView::Ask(p, a) => (StageView::Probing(iri, subjects, triples, p), SingleView::Probe(a)),
            ProgressView::Done(c) => (
                StageView::Over,
                SingleView::Finish(Ok(typed(json_text(entry_of(iri, c, subjects, triples)), RDF_JSON@))),
            ),
            ProgressView::Stuck => failing("wf_profile-extension: reply out of turn"@),
        },
        _ => failing("wf_profile-extension: reply out of turn"@),
    }
}

/// Moves a call on.
pub fn step(stage: Stage, event: Event) -> (r: (Stage, Action))
    ensures
        (r.0@, r.1@) == next(stage@, event@),
{
    match stage {
        Stage::Counting => match event {
            Event::Reply(reply) => match refuse(&reply) {
                Some(e) => fail(e),
                None => {
                    let row = take_first_row(reply);
                    let n: i64 = read_count(&row, "n");
                    (Stage::Over, Action::Finish(Ok(typed_literal(&decimal_i64(n), XSD_INTEGER))))
                },
            },
            _ => fail("wf_profile-extension: reply out of turn".to_owned()),
        },
        Stage::Enumerating(iri) => match event {
            Event::Reply(reply) => match refuse(&reply) {
                Some(e) => fail(e),
                None => {
                    let row = take_first_row(reply);
                    let subjects: i64 = read_count(&row, "subjects");
                    let triples: i64 = read_count(&row, "triples");
                    let (probing, action) = begin_classify(&subject_for(&iri));
                    (Stage::Probing(iri, subjects, triples, probing), Action::Probe(action))
                },
            },
            _ => fail("wf_profile-extension: reply out of turn".to_owned()),
        },
        Stage::Probing(iri, subjects, triples, p) => {
            let subject = subject_for(&iri);
            match classify(&subject, p, event) {
                Progress::Ask(p, a) => (Stage::Probing(iri, subjects, triples, p), Action::Probe(a)),
                Progress::Done(c) => {
                    let text = build_entry(&iri, c, subjects, triples).render();
                    (Stage::Over, Action::Finish(Ok(json_literal(&text))))
                },
                Progress::Stuck => fail("wf_profile-extension: reply out of turn".to_owned()),
            }
        },
        Stage::Over => fail("wf_profile-extension: reply out of turn".to_owned()),
    }
}

// ---------------------------------------------------------------------------
// The component
// ---------------------------------------------------------------------------

pub fn register() -> (r: Vec<FunctionDescriptor>)
    ensures
        r@.len() == 2,
        describes(r@[0], "predicate-triple-count"@, 1),
        describes(r@[1], "classify-predicate"@, 1),
{
    vec![
        FunctionDescriptor { name: "predicate-triple-count".to_owned(), min_arity: 1, max_arity: Some(1) },
        FunctionDescriptor { name: "classify-predicate".to_owned(), min_arity: 1, max_arity: Some(1) },
    ]
}

/// The state of an aggregate. The component has none, so none is ever made.
pub struct UnreachableState;

impl UnreachableState {
    pub fn step(&self, args: Vec<Term>) -> (r: Result<(), String>)
        ensures
            r matches Err(e) && e@ == never_constructed_text(COMPONENT@),
    {
        Err(never_constructed(COMPONENT))
    }

    pub fn finish(&self) -> (r: Result<Term, String>)
        ensures
            r matches Err(e) && e@ == never_constructed_text(COMPONENT@),
    {
        Err(never_constructed(COMPONENT))
    }
}

} // verus!

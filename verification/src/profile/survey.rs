//! `wf_profile`: the classification of every predicate of the graph.

use vstd::prelude::*;
use vstd::string::*;

use crate::guest::{describes, never_constructed, never_constructed_text, one_function, unknown_function,
    unknown_function_text, FunctionDescriptor};
use crate::host::{outcome, Reply, ReplyView};
use crate::json::{all_wf, array_view, array_wf, json_text, no_fields, no_fields_wf, object_view, put_field, put_wf,
    Fields, Json, JsonView};
use crate::order::turned;
use crate::profile::classify::{
    begin_classify, build_entry, cardinality_text, classify, count_in, entry_of, probed, read_count, ActionView, Event,
    EventView, Probing, ProbingView, Progress, ProgressView, Subject, SubjectView,
};
use crate::rdf::{binding_iri, group_bindings_into_rows, grouped, json_literal, row_views, text_in, typed, Binding,
    BindingView, QueryResult, QueryResultView, Term, TermView, RDF_JSON};
use crate::text::{same, views, views_push};

verus! {

pub const COMPONENT: &'static str = "wf_profile";

/// The query for the predicates, the most frequent first.
pub const PREDICATES: &'static str = "SELECT ?p (COUNT(*) AS ?triples) (COUNT(DISTINCT ?s) AS ?subjects) WHERE { ?s ?p ?o } GROUP BY ?p ORDER BY DESC(?triples)";

/// How the query for the elements of lists begins.
pub const LIST_HEAD: &'static str = "SELECT ?dt (COUNT(*) AS ?n) (COUNT(IF(isIRI(?item), 1, 1)) AS ?iri_n) WHERE { ";

/// A predicate with its counts.
pub struct Counted {
    pub predicate: String,
    pub triples: i64,
    pub subjects: i64,
}

pub struct CountedView {
    pub predicate: Seq<char>,
    pub triples: i64,
    pub subjects: i64,
}

impl View for Counted {
    type V = CountedView;

    open spec fn view(&self) -> CountedView {
        CountedView { predicate: self.predicate@, triples: self.triples, subjects: self.subjects }
    }
}

/// The predicates that rows name; a row without one is passed over.
pub open spec fn predicates_in(rows: Seq<Seq<BindingView>>) -> Seq<CountedView>
    decreases rows.len(),
{
    if rows.len() == 0 {
        Seq::empty()
    } else {
        let before = predicates_in(rows.drop_last());
        let row = rows.last();
        match text_in(row, "p"@) {
            Some(predicate) => before.push(
                CountedView {
                    predicate,
                    triples: count_in(row, "triples"@),
                    subjects: count_in(row, "subjects"@),
                },
            ),
            None => before,
        }
    }
}

fn read_predicates(rows: &Vec<Vec<Binding>>) -> (r: Vec<Counted>)
    ensures
        views(r@) == predicates_in(row_views(rows@)),
{
    broadcast use views_push;

    let ghost all = row_views(rows@);
    let mut out: Vec<Counted> = Vec::new();
    proof {
        assert(views(out@) =~= predicates_in(all.take(0)));
    }
    for i in 0..rows.len()
        invariant
            all == row_views(rows@),
            views(out@) == predicates_in(all.take(i as int)),
    {
        proof {
            assert(all.take(i + 1).drop_last() =~= all.take(i as int));
            assert(all.take(i + 1).last() == views(rows@[i as int]@));
        }
        match binding_iri(&rows[i], "p") {
            Some(predicate) => {
                let triples: i64 = read_count(&rows[i], "triples");
                let subjects: i64 = read_count(&rows[i], "subjects");
                out.push(Counted { predicate, triples, subjects });
            },
            None => {},
        }
    }
    proof {
        assert(all.take(all.len() as int) =~= all);
    }
    out
}

// ---------------------------------------------------------------------------
// The call
// ---------------------------------------------------------------------------

/// What a call asks for.
pub enum Action {
    /// Something that a classification needs.
    Probe(crate::profile::classify::Action),
    /// Nothing more: the result of the call.
    Finish(Result<Term, String>),
}

pub enum SurveyView {
    Probe(ActionView),
    Finish(Result<TermView, Seq<char>>),
}

impl View for Action {
    type V = SurveyView;

    open spec fn view(&self) -> SurveyView {
        match self {
            Action::Probe(a) => SurveyView::Probe(a@),
            Action::Finish(r) => SurveyView::Finish(outcome(*r)),
        }
    }
}

/// The predicates still to come, the one at hand, and the entries of those
/// before.
pub struct Survey {
    /// Last first.
    pub ahead: Vec<Counted>,
    pub at_hand: Counted,
    pub done: Vec<Json>,
}

pub struct SurveyState {
    pub ahead: Seq<CountedView>,
    pub at_hand: CountedView,
    pub done: Seq<JsonView>,
}

impl View for Survey {
    type V = SurveyState;

    open spec fn view(&self) -> SurveyState {
        SurveyState {
            ahead: views(self.ahead@).reverse(),
            at_hand: self.at_hand@,
            done: views(self.done@),
        }
    }
}

/// How far a call has come: what it waits for.
pub enum Stage {
    Predicates,
    Probing(Survey, Probing),
    /// Nothing: the call has finished.
    Over,
}

pub enum StageView {
    Predicates,
    Probing(SurveyState, ProbingView),
    Over,
}

impl View for Stage {
    type V = StageView;

    open spec fn view(&self) -> StageView {
        match self {
            Stage::Predicates => StageView::Predicates,
            Stage::Probing(s, p) => StageView::Probing(s@, p@),
            Stage::Over => StageView::Over,
        }
    }
}

impl StageView {
    /// Whether every entry of the stage is well-formed.
    pub open spec fn wf(self) -> bool {
        match self {
            StageView::Probing(s, _) => all_wf(s.done),
            _ => true,
        }
    }
}

pub open spec fn failing(e: Seq<char>) -> (StageView, SurveyView) {
    (StageView::Over, SurveyView::Finish(Err(e)))
}

/// The result of a call: the entries.
pub open spec fn report(done: Seq<JsonView>) -> SurveyView {
    SurveyView::Finish(
        Ok(
            typed(
                json_text(JsonView::Object(no_fields().with("predicates"@, JsonView::Array(done)))),
                RDF_JSON@,
            ),
        ),
    )
}

/// The classification of the next predicate; behind the last, the result.
pub open spec fn surveyed_on(ahead: Seq<CountedView>, done: Seq<JsonView>) -> (StageView, SurveyView) {
    if ahead.len() == 0 {
        (StageView::Over, report(done))
    } else {
        (
            StageView::Probing(
                SurveyState { ahead: ahead.drop_first(), at_hand: ahead[0], done },
                ProbingView::Cardinality,
            ),
            SurveyView::Probe(ActionView::Query(cardinality_text(ahead[0].predicate))),
        )
    }
}

fn subject_for(predicate: &str) -> (r: Subject)
    ensures
        r@ == subject_of(predicate@),
{
    Subject { predicate: predicate.to_owned(), list_head: LIST_HEAD.to_owned() }
}

fn survey_on(ahead: Vec<Counted>, done: Vec<Json>) -> (r: (Stage, Action))
    requires
        all_wf(views(done@)),
    ensures
        (r.0@, r.1@) == surveyed_on(views(ahead@).reverse(), views(done@)),
        r.0@.wf(),
{
    broadcast use {no_fields_wf, put_wf, object_view, array_view};

    let ghost all = views(ahead@).reverse();
    let mut ahead = ahead;
    match ahead.pop() {
        None => {
            proof {
                array_wf(views(done@));
            }
            let mut fields: Vec<(String, Json)> = Vec::new();
            proof {
                assert(views(fields@) =~= no_fields());
            }
            put_field(&mut fields, "predicates", Json::Array(done));
            let text = Json::Object(fields).render();
            (Stage::Over, Action::Finish(Ok(json_literal(&text))))
        },
        Some(at_hand) => {
            proof {
                assert(all[0] == at_hand@);
                assert(all.drop_first() =~= views(ahead@).reverse());
            }
            let (probing, action) = begin_classify(&subject_for(&at_hand.predicate));
            (Stage::Probing(Survey { ahead, at_hand, done }, probing), Action::Probe(action))
        },
    }
}

/// The first request of a call.
pub fn begin() -> (r: (Stage, Action))
    ensures
        (r.0@, r.1@) == (StageView::Predicates, SurveyView::Probe(ActionView::Query(PREDICATES@))),
{
    (Stage::Predicates, Action::Probe(crate::profile::classify::Action::Query(PREDICATES.to_owned())))
}

/// The predicate at hand, to classify.
pub open spec fn subject_of(predicate: Seq<char>) -> SubjectView {
    SubjectView { predicate, list_head: LIST_HEAD@ }
}

/// What a classification's progress leads to.
pub open spec fn progressed(s: SurveyState, progress: ProgressView) -> (StageView, SurveyView) {
    match progress {
        ProgressView::Ask(p, a) => (StageView::Probing(s, p), SurveyView::Probe(a)),
        ProgressView::Done(c) => surveyed_on(
            s.ahead,
            s.done.push(entry_of(s.at_hand.predicate, c, s.at_hand.subjects, s.at_hand.triples)),
        ),
        ProgressView::Stuck => failing("wf_profile: reply out of turn"@),
    }
}

/// What an event leads to.
pub open spec fn next(stage: StageView, event: EventView) -> (StageView, SurveyView) {
    match stage {
        StageView::Predicates => match event {
            EventView::Reply(ReplyView::Result(QueryResultView::Bindings(flat))) => surveyed_on(
                predicates_in(grouped(flat)),
                Seq::empty(),
            ),
            EventView::Reply(ReplyView::Result(QueryResultView::Quads(_))) => failing(
                "wf_profile: SELECT expected but graph-callbacks returned quads"@,
            ),
            EventView::Reply(ReplyView::Result(QueryResultView::Boolean(_))) => failing(
                "wf_profile: SELECT expected but graph-callbacks returned boolean"@,
            ),
            EventView::Reply(ReplyView::Failed(e)) => failing(e),
            _ => failing("wf_profile: reply out of turn"@),
        },
        StageView::Probing(s, p) => progressed(s, probed(subject_of(s.at_hand.predicate), p, event)),
        StageView::Over => failing("wf_profile: reply out of turn"@),
    }
}

/// Moves a call on.
pub fn step(stage: Stage, event: Event) -> (r: (Stage, Action))
    requires
        stage@.wf(),
    ensures
        (r.0@, r.1@) == next(stage@, event@),
        r.0@.wf(),
{
    broadcast use views_push;

    match stage {
        Stage::Predicates => match event {
            Event::Reply(reply) => match reply {
                Reply::Result(result) => match result {
                    QueryResult::Bindings(flat) => {
                        let found = read_predicates(&group_bindings_into_rows(flat));
                        let ahead = turned(found);
                        let done: Vec<Json> = Vec::new();
                        proof {
                            assert(views(ahead@).reverse() =~= views(found@));
                            assert(views(done@) =~= Seq::empty());
                        }
                        survey_on(ahead, done)
                    },
                    QueryResult::Quads(_) => fail(
                        "wf_profile: SELECT expected but graph-callbacks returned quads".to_owned(),
                    ),
                    QueryResult::Boolean(_) => fail(
                        "wf_profile: SELECT expected but graph-callbacks returned boolean".to_owned(),
                    ),
                },
                Reply::Failed(e) => fail(e),
                _ => fail("wf_profile: reply out of turn".to_owned()),
            },
            _ => fail("wf_profile: reply out of turn".to_owned()),
        },
        Stage::Probing(s, p) => {
            let subject = subject_for(&s.at_hand.predicate);
            let progress = classify(&subject, p, event);
            match progress {
                Progress::Ask(p, a) => (Stage::Probing(s, p), Action::Probe(a)),
                Progress::Done(c) => {
                    let entry = build_entry(&s.at_hand.predicate, c, s.at_hand.subjects, s.at_hand.triples);
                    let ghost before = s@.done;
                    let mut done = s.done;
                    done.push(entry);
                    proof {
                        let after = views(done@);
                        assert forall|i: int| 0 <= i < after.len() implies (#[trigger] after[i]).wf() by {
                            if i < before.len() {
                                assert(before[i].wf());
                            }
                        }
                    }
                    survey_on(s.ahead, done)
                },
                Progress::Stuck => fail("wf_profile: reply out of turn".to_owned()),
            }
        },
        Stage::Over => fail("wf_profile: reply out of turn".to_owned()),
    }
}

fn fail(e: String) -> (r: (Stage, Action))
    ensures
        (r.0@, r.1@) == failing(e@),
{
    (Stage::Over, Action::Finish(Err(e)))
}

// ---------------------------------------------------------------------------
// The component
// ---------------------------------------------------------------------------

pub fn register() -> (r: Vec<FunctionDescriptor>)
    ensures
        r@.len() == 1,
        describes(r@[0], "wf_profile"@, 0),
{
    one_function("wf_profile", 0)
}

/// Whether the component offers the function.
pub fn offers(name: &str) -> (r: Result<(), String>)
    ensures
        r is Ok <==> name@ == "wf_profile"@,
        r matches Err(e) ==> e@ == unknown_function_text(COMPONENT@, name@),
{
    if same(name, "wf_profile") {
        Ok(())
    } else {
        Err(unknown_function(COMPONENT, name))
    }
}

/// The state of an aggregate. The component has none, so none is ever made.
pub struct UnreachableState;

impl UnreachableState {
    pub fn step(&self, args: Vec<Term>) -> (r: Result<(), String>)
        ensures
            r matches Err(e) && e@ == never_constructed_text(COMPONENT@),
    {
        Err(never_constructed(COMPONENT))
    }

    pub fn finish(&self) -> (r: Result<Term, String>)
        ensures
            r matches Err(e) && e@ == never_constructed_text(COMPONENT@),
    {
        Err(never_constructed(COMPONENT))
    }
}

} // verus!

//! A run of a plan: the steps one after the other, each tried as often as its
//! plan allows, with the branches of conditions and the fallbacks of failed
//! steps in between.

use vstd::prelude::*;
use vstd::string::*;

use crate::guest::{describes, never_constructed, never_constructed_text, one_function, unknown_function,
    unknown_function_text, FunctionDescriptor};
use crate::host::{first_literal, first_text};
use crate::json::{
    array_view, array_wf, integer, integer_json, json_text, no_fields, no_fields_wf, object_view, put_field, put_wf,
    Fields, Json, JsonView,
};
use crate::number::{decimal_i64, decimal_of, decimal_usize, int_text};
use crate::order::turned;
use crate::pipeline::interpolate::{interpolate, interpolate_mode, interpolated, Context, CtxValue, CtxView, InterpMode};
use crate::pipeline::outcome::{cell_in, find_cell, outcome_or_error, CellView, OutcomeView, QueryOutcome};
use crate::rdf::{json_literal, typed, Term, TermView, RDF_JSON};
use crate::text::{opt_view, same, strip_prefix, views, views_push};

verus! {

pub const COMPONENT: &'static str = "wf_pipeline";

/// A plan: a name and the steps.
pub struct Plan {
    pub name: String,
    pub steps: Vec<Step>,
}

/// A step of a plan. Which fields matter is up to its kind.
pub struct Step {
    pub kind: String,
    pub name: Option<String>,
    pub query: Option<String>,
    pub update: Option<String>,
    pub url: Option<String>,
    pub arg: Option<String>,
    pub ask: Option<String>,
    pub then_steps: Vec<Step>,
    pub else_steps: Vec<Step>,
    /// The names that the step binds, each with the variable it takes.
    pub bind: Vec<(String, String)>,
    /// Whether all that the step gives is bound to its name.
    pub bind_full: bool,
    pub on_error: Option<OnError>,
}

/// What to do when a step fails.
pub struct OnError {
    pub retry: u32,
    pub delay_ms: u64,
    pub fallback_steps: Vec<Step>,
}

/// The plan's text among the arguments of a call.
pub fn plan_text(args: &Vec<Term>) -> (r: Result<String, String>)
    ensures
        match (first_literal(views(args@)), r) {
            (Some(text), Ok(s)) => s@ == text,
            (None, Err(e)) => e@ == "wf_pipeline: first arg must be a plan-json string literal"@,
            _ => false,
        },
{
    match first_text(args) {
        Some(text) => Ok(text),
        None => Err("wf_pipeline: first arg must be a plan-json string literal".to_owned()),
    }
}

// ---------------------------------------------------------------------------
// The report
// ---------------------------------------------------------------------------

/// What is reported of a step.
#[derive(Debug)]
pub struct Row {
    pub step: i64,
    pub kind: String,
    pub name: String,
    pub ok: bool,
    pub detail: String,
}

pub struct RowView {
    pub step: i64,
    pub kind: Seq<char>,
    pub name: Seq<char>,
    pub ok: bool,
    pub detail: Seq<char>,
}

impl View for Row {
    type V = RowView;

    open spec fn view(&self) -> RowView {
        RowView { step: self.step, kind: self.kind@, name: self.name@, ok: self.ok, detail: self.detail@ }
    }
}

pub fn build_row(idx: i64, kind: &str, name: &str, ok: bool, detail: &str) -> (r: Row)
    ensures
        r@ == (RowView { step: idx, kind: kind@, name: name@, ok, detail: detail@ }),
{
    Row { step: idx, kind: kind.to_owned(), name: name.to_owned(), ok, detail: detail.to_owned() }
}

/// A row as an object.
pub open spec fn row_object(row: RowView) -> JsonView {
    JsonView::Object(
        no_fields().with("step"@, integer(row.step)).with("kind"@, JsonView::Text(row.kind)).with(
            "name"@,
            JsonView::Text(row.name),
        ).with("ok"@, JsonView::Bool(row.ok)).with("detail"@, JsonView::Text(row.detail)),
    )
}

fn row_to_json(row: &Row) -> (r: Json)
    ensures
        r@ == row_object(row@),
        r@.wf(),
{
    broadcast use {no_fields_wf, put_wf, object_view};

    let mut fields: Vec<(String, Json)> = Vec::new();
    proof {
        assert(views(fields@) =~= no_fields());
    }
    put_field(&mut fields, "step", integer_json(row.step));
    put_field(&mut fields, "kind", Json::text(&row.kind));
    put_field(&mut fields, "name", Json::text(&row.name));
    put_field(&mut fields, "ok", Json::Bool(row.ok));
    put_field(&mut fields, "detail", Json::text(&row.detail));
    Json::Object(fields)
}

/// The rows as objects.
pub open spec fn row_objects(rows: Seq<RowView>) -> Seq<JsonView> {
    Seq::new(rows.len(), |i: int| row_object(rows[i]))
}

/// The names of a report's columns.
pub open spec fn column_names() -> Seq<JsonView> {
    seq![
        JsonView::Text("step"@),
        JsonView::Text("kind"@),
        JsonView::Text("name"@),
        JsonView::Text("ok"@),
        JsonView::Text("detail"@),
    ]
}

/// A report.
pub open spec fn report(rows: Seq<RowView>) -> JsonView {
    JsonView::Object(
        no_fields().with("vars"@, JsonView::Array(column_names())).with("rows"@, JsonView::Array(row_objects(rows))),
    )
}

pub fn rows_to_json_literal(rows: &Vec<Row>) -> (r: Term)
    ensures
        r@ == typed(json_text(report(views(rows@))), RDF_JSON@),
{
    broadcast use {no_fields_wf, put_wf, object_view, array_view};

    let mut objects: Vec<Json> = Vec::new();
    for i in 0..rows.len()
        invariant
            objects@.len() == i,
            forall|j: int| 0 <= j < i ==> (#[trigger] objects@[j])@ == row_object(rows@[j]@) && objects@[j]@.wf(),
    {
        objects.push(row_to_json(&rows[i]));
    }
    let vars = vec![
        Json::text("step"),
        Json::text("kind"),
        Json::text("name"),
        Json::text("ok"),
        Json::text("detail"),
    ];
    proof {
        assert(views(objects@) =~= row_objects(views(rows@)));
        assert(views(vars@) =~= column_names());
        array_wf(views(objects@));
        array_wf(views(vars@));
    }
    let mut fields: Vec<(String, Json)> = Vec::new();
    proof {
        assert(views(fields@) =~= no_fields());
    }
    put_field(&mut fields, "vars", Json::Array(vars));
    put_field(&mut fields, "rows", Json::Array(objects));
    let text = Json::Object(fields).render();
    json_literal(&text)
}

// ---------------------------------------------------------------------------
// What a step asks for
// ---------------------------------------------------------------------------

/// What a run asks for.
pub enum Action {
    Query(String),
    Update(String),
    /// A call of another component, with an argument.
    Invoke(String, Option<String>),
    Ask(String),
    /// A pause, in milliseconds.
    Sleep(u64),
    /// Nothing more: the report.
    Finish(Term),
}

pub enum ActionView {
    Query(Seq<char>),
    Update(Seq<char>),
    Invoke(Seq<char>, Option<Seq<char>>),
    Ask(Seq<char>),
    Sleep(u64),
    Finish(TermView),
}

impl View for Action {
    type V = ActionView;

    open spec fn view(&self) -> ActionView {
        match self {
            Action::Query(q) => ActionView::Query(q@),
            Action::Update(u) => ActionView::Update(u@),
            Action::Invoke(url, arg) => ActionView::Invoke(url@, opt_view(*arg)),
            Action::Ask(q) => ActionView::Ask(q@),
            Action::Sleep(ms) => ActionView::Sleep(*ms),
            Action::Finish(t) => ActionView::Finish(t@),
        }
    }
}

/// What came of it.
pub enum Event {
    /// Of a query or a call.
    Outcome(Result<QueryOutcome, String>),
    Updated(Result<(), String>),
    Asked(Result<bool, String>),
    Slept,
}

pub enum EventView {
    Outcome(Result<OutcomeView, Seq<char>>),
    Updated(Result<(), Seq<char>>),
    Asked(Result<bool, Seq<char>>),
    Slept,
}

impl View for Event {
    type V = EventView;

    open spec fn view(&self) -> EventView {
        match self {
            Event::Outcome(r) => EventView::Outcome(outcome_or_error(*r)),
            Event::Updated(Ok(_)) => EventView::Updated(Ok(())),
            Event::Updated(Err(e)) => EventView::Updated(Err(e@)),
            Event::Asked(Ok(b)) => EventView::Asked(Ok(*b)),
            Event::Asked(Err(e)) => EventView::Asked(Err(e@)),
            Event::Slept => EventView::Slept,
        }
    }
}

/// The argument of a call, with its variables replaced.
pub open spec fn interpolated_arg(arg: Option<Seq<char>>, ctx: Map<Seq<char>, CtxView>) -> Result<
    Option<Seq<char>>,
    Seq<char>,
> {
    match arg {
        None => Ok(None),
        Some(a) => match interpolated(a, ctx, InterpMode::Scalar) {
            Ok(text) => Ok(Some(text)),
            Err(e) => Err(e),
        },
    }
}

pub open spec fn unknown_kind(kind: Seq<char>) -> Seq<char> {
    "unknown step kind `"@ + kind + "` (want: sparql_query | sparql_update | wasm | condition)"@
}

/// What a step asks for, or why it cannot ask.
pub open spec fn prepared(step: Step, ctx: Map<Seq<char>, CtxView>) -> Result<ActionView, Seq<char>> {
    if step.kind@ == "sparql_query"@ {
        match step.query {
            None => Err("sparql_query: missing `query`"@),
            Some(q) => match interpolated(q@, ctx, InterpMode::Sparql) {
                Ok(text) => Ok(ActionView::Query(text)),
                Err(e) => Err(e),
            },
        }
    } else if step.kind@ == "sparql_update"@ {
        match step.update {
            None => Err("sparql_update: missing `update`"@),
            Some(u) => match interpolated(u@, ctx, InterpMode::Sparql) {
                Ok(text) => Ok(ActionView::Update(text)),
                Err(e) => Err(e),
            },
        }
    } else if step.kind@ == "wasm"@ {
        match step.url {
            None => Err("wasm: missing `url`"@),
            Some(url) => match interpolated(url@, ctx, InterpMode::Scalar) {
                Err(e) => Err(e),
                Ok(to) => match interpolated_arg(opt_view(step.arg), ctx) {
                    Err(e) => Err(e),
                    Ok(arg) => Ok(ActionView::Invoke(to, arg)),
                },
            },
        }
    } else {
        Err(unknown_kind(step.kind@))
    }
}

pub open spec fn action_view(r: Result<Action, String>) -> Result<ActionView, Seq<char>> {
    match r {
        Ok(a) => Ok(a@),
        Err(e) => Err(e@),
    }
}

fn prepare(step: &Step, ctx: &Context) -> (r: Result<Action, String>)
    ensures
        action_view(r) == prepared(*step, ctx@),
{
    if same(&step.kind, "sparql_query") {
        match &step.query {
            None => Err("sparql_query: missing `query`".to_owned()),
            Some(q) => match interpolate(q, ctx) {
                Ok(text) => Ok(Action::Query(text)),
                Err(e) => Err(e),
            },
        }
    } else if same(&step.kind, "sparql_update") {
        match &step.update {
            None => Err("sparql_update: missing `update`".to_owned()),
            Some(u) => match interpolate(u, ctx) {
                Ok(text) => Ok(Action::Update(text)),
                Err(e) => Err(e),
            },
        }
    } else if same(&step.kind, "wasm") {
        match &step.url {
            None => Err("wasm: missing `url`".to_owned()),
            Some(url) => match interpolate_mode(url, ctx, InterpMode::Scalar) {
                Err(e) => Err(e),
                Ok(to) => match &step.arg {
                    None => Ok(Action::Invoke(to, None)),
                    Some(a) => match interpolate_mode(a, ctx, InterpMode::Scalar) {
                        Ok(text) => Ok(Action::Invoke(to, Some(text))),
                        Err(e) => Err(e),
                    },
                },
            },
        }
    } else {
        Err(
            "unknown step kind `".to_owned().concat(&step.kind).concat(
                "` (want: sparql_query | sparql_update | wasm | condition)",
            ),
        )
    }
}

// ---------------------------------------------------------------------------
// What a step binds
// ---------------------------------------------------------------------------

/// A name and what it is bound to.
pub struct Bound {
    pub name: String,
    pub value: CtxValue,
}

impl View for Bound {
    type V = (Seq<char>, CtxView);

    open spec fn view(&self) -> (Seq<char>, CtxView) {
        (self.name@, self.value@)
    }
}

/// The variable that a binding takes: its name may be written with a question
/// mark.
pub open spec fn bare(source: Seq<char>) -> Seq<char> {
    if "?"@.is_prefix_of(source) {
        source.skip("?"@.len() as int)
    } else {
        source
    }
}

/// What names are bound to by the cells of a row.
pub open spec fn bound_in(bind: Seq<(String, String)>, row: Seq<(Seq<char>, CellView)>) -> Seq<(Seq<char>, CtxView)>
    decreases bind.len(),
{
    if bind.len() == 0 {
        Seq::empty()
    } else {
        let before = bound_in(bind.drop_last(), row);
        match cell_in(row, bare(bind.last().1@)) {
            Some(c) => before.push((bind.last().0@, CtxView::Scalar(c.text()))),
            None => before,
        }
    }
}

/// What names are bound to by an outcome's first row.
pub open spec fn extracted(bind: Seq<(String, String)>, o: OutcomeView) -> Seq<(Seq<char>, CtxView)> {
    if o.rows.len() == 0 {
        Seq::empty()
    } else {
        bound_in(bind, o.rows[0])
    }
}

pub fn extract_binds(bind: &Vec<(String, String)>, bs: &QueryOutcome) -> (r: Vec<Bound>)
    ensures
        views(r@) == extracted(bind@, bs@),
{
    broadcast use views_push;

    let mut out: Vec<Bound> = Vec::new();
    proof {
        assert(views(out@) =~= Seq::empty());
    }
    if bs.rows.len() == 0 {
        return out;
    }
    let first = &bs.rows[0];
    proof {
        assert(bs@.rows[0] == views(first@));
        assert(bind@.take(0) =~= Seq::empty());
    }
    for i in 0..bind.len()
        invariant
            views(out@) == bound_in(bind@.take(i as int), views(first@)),
    {
        proof {
            assert(bind@.take(i + 1).drop_last() =~= bind@.take(i as int));
        }
        let stripped = match strip_prefix(&bind[i].1, "?") {
            Some(rest) => rest,
            None => bind[i].1.clone(),
        };
        proof {
            assert(stripped@ =~= bare(bind@[i as int].1@));
        }
        match find_cell(first, &stripped) {
            Some(c) => out.push(Bound { name: bind[i].0.clone(), value: CtxValue::Scalar(c.as_str()) }),
            None => {},
        }
    }
    proof {
        assert(bind@.take(bind@.len() as int) =~= bind@);
    }
    out
}

pub open spec fn nameless() -> Seq<char> {
    "bind_full: true requires the step to have a `name` (the captured binding-set is keyed by step name)"@
}

/// What a step binds of an outcome: its names, and its own name to the whole
/// where that is asked for.
pub open spec fn bound_by(step: Step, o: OutcomeView) -> Result<Seq<(Seq<char>, CtxView)>, Seq<char>> {
    if !step.bind_full {
        Ok(extracted(step.bind@, o))
    } else {
        match step.name {
            None => Err(nameless()),
            Some(name) => Ok(extracted(step.bind@, o).push((name@, CtxView::Full(o)))),
        }
    }
}

pub open spec fn bound_view(r: Result<Vec<Bound>, String>) -> Result<Seq<(Seq<char>, CtxView)>, Seq<char>> {
    match r {
        Ok(b) => Ok(views(b@)),
        Err(e) => Err(e@),
    }
}

fn bind(step: &Step, bs: QueryOutcome) -> (r: Result<Vec<Bound>, String>)
    ensures
        bound_view(r) == bound_by(*step, bs@),
{
    broadcast use views_push;

    let mut out = extract_binds(&step.bind, &bs);
    if step.bind_full {
        match &step.name {
            None => {
                return Err(
                    "bind_full: true requires the step to have a `name` (the captured binding-set is keyed by step name)".to_owned(),
                );
            },
            Some(name) => out.push(Bound { name: name.clone(), value: CtxValue::Full(bs) }),
        }
    }
    Ok(out)
}

/// The values of the names with more bound, one after the other.
pub open spec fn with_bound(ctx: Map<Seq<char>, CtxView>, bound: Seq<(Seq<char>, CtxView)>) -> Map<Seq<char>, CtxView>
    decreases bound.len(),
{
    if bound.len() == 0 {
        ctx
    } else {
        with_bound(ctx, bound.drop_last()).insert(bound.last().0, bound.last().1)
    }
}

fn bind_all(ctx: &mut Context, bound: Vec<Bound>)
    ensures
        final(ctx)@ == with_bound(old(ctx)@, views(bound@)),
{
    let ghost start = ctx@;
    let ghost all = views(bound@);
    proof {
        assert(all.take(0) =~= Seq::empty());
    }
    for b in iter: bound
        invariant
            views(iter.seq()) == all,
            ctx@ == with_bound(start, all.take(iter.index() as int)),
    {
        proof {
            let k = iter.index() as int;
            assert(all.take(k + 1).drop_last() =~= all.take(k));
            assert(all[k] == iter.seq()[k]@);
        }
        ctx.insert(b.name, b.value);
    }
    proof {
        assert(all.take(all.len() as int) =~= all);
    }
}

// ---------------------------------------------------------------------------
// What came of a step
// ---------------------------------------------------------------------------

/// What a call reports: its first cell.
pub open spec fn first_cell(o: OutcomeView) -> Seq<char> {
    if o.rows.len() > 0 && o.rows[0].len() > 0 {
        o.rows[0][0].1.text()
    } else {
        "no output rows"@
    }
}

/// What is reported of a step that succeeded and what it binds, or why it
/// failed.
pub open spec fn completed(step: Step, event: EventView) -> Result<
    (Seq<char>, Seq<(Seq<char>, CtxView)>),
    Seq<char>,
> {
    match event {
        EventView::Outcome(r) => {
            let query = step.kind@ == "sparql_query"@;
            match r {
                Err(e) => Err((if query {
                    "sparql_query: "@
                } else {
                    "wasm: "@
                }) + e),
                Ok(o) => match bound_by(step, o) {
                    Err(e) => Err(e),
                    Ok(bound) => Ok(
                        (
                            if query {
                                decimal_of(o.rows.len()) + " rows"@
                            } else {
                                first_cell(o)
                            },
                            bound,
                        ),
                    ),
                },
            }
        },
        EventView::Updated(Ok(_)) => Ok(("ok"@, Seq::empty())),
        EventView::Updated(Err(e)) => Err("sparql_update: "@ + e),
        _ => Err("wf_pipeline: reply out of turn"@),
    }
}

pub open spec fn completion_view(r: Result<(String, Vec<Bound>), String>) -> Result<
    (Seq<char>, Seq<(Seq<char>, CtxView)>),
    Seq<char>,
> {
    match r {
        Ok((detail, bound)) => Ok((detail@, views(bound@))),
        Err(e) => Err(e@),
    }
}

fn complete(step: &Step, event: Event) -> (r: Result<(String, Vec<Bound>), String>)
    ensures
        completion_view(r) == completed(*step, event@),
{
    match event {
        Event::Outcome(outcome) => {
            let query = same(&step.kind, "sparql_query");
            match outcome {
                Err(e) => if query {
                    Err("sparql_query: ".to_owned().concat(&e))
                } else {
                    Err("wasm: ".to_owned().concat(&e))
                },
                Ok(bs) => {
                    let detail = if query {
                        decimal_usize(bs.rows.len()).concat(" rows")
                    } else if bs.rows.len() > 0 && bs.rows[0].len() > 0 {
                        proof {
                            assert(bs@.rows[0] == views(bs.rows@[0]@));
                            assert(views(bs.rows@[0]@)[0] == bs.rows@[0]@[0]@);
                        }
                        bs.rows[0][0].1.as_str()
                    } else {
                        proof {
                            if bs.rows@.len() > 0 {
                                assert(bs@.rows[0] == views(bs.rows@[0]@));
                            }
                        }
                        "no output rows".to_owned()
                    };
                    match bind(step, bs) {
                        Ok(bound) => Ok((detail, bound)),
                        Err(e) => Err(e),
                    }
                },
            }
        },
        Event::Updated(updated) => match updated {
            Ok(_) => {
                let none: Vec<Bound> = Vec::new();
                proof {
                    assert(views(none@) =~= Seq::empty());
                }
                Ok(("ok".to_owned(), none))
            },
            Err(e) => Err("sparql_update: ".to_owned().concat(&e)),
        },
        _ => Err("wf_pipeline: reply out of turn".to_owned()),
    }
}

// ---------------------------------------------------------------------------
// The run
// ---------------------------------------------------------------------------

/// A run between two steps.
pub struct Runner {
    pub rows: Vec<Row>,
    pub ctx: Context,
    /// How many steps have been started.
    pub counter: i64,
    /// The steps that have not been started, last first.
    pub todo: Vec<Step>,
}

pub struct RunnerView {
    pub rows: Seq<RowView>,
    pub ctx: Map<Seq<char>, CtxView>,
    pub counter: i64,
    /// The steps that have not been started.
    pub todo: Seq<Step>,
}

impl View for Runner {
    type V = RunnerView;

    open spec fn view(&self) -> RunnerView {
        RunnerView {
            rows: views(self.rows@),
            ctx: self.ctx@,
            counter: self.counter,
            todo: self.todo@.reverse(),
        }
    }
}

/// A step that has been started, and how often it has failed.
pub struct Attempt {
    pub idx: i64,
    pub name: String,
    pub step: Step,
    pub failures: u32,
}

pub struct AttemptView {
    pub idx: i64,
    pub name: Seq<char>,
    pub step: Step,
    pub failures: u32,
}

impl View for Attempt {
    type V = AttemptView;

    open spec fn view(&self) -> AttemptView {
        AttemptView { idx: self.idx, name: self.name@, step: self.step, failures: self.failures }
    }
}

/// How far a run has come: what it waits for.
pub enum Stage {
    /// What came of a step's request.
    Trying(Runner, Attempt),
    /// The end of a pause before a step is tried again.
    Sleeping(Runner, Attempt),
    /// The answer to a condition.
    Asking(Runner, Attempt),
    /// Nothing: the run has finished.
    Over(Runner),
}

pub enum StageView {
    Trying(RunnerView, AttemptView),
    Sleeping(RunnerView, AttemptView),
    Asking(RunnerView, AttemptView),
    Over(RunnerView),
}

impl View for Stage {
    type V = StageView;

    open spec fn view(&self) -> StageView {
        match self {
            Stage::Trying(run, a) => StageView::Trying(run@, a@),
            Stage::Sleeping(run, a) => StageView::Sleeping(run@, a@),
            Stage::Asking(run, a) => StageView::Asking(run@, a@),
            Stage::Over(run) => StageView::Over(run@),
        }
    }
}

/// The name under which a step is reported.
pub open spec fn step_name(step: Step, idx: i64) -> Seq<char> {
    match step.name {
        Some(name) => name@,
        None => "step_"@ + int_text(idx as int),
    }
}

/// How often a step is tried again.
pub open spec fn retries(step: Step) -> u32 {
    match step.on_error {
        Some(o) => o.retry,
        None => 0,
    }
}

pub open spec fn delay(step: Step) -> u64 {
    match step.on_error {
        Some(o) => o.delay_ms,
        None => 0,
    }
}

/// The steps that take a failed step's place.
pub open spec fn fallback(step: Step) -> Seq<Step> {
    match step.on_error {
        Some(o) => o.fallback_steps@,
        None => Seq::empty(),
    }
}

/// How many steps may follow before one asks for anything, fallbacks of
/// fallbacks included.
pub open spec fn load(steps: Seq<Step>) -> nat
    decreases steps,
{
    if steps.len() == 0 {
        0
    } else {
        let step = steps[steps.len() - 1];
        let inner: nat = match step.on_error {
            Some(o) => load(o.fallback_steps@),
            None => 0,
        };
        load(steps.subrange(0, steps.len() - 1)) + 2 + inner
    }
}

proof fn load_push(steps: Seq<Step>, step: Step)
    ensures
        load(steps.push(step)) == load(steps) + 2 + load(fallback(step)),
{
    let all = steps.push(step);
    assert(all.subrange(0, all.len() - 1) =~= steps);
    assert(load(Seq::<Step>::empty()) == 0);
}

pub proof fn load_add(a: Seq<Step>, b: Seq<Step>)
    ensures
        load(a + b) == load(a) + load(b),
    decreases b.len(),
{
    if b.len() == 0 {
        assert(a + b =~= a);
    } else {
        let front = b.drop_last();
        load_add(a, front);
        load_push(front, b.last());
        load_push(a + front, b.last());
        assert(front.push(b.last()) =~= b);
        assert((a + front).push(b.last()) =~= a + b);
    }
}

pub proof fn load_first(steps: Seq<Step>)
    requires
        steps.len() > 0,
    ensures
        load(steps) == load(steps.drop_first()) + 2 + load(fallback(steps[0])),
{
    let one = seq![steps[0]];
    load_push(Seq::empty(), steps[0]);
    assert(Seq::<Step>::empty().push(steps[0]) =~= one);
    load_add(one, steps.drop_first());
    assert(one + steps.drop_first() =~= steps);
}

/// The end of a run.
pub open spec fn finished(run: RunnerView) -> (StageView, ActionView) {
    (StageView::Over(run), ActionView::Finish(typed(json_text(report(run.rows)), RDF_JSON@)))
}

fn finish(run: Runner) -> (r: (Stage, Action))
    ensures
        (r.0@, r.1@) == finished(run@),
{
    let t = rows_to_json_literal(&run.rows);
    (Stage::Over(run), Action::Finish(t))
}

/// The run with a step's row.
pub open spec fn with_row(run: RunnerView, a: AttemptView, kind: Seq<char>, ok: bool, detail: Seq<char>) -> RunnerView {
    RunnerView { rows: run.rows.push(RowView { step: a.idx, kind, name: a.name, ok, detail }), ..run }
}

fn add_row(run: &mut Runner, a: &Attempt, kind: &str, ok: bool, detail: &str)
    ensures
        final(run)@ == with_row(old(run)@, a@, kind@, ok, detail@),
{
    broadcast use views_push;

    run.rows.push(build_row(a.idx, kind, &a.name, ok, detail));
}

/// The run with the next step; without one, the end.
pub open spec fn advanced(run: RunnerView) -> (StageView, ActionView)
    decreases load(run.todo), 0int, 2int,
{
    if run.todo.len() == 0 {
        finished(run)
    } else {
        proof {
            load_first(run.todo);
        }
        let step = run.todo[0];
        let a = AttemptView {
            idx: run.counter,
            name: step_name(step, run.counter),
            step,
            failures: 0,
        };
        let rest = RunnerView {
            counter: run.counter.wrapping_add(1),
            todo: run.todo.drop_first(),
            ..run
        };
        if step.kind@ == "condition"@ {
            asked(rest, a)
        } else {
            tried(rest, a)
        }
    }
}

/// The step's request; where it cannot be made, the step fails.
pub open spec fn tried(run: RunnerView, a: AttemptView) -> (StageView, ActionView)
    decreases load(run.todo) + load(fallback(a.step)) + 1, retries(a.step) - a.failures, 1int,
{
    match prepared(a.step, run.ctx) {
        Ok(action) => (StageView::Trying(run, a), action),
        Err(e) => failed(run, a, e),
    }
}

/// The step is tried again while its plan allows, after a pause that grows
/// from try to try. At the end its fallback takes its place, and without one
/// the run is over.
pub open spec fn failed(run: RunnerView, a: AttemptView, e: Seq<char>) -> (StageView, ActionView)
    decreases load(run.todo) + load(fallback(a.step)) + 1, retries(a.step) - a.failures, 0int,
{
    if a.failures < retries(a.step) {
        let again = AttemptView { failures: (a.failures + 1) as u32, ..a };
        if delay(a.step) > 0 {
            (
                StageView::Sleeping(run, again),
                ActionView::Sleep(delay(a.step).wrapping_mul(again.failures as u64)),
            )
        } else {
            tried(run, again)
        }
    } else {
        let told = with_row(run, a, a.step.kind@, false, e);
        if fallback(a.step).len() > 0 {
            proof {
                load_add(fallback(a.step), run.todo);
            }
            advanced(RunnerView { todo: fallback(a.step) + run.todo, ..told })
        } else {
            finished(told)
        }
    }
}

/// A condition's question; where it cannot be asked, the run is over.
pub open spec fn asked(run: RunnerView, a: AttemptView) -> (StageView, ActionView) {
    match a.step.ask {
        None => finished(with_row(run, a, "condition"@, false, "condition: missing `ask`"@)),
        Some(ask) => match interpolated(ask@, run.ctx, InterpMode::Sparql) {
            Ok(text) => (StageView::Asking(run, a), ActionView::Ask(text)),
            Err(e) => finished(with_row(run, a, "condition"@, false, e)),
        },
    }
}

fn ask(run: Runner, a: Attempt) -> (r: (Stage, Action))
    ensures
        (r.0@, r.1@) == asked(run@, a@),
{
    let mut run = run;
    match &a.step.ask {
        None => {
            add_row(&mut run, &a, "condition", false, "condition: missing `ask`");
            finish(run)
        },
        Some(text) => match interpolate(text, &run.ctx) {
            Ok(text) => (Stage::Asking(run, a), Action::Ask(text)),
            Err(e) => {
                add_row(&mut run, &a, "condition", false, &e);
                finish(run)
            },
        },
    }
}

/// What comes next, as long as nothing has to be asked for.
enum Next {
    /// The next step.
    Advance,
    /// A request of a step.
    Try(Attempt),
    /// The failure of a step.
    Fail(Attempt, String),
}

spec fn next_of(run: RunnerView, next: Next) -> (StageView, ActionView) {
    match next {
        Next::Advance => advanced(run),
        Next::Try(a) => tried(run, a@),
        Next::Fail(a, e) => failed(run, a@, e@),
    }
}

spec fn load_of(run: RunnerView, next: Next) -> nat {
    match next {
        Next::Advance => load(run.todo),
        Next::Try(a) => load(run.todo) + load(fallback(a.step)) + 1,
        Next::Fail(a, _) => load(run.todo) + load(fallback(a.step)) + 1,
    }
}

spec fn tries_of(next: Next) -> int {
    match next {
        Next::Advance => 0,
        Next::Try(a) => retries(a.step) - a.failures,
        Next::Fail(a, _) => retries(a.step) - a.failures,
    }
}

spec fn rank_of(next: Next) -> int {
    match next {
        Next::Advance => 2,
        Next::Try(_) => 1,
        Next::Fail(_, _) => 0,
    }
}

fn proceed(run: Runner, next: Next) -> (r: (Stage, Action))
    ensures
        (r.0@, r.1@) == next_of(run@, next),
{
    let ghost goal = next_of(run@, next);
    let mut run = run;
    let mut next = next;
    loop
        invariant
            next_of(run@, next) == goal,
        decreases load_of(run@, next), tries_of(next), rank_of(next),
    {
        match next {
            Next::Advance => {
                let ghost was = run@;
                let step = match run.todo.pop() {
                    Some(step) => step,
                    None => {
                        return finish(run);
                    },
                };
                proof {
                    assert(was.todo[0] == step);
                    assert(was.todo.drop_first() =~= run@.todo);
                    load_first(was.todo);
                }
                let idx: i64 = run.counter;
                run.counter = run.counter.wrapping_add(1);
                let name = match &step.name {
                    Some(name) => name.clone(),
                    None => "step_".to_owned().concat(&decimal_i64(idx)),
                };
                let a = Attempt { idx, name, step, failures: 0 };
                if same(&a.step.kind, "condition") {
                    return ask(run, a);
                }
                next = Next::Try(a);
            },
            Next::Try(a) => {
                match prepare(&a.step, &run.ctx) {
                    Ok(action) => {
                        return (Stage::Trying(run, a), action);
                    },
                    Err(e) => {
                        next = Next::Fail(a, e);
                    },
                }
            },
            Next::Fail(a, e) => {
                let (again, pause): (u32, u64) = match &a.step.on_error {
                    Some(o) => (o.retry, o.delay_ms),
                    None => (0, 0),
                };
                if a.failures < again {
                    let failures: u32 = a.failures + 1;
                    let a = Attempt { failures, ..a };
                    if pause > 0 {
                        let ms: u64 = pause.wrapping_mul(failures as u64);
                        return (Stage::Sleeping(run, a), Action::Sleep(ms));
                    }
                    next = Next::Try(a);
                } else {
                    add_row(&mut run, &a, &a.step.kind, false, &e);
                    let ghost was = run@;
                    let ghost steps = fallback(a.step);
                    let instead = match a.step.on_error {
                        Some(o) => o.fallback_steps,
                        None => Vec::new(),
                    };
                    proof {
                        assert(instead@ =~= steps);
                    }
                    if instead.len() == 0 {
                        return finish(run);
                    }
                    let mut turned_steps = turned(instead);
                    let ghost below = run.todo@;
                    run.todo.append(&mut turned_steps);
                    proof {
                        assert(run.todo@ =~= below + steps.reverse());
                        assert(run@.todo =~= steps + was.todo);
                        load_add(steps, was.todo);
                    }
                    next = Next::Advance;
                }
            },
        }
    }
}

/// Starts a run.
pub fn begin(steps: Vec<Step>) -> (r: (Stage, Action))
    ensures
        (r.0@, r.1@) == advanced(
            RunnerView { rows: Seq::empty(), ctx: Map::empty(), counter: 0, todo: steps@ },
        ),
{
    let rows: Vec<Row> = Vec::new();
    let run = Runner { rows, ctx: Context::default(), counter: 0, todo: turned(steps) };
    proof {
        assert(run@.rows =~= Seq::empty());
        assert(run@.todo =~= steps@);
    }
    proceed(run, Next::Advance)
}

/// The report's word for a condition's answer.
pub open spec fn verdict_text(b: bool) -> Seq<char> {
    if b {
        "true"@
    } else {
        "false"@
    }
}

/// The names that a condition binds to its answer.
pub open spec fn answer_bound(
    ctx: Map<Seq<char>, CtxView>,
    bind: Seq<(String, String)>,
    answer: Seq<char>,
) -> Map<Seq<char>, CtxView>
    decreases bind.len(),
{
    if bind.len() == 0 {
        ctx
    } else {
        let before = answer_bound(ctx, bind.drop_last(), answer);
        if bind.last().1@ == "_ask"@ || bind.last().1@ == "?_ask"@ {
            before.insert(bind.last().0@, CtxView::Scalar(answer))
        } else {
            before
        }
    }
}

fn bind_answer(ctx: &mut Context, bind: &Vec<(String, String)>, answer: &str)
    ensures
        final(ctx)@ == answer_bound(old(ctx)@, bind@, answer@),
{
    let ghost start = ctx@;
    proof {
        assert(bind@.take(0) =~= Seq::empty());
    }
    for i in 0..bind.len()
        invariant
            ctx@ == answer_bound(start, bind@.take(i as int), answer@),
    {
        proof {
            assert(bind@.take(i + 1).drop_last() =~= bind@.take(i as int));
        }
        if same(&bind[i].1, "_ask") || same(&bind[i].1, "?_ask") {
            ctx.insert(bind[i].0.clone(), CtxValue::Scalar(answer.to_owned()));
        }
    }
    proof {
        assert(bind@.take(bind@.len() as int) =~= bind@);
    }
}

/// The branch that a condition's answer leads to.
pub open spec fn branch(step: Step, b: bool) -> Seq<Step> {
    if b {
        step.then_steps@
    } else {
        step.else_steps@
    }
}

/// What an event leads to.
pub open spec fn next(stage: StageView, event: EventView) -> (StageView, ActionView) {
    match stage {
        StageView::Trying(run, a) => match completed(a.step, event) {
            Ok((detail, bound)) => advanced(
                with_row(
                    RunnerView { ctx: with_bound(run.ctx, bound), ..run },
                    a,
                    a.step.kind@,
                    true,
                    detail,
                ),
            ),
            Err(e) => failed(run, a, e),
        },
        StageView::Sleeping(run, a) => tried(run, a),
        StageView::Asking(run, a) => match event {
            EventView::Asked(Ok(b)) => advanced(
                RunnerView {
                    ctx: answer_bound(run.ctx, a.step.bind@, verdict_text(b)),
                    todo: branch(a.step, b) + run.todo,
                    ..with_row(run, a, "condition"@, true, verdict_text(b))
                },
            ),
            EventView::Asked(Err(e)) => finished(with_row(run, a, "condition"@, false, "condition: "@ + e)),
            _ => finished(with_row(run, a, "condition"@, false, "wf_pipeline: reply out of turn"@)),
        },
        StageView::Over(run) => finished(run),
    }
}

/// Moves a run on with what came of its last action.
pub fn step(stage: Stage, event: Event) -> (r: (Stage, Action))
    ensures
        (r.0@, r.1@) == next(stage@, event@),
{
    match stage {
        Stage::Trying(run, a) => {
            let mut run = run;
            match complete(&a.step, event) {
                Ok((detail, bound)) => {
                    bind_all(&mut run.ctx, bound);
                    add_row(&mut run, &a, &a.step.kind, true, &detail);
                    proceed(run, Next::Advance)
                },
                Err(e) => proceed(run, Next::Fail(a, e)),
            }
        },
        Stage::Sleeping(run, a) => proceed(run, Next::Try(a)),
        Stage::Asking(run, a) => {
            let mut run = run;
            match event {
                Event::Asked(answer) => match answer {
                    Ok(b) => {
                        let word = if b {
                            "true"
                        } else {
                            "false"
                        };
                        add_row(&mut run, &a, "condition", true, word);
                        bind_answer(&mut run.ctx, &a.step.bind, word);
                        let ghost was = run@;
                        let ghost chosen = branch(a.step, b);
                        let steps = if b {
                            a.step.then_steps
                        } else {
                            a.step.else_steps
                        };
                        let mut turned_steps = turned(steps);
                        let ghost below = run.todo@;
                        run.todo.append(&mut turned_steps);
                        proof {
                            assert(run.todo@ =~= below + chosen.reverse());
                            assert(run@.todo =~= chosen + was.todo);
                        }
                        proceed(run, Next::Advance)
                    },
                    Err(e) => {
                        add_row(&mut run, &a, "condition", false, &"condition: ".to_owned().concat(&e));
                        finish(run)
                    },
                },
                _ => {
                    add_row(&mut run, &a, "condition", false, "wf_pipeline: reply out of turn");
                    finish(run)
                },
            }
        },
        Stage::Over(run) => finish(run),
    }
}

// ---------------------------------------------------------------------------
// Laws
// ---------------------------------------------------------------------------

/// The run behind a stage.
pub open spec fn run_of(stage: StageView) -> RunnerView {
    match stage {
        StageView::Trying(run, _) => run,
        StageView::Sleeping(run, _) => run,
        StageView::Asking(run, _) => run,
        StageView::Over(run) => run,
    }
}

/// Whether the rows are numbered from zero on and the counter stands at the
/// next number. A run of more steps than the counter can hold is left out.
pub open spec fn numbered(run: RunnerView, count: int) -> bool {
    count <= i64::MAX ==> {
        &&& run.counter == count
        &&& forall|i: int| 0 <= i < run.rows.len() ==> (#[trigger] run.rows[i]).step == i
    }
}

/// Whether each step that has been started has one row, except the one at
/// hand, and the rows are numbered in their order.
pub open spec fn one_row_each(stage: StageView) -> bool {
    let run = run_of(stage);
    match stage {
        StageView::Over(_) => numbered(run, run.rows.len() as int),
        StageView::Trying(_, a) => numbered(run, run.rows.len() as int + 1) && at_hand(run, a),
        StageView::Sleeping(_, a) => numbered(run, run.rows.len() as int + 1) && at_hand(run, a),
        StageView::Asking(_, a) => numbered(run, run.rows.len() as int + 1) && at_hand(run, a),
    }
}

/// Whether a step is the one after those that have rows.
pub open spec fn at_hand(run: RunnerView, a: AttemptView) -> bool {
    run.rows.len() < i64::MAX ==> a.idx == run.rows.len()
}

/// The rows of one run come first in those of another.
pub open spec fn extends(later: RunnerView, earlier: RunnerView) -> bool {
    earlier.rows.is_prefix_of(later.rows)
}

proof fn row_extends(run: RunnerView, a: AttemptView, kind: Seq<char>, ok: bool, detail: Seq<char>)
    requires
        numbered(run, run.rows.len() as int + 1),
        at_hand(run, a),
    ensures
        extends(with_row(run, a, kind, ok, detail), run),
        numbered(with_row(run, a, kind, ok, detail), run.rows.len() as int + 1),
{
}

proof fn extends_on(a: RunnerView, b: RunnerView, c: RunnerView)
    requires
        extends(b, a),
        extends(c, b),
    ensures
        extends(c, a),
{
    assert(c.rows.subrange(0, a.rows.len() as int) =~= a.rows);
}

proof fn advanced_reports(run: RunnerView)
    requires
        numbered(run, run.rows.len() as int),
    ensures
        one_row_each(advanced(run).0),
        extends(run_of(advanced(run).0), run),
    decreases load(run.todo), 0int, 2int,
{
    if run.todo.len() > 0 {
        load_first(run.todo);
        let step = run.todo[0];
        let a = AttemptView { idx: run.counter, name: step_name(step, run.counter), step, failures: 0 };
        let rest = RunnerView { counter: run.counter.wrapping_add(1), todo: run.todo.drop_first(), ..run };
        if step.kind@ == "condition"@ {
            match step.ask {
                None => row_extends(rest, a, "condition"@, false, "condition: missing `ask`"@),
                Some(ask) => match interpolated(ask@, rest.ctx, InterpMode::Sparql) {
                    Ok(_) => {},
                    Err(e) => row_extends(rest, a, "condition"@, false, e),
                },
            }
        } else {
            tried_reports(rest, a);
        }
    }
}

proof fn tried_reports(run: RunnerView, a: AttemptView)
    requires
        numbered(run, run.rows.len() as int + 1),
        at_hand(run, a),
    ensures
        one_row_each(tried(run, a).0),
        extends(run_of(tried(run, a).0), run),
    decreases load(run.todo) + load(fallback(a.step)) + 1, retries(a.step) - a.failures, 1int,
{
    match prepared(a.step, run.ctx) {
        Ok(_) => {},
        Err(e) => failed_reports(run, a, e),
    }
}

proof fn failed_reports(run: RunnerView, a: AttemptView, e: Seq<char>)
    requires
        numbered(run, run.rows.len() as int + 1),
        at_hand(run, a),
    ensures
        one_row_each(failed(run, a, e).0),
        extends(run_of(failed(run, a, e).0), run),
    decreases load(run.todo) + load(fallback(a.step)) + 1, retries(a.step) - a.failures, 0int,
{
    if a.failures < retries(a.step) {
        let again = AttemptView { failures: (a.failures + 1) as u32, ..a };
        if delay(a.step) == 0 {
            tried_reports(run, again);
        }
    } else {
        let told = with_row(run, a, a.step.kind@, false, e);
        row_extends(run, a, a.step.kind@, false, e);
        if fallback(a.step).len() > 0 {
            load_add(fallback(a.step), run.todo);
            let more = RunnerView { todo: fallback(a.step) + run.todo, ..told };
            advanced_reports(more);
            extends_on(run, more, run_of(advanced(more).0));
        }
    }
}

/// Every step that is started gets exactly one row, numbered in the order of
/// the starts, and no row is ever taken back.
pub proof fn every_step_is_reported_once(stage: StageView, event: EventView)
    requires
        one_row_each(stage),
    ensures
        one_row_each(next(stage, event).0),
        extends(run_of(next(stage, event).0), run_of(stage)),
{
    match stage {
        StageView::Trying(run, a) => match completed(a.step, event) {
            Ok((detail, bound)) => {
                let more = RunnerView { ctx: with_bound(run.ctx, bound), ..run };
                row_extends(more, a, a.step.kind@, true, detail);
                let told = with_row(more, a, a.step.kind@, true, detail);
                advanced_reports(told);
                extends_on(run, told, run_of(advanced(told).0));
            },
            Err(e) => failed_reports(run, a, e),
        },
        StageView::Sleeping(run, a) => tried_reports(run, a),
        StageView::Asking(run, a) => match event {
            EventView::Asked(Ok(b)) => {
                row_extends(run, a, "condition"@, true, verdict_text(b));
                let told = RunnerView {
                    ctx: answer_bound(run.ctx, a.step.bind@, verdict_text(b)),
                    todo: branch(a.step, b) + run.todo,
                    ..with_row(run, a, "condition"@, true, verdict_text(b))
                };
                advanced_reports(told);
                extends_on(run, told, run_of(advanced(told).0));
            },
            EventView::Asked(Err(e)) => row_extends(run, a, "condition"@, false, "condition: "@ + e),
            _ => row_extends(run, a, "condition"@, false, "wf_pipeline: reply out of turn"@),
        },
        StageView::Over(run) => {},
    }
}

/// A run begins with no rows.
pub proof fn begun_run_is_reported(steps: Seq<Step>)
    ensures
        one_row_each(
            advanced(RunnerView { rows: Seq::empty(), ctx: Map::empty(), counter: 0, todo: steps }).0,
        ),
{
    advanced_reports(RunnerView { rows: Seq::empty(), ctx: Map::empty(), counter: 0, todo: steps });
}

/// A step whose last try fails and that has no fallback ends the run: no step
/// behind it is started, and its row is the last.
pub proof fn failed_step_ends_the_run(run: RunnerView, a: AttemptView, event: EventView, e: Seq<char>)
    requires
        completed(a.step, event) == Err::<(Seq<char>, Seq<(Seq<char>, CtxView)>), Seq<char>>(e),
        a.failures >= retries(a.step),
        fallback(a.step).len() == 0,
    ensures
        next(StageView::Trying(run, a), event) == finished(with_row(run, a, a.step.kind@, false, e)),
{
}

/// A step is tried again exactly as often as its plan says: each failure but
/// the last leads to another try of the same step, after its pause.
pub proof fn failures_are_retried(run: RunnerView, a: AttemptView, event: EventView, e: Seq<char>)
    requires
        completed(a.step, event) == Err::<(Seq<char>, Seq<(Seq<char>, CtxView)>), Seq<char>>(e),
        a.failures < retries(a.step),
        delay(a.step) > 0,
    ensures
        ({
            let again = AttemptView { failures: (a.failures + 1) as u32, ..a };
            let (stage, action) = next(StageView::Trying(run, a), event);
            &&& stage == StageView::Sleeping(run, again)
            &&& action == ActionView::Sleep(delay(a.step).wrapping_mul((a.failures + 1) as u64))
            &&& next(stage, EventView::Slept) == tried(run, again)
        }),
{
}

// ---------------------------------------------------------------------------
// The component
// ---------------------------------------------------------------------------

pub fn register() -> (r: Vec<FunctionDescriptor>)
    ensures
        r@.len() == 1,
        describes(r@[0], "wf_pipeline"@, 1),
{
    one_function("wf_pipeline", 1)
}

/// Whether the component offers the function.
pub fn offers(name: &str) -> (r: Result<(), String>)
    ensures
        r is Ok <==> name@ == "wf_pipeline"@,
        r matches Err(e) ==> e@ == unknown_function_text(COMPONENT@, name@),
{
    if same(name, "wf_pipeline") {
        Ok(())
    } else {
        Err(unknown_function(COMPONENT, name))
    }
}

/// The state of an aggregate. The component has none, so none is ever made.
pub struct UnreachableState;

impl UnreachableState {
    pub fn step(&self, args: Vec<Term>) -> (r: Result<(), String>)
        ensures
            r matches Err(e) && e@ == never_constructed_text(COMPONENT@),
    {
        Err(never_constructed(COMPONENT))
    }

    pub fn finish(&self) -> (r: Result<Term, String>)
        ensures
            r matches Err(e) && e@ == never_constructed_text(COMPONENT@),
    {
        Err(never_constructed(COMPONENT))
    }
}

} // verus!

//! What a run of a plan does: which steps it starts, in which order, what each
//! of them asks for and what it leaves bound.

use vstd::prelude::*;
use crate::number::int_text;
use crate::pipeline::interpolate::{interpolated, CtxView, InterpMode};
use crate::pipeline::run::{advanced, answer_bound, branch, completed, delay, failed, fallback, load, load_add,
    load_first, next, prepared, retries, run_of, step_name, tried, verdict_text, with_bound, with_row, ActionView,
    AttemptView, EventView, RowView, RunnerView, StageView, Step};

verus! {

/// What became of a step.
pub enum Fate {
    Succeeded,
    Failed,
    /// A condition was answered.
    Answered(bool),
}

/// What a row of the report says of its step.
pub open spec fn fate_of(row: RowView) -> Fate {
    if !row.ok {
        Fate::Failed
    } else if row.kind == "condition"@ {
        Fate::Answered(row.detail == "true"@)
    } else {
        Fate::Succeeded
    }
}

pub open spec fn fates(rows: Seq<RowView>) -> Seq<Fate> {
    Seq::new(rows.len(), |i: int| fate_of(rows[i]))
}

/// The steps to be run after one of them has met its fate. Behind a condition
/// stands the branch of its answer. A failed step is replaced by its fallback;
/// without one, and behind a failed condition, nothing is run any more.
pub open spec fn following(step: Step, rest: Seq<Step>, fate: Fate) -> Seq<Step> {
    match fate {
        Fate::Succeeded => rest,
        Fate::Answered(true) => step.then_steps@ + rest,
        Fate::Answered(false) => step.else_steps@ + rest,
        Fate::Failed => match step.on_error {
            Some(o) if step.kind@ != "condition"@ && o.fallback_steps@.len() > 0 => o.fallback_steps@ + rest,
            _ => Seq::empty(),
        },
    }
}

/// The steps of a plan that are left once some have met their fates.
pub open spec fn left(steps: Seq<Step>, fates: Seq<Fate>) -> Seq<Step>
    decreases fates.len(),
{
    if fates.len() == 0 || steps.len() == 0 {
        steps
    } else {
        left(following(steps[0], steps.drop_first(), fates[0]), fates.drop_first())
    }
}

/// Whether a row is the report of a step with a number.
pub open spec fn reports(row: RowView, step: Step, number: int) -> bool {
    &&& row.kind == step.kind@
    &&& number <= i64::MAX ==> row.step == number && row.name == (match step.name {
        Some(name) => name@,
        None => "step_"@ + int_text(number),
    })
}

/// What a step asks for when the names have these values.
pub open spec fn asks(step: Step, ctx: Map<Seq<char>, CtxView>, action: ActionView) -> bool {
    match action {
        ActionView::Query(text) => step.kind@ == "sparql_query"@ && (step.query matches Some(q) && interpolated(
            q@,
            ctx,
            InterpMode::Sparql,
        ) == Ok::<Seq<char>, Seq<char>>(text)),
        ActionView::Update(text) => step.kind@ == "sparql_update"@ && (step.update matches Some(u) && interpolated(
            u@,
            ctx,
            InterpMode::Sparql,
        ) == Ok::<Seq<char>, Seq<char>>(text)),
        ActionView::Invoke(to, arg) => step.kind@ == "wasm"@ && (step.url matches Some(url) && interpolated(
            url@,
            ctx,
            InterpMode::Scalar,
        ) == Ok::<Seq<char>, Seq<char>>(to)) && match (step.arg, arg) {
            (Some(a), Some(text)) => interpolated(a@, ctx, InterpMode::Scalar) == Ok::<Seq<char>, Seq<char>>(text),
            (None, None) => true,
            _ => false,
        },
        ActionView::Ask(text) => step.kind@ == "condition"@ && (step.ask matches Some(a) && interpolated(
            a@,
            ctx,
            InterpMode::Sparql,
        ) == Ok::<Seq<char>, Seq<char>>(text)),
        _ => false,
    }
}

/// Whether the rows report the steps of the plan in the order in which their
/// fates lead to them.
pub open spec fn in_order(steps: Seq<Step>, rows: Seq<RowView>) -> bool {
    forall|i: int|
        0 <= i < rows.len() ==> {
            let at = left(steps, #[trigger] fates(rows.take(i)));
            at.len() > 0 && reports(rows[i], at[0], i)
        }
}

/// Whether a run stands where its report says: the rows are in order, and the
/// steps ahead are those that are left.
pub open spec fn stands(steps: Seq<Step>, run: RunnerView, ahead: Seq<Step>) -> bool {
    &&& in_order(steps, run.rows)
    &&& left(steps, fates(run.rows)) == ahead
}

/// Whether a stage and what it asks for are where the plan leads, given the rows.
pub open spec fn on_course(steps: Seq<Step>, stage: StageView, action: ActionView) -> bool {
    match stage {
        StageView::Over(run) => stands(steps, run, Seq::empty()) && action is Finish,
        StageView::Trying(run, a) => {
            &&& stands(steps, run, seq![a.step] + run.todo)
            &&& numbered_at(run, a)
            &&& a.step.kind@ != "condition"@
            &&& asks(a.step, run.ctx, action)
        },
        StageView::Sleeping(run, a) => {
            &&& stands(steps, run, seq![a.step] + run.todo)
            &&& numbered_at(run, a)
            &&& a.step.kind@ != "condition"@
            &&& action is Sleep
        },
        StageView::Asking(run, a) => {
            &&& stands(steps, run, seq![a.step] + run.todo)
            &&& numbered_at(run, a)
            &&& a.step.kind@ == "condition"@
            &&& asks(a.step, run.ctx, action)
        },
    }
}

/// Whether the step at hand has the number and the name it is reported under.
pub open spec fn numbered_at(run: RunnerView, a: AttemptView) -> bool {
    let n: int = run.rows.len() as int;
    &&& n <= i64::MAX ==> a.idx == n
    &&& n < i64::MAX ==> run.counter == n + 1
    &&& a.name == step_name(a.step, a.idx)
}

proof fn left_behind(steps: Seq<Step>, fates: Seq<Fate>, fate: Fate)
    ensures
        left(steps, fates.push(fate)) == ({
            let before = left(steps, fates);
            if before.len() == 0 {
                before
            } else {
                following(before[0], before.drop_first(), fate)
            }
        }),
    decreases fates.len(),
{
    reveal_with_fuel(left, 2);
    if fates.len() > 0 && steps.len() > 0 {
        assert(fates.push(fate).drop_first() =~= fates.drop_first().push(fate));
        left_behind(following(steps[0], steps.drop_first(), fates[0]), fates.drop_first(), fate);
    } else if steps.len() > 0 {
        assert(fates.push(fate).drop_first() =~= Seq::empty());
        assert(fates.push(fate)[0] == fate);
    }
}

proof fn row_stands(steps: Seq<Step>, run: RunnerView, a: AttemptView, row: RowView)
    requires
        stands(steps, run, seq![a.step] + run.todo),
        numbered_at(run, a),
        row.step == a.idx,
        row.name == a.name,
        row.kind == a.step.kind@,
    ensures
        in_order(steps, run.rows.push(row)),
        left(steps, fates(run.rows.push(row))) == following(a.step, run.todo, fate_of(row)),
{
    let rows = run.rows.push(row);
    let n: int = run.rows.len() as int;
    left_behind(steps, fates(run.rows), fate_of(row));
    assert(fates(rows) =~= fates(run.rows).push(fate_of(row)));
    let ahead = seq![a.step] + run.todo;
    assert(ahead.drop_first() =~= run.todo);
    assert forall|i: int| 0 <= i < rows.len() implies {
        let at = left(steps, #[trigger] fates(rows.take(i)));
        at.len() > 0 && reports(rows[i], at[0], i)
    } by {
        if i < n {
            assert(rows.take(i) =~= run.rows.take(i));
            let at = left(steps, fates(run.rows.take(i)));
            assert(at.len() > 0 && reports(run.rows[i], at[0], i));
        } else {
            assert(rows.take(i) =~= run.rows);
            assert(ahead[0] == a.step);
        }
    }
}

proof fn advanced_keeps(steps: Seq<Step>, run: RunnerView)
    requires
        stands(steps, run, run.todo),
        run.rows.len() <= i64::MAX ==> run.counter == run.rows.len(),
    ensures
        on_course(steps, advanced(run).0, advanced(run).1),
    decreases load(run.todo), 0int, 2int,
{
    if run.todo.len() > 0 {
        load_first(run.todo);
        let step = run.todo[0];
        let a = AttemptView { idx: run.counter, name: step_name(step, run.counter), step, failures: 0 };
        let rest = RunnerView { counter: run.counter.wrapping_add(1), todo: run.todo.drop_first(), ..run };
        assert(seq![step] + rest.todo =~= run.todo);
        if step.kind@ == "condition"@ {
            match step.ask {
                None => {
                    let row = RowView {
                        step: a.idx,
                        kind: "condition"@,
                        name: a.name,
                        ok: false,
                        detail: "condition: missing `ask`"@,
                    };
                    row_stands(steps, rest, a, row);
                },
                Some(ask) => match interpolated(ask@, rest.ctx, InterpMode::Sparql) {
                    Ok(_) => {},
                    Err(e) => {
                        let row = RowView { step: a.idx, kind: "condition"@, name: a.name, ok: false, detail: e };
                        row_stands(steps, rest, a, row);
                    },
                },
            }
        } else {
            tried_keeps(steps, rest, a);
        }
    } else {
        assert(run.todo =~= Seq::empty());
    }
}

proof fn tried_keeps(steps: Seq<Step>, run: RunnerView, a: AttemptView)
    requires
        stands(steps, run, seq![a.step] + run.todo),
        numbered_at(run, a),
        a.step.kind@ != "condition"@,
    ensures
        on_course(steps, tried(run, a).0, tried(run, a).1),
    decreases load(run.todo) + load(fallback(a.step)) + 1, retries(a.step) - a.failures, 1int,
{
    match prepared(a.step, run.ctx) {
        Ok(_) => {},
        Err(e) => failed_keeps(steps, run, a, e),
    }
}

proof fn failed_keeps(steps: Seq<Step>, run: RunnerView, a: AttemptView, e: Seq<char>)
    requires
        stands(steps, run, seq![a.step] + run.todo),
        numbered_at(run, a),
        a.step.kind@ != "condition"@,
    ensures
        on_course(steps, failed(run, a, e).0, failed(run, a, e).1),
    decreases load(run.todo) + load(fallback(a.step)) + 1, retries(a.step) - a.failures, 0int,
{
    if a.failures < retries(a.step) {
        let again = AttemptView { failures: (a.failures + 1) as u32, ..a };
        if delay(a.step) == 0 {
            tried_keeps(steps, run, again);
        }
    } else {
        let told = with_row(run, a, a.step.kind@, false, e);
        let row = RowView { step: a.idx, kind: a.step.kind@, name: a.name, ok: false, detail: e };
        row_stands(steps, run, a, row);
        if fallback(a.step).len() > 0 {
            load_add(fallback(a.step), run.todo);
            advanced_keeps(steps, RunnerView { todo: fallback(a.step) + run.todo, ..told });
        }
    }
}

/// What the events of a run lead to.
pub open spec fn reached(steps: Seq<Step>, events: Seq<EventView>) -> (StageView, ActionView)
    decreases events.len(),
{
    if events.len() == 0 {
        advanced(RunnerView { rows: Seq::empty(), ctx: Map::empty(), counter: 0, todo: steps })
    } else {
        next(reached(steps, events.drop_last()).0, events.last())
    }
}

/// A run starts the steps of its plan in order. Behind a condition come the
/// steps of the branch that was answered and then all that were still to be
/// run; in the place of a failed step comes its fallback. Each step that is
/// started asks for what its kind says and has one row, and the run is over
/// only when no step is left.
pub proof fn steps_run_in_order(steps: Seq<Step>, events: Seq<EventView>)
    ensures
        on_course(steps, reached(steps, events).0, reached(steps, events).1),
    decreases events.len(),
{
    if events.len() == 0 {
        let run = RunnerView { rows: Seq::empty(), ctx: Map::empty(), counter: 0, todo: steps };
        assert(fates(run.rows) =~= Seq::empty());
        advanced_keeps(steps, run);
    } else {
        steps_run_in_order(steps, events.drop_last());
        let (stage, action) = reached(steps, events.drop_last());
        step_keeps(steps, stage, action, events.last());
    }
}

proof fn step_keeps(steps: Seq<Step>, stage: StageView, action: ActionView, event: EventView)
    requires
        on_course(steps, stage, action),
    ensures
        on_course(steps, next(stage, event).0, next(stage, event).1),
{
    reveal_strlit("true");
    reveal_strlit("false");
    assert("true"@.len() != "false"@.len());
    match stage {
        StageView::Trying(run, a) => match completed(a.step, event) {
            Ok((detail, bound)) => {
                let row = RowView { step: a.idx, kind: a.step.kind@, name: a.name, ok: true, detail };
                row_stands(steps, run, a, row);
                advanced_keeps(
                    steps,
                    with_row(RunnerView { ctx: with_bound(run.ctx, bound), ..run }, a, a.step.kind@, true, detail),
                );
            },
            Err(e) => failed_keeps(steps, run, a, e),
        },
        StageView::Sleeping(run, a) => tried_keeps(steps, run, a),
        StageView::Asking(run, a) => match event {
            EventView::Asked(Ok(b)) => {
                let row = RowView { step: a.idx, kind: "condition"@, name: a.name, ok: true, detail: verdict_text(b) };
                row_stands(steps, run, a, row);
                advanced_keeps(
                    steps,
                    RunnerView {
                        ctx: answer_bound(run.ctx, a.step.bind@, verdict_text(b)),
                        todo: branch(a.step, b) + run.todo,
                        ..with_row(run, a, "condition"@, true, verdict_text(b))
                    },
                );
            },
            EventView::Asked(Err(e)) => {
                let row = RowView {
                    step: a.idx,
                    kind: "condition"@,
                    name: a.name,
                    ok: false,
                    detail: "condition: "@ + e,
                };
                row_stands(steps, run, a, row);
            },
            _ => {
                let row = RowView {
                    step: a.idx,
                    kind: "condition"@,
                    name: a.name,
                    ok: false,
                    detail: "wf_pipeline: reply out of turn"@,
                };
                row_stands(steps, run, a, row);
            },
        },
        StageView::Over(run) => {},
    }
}

/// A run in which no step fails has started every step of its plan by its end.
pub proof fn every_step_is_started(steps: Seq<Step>, events: Seq<EventView>, k: int)
    requires
        reached(steps, events).0 matches StageView::Over(run) && forall|i: int|
            0 <= i < run.rows.len() ==> (#[trigger] run.rows[i]).ok,
        0 <= k < steps.len(),
    ensures
        exists|j: int|
            0 <= j < run_of(reached(steps, events).0).rows.len() && #[trigger] reports(
                run_of(reached(steps, events).0).rows[j],
                steps[k],
                j,
            ),
{
    steps_run_in_order(steps, events);
    let rows = run_of(reached(steps, events).0).rows;
    assert forall|i: int| 0 <= i < fates(rows).len() implies !(#[trigger] fates(rows)[i] is Failed) by {
        assert(rows[i].ok);
    }
    let j = step_is_met(steps, fates(rows), k);
    assert(fates(rows.take(j)) =~= fates(rows).take(j));
    assert(reports(rows[j], steps[k], j));
}

proof fn step_is_met(steps: Seq<Step>, fates: Seq<Fate>, k: int) -> (j: int)
    requires
        left(steps, fates).len() == 0,
        forall|i: int| 0 <= i < fates.len() ==> !(#[trigger] fates[i] is Failed),
        0 <= k < steps.len(),
    ensures
        0 <= j < fates.len(),
        left(steps, fates.take(j)).len() > 0,
        left(steps, fates.take(j))[0] == steps[k],
    decreases fates.len(),
{
    if k == 0 {
        assert(fates.take(0) =~= Seq::empty());
        0
    } else {
        let then = following(steps[0], steps.drop_first(), fates[0]);
        let more: int = then.len() - steps.drop_first().len();
        assert(!(fates[0] is Failed));
        assert(then.skip(more) =~= steps.drop_first());
        assert(then[more + k - 1] == then.skip(more)[k - 1]);
        let rest = fates.drop_first();
        assert forall|i: int| 0 <= i < rest.len() implies !(#[trigger] rest[i] is Failed) by {
            assert(rest[i] == fates[i + 1]);
        }
        let j = step_is_met(then, rest, more + k - 1);
        assert(fates.take(j + 1).drop_first() =~= rest.take(j));
        assert(fates.take(j + 1)[0] == fates[0]);
        j + 1
    }
}

/// Whether a run has the rows of another first, and the values of its names.
pub open spec fn goes_on_from(later: RunnerView, earlier: RunnerView) -> bool {
    earlier.rows.is_prefix_of(later.rows) && later.ctx == earlier.ctx
}

proof fn prefix_on<A>(a: Seq<A>, b: Seq<A>, c: Seq<A>)
    requires
        a.is_prefix_of(b),
        b.is_prefix_of(c),
    ensures
        a.is_prefix_of(c),
{
    assert(c.subrange(0, a.len() as int) =~= a);
}

/// Going on keeps the rows and the values of the names.
pub proof fn advanced_goes_on(run: RunnerView)
    ensures
        goes_on_from(run_of(advanced(run).0), run),
    decreases load(run.todo), 0int, 2int,
{
    if run.todo.len() > 0 {
        load_first(run.todo);
        let step = run.todo[0];
        let a = AttemptView { idx: run.counter, name: step_name(step, run.counter), step, failures: 0 };
        let rest = RunnerView { counter: run.counter.wrapping_add(1), todo: run.todo.drop_first(), ..run };
        if step.kind@ != "condition"@ {
            tried_goes_on(rest, a);
        }
    }
}

proof fn tried_goes_on(run: RunnerView, a: AttemptView)
    ensures
        goes_on_from(run_of(tried(run, a).0), run),
    decreases load(run.todo) + load(fallback(a.step)) + 1, retries(a.step) - a.failures, 1int,
{
    match prepared(a.step, run.ctx) {
        Ok(_) => {},
        Err(e) => failed_goes_on(run, a, e),
    }
}

proof fn failed_goes_on(run: RunnerView, a: AttemptView, e: Seq<char>)
    ensures
        goes_on_from(run_of(failed(run, a, e).0), run),
    decreases load(run.todo) + load(fallback(a.step)) + 1, retries(a.step) - a.failures, 0int,
{
    if a.failures < retries(a.step) {
        let again = AttemptView { failures: (a.failures + 1) as u32, ..a };
        if delay(a.step) == 0 {
            tried_goes_on(run, again);
        }
    } else {
        let told = with_row(run, a, a.step.kind@, false, e);
        if fallback(a.step).len() > 0 {
            load_add(fallback(a.step), run.todo);
            let more = RunnerView { todo: fallback(a.step) + run.todo, ..told };
            advanced_goes_on(more);
            prefix_on(run.rows, more.rows, run_of(advanced(more).0).rows);
        }
    }
}

/// The row of a condition tells its answer, and so does each name that it binds
/// to the answer; the other names keep their values.
pub proof fn answer_is_reported(run: RunnerView, a: AttemptView, b: bool, name: Seq<char>)
    ensures
        ({
            let after = run_of(next(StageView::Asking(run, a), EventView::Asked(Ok(b))).0);
            let answer = if b {
                "true"@
            } else {
                "false"@
            };
            &&& run.rows.len() < after.rows.len()
            &&& after.rows[run.rows.len() as int].ok
            &&& after.rows[run.rows.len() as int].detail == answer
            &&& after.rows.take(run.rows.len() as int) == run.rows
            &&& takes_answer(a.step.bind@, name) ==> after.ctx.contains_key(name) && after.ctx[name]
                == CtxView::Scalar(answer)
            &&& !takes_answer(a.step.bind@, name) ==> after.ctx.contains_key(name) == run.ctx.contains_key(name)
                && after.ctx[name] == run.ctx[name]
        }),
{
    let more = RunnerView {
        ctx: answer_bound(run.ctx, a.step.bind@, verdict_text(b)),
        todo: branch(a.step, b) + run.todo,
        ..with_row(run, a, "condition"@, true, verdict_text(b))
    };
    advanced_goes_on(more);
    let after = run_of(advanced(more).0);
    let n: int = run.rows.len() as int;
    assert(after.rows[n] == more.rows[n]);
    assert(after.rows.take(n) =~= run.rows) by {
        assert forall|i: int| 0 <= i < n implies after.rows[i] == run.rows[i] by {
            assert(after.rows[i] == more.rows[i]);
        }
    }
    answer_goes_to(run.ctx, a.step.bind@, verdict_text(b), name);
}

/// Whether a name is bound to a condition's answer.
pub open spec fn takes_answer(bind: Seq<(String, String)>, name: Seq<char>) -> bool {
    exists|i: int|
        0 <= i < bind.len() && (#[trigger] bind[i]).0@ == name && (bind[i].1@ == "?_ask"@ || bind[i].1@ == "_ask"@)
}

proof fn answer_goes_to(ctx: Map<Seq<char>, CtxView>, bind: Seq<(String, String)>, answer: Seq<char>, name: Seq<char>)
    ensures
        ({
            let after = answer_bound(ctx, bind, answer);
            &&& takes_answer(bind, name) ==> after.contains_key(name) && after[name] == CtxView::Scalar(answer)
            &&& !takes_answer(bind, name) ==> after.contains_key(name) == ctx.contains_key(name) && after[name]
                == ctx[name]
        }),
    decreases bind.len(),
{
    if bind.len() > 0 {
        let rest = bind.drop_last();
        answer_goes_to(ctx, rest, answer, name);
        let last: int = bind.len() - 1;
        let hit = bind[last].0@ == name && (bind[last].1@ == "?_ask"@ || bind[last].1@ == "_ask"@);
        if takes_answer(rest, name) {
            let i = choose|i: int|
                0 <= i < rest.len() && (#[trigger] rest[i]).0@ == name && (rest[i].1@ == "?_ask"@ || rest[i].1@
                    == "_ask"@);
            assert(bind[i] == rest[i]);
            assert(takes_answer(bind, name));
        } else if hit {
            assert(takes_answer(bind, name));
        } else if takes_answer(bind, name) {
            let i = choose|i: int|
                0 <= i < bind.len() && (#[trigger] bind[i]).0@ == name && (bind[i].1@ == "?_ask"@ || bind[i].1@
                    == "_ask"@);
            assert(rest[i] == bind[i]);
        }
    }
}

} // verus!

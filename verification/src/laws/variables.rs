//! What a step of a plan binds, and what a bound name stands for in a text.

use vstd::prelude::*;
use vstd::utf8::{encode_utf8, is_ascii_chars, is_ascii_chars_encode_utf8};
use crate::laws::graph::{literal_text, regular, result_of, rows_are_told_apart};
use crate::number::decimal_of;
use crate::pipeline::interpolate::{closing, expanded, interpolated, led_by, value_text, CtxView, InterpMode};
use crate::pipeline::outcome::{cell_in, cell_text, cell_texts, marked, query_outcome, row_cells, values_rows, verdict,
    CellView, OutcomeView};
use crate::pipeline::run::{bare, bound_in, completed, extracted, next, run_of, tried, with_bound, with_row,
    ActionView, AttemptView, EventView, RowView, RunnerView, StageView};
use crate::rdf::{BindingView, LiteralView, QuadView, QueryResultView, TermView};
use crate::text::{decoding_undoes_encoding, joined};

verus! {

// ---------------------------------------------------------------------------
// What a step binds
// ---------------------------------------------------------------------------

/// Whether a binding takes a variable: it names it, with or without a question
/// mark.
pub open spec fn takes(source: Seq<char>, variable: Seq<char>) -> bool {
    source == "?"@ + variable || (source == variable && !(variable.len() > 0 && variable[0] == '?'))
}

proof fn bare_is_taken(source: Seq<char>, variable: Seq<char>)
    requires
        takes(source, variable),
    ensures
        bare(source) == variable,
{
    reveal_strlit("?");
    if source == "?"@ + variable {
        assert("?"@.is_prefix_of(source)) by {
            assert(source.subrange(0, 1) =~= "?"@);
        }
        assert(source.skip(1) =~= variable);
    } else if "?"@.is_prefix_of(source) {
        assert(source[0] == "?"@[0]);
    }
}

/// Whether one of the bindings from a position on gives a name a value.
pub open spec fn rebinds(
    bind: Seq<(String, String)>,
    row: Seq<(Seq<char>, CellView)>,
    name: Seq<char>,
    from: int,
) -> bool {
    exists|j: int| from <= j < bind.len() && (#[trigger] bind[j]).0@ == name && cell_in(row, bare(bind[j].1@)) is Some
}

proof fn last_binding_counts(
    ctx: Map<Seq<char>, CtxView>,
    bind: Seq<(String, String)>,
    row: Seq<(Seq<char>, CellView)>,
    name: Seq<char>,
    i: int,
    c: CellView,
)
    ensures
        ({
            let after = with_bound(ctx, bound_in(bind, row));
            &&& 0 <= i < bind.len() && bind[i].0@ == name && cell_in(row, bare(bind[i].1@)) == Some(c) && !rebinds(
                bind,
                row,
                name,
                i + 1,
            ) ==> after.contains_key(name) && after[name] == CtxView::Scalar(c.text())
            &&& !rebinds(bind, row, name, 0) ==> after.contains_key(name) == ctx.contains_key(name) && after[name]
                == ctx[name]
        }),
    decreases bind.len(),
{
    if bind.len() > 0 {
        let rest = bind.drop_last();
        let last: int = bind.len() - 1;
        last_binding_counts(ctx, rest, row, name, i, c);
        let before = bound_in(rest, row);
        match cell_in(row, bare(bind[last].1@)) {
            Some(v) => {
                let all = before.push((bind[last].0@, CtxView::Scalar(v.text())));
                assert(all.drop_last() =~= before);
                assert(bound_in(bind, row) == all);
            },
            None => {},
        }
        if 0 <= i < rest.len() && rebinds(rest, row, name, i + 1) {
            let j = choose|j: int|
                i + 1 <= j < rest.len() && (#[trigger] rest[j]).0@ == name && cell_in(row, bare(rest[j].1@)) is Some;
            assert(bind[j] == rest[j]);
            assert(rebinds(bind, row, name, i + 1));
        }
        if rebinds(rest, row, name, 0) {
            let j = choose|j: int|
                0 <= j < rest.len() && (#[trigger] rest[j]).0@ == name && cell_in(row, bare(rest[j].1@)) is Some;
            assert(bind[j] == rest[j]);
            assert(rebinds(bind, row, name, 0));
        }
        if bind[last].0@ == name && cell_in(row, bare(bind[last].1@)) is Some {
            assert(rebinds(bind, row, name, 0));
            if i < last {
                assert(rebinds(bind, row, name, i + 1));
            }
        }
    }
}

/// A step that reads rows binds each of its names to the text of the variable's
/// cell in the first row; where the cell is missing, and for all other names, the
/// value stays. Of several bindings of one name the last counts.
pub proof fn names_are_bound_to_the_first_row(
    run: RunnerView,
    a: AttemptView,
    o: OutcomeView,
    i: int,
    variable: Seq<char>,
    c: CellView,
    other: Seq<char>,
)
    requires
        !a.step.bind_full,
        o.rows.len() > 0,
        0 <= i < a.step.bind@.len(),
        takes(a.step.bind@[i].1@, variable),
        cell_in(o.rows[0], variable) == Some(c),
        !rebinds(a.step.bind@, o.rows[0], a.step.bind@[i].0@, i + 1),
        !rebinds(a.step.bind@, o.rows[0], other, 0),
    ensures
        ({
            let after = run_of(next(StageView::Trying(run, a), EventView::Outcome(Ok(o))).0);
            let name = a.step.bind@[i].0@;
            &&& after.ctx.contains_key(name) && after.ctx[name] == CtxView::Scalar(c.text())
            &&& after.ctx.contains_key(other) == run.ctx.contains_key(other) && after.ctx[other] == run.ctx[other]
        }),
{
    bare_is_taken(a.step.bind@[i].1@, variable);
    let bound = extracted(a.step.bind@, o);
    let name = a.step.bind@[i].0@;
    last_binding_counts(run.ctx, a.step.bind@, o.rows[0], name, i, c);
    last_binding_counts(run.ctx, a.step.bind@, o.rows[0], other, i, c);
    success_goes_on(run, a, EventView::Outcome(Ok(o)));
}

/// A step that binds all it gives binds its own name to the whole.
pub proof fn whole_is_bound_to_the_step(run: RunnerView, a: AttemptView, o: OutcomeView, name: String)
    requires
        a.step.bind_full,
        a.step.name == Some(name),
    ensures
        ({
            let after = run_of(next(StageView::Trying(run, a), EventView::Outcome(Ok(o))).0);
            after.ctx.contains_key(name@) && after.ctx[name@] == CtxView::Full(o)
        }),
{
    let bound = extracted(a.step.bind@, o).push((name@, CtxView::Full(o)));
    assert(bound.drop_last() =~= extracted(a.step.bind@, o));
    success_goes_on(run, a, EventView::Outcome(Ok(o)));
}

proof fn success_goes_on(run: RunnerView, a: AttemptView, event: EventView)
    requires
        completed(a.step, event) is Ok,
    ensures
        ({
            let (detail, bound) = completed(a.step, event)->Ok_0;
            let after = run_of(next(StageView::Trying(run, a), event).0);
            &&& after.ctx == with_bound(run.ctx, bound)
            &&& run.rows.len() < after.rows.len()
            &&& after.rows[run.rows.len() as int] == (RowView {
                step: a.idx,
                kind: a.step.kind@,
                name: a.name,
                ok: true,
                detail,
            })
        }),
{
    let (detail, bound) = completed(a.step, event)->Ok_0;
    let told = with_row(RunnerView { ctx: with_bound(run.ctx, bound), ..run }, a, a.step.kind@, true, detail);
    crate::laws::plans::advanced_goes_on(told);
    let after = run_of(crate::pipeline::run::advanced(told).0);
    let n: int = run.rows.len() as int;
    assert(after.rows[n] == told.rows[n]);
}

/// The row of a step that succeeds tells how many rows a query gave, the first
/// cell of what a call gave, and that an update went well.
pub proof fn success_is_reported(run: RunnerView, a: AttemptView, o: OutcomeView, n: u64)
    requires
        !a.step.bind_full,
    ensures
        ({
            let at: int = run.rows.len() as int;
            let read = run_of(next(StageView::Trying(run, a), EventView::Outcome(Ok(o))).0).rows[at];
            &&& read.ok && read.kind == a.step.kind@ && read.name == a.name
            &&& a.step.kind@ == "sparql_query"@ ==> read.detail == decimal_of(o.rows.len()) + " rows"@
            &&& a.step.kind@ == "wasm"@ && o.rows.len() > 0 && o.rows[0].len() > 0 ==> read.detail
                == o.rows[0][0].1.text()
            &&& a.step.kind@ == "wasm"@ && o.rows.len() == 0 ==> read.detail == "no output rows"@
        }),
{
    reveal_strlit("sparql_query");
    reveal_strlit("wasm");
    assert("sparql_query"@.len() != "wasm"@.len());
    success_goes_on(run, a, EventView::Outcome(Ok(o)));
}

/// The row of an update that went well says so, and the update binds nothing.
pub proof fn update_is_reported(run: RunnerView, a: AttemptView, event: EventView)
    requires
        event matches EventView::Updated(r) && r is Ok,
    ensures
        ({
            let after = run_of(next(StageView::Trying(run, a), event).0);
            &&& after.rows[run.rows.len() as int].ok
            &&& after.rows[run.rows.len() as int].detail == "ok"@
            &&& after.ctx == run.ctx
        }),
{
    success_goes_on(run, a, event);
}

/// A step that fails is tried again as often as its plan says, each time after
/// the pause times the number of failures; then its failure is reported.
pub proof fn failure_is_retried_and_reported(run: RunnerView, a: AttemptView, event: EventView, e: Seq<char>)
    requires
        completed(a.step, event) == Err::<(Seq<char>, Seq<(Seq<char>, CtxView)>), Seq<char>>(e),
    ensures
        ({
            let (stage, action) = next(StageView::Trying(run, a), event);
            &&& (a.step.on_error matches Some(o) && a.failures < o.retry && o.delay_ms > 0) ==> {
                &&& stage == StageView::Sleeping(run, AttemptView { failures: (a.failures + 1) as u32, ..a })
                &&& action == ActionView::Sleep((a.step.on_error->0).delay_ms.wrapping_mul((a.failures + 1) as u64))
            }
            &&& (a.step.on_error matches Some(o) && a.failures < o.retry && o.delay_ms == 0) ==> (stage, action)
                == tried(run, AttemptView { failures: (a.failures + 1) as u32, ..a })
            &&& (a.step.on_error is None || (a.step.on_error->0).retry <= a.failures) ==> {
                let row = run_of(stage).rows[run.rows.len() as int];
                &&& run.rows.len() < run_of(stage).rows.len()
                &&& !row.ok && row.detail == e && row.kind == a.step.kind@ && row.name == a.name
                &&& run_of(stage).ctx == run.ctx
            }
        }),
{
    let (stage, action) = next(StageView::Trying(run, a), event);
    if a.step.on_error is None || (a.step.on_error->0).retry <= a.failures {
        let told = with_row(run, a, a.step.kind@, false, e);
        let more = RunnerView { todo: crate::pipeline::run::fallback(a.step) + run.todo, ..told };
        crate::laws::plans::advanced_goes_on(more);
        let n: int = run.rows.len() as int;
        assert(more.rows[n] == told.rows[n]);
        if crate::pipeline::run::fallback(a.step).len() > 0 {
            let after = run_of(crate::pipeline::run::advanced(more).0);
            assert(after.rows[n] == more.rows[n]);
        }
    }
}

// ---------------------------------------------------------------------------
// What is read from a result
// ---------------------------------------------------------------------------

/// Whether a cell is that of a term.
pub open spec fn holds_term(c: CellView, t: TermView) -> bool {
    match t {
        TermView::NamedNode(iri) => c == CellView::Iri(iri),
        TermView::BlankNode(label) => c == CellView::Bnode(label),
        TermView::Literal(l) => c matches CellView::Literal { label, datatype, lang } && label == l.value && lang
            == l.language && (match l.datatype {
            Some(d) => datatype == d,
            None => datatype.len() == 0,
        }),
        TermView::Triple(_) => c is Literal,
    }
}

/// Each row of a result is a row of cells under the same variables, in the same
/// order, and statements are rows of `s`, `p` and `o`.
pub proof fn results_become_cells(rows: Seq<Seq<BindingView>>, variables: Seq<Seq<char>>, quads: Seq<QuadView>)
    requires
        regular(rows, variables),
        variables.len() > 0,
        variables.no_duplicates(),
    ensures
        query_outcome(result_of(rows)) matches Ok(o) && o.rows.len() == rows.len() && forall|i: int, j: int|
            0 <= i < rows.len() && 0 <= j < variables.len() ==> (#[trigger] o.rows[i][j]).0 == variables[j]
                && holds_term(o.rows[i][j].1, rows[i][j].value),
        query_outcome(QueryResultView::Quads(quads)) matches Ok(o) && o.rows.len() == quads.len() && forall|i: int|
            0 <= i < quads.len() ==> {
                let row = #[trigger] o.rows[i];
                &&& row.len() == 3
                &&& row[0].0 == "s"@ && holds_term(row[0].1, quads[i].subject)
                &&& row[1].0 == "p"@ && holds_term(row[1].1, quads[i].predicate)
                &&& row[2].0 == "o"@ && holds_term(row[2].1, quads[i].object)
            },
        query_outcome(QueryResultView::Boolean(true)) is Err,
        query_outcome(QueryResultView::Boolean(false)) is Err,
{
    reveal_strlit("");
    rows_are_told_apart(rows, variables);
    let o = query_outcome(result_of(rows))->Ok_0;
    assert forall|i: int, j: int| 0 <= i < rows.len() && 0 <= j < variables.len() implies (#[trigger] o.rows[i][j]).0
        == variables[j] && holds_term(o.rows[i][j].1, rows[i][j].value) by {
        assert(o.rows[i] == row_cells(rows[i]));
        assert(rows[i].len() == variables.len());
        assert(rows[i][j].variable == variables[j]);
    }
}

/// A question is answered by what a result says: the verdict itself, or whether
/// there is anything at all.
pub proof fn answers_are_read(b: bool, rows: Seq<BindingView>, quads: Seq<QuadView>)
    ensures
        verdict(QueryResultView::Boolean(b)) == b,
        verdict(QueryResultView::Bindings(rows)) <==> rows.len() > 0,
        verdict(QueryResultView::Quads(quads)) <==> quads.len() > 0,
{
}

// ---------------------------------------------------------------------------
// What a name stands for
// ---------------------------------------------------------------------------

/// The text of a row of values: for each variable its cell as a term, and nothing
/// bound where it has none or is a blank node.
pub open spec fn values_row_text(vars: Seq<Seq<char>>, row: Seq<(Seq<char>, CellView)>) -> Seq<char>
    decreases vars.len(),
{
    if vars.len() == 0 {
        Seq::empty()
    } else {
        let own = match cell_in(row, vars.last()) {
            Some(CellView::Iri(iri)) => "<"@ + iri + ">"@,
            Some(CellView::Literal { label, datatype, lang }) => literal_text(
                LiteralView {
                    value: label,
                    datatype: if datatype.len() == 0 || datatype == "http://www.w3.org/2001/XMLSchema#string"@ {
                        None
                    } else {
                        Some(datatype)
                    },
                    language: lang,
                },
            ),
            _ => "UNDEF"@,
        };
        if vars.len() == 1 {
            own
        } else {
            values_row_text(vars.drop_last(), row) + " "@ + own
        }
    }
}

/// The text of all rows of values.
pub open spec fn values_text(vars: Seq<Seq<char>>, rows: Seq<Seq<(Seq<char>, CellView)>>) -> Seq<char>
    decreases rows.len(),
{
    if rows.len() == 0 {
        Seq::empty()
    } else {
        values_text(vars, rows.drop_last()) + " ("@ + values_row_text(vars, rows.last()) + ")"@
    }
}

/// The variables as a list.
pub open spec fn variables_text(vars: Seq<Seq<char>>) -> Seq<char>
    decreases vars.len(),
{
    if vars.len() == 0 {
        Seq::empty()
    } else if vars.len() == 1 {
        "?"@ + vars[0]
    } else {
        variables_text(vars.drop_last()) + " "@ + "?"@ + vars.last()
    }
}

proof fn row_is_written(vars: Seq<Seq<char>>, row: Seq<(Seq<char>, CellView)>)
    ensures
        joined(cell_texts(vars, row), " "@) == values_row_text(vars, row),
    decreases vars.len(),
{
    reveal_strlit("\"");
    reveal_strlit("\"@");
    reveal_strlit("@");
    reveal_strlit("^^<");
    reveal_strlit("\"^^<");
    reveal_strlit("");
    let parts = cell_texts(vars, row);
    if vars.len() > 0 {
        cell_is_written(row, vars.last());
    }
    if vars.len() > 1 {
        row_is_written(vars.drop_last(), row);
        assert(parts.drop_last() =~= cell_texts(vars.drop_last(), row));
    }
}

proof fn cell_is_written(row: Seq<(Seq<char>, CellView)>, name: Seq<char>)
    ensures
        cell_text(row, name) == (match cell_in(row, name) {
            Some(CellView::Iri(iri)) => "<"@ + iri + ">"@,
            Some(CellView::Literal { label, datatype, lang }) => literal_text(
                LiteralView {
                    value: label,
                    datatype: if datatype.len() == 0 || datatype == "http://www.w3.org/2001/XMLSchema#string"@ {
                        None
                    } else {
                        Some(datatype)
                    },
                    language: lang,
                },
            ),
            _ => "UNDEF"@,
        }),
{
    reveal_strlit("\"");
    reveal_strlit("\"@");
    reveal_strlit("@");
    reveal_strlit("^^<");
    reveal_strlit("\"^^<");
    reveal_strlit("");
    match cell_in(row, name) {
        Some(CellView::Literal { label, datatype, lang }) => {
            if datatype.len() == 0 {
                assert(datatype =~= ""@);
            }
            let l = LiteralView {
                value: label,
                datatype: if datatype.len() == 0 || datatype == "http://www.w3.org/2001/XMLSchema#string"@ {
                    None
                } else {
                    Some(datatype)
                },
                language: lang,
            };
            assert(cell_text(row, name) =~= literal_text(l));
        },
        _ => {},
    }
}

proof fn rows_are_written(vars: Seq<Seq<char>>, rows: Seq<Seq<(Seq<char>, CellView)>>)
    ensures
        values_rows(vars, rows) == values_text(vars, rows),
    decreases rows.len(),
{
    if rows.len() > 0 {
        rows_are_written(vars, rows.drop_last());
        row_is_written(vars, rows.last());
    }
}

proof fn variables_are_written(vars: Seq<Seq<char>>)
    ensures
        joined(marked(vars), " "@) == variables_text(vars),
    decreases vars.len(),
{
    let parts = marked(vars);
    if vars.len() > 1 {
        variables_are_written(vars.drop_last());
        assert(parts.drop_last() =~= marked(vars.drop_last()));
        assert(joined(parts, " "@) =~= variables_text(vars));
    }
}

/// A name that is bound to all of an outcome stands for its rows as values in a
/// query, and for nothing elsewhere; a name that is bound to a text stands for
/// the text; any other name stands for nothing.
pub proof fn names_stand_for_their_values(ctx: Map<Seq<char>, CtxView>, name: Seq<char>, mode: InterpMode)
    ensures
        !ctx.contains_key(name) ==> value_text(ctx, name, mode) is Err,
        ctx.contains_key(name) ==> match ctx[name] {
            CtxView::Scalar(text) => value_text(ctx, name, mode) == Ok::<Seq<char>, Seq<char>>(text),
            CtxView::Full(o) => match mode {
                InterpMode::Sparql => value_text(ctx, name, mode) == Ok::<Seq<char>, Seq<char>>(
                    "VALUES ("@ + variables_text(o.vars) + ") {"@ + values_text(o.vars, o.rows) + " }"@,
                ),
                InterpMode::Scalar => value_text(ctx, name, mode) is Err,
            },
        },
{
    if ctx.contains_key(name) {
        match ctx[name] {
            CtxView::Full(o) => {
                variables_are_written(o.vars);
                rows_are_written(o.vars, o.rows);
            },
            _ => {},
        }
    }
}

proof fn plain_part_is_kept(
    bytes: Seq<u8>,
    s: Seq<char>,
    ctx: Map<Seq<char>, CtxView>,
    mode: InterpMode,
    from: int,
    to: int,
)
    requires
        is_ascii_chars(s),
        bytes == encode_utf8(s),
        0 <= from <= to <= s.len(),
        forall|i: int| from <= i < to ==> #[trigger] s[i] != '$',
    ensures
        expanded(bytes, s, ctx, mode, from) == led_by(s.subrange(from, to), expanded(bytes, s, ctx, mode, to)),
    decreases to - from,
{
    is_ascii_chars_encode_utf8(s);
    if from < to {
        plain_part_is_kept(bytes, s, ctx, mode, from + 1, to);
        assert(s[from] as u8 == bytes[from]);
        assert(s[from] != '$');
        assert('\0' <= s[from] <= '\u{7f}');
        assert(bytes[from] as char == s[from]);
        assert(bytes[from] != 36u8);
        let rest = expanded(bytes, s, ctx, mode, to);
        match rest {
            Ok(text) => {
                assert(seq![s[from]] + (s.subrange(from + 1, to) + text) =~= s.subrange(from, to) + text);
            },
            Err(_) => {},
        }
    } else {
        match expanded(bytes, s, ctx, mode, to) {
            Ok(text) => {
                assert(s.subrange(from, to) + text =~= text);
            },
            Err(_) => {},
        }
    }
}

proof fn closing_is_found(bytes: Seq<u8>, from: int, end: int)
    requires
        0 <= from <= end < bytes.len(),
        bytes[end] == 125u8,
        forall|i: int| from <= i < end ==> #[trigger] bytes[i] != 125u8,
    ensures
        closing(bytes, from) == Some(end),
    decreases end - from,
{
    if from < end {
        assert(bytes[from] != 125u8);
        closing_is_found(bytes, from + 1, end);
    }
}

/// A variable in a text is replaced by what its name stands for, and the text
/// around it is kept.
pub proof fn variable_is_replaced(
    front: Seq<char>,
    name: Seq<char>,
    back: Seq<char>,
    ctx: Map<Seq<char>, CtxView>,
    mode: InterpMode,
)
    requires
        is_ascii_chars(front) && is_ascii_chars(name) && is_ascii_chars(back),
        !front.contains('$'),
        !back.contains('$'),
        !name.contains('}'),
    ensures
        interpolated(front + "${"@ + name + "}"@ + back, ctx, mode) == match value_text(ctx, name, mode) {
            Ok(value) => Ok::<Seq<char>, Seq<char>>(front + value + back),
            Err(e) => Err(e),
        },
{
    reveal_strlit("${");
    reveal_strlit("}");
    let s = front + "${"@ + name + "}"@ + back;
    let bytes = encode_utf8(s);
    let n: int = front.len() as int;
    let end: int = n + 2 + name.len();
    assert forall|i: int| 0 <= i < s.len() implies '\0' <= #[trigger] s[i] <= '\u{7f}' by {
        if i < n {
            assert(s[i] == front[i]);
        } else if n + 2 <= i < end {
            assert(s[i] == name[i - n - 2]);
        } else if i > end {
            assert(s[i] == back[i - end - 1]);
        }
    }
    assert(is_ascii_chars(s));
    is_ascii_chars_encode_utf8(s);
    assert forall|i: int| 0 <= i < n implies #[trigger] s[i] != '$' by {
        assert(s[i] == front[i]);
        assert(front.contains(front[i]));
    }
    plain_part_is_kept(bytes, s, ctx, mode, 0, n);
    assert(s.subrange(0, n) =~= front);
    assert(s[n] == '$' && s[n + 1] == '{');
    assert(s[n] as u8 == bytes[n] && s[n + 1] as u8 == bytes[n + 1]);
    assert(s[end] == '}');
    assert(s[end] as u8 == bytes[end]);
    assert forall|i: int| n + 2 <= i < end implies #[trigger] bytes[i] != 125u8 by {
        assert(s[i] == name[i - n - 2]);
        assert(name.contains(name[i - n - 2]));
        assert(s[i] as u8 == bytes[i]);
        assert('\0' <= s[i] <= '\u{7f}');
    }
    closing_is_found(bytes, n + 2, end);
    assert(bytes.subrange(n + 2, end) =~= encode_utf8(name)) by {
        is_ascii_chars_encode_utf8(name);
        assert forall|i: int| 0 <= i < name.len() implies bytes.subrange(n + 2, end)[i] == encode_utf8(name)[i] by {
            assert(s[n + 2 + i] == name[i]);
            assert(s[n + 2 + i] as u8 == bytes[n + 2 + i]);
            assert(name[i] as u8 == encode_utf8(name)[i]);
        }
    }
    decoding_undoes_encoding(name);
    let len: int = s.len() as int;
    assert forall|i: int| end + 1 <= i < len implies #[trigger] s[i] != '$' by {
        assert(s[i] == back[i - end - 1]);
        assert(back.contains(back[i - end - 1]));
    }
    plain_part_is_kept(bytes, s, ctx, mode, end + 1, len);
    assert(s.subrange(end + 1, len) =~= back);
    assert(expanded(bytes, s, ctx, mode, len) == Ok::<Seq<char>, Seq<char>>(Seq::empty()));
    assert(back + Seq::<char>::empty() =~= back);
    match value_text(ctx, name, mode) {
        Ok(value) => {
            assert(front + (value + back) =~= front + value + back);
        },
        Err(_) => {},
    }
}

} // verus!

//! What a query's rows are mapped to, and what a batch's reply says.

use vstd::prelude::*;
use crate::bulk::{done_of, first_error, good_items, item_report, verdict};
use crate::host::{ReplyView, RequestView};
use crate::json::{json_text, real_text, JsonView};
use crate::laws::graph::{regular, result_of, rows_are_told_apart};
use crate::mapping::{first_cells, first_scalar, job_of, mapped_on, next, says_integer, says_real, scalar, Job,
    StageView};
use crate::number::{int_text, parse_undoes_signed_decimal};
use crate::rdf::{typed, BindingView, LiteralView, TermView};

verus! {

// ---------------------------------------------------------------------------
// Mapping
// ---------------------------------------------------------------------------

/// The first argument of a call is the address of a component, the second the
/// query.
pub proof fn address_comes_first(url: Seq<char>, query: LiteralView)
    ensures
        job_of(seq![TermView::NamedNode(url), TermView::Literal(query)]) == Ok::<(Seq<char>, Seq<char>), Seq<char>>(
            (url, query.value),
        ),
        job_of(seq![TermView::Literal(query), TermView::NamedNode(url)]) == Ok::<(Seq<char>, Seq<char>), Seq<char>>(
            (query.value, url),
        ),
        job_of(seq![TermView::NamedNode(url)]) is Err,
        job_of(seq![TermView::NamedNode(url), TermView::Literal(query), TermView::NamedNode(url)]) is Err,
        job_of(seq![TermView::BlankNode(url), TermView::Literal(query)]) is Err,
        job_of(seq![TermView::NamedNode(url), TermView::BlankNode(url)]) is Err,
{
}

/// Whether a call goes through these stages and requests while each request is
/// answered by a value.
pub open spec fn goes_by(
    job: Job,
    stages: Seq<StageView>,
    requests: Seq<RequestView>,
    answers: Seq<TermView>,
    variable: Seq<char>,
) -> bool {
    &&& stages.len() == requests.len() == answers.len() + 1
    &&& forall|i: int|
        0 <= i < answers.len() ==> (stages[i + 1], requests[i + 1]) == next(
            job,
            stages[i],
            ReplyView::Bindings(seq![BindingView { variable, value: #[trigger] answers[i] }]),
        )
}

proof fn calls_go_on(
    job: Job,
    rows: Seq<Seq<BindingView>>,
    variables: Seq<Seq<char>>,
    stages: Seq<StageView>,
    requests: Seq<RequestView>,
    answers: Seq<TermView>,
    variable: Seq<char>,
    i: int,
)
    requires
        regular(rows, variables),
        variables.len() > 0,
        variables.no_duplicates(),
        goes_by(job, stages, requests, answers, variable),
        (stages[0], requests[0]) == next(job, StageView::Rows, ReplyView::Result(result_of(rows))),
        0 <= i <= answers.len(),
        i <= rows.len(),
    ensures
        (stages[i], requests[i]) == mapped_on(
            job.url@,
            first_cells(rows).skip(i),
            Seq::new(i as nat, |k: int| scalar(answers[k])),
        ),
    decreases i,
{
    let cells = first_cells(rows);
    let done = Seq::new(i as nat, |k: int| scalar(answers[k]));
    if i == 0 {
        rows_are_told_apart(rows, variables);
        assert(cells.skip(0) =~= cells);
        assert(done =~= Seq::empty());
    } else {
        calls_go_on(job, rows, variables, stages, requests, answers, variable, i - 1);
        let before = Seq::new((i - 1) as nat, |k: int| scalar(answers[k]));
        let value = answers[i - 1];
        assert(cells.skip(i - 1).drop_first() =~= cells.skip(i));
        assert(before.push(scalar(value)) =~= done);
        assert(seq![BindingView { variable, value }][0].value == value);
    }
}

/// Each row of a query leads to one call of the component, in the order of the
/// rows, with the first value of the row as its one argument; behind the last, the
/// values that came back make up the array, in the same order.
pub proof fn each_row_is_mapped(
    job: Job,
    rows: Seq<Seq<BindingView>>,
    variables: Seq<Seq<char>>,
    stages: Seq<StageView>,
    requests: Seq<RequestView>,
    answers: Seq<TermView>,
    variable: Seq<char>,
    i: int,
)
    requires
        regular(rows, variables),
        variables.len() > 0,
        variables.no_duplicates(),
        goes_by(job, stages, requests, answers, variable),
        (stages[0], requests[0]) == next(job, StageView::Rows, ReplyView::Result(result_of(rows))),
        0 <= i <= answers.len(),
        i <= rows.len(),
    ensures
        i < rows.len() ==> requests[i] == RequestView::Invoke(job.url@, seq![rows[i][0].value]),
        i == rows.len() ==> (requests[i] matches RequestView::Finish(Ok(TermView::Literal(l))) && l.value == json_text(
            JsonView::Array(Seq::new(rows.len(), |k: int| scalar(answers[k]))),
        ) && l.datatype == Some("http://www.w3.org/1999/02/22-rdf-syntax-ns#JSON"@)),
{
    calls_go_on(job, rows, variables, stages, requests, answers, variable, i);
    let done = Seq::new(i as nat, |k: int| scalar(answers[k]));
    if i < rows.len() {
        assert(first_cells(rows).skip(i)[0] == rows[i][0].value);
    }
    if i == rows.len() {
        assert(done =~= Seq::new(rows.len(), |k: int| scalar(answers[k])));
    }
}

/// A value is taken for what its datatype says: a number, a flag or a text. Names
/// are taken by their text, and what a component did not give is null.
pub proof fn values_are_taken_by_datatype(text: Seq<char>, n: i64, tag: Option<Seq<char>>)
    ensures
        scalar(TermView::NamedNode(text)) == JsonView::Text(text),
        scalar(TermView::BlankNode(text)) == JsonView::Text(seq!['_', ':'] + text),
        scalar(TermView::Literal(LiteralView { value: text, datatype: None, language: tag })) == JsonView::Text(text),
        scalar(typed(text, "http://www.w3.org/2001/XMLSchema#string"@)) == JsonView::Text(text),
        n >= 0 ==> scalar(typed(int_text(n as int), "http://www.w3.org/2001/XMLSchema#integer"@))
            == JsonView::Unsigned(n as u64),
        n >= 0 ==> scalar(typed(int_text(n as int), "http://www.w3.org/2001/XMLSchema#int"@))
            == JsonView::Unsigned(n as u64),
        n >= 0 ==> scalar(typed(int_text(n as int), "http://www.w3.org/2001/XMLSchema#long"@))
            == JsonView::Unsigned(n as u64),
        n < 0 ==> scalar(typed(int_text(n as int), "http://www.w3.org/2001/XMLSchema#integer"@))
            == JsonView::Negative(n),
        n < 0 ==> scalar(typed(int_text(n as int), "http://www.w3.org/2001/XMLSchema#int"@))
            == JsonView::Negative(n),
        n < 0 ==> scalar(typed(int_text(n as int), "http://www.w3.org/2001/XMLSchema#long"@))
            == JsonView::Negative(n),
        scalar(typed("true"@, "http://www.w3.org/2001/XMLSchema#boolean"@)) == JsonView::Bool(true),
        scalar(typed("1"@, "http://www.w3.org/2001/XMLSchema#boolean"@)) == JsonView::Bool(true),
        scalar(typed("false"@, "http://www.w3.org/2001/XMLSchema#boolean"@)) == JsonView::Bool(false),
        scalar(typed("0"@, "http://www.w3.org/2001/XMLSchema#boolean"@)) == JsonView::Bool(false),
        real_text(text) is Some && real_text(text)->0 !is Null ==> {
            &&& scalar(typed(text, "http://www.w3.org/2001/XMLSchema#decimal"@)) == real_text(text)->0
            &&& scalar(typed(text, "http://www.w3.org/2001/XMLSchema#double"@)) == real_text(text)->0
            &&& scalar(typed(text, "http://www.w3.org/2001/XMLSchema#float"@)) == real_text(text)->0
        },
        first_scalar(Seq::empty()) == JsonView::Null,
{
    datatypes_end();
    parse_undoes_signed_decimal(n);
    reveal_strlit("_:");
    assert("_:"@ =~= seq!['_', ':']);
    reveal_strlit("true");
    reveal_strlit("false");
    reveal_strlit("1");
    reveal_strlit("0");
    reveal_strlit("");
    assert("true"@.len() == 4 && "false"@.len() == 5 && "1"@[0] == '1' && "0"@[0] == '0' && "1"@.len() == 1
        && "0"@.len() == 1);
}

proof fn ends(word: Seq<char>, front: Seq<char>, s: Seq<char>)
    requires
        s == front + word,
    ensures
        word.is_suffix_of(s),
{
    assert(s.subrange(s.len() - word.len(), s.len() as int) =~= word);
}

/// A text whose last letters differ does not end in the word.
proof fn ends_not(word: Seq<char>, s: Seq<char>, k: int)
    requires
        0 <= k < word.len(),
        word.len() > s.len() || word[word.len() - 1 - k] != s[s.len() - 1 - k],
    ensures
        !word.is_suffix_of(s),
{
    if word.is_suffix_of(s) {
        let tail = s.subrange(s.len() - word.len(), s.len() as int);
        assert(tail[word.len() - 1 - k] == s[s.len() - 1 - k]);
    }
}

#[verifier::rlimit(40)]
proof fn datatypes_end()
    ensures
        !says_integer(""@),
        !says_real(""@),
        !"boolean"@.is_suffix_of(""@),
        !says_integer("http://www.w3.org/2001/XMLSchema#string"@),
        !says_real("http://www.w3.org/2001/XMLSchema#string"@),
        !"boolean"@.is_suffix_of("http://www.w3.org/2001/XMLSchema#string"@),
        says_integer("http://www.w3.org/2001/XMLSchema#integer"@),
        says_integer("http://www.w3.org/2001/XMLSchema#int"@),
        says_integer("http://www.w3.org/2001/XMLSchema#long"@),
        !says_integer("http://www.w3.org/2001/XMLSchema#boolean"@),
        !says_real("http://www.w3.org/2001/XMLSchema#boolean"@),
        "boolean"@.is_suffix_of("http://www.w3.org/2001/XMLSchema#boolean"@),
        !says_integer("http://www.w3.org/2001/XMLSchema#decimal"@),
        !says_integer("http://www.w3.org/2001/XMLSchema#double"@),
        !says_integer("http://www.w3.org/2001/XMLSchema#float"@),
        says_real("http://www.w3.org/2001/XMLSchema#decimal"@),
        says_real("http://www.w3.org/2001/XMLSchema#double"@),
        says_real("http://www.w3.org/2001/XMLSchema#float"@),
{
    reveal_strlit("");
    reveal_strlit("integer");
    reveal_strlit("int");
    reveal_strlit("long");
    reveal_strlit("decimal");
    reveal_strlit("double");
    reveal_strlit("float");
    reveal_strlit("boolean");
    reveal_strlit("http://www.w3.org/2001/XMLSchema#");
    reveal_strlit("http://www.w3.org/2001/XMLSchema#string");
    reveal_strlit("http://www.w3.org/2001/XMLSchema#integer");
    reveal_strlit("http://www.w3.org/2001/XMLSchema#int");
    reveal_strlit("http://www.w3.org/2001/XMLSchema#long");
    reveal_strlit("http://www.w3.org/2001/XMLSchema#boolean");
    reveal_strlit("http://www.w3.org/2001/XMLSchema#decimal");
    reveal_strlit("http://www.w3.org/2001/XMLSchema#double");
    reveal_strlit("http://www.w3.org/2001/XMLSchema#float");
    let x = "http://www.w3.org/2001/XMLSchema#"@;
    assert("http://www.w3.org/2001/XMLSchema#integer"@ =~= x + "integer"@);
    assert("http://www.w3.org/2001/XMLSchema#int"@ =~= x + "int"@);
    assert("http://www.w3.org/2001/XMLSchema#long"@ =~= x + "long"@);
    assert("http://www.w3.org/2001/XMLSchema#boolean"@ =~= x + "boolean"@);
    assert("http://www.w3.org/2001/XMLSchema#decimal"@ =~= x + "decimal"@);
    assert("http://www.w3.org/2001/XMLSchema#double"@ =~= x + "double"@);
    assert("http://www.w3.org/2001/XMLSchema#float"@ =~= x + "float"@);
    ends("integer"@, x, "http://www.w3.org/2001/XMLSchema#integer"@);
    ends("int"@, x, "http://www.w3.org/2001/XMLSchema#int"@);
    ends("long"@, x, "http://www.w3.org/2001/XMLSchema#long"@);
    ends("boolean"@, x, "http://www.w3.org/2001/XMLSchema#boolean"@);
    ends("decimal"@, x, "http://www.w3.org/2001/XMLSchema#decimal"@);
    ends("double"@, x, "http://www.w3.org/2001/XMLSchema#double"@);
    ends("float"@, x, "http://www.w3.org/2001/XMLSchema#float"@);
    ends_not("integer"@, ""@, 0);
    ends_not("long"@, ""@, 0);
    ends_not("int"@, ""@, 0);
    ends_not("decimal"@, ""@, 0);
    ends_not("double"@, ""@, 0);
    ends_not("float"@, ""@, 0);
    ends_not("boolean"@, ""@, 0);
    ends_not("integer"@, "http://www.w3.org/2001/XMLSchema#string"@, 0);
    ends_not("long"@, "http://www.w3.org/2001/XMLSchema#string"@, 2);
    ends_not("int"@, "http://www.w3.org/2001/XMLSchema#string"@, 0);
    ends_not("decimal"@, "http://www.w3.org/2001/XMLSchema#string"@, 0);
    ends_not("double"@, "http://www.w3.org/2001/XMLSchema#string"@, 0);
    ends_not("float"@, "http://www.w3.org/2001/XMLSchema#string"@, 0);
    ends_not("boolean"@, "http://www.w3.org/2001/XMLSchema#string"@, 0);
    ends_not("integer"@, "http://www.w3.org/2001/XMLSchema#boolean"@, 0);
    ends_not("long"@, "http://www.w3.org/2001/XMLSchema#boolean"@, 0);
    ends_not("int"@, "http://www.w3.org/2001/XMLSchema#boolean"@, 0);
    ends_not("decimal"@, "http://www.w3.org/2001/XMLSchema#boolean"@, 0);
    ends_not("double"@, "http://www.w3.org/2001/XMLSchema#boolean"@, 0);
    ends_not("float"@, "http://www.w3.org/2001/XMLSchema#boolean"@, 0);
    ends_not("integer"@, "http://www.w3.org/2001/XMLSchema#decimal"@, 0);
    ends_not("long"@, "http://www.w3.org/2001/XMLSchema#decimal"@, 0);
    ends_not("int"@, "http://www.w3.org/2001/XMLSchema#decimal"@, 0);
    ends_not("integer"@, "http://www.w3.org/2001/XMLSchema#double"@, 0);
    ends_not("long"@, "http://www.w3.org/2001/XMLSchema#double"@, 0);
    ends_not("int"@, "http://www.w3.org/2001/XMLSchema#double"@, 0);
    ends_not("integer"@, "http://www.w3.org/2001/XMLSchema#float"@, 0);
    ends_not("long"@, "http://www.w3.org/2001/XMLSchema#float"@, 0);
    ends_not("int"@, "http://www.w3.org/2001/XMLSchema#float"@, 1);
}

// ---------------------------------------------------------------------------
// Batches
// ---------------------------------------------------------------------------

/// A batch landed just where its reply says that there were no errors.
pub proof fn batch_lands_without_errors(reply: JsonView)
    ensures
        verdict(reply) is Ok <==> reply.get("errors"@) == Some(JsonView::Bool(false)),
{
}

/// An item of a reply: what became of one command.
pub open spec fn item_of(op: Seq<char>, payload: JsonView) -> JsonView {
    JsonView::Object(seq![(op, payload)])
}

/// A reply without errors counts one command done for each item that reports no
/// error.
pub proof fn every_command_is_counted(component: Seq<char>, reply: JsonView, ops: Seq<(Seq<char>, JsonView)>)
    requires
        reply.get("items"@) == Some(JsonView::Array(Seq::new(ops.len(), |i: int| item_of(ops[i].0, ops[i].1)))),
        reply.get("errors"@) != Some(JsonView::Bool(true)),
        ops.len() <= u32::MAX,
        forall|i: int| 0 <= i < ops.len() ==> (#[trigger] ops[i]).1.get("error"@) is None,
    ensures
        done_of(component, reply) == Ok::<u32, Seq<char>>(ops.len() as u32),
{
    all_are_good(ops);
}

proof fn all_are_good(ops: Seq<(Seq<char>, JsonView)>)
    requires
        forall|i: int| 0 <= i < ops.len() ==> (#[trigger] ops[i]).1.get("error"@) is None,
    ensures
        good_items(Seq::new(ops.len(), |i: int| item_of(ops[i].0, ops[i].1))) == ops.len(),
    decreases ops.len(),
{
    if ops.len() > 0 {
        let items = Seq::new(ops.len(), |i: int| item_of(ops[i].0, ops[i].1));
        let rest = ops.drop_last();
        assert forall|i: int| 0 <= i < rest.len() implies (#[trigger] rest[i]).1.get("error"@) is None by {
            assert(rest[i] == ops[i]);
        }
        all_are_good(rest);
        assert(items.drop_last() =~= Seq::new(rest.len(), |i: int| item_of(rest[i].0, rest[i].1)));
        assert(ops[ops.len() - 1].1.get("error"@) is None);
        assert(item_report(items.last()) == Some(ops.last()));
    }
}

/// A reply with errors tells the first of them: the command, the id and the error
/// of the first item that reports one.
pub proof fn first_error_is_told(
    component: Seq<char>,
    reply: JsonView,
    good: Seq<(Seq<char>, JsonView)>,
    op: Seq<char>,
    payload: JsonView,
    id: JsonView,
    error: JsonView,
    behind: Seq<JsonView>,
)
    requires
        reply.get("items"@) == Some(
            JsonView::Array(
                Seq::new(good.len(), |i: int| item_of(good[i].0, good[i].1)) + seq![item_of(op, payload)] + behind,
            ),
        ),
        reply.get("errors"@) == Some(JsonView::Bool(true)),
        forall|i: int| 0 <= i < good.len() ==> (#[trigger] good[i]).1.get("error"@) is None,
        payload.get("error"@) == Some(error),
        payload.get("_id"@) == Some(id),
    ensures
        done_of(component, reply) == Err::<u32, Seq<char>>(
            component + ": bulk item `"@ + op + "` id="@ + json_text(id) + " error: "@ + json_text(error),
        ),
{
    let items = Seq::new(good.len(), |i: int| item_of(good[i].0, good[i].1));
    none_reports(component, good);
    let with = items + seq![item_of(op, payload)];
    assert(with.drop_last() =~= items);
    assert(with.last() == item_of(op, payload));
    assert(item_report(item_of(op, payload)) == Some((op, payload)));
    later_items_change_nothing(component, with, behind);
}

proof fn none_reports(component: Seq<char>, good: Seq<(Seq<char>, JsonView)>)
    requires
        forall|i: int| 0 <= i < good.len() ==> (#[trigger] good[i]).1.get("error"@) is None,
    ensures
        first_error(component, Seq::new(good.len(), |i: int| item_of(good[i].0, good[i].1))) is None,
    decreases good.len(),
{
    if good.len() > 0 {
        let items = Seq::new(good.len(), |i: int| item_of(good[i].0, good[i].1));
        let rest = good.drop_last();
        assert forall|i: int| 0 <= i < rest.len() implies (#[trigger] rest[i]).1.get("error"@) is None by {
            assert(rest[i] == good[i]);
        }
        none_reports(component, rest);
        assert(items.drop_last() =~= Seq::new(rest.len(), |i: int| item_of(rest[i].0, rest[i].1)));
        assert(good[good.len() - 1].1.get("error"@) is None);
        assert(item_report(items.last()) == Some(good.last()));
    }
}

proof fn later_items_change_nothing(component: Seq<char>, items: Seq<JsonView>, behind: Seq<JsonView>)
    requires
        first_error(component, items) is Some,
    ensures
        first_error(component, items + behind) == first_error(component, items),
    decreases behind.len(),
{
    if behind.len() == 0 {
        assert(items + behind =~= items);
    } else {
        later_items_change_nothing(component, items, behind.drop_last());
        assert((items + behind).drop_last() =~= items + behind.drop_last());
    }
}

} // verus!

//! A graph as a set of statements, the results that a store gives for queries
//! on it, and how terms and statements are written in updates.

use vstd::prelude::*;
use crate::rdf::{binds, flattened, grouped, value_in, BindingView, LiteralView, QueryResultView, TermView};
use crate::text::escaped;

verus! {

/// A statement. Its predicate is an IRI.
pub struct Fact {
    pub subject: TermView,
    pub predicate: Seq<char>,
    pub object: TermView,
}

/// How a term is written.
pub open spec fn term_text(t: TermView) -> Seq<char> {
    match t {
        TermView::NamedNode(iri) => "<"@ + iri + ">"@,
        TermView::BlankNode(label) => "_:"@ + label,
        TermView::Literal(l) => literal_text(l),
        TermView::Triple(_) => Seq::empty(),
    }
}

/// How a literal is written: quoted, then the language or else the datatype.
pub open spec fn literal_text(l: LiteralView) -> Seq<char> {
    let quoted = "\""@ + escaped(l.value) + "\""@;
    if l.language is Some {
        quoted + "@"@ + l.language->0
    } else if l.datatype is Some {
        quoted + "^^<"@ + l.datatype->0 + ">"@
    } else {
        quoted
    }
}

/// How a statement is written.
pub open spec fn fact_text(f: Fact) -> Seq<char> {
    term_text(f.subject) + " <"@ + f.predicate + "> "@ + term_text(f.object) + " .\n"@
}

/// How statements are written, one after the other.
pub open spec fn facts_text(facts: Seq<Fact>) -> Seq<char>
    decreases facts.len(),
{
    if facts.len() == 0 {
        Seq::empty()
    } else {
        facts_text(facts.drop_last()) + fact_text(facts.last())
    }
}

/// Whether the parts of a statement can be written.
pub open spec fn writable(f: Fact) -> bool {
    !(f.subject is Triple) && !(f.object is Triple)
}

/// IRIs as a list of values is written.
pub open spec fn names_text(names: Seq<Seq<char>>) -> Seq<char>
    decreases names.len(),
{
    if names.len() == 0 {
        Seq::empty()
    } else if names.len() == 1 {
        "<"@ + names[0] + ">"@
    } else {
        names_text(names.drop_last()) + " "@ + "<"@ + names.last() + ">"@
    }
}

/// A variable with its value.
pub open spec fn bound(variable: Seq<char>, value: TermView) -> BindingView {
    BindingView { variable, value }
}

/// The result that has these rows.
pub open spec fn result_of(rows: Seq<Seq<BindingView>>) -> QueryResultView {
    QueryResultView::Bindings(flattened(rows))
}

/// The rows in which one variable has each of the values.
pub open spec fn column(variable: Seq<char>, values: Seq<TermView>) -> Seq<Seq<BindingView>> {
    Seq::new(values.len(), |i: int| seq![bound(variable, values[i])])
}

/// The row of a statement.
pub open spec fn fact_row(f: Fact) -> Seq<BindingView> {
    seq![bound("s"@, f.subject), bound("p"@, TermView::NamedNode(f.predicate)), bound("o"@, f.object)]
}

/// The rows of statements.
pub open spec fn fact_rows(facts: Seq<Fact>) -> Seq<Seq<BindingView>> {
    Seq::new(facts.len(), |i: int| fact_row(facts[i]))
}

/// Whether every row binds just these variables, in this order.
pub open spec fn regular(rows: Seq<Seq<BindingView>>, variables: Seq<Seq<char>>) -> bool {
    forall|i: int|
        0 <= i < rows.len() ==> {
            &&& (#[trigger] rows[i]).len() == variables.len()
            &&& forall|j: int| 0 <= j < variables.len() ==> (#[trigger] rows[i][j]).variable == variables[j]
        }
}

proof fn row_is_grown(
    flat: Seq<BindingView>,
    rows: Seq<Seq<BindingView>>,
    row: Seq<BindingView>,
    variables: Seq<Seq<char>>,
    k: int,
)
    requires
        grouped(flat) == rows,
        regular(rows, variables),
        variables.no_duplicates(),
        row.len() == variables.len(),
        forall|j: int| 0 <= j < variables.len() ==> (#[trigger] row[j]).variable == variables[j],
        1 <= k <= row.len(),
    ensures
        grouped(flat + row.take(k)) == rows.push(row.take(k)),
    decreases k,
{
    let all = flat + row.take(k);
    assert(all.last() == row[k - 1]);
    assert(all.drop_last() =~= flat + row.take(k - 1));
    if k == 1 {
        assert(flat + row.take(0) =~= flat);
        if rows.len() > 0 {
            assert(rows.last()[0].variable == variables[0]);
            assert(binds(rows.last(), row[0].variable));
        }
        assert(row.take(1) =~= seq![row[0]]);
    } else {
        row_is_grown(flat, rows, row, variables, k - 1);
        let before = rows.push(row.take(k - 1));
        assert(before.last() == row.take(k - 1));
        assert(!binds(before.last(), row[k - 1].variable)) by {
            if binds(before.last(), row[k - 1].variable) {
                let i = choose|i: int|
                    0 <= i < before.last().len() && (#[trigger] before.last()[i]).variable == row[k - 1].variable;
                assert(before.last()[i] == row[i]);
                assert(variables[i] == variables[k - 1]);
            }
        }
        assert(before.drop_last() =~= rows);
        assert(row.take(k - 1).push(row[k - 1]) =~= row.take(k));
    }
}

/// Rows that all bind the same variables are told apart in the flat list of
/// their bindings.
pub proof fn rows_are_told_apart(rows: Seq<Seq<BindingView>>, variables: Seq<Seq<char>>)
    requires
        regular(rows, variables),
        variables.len() > 0,
        variables.no_duplicates(),
    ensures
        grouped(flattened(rows)) == rows,
    decreases rows.len(),
{
    if rows.len() > 0 {
        let rest = rows.drop_last();
        let row = rows.last();
        assert(row == rows[rows.len() - 1]);
        assert(regular(rest, variables)) by {
            assert forall|i: int| 0 <= i < rest.len() implies {
                &&& (#[trigger] rest[i]).len() == variables.len()
                &&& forall|j: int| 0 <= j < variables.len() ==> (#[trigger] rest[i][j]).variable == variables[j]
            } by {
                assert(rest[i] == rows[i]);
            }
        }
        rows_are_told_apart(rest, variables);
        row_is_grown(flattened(rest), rest, row, variables, row.len() as int);
        assert(row.take(row.len() as int) =~= row);
        assert(rest.push(row) =~= rows);
    } else {
        assert(rows =~= Seq::empty());
    }
}

/// A row's value for a variable is that of its first binding of the variable,
/// and there is none exactly where no binding names it.
pub proof fn first_binding_counts(row: Seq<BindingView>, variable: Seq<char>, i: int)
    ensures
        0 <= i < row.len() && row[i].variable == variable && (forall|j: int|
            0 <= j < i ==> (#[trigger] row[j]).variable != variable) ==> value_in(row, variable) == Some(
            row[i].value,
        ),
        (forall|j: int| 0 <= j < row.len() ==> (#[trigger] row[j]).variable != variable) <==> value_in(
            row,
            variable,
        ) is None,
    decreases row.len(),
{
    if row.len() > 0 {
        let rest = row.drop_first();
        first_binding_counts(rest, variable, i - 1);
        if row[0].variable != variable {
            assert forall|j: int| 0 <= j < row.len() && j > 0 implies (#[trigger] row[j]) == rest[j - 1] by {}
            if forall|j: int| 0 <= j < row.len() ==> (#[trigger] row[j]).variable != variable {
                assert forall|j: int| 0 <= j < rest.len() implies (#[trigger] rest[j]).variable != variable by {
                    assert(rest[j] == row[j + 1]);
                }
            }
            if forall|j: int| 0 <= j < rest.len() ==> (#[trigger] rest[j]).variable != variable {
                assert forall|j: int| 0 <= j < row.len() implies (#[trigger] row[j]).variable != variable by {
                    if j > 0 {
                        assert(rest[j - 1] == row[j]);
                    }
                }
            }
            if 0 <= i < row.len() && row[i].variable == variable && (forall|j: int|
                0 <= j < i ==> (#[trigger] row[j]).variable != variable) {
                assert(i > 0);
                assert forall|j: int| 0 <= j < i - 1 implies (#[trigger] rest[j]).variable != variable by {
                    assert(rest[j] == row[j + 1]);
                }
                assert(rest[i - 1] == row[i]);
            }
        } else {
            if 0 < i < row.len() && (forall|j: int| 0 <= j < i ==> (#[trigger] row[j]).variable != variable) {
                assert(row[0].variable != variable);
            }
        }
    }
}

/// The rows of statements are told apart, and each gives its statement's parts.
pub proof fn fact_rows_are_read(facts: Seq<Fact>)
    ensures
        result_of(fact_rows(facts)) matches QueryResultView::Bindings(flat) && grouped(flat) == fact_rows(facts),
        forall|i: int|
            0 <= i < facts.len() ==> {
                let row = #[trigger] fact_rows(facts)[i];
                &&& value_in(row, "s"@) == Some(facts[i].subject)
                &&& value_in(row, "p"@) == Some(TermView::NamedNode(facts[i].predicate))
                &&& value_in(row, "o"@) == Some(facts[i].object)
            },
{
    reveal_strlit("s");
    reveal_strlit("p");
    reveal_strlit("o");
    let variables = seq!["s"@, "p"@, "o"@];
    assert("s"@[0] != "p"@[0] && "s"@[0] != "o"@[0] && "p"@[0] != "o"@[0]);
    assert(variables.no_duplicates());
    let rows = fact_rows(facts);
    assert(regular(rows, variables));
    rows_are_told_apart(rows, variables);
    assert forall|i: int| 0 <= i < facts.len() implies {
        let row = #[trigger] fact_rows(facts)[i];
        &&& value_in(row, "s"@) == Some(facts[i].subject)
        &&& value_in(row, "p"@) == Some(TermView::NamedNode(facts[i].predicate))
        &&& value_in(row, "o"@) == Some(facts[i].object)
    } by {
        let row = rows[i];
        assert(row[0].variable == "s"@ && row[1].variable == "p"@ && row[2].variable == "o"@);
        first_binding_counts(row, "s"@, 0);
        first_binding_counts(row, "p"@, 1);
        first_binding_counts(row, "o"@, 2);
    }
}

/// The rows of one variable are told apart, and each gives its value.
pub proof fn column_is_read(variable: Seq<char>, values: Seq<TermView>)
    ensures
        result_of(column(variable, values)) matches QueryResultView::Bindings(flat) && grouped(flat) == column(
            variable,
            values,
        ),
        forall|i: int|
            0 <= i < values.len() ==> value_in(#[trigger] column(variable, values)[i], variable) == Some(values[i]),
{
    let rows = column(variable, values);
    assert(regular(rows, seq![variable]));
    rows_are_told_apart(rows, seq![variable]);
    assert forall|i: int| 0 <= i < values.len() implies value_in(
        #[trigger] column(variable, values)[i],
        variable,
    ) == Some(values[i]) by {
        first_binding_counts(rows[i], variable, 0);
    }
}

} // verus!

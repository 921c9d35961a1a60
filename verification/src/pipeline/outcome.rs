//! What a step's query or call gives: variables and rows of cells.

use vstd::prelude::*;
use vstd::string::*;

use crate::rdf::{
    group_bindings_into_rows, grouped, row_views, typed_literal, Binding, BindingView, QuadView, QueryResult,
    QueryResultView, Term, TermView, XSD_STRING,
};
use crate::text::{copy_opt, escape_literal, escaped, has_text, join, joined, opt_view, same, views, views_push};

verus! {

// ---------------------------------------------------------------------------
// Cells
// ---------------------------------------------------------------------------

#[derive(Debug)]
pub enum Cell {
    Iri(String),
    Literal { label: String, datatype: String, lang: Option<String> },
    Bnode(String),
}

pub enum CellView {
    Iri(Seq<char>),
    Literal { label: Seq<char>, datatype: Seq<char>, lang: Option<Seq<char>> },
    Bnode(Seq<char>),
}

impl View for Cell {
    type V = CellView;

    open spec fn view(&self) -> CellView {
        match self {
            Cell::Iri(iri) => CellView::Iri(iri@),
            Cell::Literal { label, datatype, lang } => CellView::Literal {
                label: label@,
                datatype: datatype@,
                lang: opt_view(*lang),
            },
            Cell::Bnode(label) => CellView::Bnode(label@),
        }
    }
}

impl CellView {
    /// The cell as a plain text.
    pub open spec fn text(self) -> Seq<char> {
        match self {
            CellView::Iri(iri) => iri,
            CellView::Literal { label, .. } => label,
            CellView::Bnode(label) => "_:"@ + label,
        }
    }

    /// The cell as a term of a query. A blank node cannot be named there.
    pub open spec fn sparql(self) -> Seq<char> {
        match self {
            CellView::Iri(iri) => "<"@ + iri + ">"@,
            CellView::Literal { label, datatype, lang } => match lang {
                Some(tag) => "\""@ + escaped(label) + "\"@"@ + tag,
                None => if datatype == XSD_STRING@ || datatype == ""@ {
                    "\""@ + escaped(label) + "\""@
                } else {
                    "\""@ + escaped(label) + "\"^^<"@ + datatype + ">"@
                },
            },
            CellView::Bnode(_) => "UNDEF"@,
        }
    }
}

impl Cell {
    pub fn as_str(&self) -> (r: String)
        ensures
            r@ == self@.text(),
    {
        match self {
            Cell::Iri(iri) => iri.clone(),
            Cell::Literal { label, .. } => label.clone(),
            Cell::Bnode(label) => "_:".to_owned().concat(label),
        }
    }

    pub fn as_sparql(&self) -> (r: String)
        ensures
            r@ == self@.sparql(),
    {
        match self {
            Cell::Iri(iri) => "<".to_owned().concat(iri).concat(">"),
            Cell::Literal { label, datatype, lang } => {
                let inner = escape_literal(label);
                match lang {
                    Some(tag) => "\"".to_owned().concat(&inner).concat("\"@").concat(tag),
                    None => {
                        if same(datatype, XSD_STRING) || same(datatype, "") {
                            "\"".to_owned().concat(&inner).concat("\"")
                        } else {
                            "\"".to_owned().concat(&inner).concat("\"^^<").concat(datatype).concat(">")
                        }
                    },
                }
            },
            Cell::Bnode(_) => "UNDEF".to_owned(),
        }
    }
}

/// The cell of a term.
pub open spec fn cell_of(t: TermView) -> CellView {
    match t {
        TermView::NamedNode(iri) => CellView::Iri(iri),
        TermView::Literal(l) => CellView::Literal {
            label: l.value,
            datatype: match l.datatype {
                Some(d) => d,
                None => ""@,
            },
            lang: l.language,
        },
        TermView::BlankNode(label) => CellView::Bnode(label),
        TermView::Triple(_) => CellView::Literal {
            label: "<<quoted-triple>>"@,
            datatype: XSD_STRING@,
            lang: None,
        },
    }
}

pub fn value_to_cell(v: &Term) -> (r: Cell)
    ensures
        r@ == cell_of(v@),
{
    match v {
        Term::NamedNode(iri) => Cell::Iri(iri.clone()),
        Term::Literal(l) => Cell::Literal {
            label: l.value.clone(),
            datatype: match &l.datatype {
                Some(d) => d.clone(),
                None => "".to_owned(),
            },
            lang: copy_opt(&l.language),
        },
        Term::BlankNode(label) => Cell::Bnode(label.clone()),
        Term::Triple(_) => Cell::Literal {
            label: "<<quoted-triple>>".to_owned(),
            datatype: XSD_STRING.to_owned(),
            lang: None,
        },
    }
}

// ---------------------------------------------------------------------------
// Outcomes
// ---------------------------------------------------------------------------

/// Variables, and rows of named cells.
#[derive(Debug)]
pub struct QueryOutcome {
    pub vars: Vec<String>,
    pub rows: Vec<Vec<(String, Cell)>>,
}

pub struct OutcomeView {
    pub vars: Seq<Seq<char>>,
    pub rows: Seq<Seq<(Seq<char>, CellView)>>,
}

pub open spec fn cell_rows(rows: Seq<Vec<(String, Cell)>>) -> Seq<Seq<(Seq<char>, CellView)>> {
    Seq::new(rows.len(), |i: int| views(rows[i]@))
}

impl View for QueryOutcome {
    type V = OutcomeView;

    open spec fn view(&self) -> OutcomeView {
        OutcomeView { vars: views(self.vars@), rows: cell_rows(self.rows@) }
    }
}

/// The variables of bindings, each where it comes first.
pub open spec fn variables_of(flat: Seq<BindingView>) -> Seq<Seq<char>>
    decreases flat.len(),
{
    if flat.len() == 0 {
        Seq::empty()
    } else {
        let before = variables_of(flat.drop_last());
        if before.contains(flat.last().variable) {
            before
        } else {
            before.push(flat.last().variable)
        }
    }
}

fn take_variables(flat: &Vec<Binding>) -> (r: Vec<String>)
    ensures
        views(r@) == variables_of(views(flat@)),
{
    broadcast use views_push;

    let ghost all = views(flat@);
    let mut vars: Vec<String> = Vec::new();
    proof {
        assert(views(vars@) =~= variables_of(all.take(0)));
    }
    for i in 0..flat.len()
        invariant
            all == views(flat@),
            views(vars@) == variables_of(all.take(i as int)),
    {
        proof {
            assert(all.take(i + 1).drop_last() =~= all.take(i as int));
            assert(all.take(i + 1).last() == flat@[i as int]@);
        }
        if !has_text(&vars, &flat[i].variable) {
            vars.push(flat[i].variable.clone());
        }
    }
    proof {
        assert(all.take(all.len() as int) =~= all);
    }
    vars
}

/// The cells of a row.
pub open spec fn row_cells(row: Seq<BindingView>) -> Seq<(Seq<char>, CellView)> {
    Seq::new(row.len(), |i: int| (row[i].variable, cell_of(row[i].value)))
}

fn take_cells(row: &Vec<Binding>) -> (r: Vec<(String, Cell)>)
    ensures
        views(r@) == row_cells(views(row@)),
{
    let mut cells: Vec<(String, Cell)> = Vec::new();
    for i in 0..row.len()
        invariant
            cells@.len() == i,
            forall|j: int|
                0 <= j < i ==> (#[trigger] cells@[j]).0@ == row@[j]@.variable && cells@[j].1@ == cell_of(
                    row@[j]@.value,
                ),
    {
        cells.push((row[i].variable.clone(), value_to_cell(&row[i].value)));
    }
    proof {
        assert(views(cells@) =~= row_cells(views(row@)));
    }
    cells
}

/// What a flat list of bindings gives.
pub open spec fn outcome_of(flat: Seq<BindingView>) -> OutcomeView {
    OutcomeView {
        vars: variables_of(flat),
        rows: Seq::new(grouped(flat).len(), |i: int| row_cells(grouped(flat)[i])),
    }
}

pub fn flat_to_outcome(flat: Vec<Binding>) -> (r: QueryOutcome)
    ensures
        r@ == outcome_of(views(flat@)),
{
    let ghost all = views(flat@);
    let vars = take_variables(&flat);
    let grouped_rows = group_bindings_into_rows(flat);
    let mut rows: Vec<Vec<(String, Cell)>> = Vec::new();
    for i in 0..grouped_rows.len()
        invariant
            row_views(grouped_rows@) == grouped(all),
            rows@.len() == i,
            forall|j: int| 0 <= j < i ==> views((#[trigger] rows@[j])@) == row_cells(grouped(all)[j]),
    {
        proof {
            assert(row_views(grouped_rows@)[i as int] == views(grouped_rows@[i as int]@));
        }
        rows.push(take_cells(&grouped_rows[i]));
    }
    proof {
        assert(cell_rows(rows@) =~= outcome_of(all).rows);
    }
    QueryOutcome { vars, rows }
}

/// A statement as a row.
pub open spec fn quad_cells(q: QuadView) -> Seq<(Seq<char>, CellView)> {
    seq![("s"@, cell_of(q.subject)), ("p"@, cell_of(q.predicate)), ("o"@, cell_of(q.object))]
}

/// What a query's result gives a `sparql_query` step.
pub open spec fn query_outcome(result: QueryResultView) -> Result<OutcomeView, Seq<char>> {
    match result {
        QueryResultView::Bindings(flat) => Ok(outcome_of(flat)),
        QueryResultView::Quads(quads) => Ok(
            OutcomeView {
                vars: seq!["s"@, "p"@, "o"@],
                rows: Seq::new(quads.len(), |i: int| quad_cells(quads[i])),
            },
        ),
        QueryResultView::Boolean(_) => Err("sparql_query: ASK result — use a `condition` step instead"@),
    }
}

pub open spec fn outcome_or_error(r: Result<QueryOutcome, String>) -> Result<OutcomeView, Seq<char>> {
    match r {
        Ok(o) => Ok(o@),
        Err(e) => Err(e@),
    }
}

pub fn to_outcome(result: QueryResult) -> (r: Result<QueryOutcome, String>)
    ensures
        outcome_or_error(r) == query_outcome(result@),
{
    match result {
        QueryResult::Bindings(flat) => Ok(flat_to_outcome(flat)),
        QueryResult::Quads(quads) => {
            let mut rows: Vec<Vec<(String, Cell)>> = Vec::new();
            for i in 0..quads.len()
                invariant
                    rows@.len() == i,
                    forall|j: int| 0 <= j < i ==> views((#[trigger] rows@[j])@) == quad_cells(quads@[j]@),
            {
                let row = vec![
                    ("s".to_owned(), value_to_cell(&quads[i].subject)),
                    ("p".to_owned(), value_to_cell(&quads[i].predicate)),
                    ("o".to_owned(), value_to_cell(&quads[i].object)),
                ];
                proof {
                    assert(views(row@) =~= quad_cells(quads@[i as int]@));
                }
                rows.push(row);
            }
            let vars = vec!["s".to_owned(), "p".to_owned(), "o".to_owned()];
            let o = QueryOutcome { vars, rows };
            proof {
                assert(o@.vars =~= seq!["s"@, "p"@, "o"@]);
                assert(o@.rows =~= query_outcome(result@)->Ok_0.rows);
            }
            Ok(o)
        },
        QueryResult::Boolean(_) => Err("sparql_query: ASK result — use a `condition` step instead".to_owned()),
    }
}

/// What a query's result says as an answer to an ASK: the verdict, or whether
/// there is anything at all.
pub open spec fn verdict(result: QueryResultView) -> bool {
    match result {
        QueryResultView::Boolean(b) => b,
        QueryResultView::Bindings(flat) => flat.len() > 0,
        QueryResultView::Quads(quads) => quads.len() > 0,
    }
}

pub fn ask_verdict(result: &QueryResult) -> (r: bool)
    ensures
        r == verdict(result@),
{
    match result {
        QueryResult::Boolean(b) => *b,
        QueryResult::Bindings(flat) => flat.len() > 0,
        QueryResult::Quads(quads) => quads.len() > 0,
    }
}

/// The arguments of a call: the step's argument, if it has one.
pub open spec fn call_args(arg: Option<Seq<char>>) -> Seq<TermView> {
    match arg {
        Some(text) => seq![crate::rdf::typed(text, XSD_STRING@)],
        None => Seq::empty(),
    }
}

pub fn wasm_args(arg: &Option<String>) -> (r: Vec<Term>)
    ensures
        views(r@) == call_args(opt_view(*arg)),
{
    let mut args: Vec<Term> = Vec::new();
    match arg {
        Some(text) => args.push(typed_literal(text, XSD_STRING)),
        None => {},
    }
    proof {
        assert(views(args@) =~= call_args(opt_view(*arg)));
    }
    args
}

// ---------------------------------------------------------------------------
// As a VALUES clause
// ---------------------------------------------------------------------------

/// The cell under a name.
pub open spec fn cell_in(row: Seq<(Seq<char>, CellView)>, name: Seq<char>) -> Option<CellView>
    decreases row.len(),
{
    if row.len() == 0 {
        None
    } else if row[0].0 == name {
        Some(row[0].1)
    } else {
        cell_in(row.drop_first(), name)
    }
}

pub fn find_cell<'a>(row: &'a Vec<(String, Cell)>, name: &str) -> (r: Option<&'a Cell>)
    ensures
        match r {
            Some(c) => cell_in(views(row@), name@) == Some(c@),
            None => cell_in(views(row@), name@) is None,
        },
{
    let ghost all = views(row@);
    proof {
        assert(all.skip(0) =~= all);
    }
    for i in 0..row.len()
        invariant
            all == views(row@),
            cell_in(all, name@) == cell_in(all.skip(i as int), name@),
    {
        proof {
            assert(all.skip(i as int)[0] == row@[i as int]@);
            assert(all.skip(i as int).drop_first() =~= all.skip(i + 1));
        }
        if same(&row[i].0, name) {
            return Some(&row[i].1);
        }
    }
    None
}

/// The text of a variable's cell in a row.
pub open spec fn cell_text(row: Seq<(Seq<char>, CellView)>, name: Seq<char>) -> Seq<char> {
    match cell_in(row, name) {
        Some(c) => c.sparql(),
        None => "UNDEF"@,
    }
}

/// The texts of a row's cells, variable by variable.
pub open spec fn cell_texts(vars: Seq<Seq<char>>, row: Seq<(Seq<char>, CellView)>) -> Seq<Seq<char>> {
    Seq::new(vars.len(), |i: int| cell_text(row, vars[i]))
}

/// The rows of a VALUES clause.
pub open spec fn values_rows(vars: Seq<Seq<char>>, rows: Seq<Seq<(Seq<char>, CellView)>>) -> Seq<char>
    decreases rows.len(),
{
    if rows.len() == 0 {
        Seq::empty()
    } else {
        values_rows(vars, rows.drop_last()) + " ("@ + joined(cell_texts(vars, rows.last()), " "@) + ")"@
    }
}

/// The names of the variables.
pub open spec fn marked(vars: Seq<Seq<char>>) -> Seq<Seq<char>> {
    Seq::new(vars.len(), |i: int| "?"@ + vars[i])
}

/// An outcome as a VALUES clause.
pub open spec fn values_clause(o: OutcomeView) -> Seq<char> {
    "VALUES ("@ + joined(marked(o.vars), " "@) + ") {"@ + values_rows(o.vars, o.rows) + " }"@
}

pub fn render_values_clause(oc: &QueryOutcome) -> (r: String)
    ensures
        r@ == values_clause(oc@),
{
    let ghost vars = views(oc.vars@);
    let ghost rows = cell_rows(oc.rows@);
    let mut names: Vec<String> = Vec::new();
    for i in 0..oc.vars.len()
        invariant
            vars == views(oc.vars@),
            names@.len() == i,
            forall|j: int| 0 <= j < i ==> (#[trigger] names@[j])@ == "?"@ + vars[j],
    {
        names.push("?".to_owned().concat(&oc.vars[i]));
    }
    proof {
        assert(views(names@) =~= marked(vars));
    }
    let mut body = String::new();
    proof {
        assert(body@ =~= values_rows(vars, rows.take(0)));
    }
    for i in 0..oc.rows.len()
        invariant
            vars == views(oc.vars@),
            rows == cell_rows(oc.rows@),
            body@ == values_rows(vars, rows.take(i as int)),
    {
        let mut texts: Vec<String> = Vec::new();
        for k in 0..oc.vars.len()
            invariant
                vars == views(oc.vars@),
                rows == cell_rows(oc.rows@),
                i < oc.rows@.len(),
                texts@.len() == k,
                forall|j: int| 0 <= j < k ==> (#[trigger] texts@[j])@ == cell_text(rows[i as int], vars[j]),
        {
            proof {
                assert(rows[i as int] == views(oc.rows@[i as int]@));
            }
            let text = match find_cell(&oc.rows[i], &oc.vars[k]) {
                Some(c) => c.as_sparql(),
                None => "UNDEF".to_owned(),
            };
            texts.push(text);
        }
        proof {
            assert(views(texts@) =~= cell_texts(vars, rows[i as int]));
            assert(rows.take(i + 1).drop_last() =~= rows.take(i as int));
        }
        body.append(" (");
        body.append(&join(&texts, " "));
        body.append(")");
    }
    proof {
        assert(rows.take(rows.len() as int) =~= rows);
    }
    "VALUES (".to_owned().concat(&join(&names, " ")).concat(") {").concat(&body).concat(" }")
}

} // verus!

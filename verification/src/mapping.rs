//! `wf_map`: calls another component on the first cell of each row of a query,
//! and packs what the calls give into a JSON array, in the order of the rows.

use vstd::prelude::*;
use vstd::string::*;

use crate::guest::{describes, never_constructed, never_constructed_text, one_function, unknown_function,
    unknown_function_text, FunctionDescriptor};
use crate::host::{fail, failure, give_up, given_up, Reply, ReplyView, Request, RequestView};
use crate::json::{all_wf, array_view, array_wf, finite_real, integer, integer_json, json_text, to_finite_real, Json,
    JsonView};
use crate::number::{decimal_of, decimal_usize, i64_of, parse_i64};
use crate::order::turned;
use crate::rdf::{group_bindings_into_rows, grouped, grouping_keeps_bindings, json_literal, row_views, show, shown,
    typed, Binding, BindingView, LiteralView, QueryResult, QueryResultView, Term, TermView, RDF_JSON};
use crate::text::{ends_with, opt_view, same, views, views_push};

verus! {

pub const COMPONENT: &'static str = "wf_map";

// ---------------------------------------------------------------------------
// Arguments
// ---------------------------------------------------------------------------

/// What to call, and the query for the rows.
pub struct Job {
    pub url: String,
    pub sparql: String,
}

pub open spec fn job_view(r: Result<Job, String>) -> Result<(Seq<char>, Seq<char>), Seq<char>> {
    match r {
        Ok(job) => Ok((job.url@, job.sparql@)),
        Err(e) => Err(e@),
    }
}

/// The text of a name or a literal.
pub open spec fn plain(t: TermView) -> Option<Seq<char>> {
    match t {
        TermView::NamedNode(iri) => Some(iri),
        TermView::Literal(l) => Some(l.value),
        _ => None,
    }
}

fn to_plain(t: &Term) -> (r: Option<String>)
    ensures
        opt_view(r) == plain(t@),
{
    match t {
        Term::NamedNode(iri) => Some(iri.clone()),
        Term::Literal(l) => Some(l.value.clone()),
        _ => None,
    }
}

/// The job that the arguments of a call give.
pub open spec fn job_of(args: Seq<TermView>) -> Result<(Seq<char>, Seq<char>), Seq<char>> {
    if args.len() != 2 {
        Err("wf_map: expected 2 args (wasm URL, inner SPARQL), got "@ + decimal_of(args.len()))
    } else {
        match plain(args[0]) {
            None => Err("wf_map: first arg must be an IRI or string, got "@ + shown(args[0])),
            Some(url) => match plain(args[1]) {
                None => Err("wf_map: second arg must be a SPARQL string, got "@ + shown(args[1])),
                Some(sparql) => Ok((url, sparql)),
            },
        }
    }
}

pub fn read_args(args: &Vec<Term>) -> (r: Result<Job, String>)
    ensures
        job_view(r) == job_of(views(args@)),
{
    if args.len() != 2 {
        return Err(
            "wf_map: expected 2 args (wasm URL, inner SPARQL), got ".to_owned().concat(&decimal_usize(args.len())),
        );
    }
    proof {
        assert(views(args@)[0] == args@[0]@);
        assert(views(args@)[1] == args@[1]@);
    }
    match to_plain(&args[0]) {
        None => Err("wf_map: first arg must be an IRI or string, got ".to_owned().concat(&show(&args[0]))),
        Some(url) => match to_plain(&args[1]) {
            None => Err("wf_map: second arg must be a SPARQL string, got ".to_owned().concat(&show(&args[1]))),
            Some(sparql) => Ok(Job { url, sparql }),
        },
    }
}

// ---------------------------------------------------------------------------
// Values
// ---------------------------------------------------------------------------

pub open spec fn says_integer(datatype: Seq<char>) -> bool {
    "integer"@.is_suffix_of(datatype) || "long"@.is_suffix_of(datatype) || "int"@.is_suffix_of(datatype)
}

pub open spec fn says_real(datatype: Seq<char>) -> bool {
    "decimal"@.is_suffix_of(datatype) || "double"@.is_suffix_of(datatype) || "float"@.is_suffix_of(datatype)
}

/// The flag that a text spells.
pub open spec fn flag(text: Seq<char>) -> Option<bool> {
    if text == "true"@ || text == "1"@ {
        Some(true)
    } else if text == "false"@ || text == "0"@ {
        Some(false)
    } else {
        None
    }
}

/// A literal as a value: a number or a flag where the datatype says so and the
/// text spells one, the text otherwise.
pub open spec fn literal_scalar(l: LiteralView) -> JsonView {
    let datatype = match l.datatype {
        Some(d) => d,
        None => ""@,
    };
    if says_integer(datatype) && i64_of(l.value) is Some {
        integer(i64_of(l.value)->0)
    } else if says_real(datatype) && finite_real(l.value) is Some {
        finite_real(l.value)->0
    } else if "boolean"@.is_suffix_of(datatype) && flag(l.value) is Some {
        JsonView::Bool(flag(l.value)->0)
    } else {
        JsonView::Text(l.value)
    }
}

/// A term as a value.
pub open spec fn scalar(t: TermView) -> JsonView {
    match t {
        TermView::NamedNode(iri) => JsonView::Text(iri),
        TermView::BlankNode(label) => JsonView::Text("_:"@ + label),
        TermView::Literal(l) => literal_scalar(l),
        TermView::Triple(_) => JsonView::Text("<<quoted-triple>>"@),
    }
}

pub fn term_to_json_scalar(v: &Term) -> (r: Json)
    ensures
        r@ == scalar(v@),
        r@.wf(),
{
    match v {
        Term::NamedNode(iri) => Json::text(iri),
        Term::BlankNode(label) => Json::Text("_:".to_owned().concat(label)),
        Term::Literal(l) => {
            let datatype: &str = match &l.datatype {
                Some(d) => d.as_str(),
                None => "",
            };
            if ends_with(datatype, "integer") || ends_with(datatype, "long") || ends_with(datatype, "int") {
                match parse_i64(&l.value) {
                    Some(n) => {
                        return integer_json(n);
                    },
                    None => {},
                }
            }
            if ends_with(datatype, "decimal") || ends_with(datatype, "double") || ends_with(datatype, "float") {
                match to_finite_real(&l.value) {
                    Some(n) => {
                        return n;
                    },
                    None => {},
                }
            }
            if ends_with(datatype, "boolean") {
                if same(&l.value, "true") || same(&l.value, "1") {
                    return Json::Bool(true);
                }
                if same(&l.value, "false") || same(&l.value, "0") {
                    return Json::Bool(false);
                }
            }
            Json::text(&l.value)
        },
        Term::Triple(_) => Json::text("<<quoted-triple>>"),
    }
}

/// The value of the first binding; null where there is none.
pub open spec fn first_scalar(flat: Seq<BindingView>) -> JsonView {
    if flat.len() == 0 {
        JsonView::Null
    } else {
        scalar(flat[0].value)
    }
}

pub fn first_scalar_of(flat: &Vec<Binding>) -> (r: Json)
    ensures
        r@ == first_scalar(views(flat@)),
        r@.wf(),
{
    if flat.len() == 0 {
        Json::Null
    } else {
        proof {
            assert(views(flat@)[0] == flat@[0]@);
        }
        term_to_json_scalar(&flat[0].value)
    }
}

/// The first cell of each row.
pub open spec fn first_cells(rows: Seq<Seq<BindingView>>) -> Seq<TermView> {
    Seq::new(rows.len(), |i: int| rows[i][0].value)
}

fn take_first_cells(flat: Vec<Binding>) -> (r: Vec<Term>)
    ensures
        views(r@) == first_cells(grouped(views(flat@))),
{
    let ghost all = views(flat@);
    let rows = group_bindings_into_rows(flat);
    let mut cells: Vec<Term> = Vec::new();
    for i in 0..rows.len()
        invariant
            row_views(rows@) == grouped(all),
            cells@.len() == i,
            forall|j: int| 0 <= j < i ==> (#[trigger] cells@[j])@ == grouped(all)[j][0].value,
    {
        proof {
            grouping_keeps_bindings(all);
            assert(grouped(all)[i as int] == views(rows@[i as int]@));
            assert(views(rows@[i as int]@)[0] == rows@[i as int]@[0]@);
        }
        cells.push(rows[i][0].value.clone());
    }
    proof {
        assert(views(cells@) =~= first_cells(grouped(all)));
    }
    cells
}

// ---------------------------------------------------------------------------
// The call
// ---------------------------------------------------------------------------

/// How far a call has come: what it waits for.
pub enum Stage {
    Rows,
    /// What the called component gives for a cell: the cells still to come,
    /// last first, and the values of those before.
    Mapping(Vec<Term>, Vec<Json>),
    /// Nothing: the call has finished.
    Over,
}

pub enum StageView {
    Rows,
    Mapping(Seq<TermView>, Seq<JsonView>),
    Over,
}

impl View for Stage {
    type V = StageView;

    open spec fn view(&self) -> StageView {
        match self {
            Stage::Rows => StageView::Rows,
            Stage::Mapping(ahead, done) => StageView::Mapping(views(ahead@).reverse(), views(done@)),
            Stage::Over => StageView::Over,
        }
    }
}

impl StageView {
    /// Whether every value of the stage is well-formed.
    pub open spec fn wf(self) -> bool {
        match self {
            StageView::Mapping(_, done) => all_wf(done),
            _ => true,
        }
    }
}

/// The result of a call: the values as an array.
pub open spec fn packed(done: Seq<JsonView>) -> RequestView {
    RequestView::Finish(Ok(typed(json_text(JsonView::Array(done)), RDF_JSON@)))
}

/// The call for the next cell; behind the last, the result.
pub open spec fn mapped_on(url: Seq<char>, ahead: Seq<TermView>, done: Seq<JsonView>) -> (StageView, RequestView) {
    if ahead.len() == 0 {
        (StageView::Over, packed(done))
    } else {
        (StageView::Mapping(ahead.drop_first(), done), RequestView::Invoke(url, seq![ahead[0]]))
    }
}

fn map_on(url: &str, ahead: Vec<Term>, done: Vec<Json>) -> (r: (Stage, Request))
    requires
        all_wf(views(done@)),
    ensures
        (r.0@, r.1@) == mapped_on(url@, views(ahead@).reverse(), views(done@)),
        r.0@.wf(),
{
    broadcast use array_view;

    let ghost all = views(ahead@).reverse();
    let mut ahead = ahead;
    match ahead.pop() {
        Some(cell) => {
            let args = vec![cell];
            proof {
                assert(all[0] == cell@);
                assert(all.drop_first() =~= views(ahead@).reverse());
                assert(views(args@) =~= seq![cell@]);
            }
            (Stage::Mapping(ahead, done), Request::Invoke(url.to_owned(), args))
        },
        None => {
            proof {
                array_wf(views(done@));
            }
            let payload = Json::Array(done).render();
            (Stage::Over, Request::Finish(Ok(json_literal(&payload))))
        },
    }
}

/// The first request of a call.
pub fn begin(job: &Job) -> (r: (Stage, Request))
    ensures
        (r.0@, r.1@) == (StageView::Rows, RequestView::Query(job.sparql@)),
{
    (Stage::Rows, Request::Query(job.sparql.clone()))
}

/// What a reply leads to.
pub open spec fn next(job: Job, stage: StageView, reply: ReplyView) -> (StageView, RequestView) {
    match (stage, reply) {
        (StageView::Rows, ReplyView::Result(result)) => match result {
            QueryResultView::Bindings(flat) => mapped_on(job.url@, first_cells(grouped(flat)), Seq::empty()),
            QueryResultView::Quads(_) => (
                StageView::Over,
                failure("wf_map: inner query returned CONSTRUCT-shape result"@),
            ),
            QueryResultView::Boolean(_) => (
                StageView::Over,
                failure("wf_map: inner query returned ASK-shape result"@),
            ),
        },
        (StageView::Mapping(ahead, done), ReplyView::Bindings(flat)) => mapped_on(
            job.url@,
            ahead,
            done.push(first_scalar(flat)),
        ),
        (_, reply) => (StageView::Over, given_up(COMPONENT@, reply)),
    }
}

/// Moves a call on with the host's reply.
pub fn step(job: &Job, stage: Stage, reply: Reply) -> (r: (Stage, Request))
    requires
        stage@.wf(),
    ensures
        (r.0@, r.1@) == next(*job, stage@, reply@),
        r.0@.wf(),
{
    broadcast use views_push;

    match stage {
        Stage::Rows => match reply {
            Reply::Result(result) => match result {
                QueryResult::Bindings(flat) => {
                    let cells = take_first_cells(flat);
                    let ahead = turned(cells);
                    let done: Vec<Json> = Vec::new();
                    proof {
                        assert(views(ahead@).reverse() =~= views(cells@));
                        assert(views(done@) =~= Seq::empty());
                    }
                    map_on(&job.url, ahead, done)
                },
                QueryResult::Quads(_) => (
                    Stage::Over,
                    fail("wf_map: inner query returned CONSTRUCT-shape result".to_owned()),
                ),
                QueryResult::Boolean(_) => (
                    Stage::Over,
                    fail("wf_map: inner query returned ASK-shape result".to_owned()),
                ),
            },
            other => (Stage::Over, give_up(COMPONENT, other)),
        },
        Stage::Mapping(ahead, done) => match reply {
            Reply::Bindings(flat) => {
                let value = first_scalar_of(&flat);
                let mut done = done;
                let ghost before = views(done@);
                done.push(value);
                proof {
                    let after = views(done@);
                    assert forall|i: int| 0 <= i < after.len() implies (#[trigger] after[i]).wf() by {
                        if i < before.len() {
                            assert(before[i].wf());
                        }
                    }
                }
                map_on(&job.url, ahead, done)
            },
            other => (Stage::Over, give_up(COMPONENT, other)),
        },
        Stage::Over => (Stage::Over, give_up(COMPONENT, reply)),
    }
}

// ---------------------------------------------------------------------------
// Laws
// ---------------------------------------------------------------------------

/// A call after `n` calls of the other component have been answered.
pub open spec fn after(
    job: Job,
    service: spec_fn(TermView) -> Seq<BindingView>,
    from: (StageView, RequestView),
    n: nat,
) -> (StageView, RequestView)
    decreases n,
{
    if n == 0 {
        from
    } else {
        match from.1 {
            RequestView::Invoke(_, args) => after(
                job,
                service,
                next(job, from.0, ReplyView::Bindings(service(args[0]))),
                (n - 1) as nat,
            ),
            _ => from,
        }
    }
}

/// The values of cells under a component that answers each cell in one way.
pub open spec fn image(service: spec_fn(TermView) -> Seq<BindingView>, cells: Seq<TermView>) -> Seq<JsonView> {
    Seq::new(cells.len(), |i: int| first_scalar(service(cells[i])))
}

/// Each row gives one value, in the order of the rows: the array holds what the
/// component gives for the first cell of each.
pub proof fn rows_map_in_order(
    job: Job,
    service: spec_fn(TermView) -> Seq<BindingView>,
    flat: Seq<BindingView>,
)
    ensures
        ({
            let cells = first_cells(grouped(flat));
            let start = next(job, StageView::Rows, ReplyView::Result(QueryResultView::Bindings(flat)));
            after(job, service, start, cells.len()) == (StageView::Over, packed(image(service, cells)))
        }),
{
    let cells = first_cells(grouped(flat));
    cells_map_in_order(job, service, cells, Seq::empty());
    assert(Seq::<JsonView>::empty() + image(service, cells) =~= image(service, cells));
}

proof fn cells_map_in_order(
    job: Job,
    service: spec_fn(TermView) -> Seq<BindingView>,
    cells: Seq<TermView>,
    done: Seq<JsonView>,
)
    ensures
        after(job, service, mapped_on(job.url@, cells, done), cells.len()) == (
            StageView::Over,
            packed(done + image(service, cells)),
        ),
    decreases cells.len(),
{
    if cells.len() == 0 {
        assert(done + image(service, cells) =~= done);
    } else {
        let value = first_scalar(service(cells[0]));
        let rest = cells.drop_first();
        cells_map_in_order(job, service, rest, done.push(value));
        assert(done.push(value) + image(service, rest) =~= done + image(service, cells));
        assert(seq![cells[0]][0] == cells[0]);
    }
}

// ---------------------------------------------------------------------------
// The component
// ---------------------------------------------------------------------------

pub fn register() -> (r: Vec<FunctionDescriptor>)
    ensures
        r@.len() == 1,
        describes(r@[0], "wf_map"@, 2),
{
    one_function("wf_map", 2)
}

/// Whether the component offers the function.
pub fn offers(name: &str) -> (r: Result<(), String>)
    ensures
        r is Ok <==> name@ == "wf_map"@,
        r matches Err(e) ==> e@ == unknown_function_text(COMPONENT@, name@),
{
    if same(name, "wf_map") {
        Ok(())
    } else {
        Err(unknown_function(COMPONENT, name))
    }
}

/// The state of an aggregate. The component has none, so none is ever made.
pub struct UnreachableState;

impl UnreachableState {
    pub fn step(&self, args: Vec<Term>) -> (r: Result<(), String>)
        ensures
            r matches Err(e) && e@ == never_constructed_text(COMPONENT@),
    {
        Err(never_constructed(COMPONENT))
    }

    pub fn finish(&self) -> (r: Result<Term, String>)
        ensures
            r matches Err(e) && e@ == never_constructed_text(COMPONENT@),
    {
        Err(never_constructed(COMPONENT))
    }
}

} // verus!

//! The engine that runs a rule, once or until the graph no longer grows.

use vstd::prelude::*;
use vstd::string::*;

use crate::host::{fail, failure, give_up, given_up, Reply, ReplyView, Request, RequestView};
use crate::json::{json_text, no_fields, no_fields_wf, object_view, put_field, put_wf, Fields, Json, JsonView};
use crate::number::{decimal_of, decimal_usize, parse_u64, u64_of};
use crate::order::turned;
use crate::rdf::{find_value, group_bindings_into_rows, grouped, json_literal, row_views, term_sparql, term_to_sparql,
    typed, value_in, Binding, BindingView, Quad, QuadView, QueryResult, QueryResultView, Term, TermView, RDF_JSON};
use crate::text::{concatenated, concatenated_push, opt_view, same, views, views_push};

verus! {

/// How many statements are inserted at a time.
pub const BATCH_SIZE: usize = 500;

/// A rule. Its query is given as a whole, or by the patterns that it matches
/// and the statements that it derives.
pub struct Rule {
    pub name: String,
    pub construct: Option<String>,
    pub if_clause: Option<String>,
    pub then_clause: Option<String>,
    pub prefixes: Option<String>,
    /// The graph that takes the derived statements.
    pub graph: String,
    pub refresh_mode: String,
    /// Whether the rule is run until the graph no longer grows.
    pub iterate: bool,
    pub max_iterations: u32,
}

/// What happens to the graph's old statements where nothing is said.
pub fn default_refresh() -> (r: String)
    ensures
        r@ == "replace"@,
{
    "replace".to_owned()
}

/// How often a rule is run at most where nothing is said.
pub fn default_max_iterations() -> (r: u32)
    ensures
        r == 100,
{
    100
}

// ---------------------------------------------------------------------------
// Arguments
// ---------------------------------------------------------------------------

/// The rule's text among the arguments of a function.
pub open spec fn literal_of(args: Seq<TermView>, function: Seq<char>) -> Result<Seq<char>, Seq<char>> {
    if args.len() != 1 {
        Err(function + ": expected 1 argument (rule-json string literal), got "@ + decimal_of(args.len()))
    } else {
        match args[0] {
            TermView::Literal(l) => Ok(l.value),
            TermView::NamedNode(_) => Err(function + ": argument must be a string literal, got IRI"@),
            TermView::BlankNode(_) => Err(function + ": argument must be a string literal, got blank node"@),
            TermView::Triple(_) => Err(function + ": argument must be a string literal, got quoted triple"@),
        }
    }
}

pub open spec fn text_view(r: Result<String, String>) -> Result<Seq<char>, Seq<char>> {
    match r {
        Ok(text) => Ok(text@),
        Err(e) => Err(e@),
    }
}

pub fn require_literal(args: &Vec<Term>, function: &str) -> (r: Result<String, String>)
    ensures
        text_view(r) == literal_of(views(args@), function@),
{
    if args.len() != 1 {
        return Err(
            function.to_owned().concat(": expected 1 argument (rule-json string literal), got ").concat(
                &decimal_usize(args.len()),
            ),
        );
    }
    proof {
        assert(views(args@)[0] == args@[0]@);
    }
    match &args[0] {
        Term::Literal(l) => Ok(l.value.clone()),
        Term::NamedNode(_) => Err(function.to_owned().concat(": argument must be a string literal, got IRI")),
        Term::BlankNode(_) => Err(function.to_owned().concat(": argument must be a string literal, got blank node")),
        Term::Triple(_) => Err(function.to_owned().concat(": argument must be a string literal, got quoted triple")),
    }
}

// ---------------------------------------------------------------------------
// Queries and updates
// ---------------------------------------------------------------------------

/// The rule's query, or why it has none.
pub open spec fn construct_text(component: Seq<char>, rule: Rule) -> Result<Seq<char>, Seq<char>> {
    match (rule.construct, rule.if_clause, rule.then_clause) {
        (Some(q), None, None) => Ok(q@),
        (Some(_), _, _) => Err(
            component + ": rule `"@ + rule.name@ + "` sets both `construct` and `if`/`then`; pick one"@,
        ),
        (None, Some(given), Some(derived)) => {
            let prefix = match rule.prefixes {
                Some(p) => p@ + "\n"@,
                None => ""@,
            };
            Ok(prefix + "CONSTRUCT { "@ + derived@ + " } WHERE { "@ + given@ + " }"@)
        },
        (None, None, None) => Err(
            component + ": rule `"@ + rule.name@ + "` has neither `construct` nor `if`/`then`"@,
        ),
        (None, _, _) => Err(
            component + ": rule `"@ + rule.name@ + "` uses SRS sugar but is missing one of `if` / `then`"@,
        ),
    }
}

impl Rule {
    /// The rule's query, or why it has none.
    pub fn construct_sparql(&self, component: &str) -> (r: Result<String, String>)
        ensures
            text_view(r) == construct_text(component@, *self),
    {
        match &self.construct {
            Some(q) => {
                if self.if_clause.is_some() || self.then_clause.is_some() {
                    Err(
                        component.to_owned().concat(": rule `").concat(&self.name).concat(
                            "` sets both `construct` and `if`/`then`; pick one",
                        ),
                    )
                } else {
                    Ok(q.clone())
                }
            },
            None => match &self.if_clause {
                Some(given) => match &self.then_clause {
                    Some(derived) => {
                        let prefix = match &self.prefixes {
                            Some(p) => p.clone().concat("\n"),
                            None => "".to_owned(),
                        };
                        Ok(
                            prefix.concat("CONSTRUCT { ").concat(derived).concat(" } WHERE { ").concat(given).concat(
                                " }",
                            ),
                        )
                    },
                    None => Err(half_given(component, &self.name)),
                },
                None => match &self.then_clause {
                    Some(_) => Err(half_given(component, &self.name)),
                    None => Err(
                        component.to_owned().concat(": rule `").concat(&self.name).concat(
                            "` has neither `construct` nor `if`/`then`",
                        ),
                    ),
                },
            },
        }
    }
}

fn half_given(component: &str, name: &str) -> (r: String)
    ensures
        r@ == component@ + ": rule `"@ + name@ + "` uses SRS sugar but is missing one of `if` / `then`"@,
{
    component.to_owned().concat(": rule `").concat(name).concat(
        "` uses SRS sugar but is missing one of `if` / `then`",
    )
}

/// The query for a graph's size.
pub open spec fn size_text(graph: Seq<char>) -> Seq<char> {
    "SELECT (COUNT(*) AS ?n) WHERE { GRAPH <"@ + graph + "> { ?s ?p ?o } }"@
}

fn size_query(graph: &str) -> (r: String)
    ensures
        r@ == size_text(graph@),
{
    "SELECT (COUNT(*) AS ?n) WHERE { GRAPH <".to_owned().concat(graph).concat("> { ?s ?p ?o } }")
}

/// The number that a result gives, zero where it gives none.
pub open spec fn size_in(result: QueryResultView) -> u64 {
    match result {
        QueryResultView::Bindings(flat) => match value_in(flat, "n"@) {
            Some(TermView::Literal(l)) => match u64_of(l.value) {
                Some(n) => n,
                None => 0,
            },
            _ => 0,
        },
        _ => 0,
    }
}

pub fn read_size(result: &QueryResult) -> (r: u64)
    ensures
        r == size_in(result@),
{
    match result {
        QueryResult::Bindings(flat) => match find_value(flat, "n") {
            Some(t) => match t {
                Term::Literal(l) => match parse_u64(&l.value) {
                    Some(n) => n,
                    None => 0,
                },
                _ => 0,
            },
            None => 0,
        },
        _ => 0,
    }
}

/// The update that empties a graph.
pub open spec fn clear_text(graph: Seq<char>) -> Seq<char> {
    "CLEAR SILENT GRAPH <"@ + graph + ">"@
}

/// The update that inserts statements into a graph.
pub open spec fn insert_text(graph: Seq<char>, triples: Seq<char>) -> Seq<char> {
    "INSERT DATA { GRAPH <"@ + graph + "> { "@ + triples + " } }"@
}

fn insert_update(graph: &str, triples: &str) -> (r: String)
    ensures
        r@ == insert_text(graph@, triples@),
{
    "INSERT DATA { GRAPH <".to_owned().concat(graph).concat("> { ").concat(triples).concat(" } }")
}

// ---------------------------------------------------------------------------
// Statements
// ---------------------------------------------------------------------------

/// The last value that a row binds to one of two variables.
pub open spec fn either_in(row: Seq<BindingView>, short: Seq<char>, long: Seq<char>) -> Option<TermView>
    decreases row.len(),
{
    if row.len() == 0 {
        None
    } else if row.last().variable == short || row.last().variable == long {
        Some(row.last().value)
    } else {
        either_in(row.drop_last(), short, long)
    }
}

fn find_either(row: &Vec<Binding>, short: &str, long: &str) -> (r: Option<Term>)
    ensures
        opt_view(r) == either_in(views(row@), short@, long@),
{
    let ghost all = views(row@);
    let mut at: usize = row.len();
    proof {
        assert(all.take(at as int) =~= all);
    }
    while at > 0
        invariant
            at <= row@.len(),
            all == views(row@),
            either_in(all, short@, long@) == either_in(all.take(at as int), short@, long@),
        decreases at,
    {
        proof {
            assert(all.take(at as int).last() == row@[at - 1]@);
            assert(all.take(at as int).drop_last() =~= all.take(at - 1));
        }
        at -= 1;
        if same(&row[at].variable, short) || same(&row[at].variable, long) {
            return Some(row[at].value.clone());
        }
    }
    None
}

/// The statement that a row holds, if it names all three parts.
pub open spec fn row_quad(row: Seq<BindingView>) -> Option<QuadView> {
    match (
        either_in(row, "s"@, "subject"@),
        either_in(row, "p"@, "predicate"@),
        either_in(row, "o"@, "object"@),
    ) {
        (Some(subject), Some(predicate), Some(object)) => Some(
            QuadView { subject, predicate, object, graph: None },
        ),
        _ => None,
    }
}

/// The statements that rows hold.
pub open spec fn row_quads(rows: Seq<Seq<BindingView>>) -> Seq<QuadView>
    decreases rows.len(),
{
    if rows.len() == 0 {
        Seq::empty()
    } else {
        let before = row_quads(rows.drop_last());
        match row_quad(rows.last()) {
            Some(q) => before.push(q),
            None => before,
        }
    }
}

pub fn bindings_to_quads(flat: Vec<Binding>) -> (r: Vec<Quad>)
    ensures
        views(r@) == row_quads(grouped(views(flat@))),
{
    broadcast use views_push;

    let ghost all = grouped(views(flat@));
    let rows = group_bindings_into_rows(flat);
    let mut quads: Vec<Quad> = Vec::new();
    proof {
        assert(views(quads@) =~= row_quads(all.take(0)));
    }
    for i in 0..rows.len()
        invariant
            row_views(rows@) == all,
            views(quads@) == row_quads(all.take(i as int)),
    {
        proof {
            assert(all.take(i + 1).drop_last() =~= all.take(i as int));
            assert(all.take(i + 1).last() == views(rows@[i as int]@));
        }
        match (
            find_either(&rows[i], "s", "subject"),
            find_either(&rows[i], "p", "predicate"),
            find_either(&rows[i], "o", "object"),
        ) {
            (Some(subject), Some(predicate), Some(object)) => {
                quads.push(Quad { subject, predicate, object, graph: None });
            },
            _ => {},
        }
    }
    proof {
        assert(all.take(all.len() as int) =~= all);
    }
    quads
}

/// The statement's text.
pub open spec fn quad_line(q: QuadView) -> Seq<char> {
    term_sparql(q.subject) + " "@ + term_sparql(q.predicate) + " "@ + term_sparql(q.object) + " .\n"@
}

/// The texts of statements, one after the other.
pub open spec fn lines(quads: Seq<QuadView>) -> Seq<char>
    decreases quads.len(),
{
    if quads.len() == 0 {
        Seq::empty()
    } else {
        lines(quads.drop_last()) + quad_line(quads.last())
    }
}

/// The statements in batches, as texts.
pub open spec fn batches(quads: Seq<QuadView>) -> Seq<Seq<char>>
    decreases quads.len(),
{
    if quads.len() == 0 {
        Seq::empty()
    } else if quads.len() <= BATCH_SIZE {
        seq![lines(quads)]
    } else {
        seq![lines(quads.take(BATCH_SIZE as int))] + batches(quads.skip(BATCH_SIZE as int))
    }
}

/// The lines of a part of the statements.
fn write_lines(quads: &Vec<Quad>, from: usize, to: usize) -> (r: String)
    requires
        from <= to <= quads@.len(),
    ensures
        r@ == lines(views(quads@).subrange(from as int, to as int)),
{
    let ghost all = views(quads@);
    let mut text = String::new();
    proof {
        assert(text@ =~= lines(all.subrange(from as int, from as int)));
    }
    for i in from..to
        invariant
            to <= quads@.len(),
            all == views(quads@),
            text@ == lines(all.subrange(from as int, i as int)),
    {
        proof {
            let longer = all.subrange(from as int, i + 1);
            assert(longer.drop_last() =~= all.subrange(from as int, i as int));
            assert(longer.last() == quads@[i as int]@);
        }
        let line = term_to_sparql(&quads[i].subject).concat(" ").concat(&term_to_sparql(&quads[i].predicate)).concat(
            " ",
        ).concat(&term_to_sparql(&quads[i].object)).concat(" .\n");
        text.append(&line);
    }
    text
}

pub fn make_batches(quads: &Vec<Quad>) -> (r: Vec<String>)
    ensures
        views(r@) == batches(views(quads@)),
{
    broadcast use views_push;

    let ghost all = views(quads@);
    let mut out: Vec<String> = Vec::new();
    let mut at: usize = 0;
    proof {
        assert(all.skip(0) =~= all);
        assert(views(out@) + batches(all) =~= batches(all));
    }
    while at < quads.len()
        invariant
            at <= quads@.len(),
            all == views(quads@),
            views(out@) + batches(all.skip(at as int)) == batches(all),
        decreases quads@.len() - at,
    {
        let ghost rest = all.skip(at as int);
        let ghost before = views(out@);
        let end: usize = if quads.len() - at <= BATCH_SIZE {
            quads.len()
        } else {
            at + BATCH_SIZE
        };
        out.push(write_lines(quads, at, end));
        proof {
            if rest.len() <= BATCH_SIZE {
                assert(all.subrange(at as int, end as int) =~= rest);
                assert(all.skip(end as int) =~= Seq::empty());
                assert(before.push(lines(rest)) + batches(all.skip(end as int)) =~= before + batches(rest));
            } else {
                assert(all.subrange(at as int, end as int) =~= rest.take(BATCH_SIZE as int));
                assert(all.skip(end as int) =~= rest.skip(BATCH_SIZE as int));
                assert(before.push(lines(rest.take(BATCH_SIZE as int))) + batches(rest.skip(BATCH_SIZE as int))
                    =~= before + batches(rest));
            }
        }
        at = end;
    }
    proof {
        assert(all.skip(at as int) =~= Seq::empty());
        assert(views(out@) + batches(Seq::empty()) =~= views(out@));
    }
    out
}

// ---------------------------------------------------------------------------
// The run
// ---------------------------------------------------------------------------

/// What has been done so far: how often the rule was run, how many statements
/// it derived, and how large the graph was before, where the rule is repeated.
#[derive(Copy, Clone, Debug)]
pub struct Tally {
    pub iterations: u32,
    pub emitted: u64,
    pub size: Option<u64>,
}

/// How far a run has come: what it waits for.
pub enum Stage {
    /// The graph, to be emptied.
    Clearing,
    /// The size of the graph at the start.
    Starting,
    /// The derived statements.
    Constructing(Tally),
    /// The graph, to take a batch: the batches still to come, last first.
    Inserting(Tally, Vec<String>),
    /// The size of the graph.
    Measuring(Tally),
    /// Nothing: the run has finished.
    Over,
}

pub enum StageView {
    Clearing,
    Starting,
    Constructing(Tally),
    Inserting(Tally, Seq<Seq<char>>),
    Measuring(Tally),
    Over,
}

impl View for Stage {
    type V = StageView;

    open spec fn view(&self) -> StageView {
        match self {
            Stage::Clearing => StageView::Clearing,
            Stage::Starting => StageView::Starting,
            Stage::Constructing(t) => StageView::Constructing(*t),
            Stage::Inserting(t, ahead) => StageView::Inserting(*t, views(ahead@).reverse()),
            Stage::Measuring(t) => StageView::Measuring(*t),
            Stage::Over => StageView::Over,
        }
    }
}

pub open spec fn ends(request: RequestView) -> (StageView, RequestView) {
    (StageView::Over, request)
}

/// The summary of a run.
pub open spec fn summary(rule: Rule, iterations: u32, emitted: u64, size: u64) -> RequestView {
    RequestView::Finish(
        Ok(
            typed(
                json_text(
                    JsonView::Object(
                        no_fields().with("rule"@, JsonView::Text(rule.name@)).with(
                            "iterations"@,
                            JsonView::Unsigned(iterations as u64),
                        ).with("emitted_total"@, JsonView::Unsigned(emitted)).with(
                            "graph_size"@,
                            JsonView::Unsigned(size),
                        ),
                    ),
                ),
                RDF_JSON@,
            ),
        ),
    )
}

fn finish(rule: &Rule, iterations: u32, emitted: u64, size: u64) -> (r: (Stage, Request))
    ensures
        (r.0@, r.1@) == ends(summary(*rule, iterations, emitted, size)),
{
    broadcast use {no_fields_wf, put_wf, object_view};

    let mut fields: Vec<(String, Json)> = Vec::new();
    proof {
        assert(views(fields@) =~= no_fields());
    }
    put_field(&mut fields, "rule", Json::text(&rule.name));
    put_field(&mut fields, "iterations", Json::Unsigned(iterations as u64));
    put_field(&mut fields, "emitted_total", Json::Unsigned(emitted));
    put_field(&mut fields, "graph_size", Json::Unsigned(size));
    let text = Json::Object(fields).render();
    (Stage::Over, Request::Finish(Ok(json_literal(&text))))
}

/// The rule's query.
pub open spec fn constructed(component: Seq<char>, rule: Rule, t: Tally) -> (StageView, RequestView) {
    match construct_text(component, rule) {
        Ok(text) => (StageView::Constructing(t), RequestView::Query(text)),
        Err(e) => ends(failure(e)),
    }
}

fn construct(component: &str, rule: &Rule, t: Tally) -> (r: (Stage, Request))
    ensures
        (r.0@, r.1@) == constructed(component@, *rule, t),
{
    match rule.construct_sparql(component) {
        Ok(text) => (Stage::Constructing(t), Request::Query(text)),
        Err(e) => (Stage::Over, fail(e)),
    }
}

/// The start, once the graph is as it should be.
pub open spec fn started(component: Seq<char>, rule: Rule) -> (StageView, RequestView) {
    match construct_text(component, rule) {
        Err(e) => ends(failure(e)),
        Ok(_) => if rule.iterate {
            (StageView::Starting, RequestView::Query(size_text(rule.graph@)))
        } else {
            constructed(component, rule, Tally { iterations: 0, emitted: 0, size: None })
        },
    }
}

fn start(component: &str, rule: &Rule) -> (r: (Stage, Request))
    ensures
        (r.0@, r.1@) == started(component@, *rule),
{
    match rule.construct_sparql(component) {
        Err(e) => (Stage::Over, fail(e)),
        Ok(_) => if rule.iterate {
            (Stage::Starting, Request::Query(size_query(&rule.graph)))
        } else {
            construct(component, rule, Tally { iterations: 0, emitted: 0, size: None })
        },
    }
}

/// The first request of a run.
pub open spec fn begun(component: Seq<char>, rule: Rule) -> (StageView, RequestView) {
    if rule.refresh_mode@ == "replace"@ {
        (StageView::Clearing, RequestView::Update(clear_text(rule.graph@)))
    } else if rule.refresh_mode@ == "append"@ {
        started(component, rule)
    } else {
        ends(
            failure(
                component + ": unknown refresh_mode `"@ + rule.refresh_mode@ + "` (want replace | append)"@,
            ),
        )
    }
}

pub fn begin(component: &str, rule: &Rule) -> (r: (Stage, Request))
    ensures
        (r.0@, r.1@) == begun(component@, *rule),
{
    if same(&rule.refresh_mode, "replace") {
        (Stage::Clearing, Request::Update("CLEAR SILENT GRAPH <".to_owned().concat(&rule.graph).concat(">")))
    } else if same(&rule.refresh_mode, "append") {
        start(component, rule)
    } else {
        (
            Stage::Over,
            fail(
                component.to_owned().concat(": unknown refresh_mode `").concat(&rule.refresh_mode).concat(
                    "` (want replace | append)",
                ),
            ),
        )
    }
}

/// The next batch; behind the last, the size of the graph.
pub open spec fn inserted_on(rule: Rule, t: Tally, ahead: Seq<Seq<char>>) -> (StageView, RequestView) {
    if ahead.len() == 0 {
        (StageView::Measuring(t), RequestView::Query(size_text(rule.graph@)))
    } else {
        (
            StageView::Inserting(t, ahead.drop_first()),
            RequestView::Update(insert_text(rule.graph@, ahead[0])),
        )
    }
}

fn insert_on(rule: &Rule, t: Tally, ahead: Vec<String>) -> (r: (Stage, Request))
    ensures
        (r.0@, r.1@) == inserted_on(*rule, t, views(ahead@).reverse()),
{
    let ghost all = views(ahead@).reverse();
    let mut ahead = ahead;
    match ahead.pop() {
        None => (Stage::Measuring(t), Request::Query(size_query(&rule.graph))),
        Some(batch) => {
            proof {
                assert(all[0] == batch@);
                assert(all.drop_first() =~= views(ahead@).reverse());
            }
            let update = insert_update(&rule.graph, &batch);
            (Stage::Inserting(t, ahead), Request::Update(update))
        },
    }
}

/// The tally with a run of the rule that derived so many statements.
pub open spec fn tallied(t: Tally, emitted: nat) -> Tally {
    Tally {
        iterations: t.iterations.wrapping_add(1),
        emitted: t.emitted.wrapping_add(emitted as u64),
        size: t.size,
    }
}

/// What the derived statements lead to.
pub open spec fn derived(rule: Rule, t: Tally, quads: Seq<QuadView>) -> (StageView, RequestView) {
    inserted_on(rule, tallied(t, quads.len()), batches(quads))
}

fn derive(rule: &Rule, t: Tally, quads: &Vec<Quad>) -> (r: (Stage, Request))
    ensures
        (r.0@, r.1@) == derived(*rule, t, views(quads@)),
{
    let made = make_batches(quads);
    let n: usize = quads.len();
    let next = Tally {
        iterations: t.iterations.wrapping_add(1),
        emitted: t.emitted.wrapping_add(n as u64),
        size: t.size,
    };
    let ahead = turned(made);
    proof {
        assert(views(ahead@).reverse() =~= views(made@));
    }
    insert_on(rule, next, ahead)
}

/// What the size of the graph leads to: where the rule is repeated, another
/// run, unless the graph has not grown or the rule was run often enough.
pub open spec fn measured(component: Seq<char>, rule: Rule, t: Tally, size: u64) -> (StageView, RequestView) {
    match t.size {
        None => ends(summary(rule, t.iterations, t.emitted, size)),
        Some(before) => if size == before || t.iterations >= rule.max_iterations {
            ends(summary(rule, t.iterations, t.emitted, size))
        } else {
            constructed(component, rule, Tally { size: Some(size), ..t })
        },
    }
}

fn measure(component: &str, rule: &Rule, t: Tally, size: u64) -> (r: (Stage, Request))
    ensures
        (r.0@, r.1@) == measured(component@, *rule, t, size),
{
    match t.size {
        None => finish(rule, t.iterations, t.emitted, size),
        Some(before) => {
            if size == before || t.iterations >= rule.max_iterations {
                finish(rule, t.iterations, t.emitted, size)
            } else {
                construct(component, rule, Tally { iterations: t.iterations, emitted: t.emitted, size: Some(size) })
            }
        },
    }
}

/// What a reply leads to.
pub open spec fn next(component: Seq<char>, rule: Rule, stage: StageView, reply: ReplyView) -> (
    StageView,
    RequestView,
) {
    match (stage, reply) {
        (StageView::Clearing, ReplyView::Done) => started(component, rule),
        (StageView::Clearing, ReplyView::Failed(e)) => ends(
            failure(component + ": clear graph `"@ + rule.graph@ + "`: "@ + e),
        ),
        (StageView::Starting, ReplyView::Result(result)) => if rule.max_iterations > 0 {
            constructed(
                component,
                rule,
                Tally { iterations: 0, emitted: 0, size: Some(size_in(result)) },
            )
        } else {
            ends(summary(rule, 0, 0, size_in(result)))
        },
        (StageView::Constructing(t), ReplyView::Result(result)) => match result {
            QueryResultView::Quads(quads) => derived(rule, t, quads),
            QueryResultView::Bindings(flat) => derived(rule, t, row_quads(grouped(flat))),
            QueryResultView::Boolean(_) => ends(
                failure(component + ": CONSTRUCT unexpectedly returned boolean"@),
            ),
        },
        (StageView::Inserting(t, ahead), ReplyView::Done) => inserted_on(rule, t, ahead),
        (StageView::Inserting(_, _), ReplyView::Failed(e)) => ends(
            failure(component + ": insert batch: "@ + e),
        ),
        (StageView::Measuring(t), ReplyView::Result(result)) => measured(component, rule, t, size_in(result)),
        (_, reply) => ends(given_up(component, reply)),
    }
}

/// Moves a run on with the host's reply.
pub fn step(component: &str, rule: &Rule, stage: Stage, reply: Reply) -> (r: (Stage, Request))
    ensures
        (r.0@, r.1@) == next(component@, *rule, stage@, reply@),
{
    match stage {
        Stage::Clearing => match reply {
            Reply::Done => start(component, rule),
            Reply::Failed(e) => (
                Stage::Over,
                fail(
                    component.to_owned().concat(": clear graph `").concat(&rule.graph).concat("`: ").concat(&e),
                ),
            ),
            other => (Stage::Over, give_up(component, other)),
        },
        Stage::Starting => match reply {
            Reply::Result(result) => {
                let size: u64 = read_size(&result);
                if rule.max_iterations > 0 {
                    construct(component, rule, Tally { iterations: 0, emitted: 0, size: Some(size) })
                } else {
                    finish(rule, 0, 0, size)
                }
            },
            other => (Stage::Over, give_up(component, other)),
        },
        Stage::Constructing(t) => match reply {
            Reply::Result(result) => match result {
                QueryResult::Quads(quads) => derive(rule, t, &quads),
                QueryResult::Bindings(flat) => derive(rule, t, &bindings_to_quads(flat)),
                QueryResult::Boolean(_) => (
                    Stage::Over,
                    fail(component.to_owned().concat(": CONSTRUCT unexpectedly returned boolean")),
                ),
            },
            other => (Stage::Over, give_up(component, other)),
        },
        Stage::Inserting(t, ahead) => match reply {
            Reply::Done => insert_on(rule, t, ahead),
            Reply::Failed(e) => (Stage::Over, fail(component.to_owned().concat(": insert batch: ").concat(&e))),
            other => (Stage::Over, give_up(component, other)),
        },
        Stage::Measuring(t) => match reply {
            Reply::Result(result) => measure(component, rule, t, read_size(&result)),
            other => (Stage::Over, give_up(component, other)),
        },
        Stage::Over => (Stage::Over, give_up(component, reply)),
    }
}

// ---------------------------------------------------------------------------
// Laws
// ---------------------------------------------------------------------------

proof fn lines_add(a: Seq<QuadView>, b: Seq<QuadView>)
    ensures
        lines(a + b) == lines(a) + lines(b),
    decreases b.len(),
{
    if b.len() == 0 {
        assert(a + b =~= a);
        assert(lines(a) + lines(b) =~= lines(a));
    } else {
        lines_add(a, b.drop_last());
        assert((a + b).drop_last() =~= a + b.drop_last());
        assert(lines(a) + (lines(b.drop_last()) + quad_line(b.last())) =~= (lines(a) + lines(b.drop_last()))
            + quad_line(b.last()));
    }
}

proof fn concatenated_first(first: Seq<char>, rest: Seq<Seq<char>>)
    ensures
        concatenated(seq![first] + rest) == first + concatenated(rest),
    decreases rest.len(),
{
    if rest.len() == 0 {
        assert(seq![first] + rest =~= Seq::<Seq<char>>::empty().push(first));
        concatenated_push(Seq::empty(), first);
        assert(concatenated(Seq::<Seq<char>>::empty()) =~= Seq::empty());
        assert(first + Seq::<char>::empty() =~= first);
        assert(Seq::<char>::empty() + first =~= first);
    } else {
        let front = rest.drop_last();
        concatenated_first(first, front);
        concatenated_push(seq![first] + front, rest.last());
        concatenated_push(front, rest.last());
        assert((seq![first] + front).push(rest.last()) =~= seq![first] + rest);
        assert(front.push(rest.last()) =~= rest);
        assert(first + (concatenated(front) + rest.last()) =~= (first + concatenated(front)) + rest.last());
    }
}

/// The batches hold every statement once, in order.
pub proof fn batches_hold_all(quads: Seq<QuadView>)
    ensures
        concatenated(batches(quads)) == lines(quads),
    decreases quads.len(),
{
    if quads.len() == 0 {
        assert(concatenated(Seq::<Seq<char>>::empty()) =~= Seq::empty());
    } else if quads.len() <= BATCH_SIZE {
        concatenated_first(lines(quads), Seq::empty());
        assert(seq![lines(quads)] + Seq::<Seq<char>>::empty() =~= seq![lines(quads)]);
        assert(concatenated(Seq::<Seq<char>>::empty()) =~= Seq::empty());
        assert(lines(quads) + Seq::<char>::empty() =~= lines(quads));
    } else {
        let first = quads.take(BATCH_SIZE as int);
        let rest = quads.skip(BATCH_SIZE as int);
        batches_hold_all(rest);
        concatenated_first(lines(first), batches(rest));
        lines_add(first, rest);
        assert(first + rest =~= quads);
    }
}

/// No batch holds more statements than fit: there are as few batches as the
/// batch size allows.
pub proof fn batches_are_few(quads: Seq<QuadView>)
    ensures
        batches(quads).len() == (quads.len() + BATCH_SIZE - 1) / BATCH_SIZE as int,
    decreases quads.len(),
{
    if quads.len() > BATCH_SIZE {
        batches_are_few(quads.skip(BATCH_SIZE as int));
    }
}

/// A repeated rule stops where the graph has the size that it had before, and
/// after as many runs as are allowed at the latest; otherwise it runs again.
pub proof fn repetition_ends_at_the_fixpoint(component: Seq<char>, rule: Rule, t: Tally, before: u64, size: u64)
    requires
        t.size == Some(before),
        construct_text(component, rule) is Ok,
    ensures
        measured(component, rule, t, size).0 is Over <==> size == before || t.iterations >= rule.max_iterations,
        !(measured(component, rule, t, size).0 is Over) ==> measured(component, rule, t, size).0
            == StageView::Constructing(Tally { size: Some(size), ..t }),
{
}

/// The component that runs a rule only shows in its error messages: the stages
/// are the same, and so is every request but a failure.
pub proof fn components_run_alike(a: Seq<char>, b: Seq<char>, rule: Rule, stage: StageView, reply: ReplyView)
    ensures
        next(a, rule, stage, reply).0 == next(b, rule, stage, reply).0,
        next(a, rule, stage, reply).1 == next(b, rule, stage, reply).1 || {
            &&& next(a, rule, stage, reply).1 matches RequestView::Finish(Err(_))
            &&& next(b, rule, stage, reply).1 matches RequestView::Finish(Err(_))
        },
{
}

} // verus!

//! What running a rule does to the graph that takes the derived statements.

use vstd::prelude::*;
use crate::host::{ReplyView, RequestView};
use crate::infer::engine::{batches, begun, construct_text, inserted_on, lines, next, quad_line, row_quad, row_quads,
    size_in, tallied, Rule, StageView, Tally};
use crate::json::{json_text, lookup, no_fields, Fields, JsonView};
use crate::laws::graph::{bound, fact_row, fact_rows, fact_rows_are_read, fact_text, facts_text, first_binding_counts,
    result_of, term_text, writable, Fact};
use crate::laws::objects::{fields_are_found, filled, names_differ};
use crate::number::{decimal_of, parse_undoes_decimal};
use crate::rdf::{flattened, term_sparql, typed, QuadView, QueryResultView, TermView, RDF_JSON};

verus! {

/// Whether the statements of a result are these.
pub open spec fn are_quads(quads: Seq<QuadView>, facts: Seq<Fact>) -> bool {
    &&& quads.len() == facts.len()
    &&& forall|i: int|
        0 <= i < facts.len() ==> {
            &&& (#[trigger] quads[i]).subject == facts[i].subject
            &&& quads[i].predicate == TermView::NamedNode(facts[i].predicate)
            &&& quads[i].object == facts[i].object
        }
}

/// Whether a reply holds these statements, as statements or as rows.
pub open spec fn holds_facts(reply: ReplyView, facts: Seq<Fact>) -> bool {
    match reply {
        ReplyView::Result(QueryResultView::Quads(quads)) => are_quads(quads, facts),
        ReplyView::Result(result) => result == result_of(fact_rows(facts)),
        _ => false,
    }
}

/// The statements in portions.
pub open spec fn portions(facts: Seq<Fact>) -> Seq<Seq<Fact>>
    decreases facts.len(),
{
    if facts.len() == 0 {
        Seq::empty()
    } else if facts.len() <= 500 {
        seq![facts]
    } else {
        seq![facts.take(500)] + portions(facts.skip(500))
    }
}

/// All that the portions hold, one after the other.
pub open spec fn together(parts: Seq<Seq<Fact>>) -> Seq<Fact>
    decreases parts.len(),
{
    if parts.len() == 0 {
        Seq::empty()
    } else {
        parts[0] + together(parts.drop_first())
    }
}

/// The update that inserts statements into a graph.
pub open spec fn insertion_into(graph: Seq<char>, facts: Seq<Fact>) -> Seq<char> {
    "INSERT DATA { GRAPH <"@ + graph + "> { "@ + facts_text(facts) + " } }"@
}

/// The query for the number of a graph's statements.
pub open spec fn counting_query(graph: Seq<char>) -> Seq<char> {
    "SELECT (COUNT(*) AS ?n) WHERE { GRAPH <"@ + graph + "> { ?s ?p ?o } }"@
}

/// The result of counting.
pub open spec fn count_result(n: nat) -> QueryResultView {
    result_of(seq![seq![bound("n"@, typed(decimal_of(n), "http://www.w3.org/2001/XMLSchema#integer"@))]])
}

/// The rule's query.
pub open spec fn query_of(rule: Rule) -> Option<Seq<char>> {
    match (rule.construct, rule.if_clause, rule.then_clause) {
        (Some(q), None, None) => Some(q@),
        (None, Some(body), Some(head)) => {
            let text = "CONSTRUCT { "@ + head@ + " } WHERE { "@ + body@ + " }"@;
            Some(
                match rule.prefixes {
                    Some(p) => p@ + "\n"@ + text,
                    None => text,
                },
            )
        },
        _ => None,
    }
}

/// What so many updates that are carried out lead to.
pub open spec fn after_updates(component: Seq<char>, rule: Rule, at: (StageView, RequestView), n: nat) -> (
    StageView,
    RequestView,
)
    decreases n,
{
    if n == 0 {
        at
    } else {
        next(component, rule, after_updates(component, rule, at, (n - 1) as nat).0, ReplyView::Done)
    }
}

/// The portions hold all of the statements, in order.
pub proof fn portions_hold_all(facts: Seq<Fact>)
    ensures
        together(portions(facts)) == facts,
    decreases facts.len(),
{
    let parts = portions(facts);
    if 0 < facts.len() <= 500 {
        assert(parts.drop_first() =~= Seq::empty());
        assert(together(parts.drop_first()) =~= Seq::empty());
        assert(parts[0] + together(parts.drop_first()) =~= facts);
    } else if facts.len() > 500 {
        portions_hold_all(facts.skip(500));
        assert(parts.drop_first() =~= portions(facts.skip(500)));
        assert(facts.take(500) + facts.skip(500) =~= facts);
    }
}

proof fn line_is_written(q: QuadView, f: Fact)
    requires
        q.subject == f.subject,
        q.predicate == TermView::NamedNode(f.predicate),
        q.object == f.object,
        writable(f),
    ensures
        quad_line(q) == fact_text(f),
{
    term_is_written(f.subject);
    term_is_written(f.object);
    reveal_strlit(" <");
    reveal_strlit("> ");
    reveal_strlit("<");
    reveal_strlit(">");
    reveal_strlit(" ");
    let s = term_text(f.subject);
    let o = term_text(f.object);
    assert(s + " "@ + ("<"@ + f.predicate + ">"@) + " "@ + o + " .\n"@ =~= s + " <"@ + f.predicate + "> "@ + o
        + " .\n"@);
}

proof fn term_is_written(t: TermView)
    requires
        !(t is Triple),
    ensures
        term_sparql(t) == term_text(t),
{
    reveal_strlit("\"");
    reveal_strlit("\"@");
    reveal_strlit("@");
    reveal_strlit("^^<");
    reveal_strlit("\"^^<");
    assert(term_sparql(t) =~= term_text(t));
}

proof fn lines_are_written(quads: Seq<QuadView>, facts: Seq<Fact>)
    requires
        are_quads(quads, facts),
        forall|i: int| 0 <= i < facts.len() ==> writable(#[trigger] facts[i]),
    ensures
        lines(quads) == facts_text(facts),
    decreases facts.len(),
{
    if facts.len() > 0 {
        let fs = facts.drop_last();
        let qs = quads.drop_last();
        assert forall|i: int| 0 <= i < fs.len() implies writable(#[trigger] fs[i]) by {
            assert(fs[i] == facts[i]);
        }
        assert forall|i: int| 0 <= i < fs.len() implies {
            &&& (#[trigger] qs[i]).subject == fs[i].subject
            &&& qs[i].predicate == TermView::NamedNode(fs[i].predicate)
            &&& qs[i].object == fs[i].object
        } by {
            assert(qs[i] == quads[i]);
        }
        lines_are_written(qs, fs);
        assert(quads.last() == quads[facts.len() - 1]);
        assert(writable(facts[facts.len() - 1]));
        line_is_written(quads.last(), facts.last());
    }
}

proof fn portions_are_written(quads: Seq<QuadView>, facts: Seq<Fact>)
    requires
        are_quads(quads, facts),
        forall|i: int| 0 <= i < facts.len() ==> writable(#[trigger] facts[i]),
    ensures
        batches(quads).len() == portions(facts).len(),
        forall|i: int| 0 <= i < portions(facts).len() ==> #[trigger] batches(quads)[i] == facts_text(portions(facts)[i]),
    decreases facts.len(),
{
    if 0 < facts.len() <= 500 {
        lines_are_written(quads, facts);
    } else if facts.len() > 500 {
        let (qs, q) = (quads.skip(500), quads.take(500));
        let (fs, f) = (facts.skip(500), facts.take(500));
        assert forall|i: int| 0 <= i < fs.len() implies writable(#[trigger] fs[i]) by {
            assert(fs[i] == facts[i + 500]);
        }
        assert forall|i: int| 0 <= i < f.len() implies writable(#[trigger] f[i]) by {
            assert(f[i] == facts[i]);
        }
        assert forall|i: int| 0 <= i < fs.len() implies {
            &&& (#[trigger] qs[i]).subject == fs[i].subject
            &&& qs[i].predicate == TermView::NamedNode(fs[i].predicate)
            &&& qs[i].object == fs[i].object
        } by {
            assert(qs[i] == quads[i + 500]);
        }
        assert forall|i: int| 0 <= i < f.len() implies {
            &&& (#[trigger] q[i]).subject == f[i].subject
            &&& q[i].predicate == TermView::NamedNode(f[i].predicate)
            &&& q[i].object == f[i].object
        } by {
            assert(q[i] == quads[i]);
        }
        portions_are_written(qs, fs);
        lines_are_written(q, f);
        assert forall|i: int| 0 <= i < portions(facts).len() implies #[trigger] batches(quads)[i] == facts_text(
            portions(facts)[i],
        ) by {
            if i > 0 {
                assert(batches(quads)[i] == batches(qs)[i - 1]);
                assert(portions(facts)[i] == portions(fs)[i - 1]);
            }
        }
    }
}

proof fn updates_follow(component: Seq<char>, rule: Rule, t: Tally, ahead: Seq<Seq<char>>, n: nat)
    requires
        n <= ahead.len(),
    ensures
        after_updates(component, rule, inserted_on(rule, t, ahead), n) == inserted_on(rule, t, ahead.skip(n as int)),
    decreases n,
{
    if n == 0 {
        assert(ahead.skip(0) =~= ahead);
    } else {
        updates_follow(component, rule, t, ahead, (n - 1) as nat);
        assert(ahead.skip(n - 1).drop_first() =~= ahead.skip(n as int));
    }
}

proof fn rows_are_quads(facts: Seq<Fact>)
    ensures
        are_quads(row_quads(fact_rows(facts)), facts),
    decreases facts.len(),
{
    let rows = fact_rows(facts);
    if facts.len() > 0 {
        rows_are_quads(facts.drop_last());
        assert(rows.drop_last() =~= fact_rows(facts.drop_last()));
        let row = rows.last();
        let f = facts.last();
        row_is_quad(f);
        let before = row_quads(rows.drop_last());
        let all = row_quads(rows);
        assert(all == before.push(row_quad(row)->0));
        assert forall|i: int| 0 <= i < facts.len() implies {
            &&& (#[trigger] all[i]).subject == facts[i].subject
            &&& all[i].predicate == TermView::NamedNode(facts[i].predicate)
            &&& all[i].object == facts[i].object
        } by {
            if i < facts.len() - 1 {
                assert(all[i] == before[i]);
                assert(facts.drop_last()[i] == facts[i]);
            }
        }
    }
}

proof fn row_is_quad(f: Fact)
    ensures
        row_quad(fact_row(f)) == Some(
            QuadView {
                subject: f.subject,
                predicate: TermView::NamedNode(f.predicate),
                object: f.object,
                graph: None,
            },
        ),
{
    reveal_strlit("s");
    reveal_strlit("p");
    reveal_strlit("o");
    reveal_strlit("subject");
    reveal_strlit("predicate");
    reveal_strlit("object");
    reveal_with_fuel(crate::infer::engine::either_in, 4);
    let row = fact_row(f);
    assert("s"@[0] != "p"@[0] && "s"@[0] != "o"@[0] && "p"@[0] != "o"@[0]);
    assert(row.drop_last() =~= seq![row[0], row[1]]);
    assert(row.drop_last().drop_last() =~= seq![row[0]]);
}

/// In every round, whatever its number, all statements that the rule's query
/// returned are inserted into the rule's graph, and then the graph is counted.
pub proof fn derived_statements_are_all_inserted(
    component: Seq<char>,
    rule: Rule,
    t: Tally,
    reply: ReplyView,
    facts: Seq<Fact>,
)
    requires
        holds_facts(reply, facts),
        forall|i: int| 0 <= i < facts.len() ==> writable(#[trigger] facts[i]),
        facts.len() <= u64::MAX,
    ensures
        together(portions(facts)) == facts,
        ({
            let first = next(component, rule, StageView::Constructing(t), reply);
            let parts = portions(facts);
            &&& forall|i: int|
                0 <= i < parts.len() ==> (#[trigger] after_updates(component, rule, first, i as nat)).1
                    == RequestView::Update(insertion_into(rule.graph@, parts[i]))
            &&& after_updates(component, rule, first, parts.len()) == (
                StageView::Measuring(
                    Tally {
                        iterations: t.iterations.wrapping_add(1),
                        emitted: t.emitted.wrapping_add(facts.len() as u64),
                        size: t.size,
                    },
                ),
                RequestView::Query(counting_query(rule.graph@)),
            )
        }),
{
    portions_hold_all(facts);
    let quads = match reply {
        ReplyView::Result(QueryResultView::Quads(quads)) => quads,
        _ => row_quads(fact_rows(facts)),
    };
    fact_rows_are_read(facts);
    rows_are_quads(facts);
    assert(are_quads(quads, facts));
    let first = next(component, rule, StageView::Constructing(t), reply);
    let tally = tallied(t, quads.len());
    assert(first == inserted_on(rule, tally, batches(quads)));
    portions_are_written(quads, facts);
    let parts = portions(facts);
    assert forall|i: int| 0 <= i < parts.len() implies (#[trigger] after_updates(component, rule, first, i as nat)).1
        == RequestView::Update(insertion_into(rule.graph@, parts[i])) by {
        updates_follow(component, rule, tally, batches(quads), i as nat);
        assert(batches(quads).skip(i)[0] == batches(quads)[i]);
    }
    updates_follow(component, rule, tally, batches(quads), parts.len());
}

proof fn count_is_read(n: nat)
    requires
        n <= u64::MAX,
    ensures
        size_in(count_result(n)) == n,
{
    parse_undoes_decimal(n as u64);
    reveal_with_fuel(flattened, 2);
    let row = seq![bound("n"@, typed(decimal_of(n), "http://www.w3.org/2001/XMLSchema#integer"@))];
    assert(seq![row].drop_last() =~= Seq::empty());
    assert(flattened(seq![row]) =~= row);
    first_binding_counts(row, "n"@, 0);
}

/// A rule that is repeated goes on with its query while its statements add to
/// the graph, up to its bound. It stops before that only where another round
/// adds nothing: all that was derived was there already.
pub proof fn repetition_stops_when_nothing_is_new(
    component: Seq<char>,
    rule: Rule,
    t: Tally,
    before: Set<Fact>,
    facts: Seq<Fact>,
)
    requires
        before.finite(),
        before.union(facts.to_set()).len() <= u64::MAX,
        t.size == Some(before.len() as u64),
        query_of(rule) is Some,
    ensures
        ({
            let after = before.union(facts.to_set());
            let (stage, request) = next(
                component,
                rule,
                StageView::Measuring(t),
                ReplyView::Result(count_result(after.len())),
            );
            &&& stage is Over <==> facts.to_set().subset_of(before) || t.iterations >= rule.max_iterations
            &&& !(stage is Over) ==> {
                &&& stage == StageView::Constructing(Tally { size: Some(after.len() as u64), ..t })
                &&& request == RequestView::Query(query_of(rule)->0)
            }
        }),
{
    let after = before.union(facts.to_set());
    facts.lemma_cardinality_of_set();
    vstd::set_lib::lemma_len_subset(before, after);
    count_is_read(after.len());
    if facts.to_set().subset_of(before) {
        assert(after =~= before);
    } else if after.len() == before.len() {
        vstd::set_lib::lemma_subset_equality(before, after);
        assert(false);
    }
    query_is_built(component, rule);
}

proof fn query_is_built(component: Seq<char>, rule: Rule)
    ensures
        query_of(rule) matches Some(text) ==> construct_text(component, rule) == Ok::<Seq<char>, Seq<char>>(text),
        query_of(rule) is None ==> construct_text(component, rule) is Err,
{
    reveal_strlit("");
    match query_of(rule) {
        Some(text) => {
            assert(construct_text(component, rule)->Ok_0 =~= text);
        },
        None => {},
    }
}

/// A run that replaces empties the rule's graph first, one that appends leaves it
/// as it is, and no other kind of run is begun. Then a rule that is repeated
/// counts the graph, and after that, or at once, comes the rule's query.
pub proof fn run_begins_with_its_graph(component: Seq<char>, rule: Rule, size: nat)
    requires
        query_of(rule) is Some,
        size <= u64::MAX,
    ensures
        ({
            let (stage, request) = begun(component, rule);
            &&& rule.refresh_mode@ == "replace"@ ==> {
                &&& request == RequestView::Update("CLEAR SILENT GRAPH <"@ + rule.graph@ + ">"@)
                &&& query_follows(component, rule, next(component, rule, stage, ReplyView::Done), size)
            }
            &&& rule.refresh_mode@ == "append"@ ==> query_follows(component, rule, (stage, request), size)
            &&& rule.refresh_mode@ != "replace"@ && rule.refresh_mode@ != "append"@ ==> stage is Over
                && (request matches RequestView::Finish(r) && r is Err)
        }),
{
    query_is_built(component, rule);
    count_is_read(size);
    reveal_strlit("replace");
    reveal_strlit("append");
    assert("replace"@.len() != "append"@.len());
}

/// Whether the rule's query comes next, after a count where the rule is
/// repeated.
pub open spec fn query_follows(component: Seq<char>, rule: Rule, at: (StageView, RequestView), size: nat) -> bool {
    if rule.iterate {
        let (stage, request) = next(component, rule, at.0, ReplyView::Result(count_result(size)));
        &&& at.1 == RequestView::Query(counting_query(rule.graph@))
        &&& rule.max_iterations > 0 ==> {
            &&& stage == StageView::Constructing(Tally { iterations: 0, emitted: 0, size: Some(size as u64) })
            &&& request == RequestView::Query(query_of(rule)->0)
        }
        &&& rule.max_iterations == 0 ==> stage is Over
    } else {
        &&& at.0 == StageView::Constructing(Tally { iterations: 0, emitted: 0, size: None })
        &&& at.1 == RequestView::Query(query_of(rule)->0)
    }
}

/// A rule that is not repeated is run once.
pub proof fn single_run_ends(component: Seq<char>, rule: Rule, t: Tally, size: nat)
    requires
        t.size is None,
        size <= u64::MAX,
    ensures
        next(component, rule, StageView::Measuring(t), ReplyView::Result(count_result(size))).0 is Over,
{
    count_is_read(size);
}

/// The summary tells the rule, how often it was run, how many statements it
/// derived and how many the graph holds.
pub proof fn summary_tells_the_run(component: Seq<char>, rule: Rule, t: Tally, size: nat)
    requires
        size <= u64::MAX,
        next(component, rule, StageView::Measuring(t), ReplyView::Result(count_result(size))).0 is Over,
        query_of(rule) is Some,
    ensures
        exists|fields: Seq<(Seq<char>, JsonView)>|
            {
                &&& next(component, rule, StageView::Measuring(t), ReplyView::Result(count_result(size))).1
                    == RequestView::Finish(Ok(typed(#[trigger] json_text(JsonView::Object(fields)), RDF_JSON@)))
                &&& lookup(fields, "rule"@) == Some(JsonView::Text(rule.name@))
                &&& lookup(fields, "iterations"@) == Some(JsonView::Unsigned(t.iterations as u64))
                &&& lookup(fields, "emitted_total"@) == Some(JsonView::Unsigned(t.emitted))
                &&& lookup(fields, "graph_size"@) == Some(JsonView::Unsigned(size as u64))
            },
{
    count_is_read(size);
    query_is_built(component, rule);
    let pairs = seq![
        ("rule"@, JsonView::Text(rule.name@)),
        ("iterations"@, JsonView::Unsigned(t.iterations as u64)),
        ("emitted_total"@, JsonView::Unsigned(t.emitted)),
        ("graph_size"@, JsonView::Unsigned(size as u64)),
    ];
    reveal_strlit("rule");
    reveal_strlit("iterations");
    reveal_strlit("emitted_total");
    reveal_strlit("graph_size");
    assert("iterations"@[0] != "graph_size"@[0]);
    assert(names_differ(pairs));
    fields_are_found(pairs);
    let fields = filled(pairs);
    let made = no_fields().with("rule"@, JsonView::Text(rule.name@)).with(
        "iterations"@,
        JsonView::Unsigned(t.iterations as u64),
    ).with("emitted_total"@, JsonView::Unsigned(t.emitted)).with("graph_size"@, JsonView::Unsigned(size as u64));
    assert(fields == made) by {
        reveal_with_fuel(filled, 5);
        let p3 = pairs.drop_last();
        let p2 = p3.drop_last();
        let p1 = p2.drop_last();
        assert(p1.drop_last() =~= Seq::empty());
    }
    assert(lookup(fields, pairs[0].0) == Some(pairs[0].1));
    assert(lookup(fields, pairs[1].0) == Some(pairs[1].1));
    assert(lookup(fields, pairs[2].0) == Some(pairs[2].1));
    assert(lookup(fields, pairs[3].0) == Some(pairs[3].1));
    assert(json_text(JsonView::Object(fields)) == json_text(JsonView::Object(made)));
}

} // verus!

//! What a canonicalization does to a graph.

use vstd::prelude::*;
use crate::canonicalize::document_sweep::SweepResult;
use crate::canonicalize::fulltext_sweep::{texts, SweepCounts};
use crate::canonicalize::merge::{alias_rows, bracketed_list, delete_same_as_text, fetch_query_text, literal_query_text,
    merges, pair_views, refused, rewritten_row, rewritten_rows, rewritten_term, same_as_pairs, same_as_query_text,
    statements_of, summary_tree, Merge, TrackerValue};
use crate::canonicalize::run::{leads, rewrites_on, Action, Config, Event, Stage, COMPONENT};
use crate::guest::rows_of;
use crate::json::{no_fields, Fields, JsonView};
use crate::laws::graph::{bound, fact_rows, fact_rows_are_read, fact_text, facts_text, first_binding_counts, names_text,
    regular, result_of, rows_are_told_apart, term_text, writable, Fact};
use crate::laws::objects::{nothing_is_found, with_is_found};
use crate::rdf::{bracketed, grouped, value_in, BindingView, QueryResult, QueryResultView, TermView};
use crate::text::{joined, views};

verus! {

/// A term under its new name: an alias becomes what it stands for, and every
/// other term stays.
pub open spec fn renamed_term(t: TermView, aliases: Map<Seq<char>, Seq<char>>) -> TermView {
    match t {
        TermView::NamedNode(iri) if aliases.contains_key(iri) => TermView::NamedNode(aliases[iri]),
        _ => t,
    }
}

/// A statement under the new names of its three parts.
pub open spec fn renamed(f: Fact, aliases: Map<Seq<char>, Seq<char>>) -> Fact {
    Fact {
        subject: renamed_term(f.subject, aliases),
        predicate: if aliases.contains_key(f.predicate) {
            aliases[f.predicate]
        } else {
            f.predicate
        },
        object: renamed_term(f.object, aliases),
    }
}

pub open spec fn all_renamed(facts: Seq<Fact>, aliases: Map<Seq<char>, Seq<char>>) -> Seq<Fact> {
    Seq::new(facts.len(), |i: int| renamed(facts[i], aliases))
}

/// Whether a term is one of the names.
pub open spec fn is_one_of(t: TermView, names: Set<Seq<char>>) -> bool {
    t matches TermView::NamedNode(iri) && names.contains(iri)
}

/// Whether a statement has one of the names as its subject or its object.
pub open spec fn mentions(f: Fact, names: Set<Seq<char>>) -> bool {
    is_one_of(f.subject, names) || is_one_of(f.object, names)
}

/// Whether a statement declares two identifiers equal.
pub open spec fn declares(f: Fact) -> bool {
    f.predicate == "http://www.w3.org/2002/07/owl#sameAs"@
}

/// Whether the statements are those of the graph that mention a name and declare
/// nothing.
pub open spec fn mentions_in(g: Set<Fact>, names: Set<Seq<char>>, found: Seq<Fact>) -> bool {
    forall|f: Fact| #[trigger] found.contains(f) <==> g.contains(f) && mentions(f, names) && !declares(f)
}

/// The graph once the statements have been inserted.
pub open spec fn with_facts(g: Set<Fact>, facts: Seq<Fact>) -> Set<Fact> {
    g.union(facts.to_set())
}

/// The graph once the statements that mention a name have been deleted.
pub open spec fn without_mentions(g: Set<Fact>, names: Set<Seq<char>>) -> Set<Fact> {
    g.filter(|f: Fact| !mentions(f, names))
}

/// The query for the statements that mention a name and declare nothing.
pub open spec fn mentions_query(names: Seq<Seq<char>>) -> Seq<char> {
    "SELECT ?s ?p ?o WHERE { { VALUES ?target { "@ + names_text(names)
        + " } ?target ?p ?o . BIND(?target AS ?s) } UNION { VALUES ?target { "@ + names_text(names)
        + " } ?s ?p ?target . BIND(?target AS ?o) } FILTER(?p != <http://www.w3.org/2002/07/owl#sameAs>) }"@
}

/// The update that deletes the statements that mention a name.
pub open spec fn mentions_deletion(names: Seq<Seq<char>>) -> Seq<char> {
    "DELETE { ?s ?p ?o } WHERE { ?s ?p ?o . VALUES ?alias { "@ + names_text(names)
        + " } FILTER(?s = ?alias || ?o = ?alias) }"@
}

/// The update that inserts statements.
pub open spec fn insertion(facts: Seq<Fact>) -> Seq<char> {
    "INSERT DATA { "@ + facts_text(facts) + " }"@
}

proof fn list_is_written(iris: Seq<Seq<char>>)
    ensures
        bracketed_list(iris) == names_text(iris),
    decreases iris.len(),
{
    let parts = Seq::new(iris.len(), |i: int| bracketed(iris[i]));
    if iris.len() > 1 {
        list_is_written(iris.drop_last());
        assert(parts.drop_last() =~= Seq::new(iris.drop_last().len(), |i: int| bracketed(iris.drop_last()[i])));
        assert(parts.last() == bracketed(iris.last()));
        assert(joined(parts.drop_last(), " "@) + " "@ + ("<"@ + iris.last() + ">"@) =~= joined(parts.drop_last(), " "@)
            + " "@ + "<"@ + iris.last() + ">"@);
    }
}

/// A row that holds a statement is rewritten to the statement under its new
/// names: an IRI that has an entry in the table becomes its value wherever it
/// stands, and every other term is kept.
pub proof fn statement_is_renamed(row: Seq<BindingView>, f: Fact, aliases: Map<Seq<char>, Seq<char>>)
    requires
        value_in(row, "s"@) == Some(f.subject),
        value_in(row, "p"@) == Some(TermView::NamedNode(f.predicate)),
        value_in(row, "o"@) == Some(f.object),
        writable(f),
    ensures
        rewritten_row(row, aliases) == Some(fact_text(renamed(f, aliases))),
{
    reveal_strlit(" <");
    reveal_strlit("> ");
    reveal_strlit("<");
    reveal_strlit(">");
    reveal_strlit(" ");
    reveal_strlit("\"");
    reveal_strlit("\"@");
    reveal_strlit("@");
    reveal_strlit("^^<");
    reveal_strlit("\"^^<");
    let r = renamed(f, aliases);
    term_is_renamed(f.subject, aliases);
    term_is_renamed(TermView::NamedNode(f.predicate), aliases);
    term_is_renamed(f.object, aliases);
    let s = term_text(r.subject);
    let o = term_text(r.object);
    assert(s + " "@ + ("<"@ + r.predicate + ">"@) + " "@ + o + " .\n"@ =~= s + " <"@ + r.predicate + "> "@ + o
        + " .\n"@);
}

proof fn term_is_renamed(t: TermView, aliases: Map<Seq<char>, Seq<char>>)
    requires
        !(t is Triple),
    ensures
        rewritten_term(t, aliases) == term_text(renamed_term(t, aliases)),
{
    reveal_strlit("\"");
    reveal_strlit("\"@");
    reveal_strlit("@");
    reveal_strlit("^^<");
    reveal_strlit("\"^^<");
    match t {
        TermView::Literal(l) => {
            assert(rewritten_term(t, aliases) =~= term_text(t));
        },
        _ => {},
    }
}

proof fn statements_are_renamed(facts: Seq<Fact>, aliases: Map<Seq<char>, Seq<char>>)
    requires
        forall|i: int| 0 <= i < facts.len() ==> writable(#[trigger] facts[i]),
    ensures
        rewritten_rows(fact_rows(facts), aliases) == (facts_text(all_renamed(facts, aliases)), facts.len()),
    decreases facts.len(),
{
    let rows = fact_rows(facts);
    let all = all_renamed(facts, aliases);
    if facts.len() > 0 {
        let rest = facts.drop_last();
        assert forall|i: int| 0 <= i < rest.len() implies writable(#[trigger] rest[i]) by {
            assert(rest[i] == facts[i]);
        }
        statements_are_renamed(rest, aliases);
        assert(rows.drop_last() =~= fact_rows(rest));
        assert(all.drop_last() =~= all_renamed(rest, aliases));
        fact_rows_are_read(facts);
        assert(rows.last() == rows[facts.len() - 1]);
        statement_is_renamed(rows.last(), facts.last(), aliases);
    }
}

/// Once the statements that mention an alias have been fetched, all of them are
/// inserted under their new names. No inserted statement mentions an alias, so
/// the deletion that follows takes none of them away, and the graph ends as it
/// was with every such statement renamed. This leaves out a name that stands
/// for an alias and is itself one.
pub proof fn rewriting_renames_the_graph(
    c: Config,
    m: Merge,
    g: Set<Fact>,
    found: Seq<Fact>,
    result: QueryResult,
    next: Stage,
    action: Action,
)
    requires
        leads(c, Stage::Fetching(m), Event::Result(result), next, action),
        result@ == result_of(fact_rows(found)),
        mentions_in(g, texts(m.aliases@).dom(), found),
        forall|f: Fact| g.contains(f) ==> #[trigger] writable(f),
        forall|k: Seq<char>|
            texts(m.aliases@).contains_key(k) ==> !texts(m.aliases@).contains_key(#[trigger] texts(m.aliases@)[k]),
    ensures
        ({
            let aliases = texts(m.aliases@);
            let inserted = all_renamed(found, aliases);
            &&& found.len() > 0 ==> (action matches Action::Update(u) && u@ == insertion(inserted))
            &&& found.len() == 0 ==> next is Deleting
            &&& forall|i: int| 0 <= i < inserted.len() ==> !mentions(#[trigger] inserted[i], aliases.dom())
            &&& forall|f: Fact| #[trigger]
                without_mentions(with_facts(g, inserted), aliases.dom()).contains(f) <==> {
                    ||| g.contains(f) && !mentions(f, aliases.dom())
                    ||| exists|old_f: Fact|
                        g.contains(old_f) && mentions(old_f, aliases.dom()) && !declares(old_f) && f == #[trigger] renamed(
                            old_f,
                            aliases,
                        )
                }
        }),
{
    let aliases = texts(m.aliases@);
    let inserted = all_renamed(found, aliases);
    fact_rows_are_read(found);
    assert forall|i: int| 0 <= i < found.len() implies writable(#[trigger] found[i]) by {
        assert(found.contains(found[i]));
        assert(g.contains(found[i]));
    }
    statements_are_renamed(found, aliases);
    assert(rows_of(COMPONENT@, result@) == Ok::<Seq<Seq<BindingView>>, Seq<char>>(fact_rows(found)));
    assert(rewrites_on(m, fact_rows(found), next, action));
    assert forall|i: int| 0 <= i < inserted.len() implies !mentions(#[trigger] inserted[i], aliases.dom()) by {
        name_is_new(found[i].subject, aliases);
        name_is_new(found[i].object, aliases);
    }
    let after = without_mentions(with_facts(g, inserted), aliases.dom());
    assert forall|f: Fact| #[trigger] after.contains(f) <==> {
        ||| g.contains(f) && !mentions(f, aliases.dom())
        ||| exists|old_f: Fact|
            g.contains(old_f) && mentions(old_f, aliases.dom()) && !declares(old_f) && f == #[trigger] renamed(
                old_f,
                aliases,
            )
    } by {
        if after.contains(f) && !g.contains(f) {
            assert(inserted.contains(f));
            let i = choose|i: int| 0 <= i < inserted.len() && inserted[i] == f;
            assert(found.contains(found[i]));
            assert(f == renamed(found[i], aliases));
        }
        if exists|old_f: Fact|
            g.contains(old_f) && mentions(old_f, aliases.dom()) && !declares(old_f) && f == #[trigger] renamed(
                old_f,
                aliases,
            ) {
            let old_f = choose|old_f: Fact|
                g.contains(old_f) && mentions(old_f, aliases.dom()) && !declares(old_f) && f == #[trigger] renamed(
                    old_f,
                    aliases,
                );
            assert(found.contains(old_f));
            let i = choose|i: int| 0 <= i < found.len() && found[i] == old_f;
            assert(inserted[i] == f);
            assert(inserted.contains(f));
        }
    }
}

proof fn name_is_new(t: TermView, aliases: Map<Seq<char>, Seq<char>>)
    requires
        forall|k: Seq<char>| aliases.contains_key(k) ==> !aliases.contains_key(#[trigger] aliases[k]),
    ensures
        !is_one_of(renamed_term(t, aliases), aliases.dom()),
{
    match t {
        TermView::NamedNode(iri) => {
            if aliases.contains_key(iri) {
                assert(!aliases.contains_key(aliases[iri]));
            }
        },
        _ => {},
    }
}

/// What is deleted is what mentions an alias, and it is deleted once the renamed
/// statements have been inserted, or at once where there are none.
pub proof fn mentions_are_deleted_last(c: Config, stage: Stage, event: Event, next: Stage, action: Action)
    requires
        leads(c, stage, event, next, action),
    ensures
        next matches Stage::Deleting(m, _) ==> (action matches Action::Update(u) && u@ == mentions_deletion(
            m.aliases.key_seq(),
        )),
        stage matches Stage::Inserting(m, n) ==> event is Done ==> next == Stage::Deleting(m, n),
{
    match next {
        Stage::Deleting(m, _) => {
            list_is_written(m.aliases.key_seq());
        },
        _ => {},
    }
}

/// The declared equalities are read off the graph, and the statements that
/// mention an alias of their merge are asked for next.
pub proof fn mentions_are_asked_for(
    c: Config,
    known: Vec<(String, String)>,
    result: QueryResult,
    pairs: Seq<(Seq<char>, Seq<char>)>,
    next: Stage,
    action: Action,
)
    requires
        leads(c, Stage::ReadingSameAs(known), Event::Result(result), next, action),
        result@ == result_of(pair_rows(pairs)),
    ensures
        next matches Stage::Fetching(m) ==> {
            &&& merges(m, pair_views(known@), pairs, c.rule@)
            &&& action matches Action::Query(q) && q@ == mentions_query(m.aliases.key_seq())
        },
        !(next is Fetching) && !(next is Over) ==> exists|m: Merge| #[trigger]
            merges(m, pair_views(known@), pairs, c.rule@) && m.aliases.key_seq().len() == 0,
        next is Over ==> exists|e: Seq<char>| #[trigger] refused(e, pair_views(known@), pairs, c.rule@),
{
    pairs_are_read(pairs);
    reveal_strlit("http://www.w3.org/2002/07/owl#sameAs");
    reveal_strlit(" } ?s ?p ?target . BIND(?target AS ?o) } FILTER(?p != <");
    reveal_strlit(">) }");
    reveal_strlit(
        " } ?s ?p ?target . BIND(?target AS ?o) } FILTER(?p != <http://www.w3.org/2002/07/owl#sameAs>) }",
    );
    match next {
        Stage::Fetching(m) => {
            let keys = m.aliases.key_seq();
            list_is_written(keys);
            assert(fetch_query_text(keys) =~= mentions_query(keys));
        },
        _ => {},
    }
}

/// The rows of pairs of IRIs.
pub open spec fn pair_rows(pairs: Seq<(Seq<char>, Seq<char>)>) -> Seq<Seq<BindingView>> {
    Seq::new(
        pairs.len(),
        |i: int| seq![bound("a"@, TermView::NamedNode(pairs[i].0)), bound("b"@, TermView::NamedNode(pairs[i].1))],
    )
}

/// The declared equalities are the pairs that the rows give.
pub proof fn pairs_are_read(pairs: Seq<(Seq<char>, Seq<char>)>)
    ensures
        result_of(pair_rows(pairs)) matches QueryResultView::Bindings(flat) && same_as_pairs(grouped(flat)) == pairs,
{
    reveal_strlit("a");
    reveal_strlit("b");
    assert("a"@[0] != "b"@[0]);
    let rows = pair_rows(pairs);
    let variables = seq!["a"@, "b"@];
    assert(variables.no_duplicates());
    assert(regular(rows, variables));
    rows_are_told_apart(rows, variables);
    pairs_gather(pairs);
}

proof fn pairs_gather(pairs: Seq<(Seq<char>, Seq<char>)>)
    ensures
        same_as_pairs(pair_rows(pairs)) == pairs,
    decreases pairs.len(),
{
    reveal_strlit("a");
    reveal_strlit("b");
    assert("a"@[0] != "b"@[0]);
    let rows = pair_rows(pairs);
    if pairs.len() > 0 {
        pairs_gather(pairs.drop_last());
        assert(rows.drop_last() =~= pair_rows(pairs.drop_last()));
        let row = rows.last();
        assert(row[0].variable == "a"@ && row[1].variable == "b"@);
        first_binding_counts(row, "a"@, 0);
        first_binding_counts(row, "b"@, 1);
        assert(pairs.drop_last().push(pairs.last()) =~= pairs);
    } else {
        assert(pairs =~= Seq::empty());
    }
}

// ---------------------------------------------------------------------------
// What is known and what is remembered
// ---------------------------------------------------------------------------

/// Whether a row of the alias table holds an alias and what it stands for.
pub open spec fn is_alias_row(row: Seq<TrackerValue>, pair: (Seq<char>, Seq<char>)) -> bool {
    &&& row.len() == 2
    &&& row[0] matches TrackerValue::TextValue(alias) && alias@ == pair.0
    &&& row[1] matches TrackerValue::TextValue(name) && name@ == pair.1
}

/// The known aliases are the pairs that the rows of the alias table hold, in
/// their order.
pub proof fn aliases_are_read(rows: Seq<Seq<TrackerValue>>, pairs: Seq<(Seq<char>, Seq<char>)>)
    requires
        rows.len() == pairs.len(),
        forall|i: int| 0 <= i < rows.len() ==> is_alias_row(#[trigger] rows[i], pairs[i]),
    ensures
        alias_rows(rows) == Ok::<Seq<(Seq<char>, Seq<char>)>, Seq<char>>(pairs),
    decreases rows.len(),
{
    if rows.len() > 0 {
        let rest = rows.drop_last();
        let before = pairs.drop_last();
        assert forall|i: int| 0 <= i < rest.len() implies is_alias_row(#[trigger] rest[i], before[i]) by {
            assert(is_alias_row(rows[i], pairs[i]));
        }
        aliases_are_read(rest, before);
        assert(is_alias_row(rows[rows.len() - 1], pairs[pairs.len() - 1]));
        assert(before.push(pairs.last()) =~= pairs);
    } else {
        assert(pairs =~= Seq::empty());
    }
}

/// Whether a run goes on by these stages and actions as long as everything that it
/// asks for is done.
pub open spec fn goes_by(c: Config, stages: Seq<Stage>, actions: Seq<Action>) -> bool {
    &&& stages.len() == actions.len() + 1
    &&& forall|i: int|
        0 <= i < actions.len() ==> leads(c, stages[i], Event::Done, stages[i + 1], #[trigger] actions[i])
}

/// Once the old statements are gone, every alias is remembered with what it stands
/// for, one after the other.
pub proof fn every_alias_is_remembered(
    c: Config,
    m: Merge,
    rewritten: u64,
    stages: Seq<Stage>,
    actions: Seq<Action>,
    i: int,
)
    requires
        goes_by(c, stages, actions),
        stages[0] == Stage::Deleting(m, rewritten),
        0 <= i < actions.len(),
        i < m.aliases.key_seq().len(),
    ensures
        actions[i] matches Action::Remember(alias, name) && alias@ == m.aliases.key_seq()[i] && name@
            == m.aliases.value_seq()[i]@,
        stages[i + 1] matches Stage::Remembering(n, r, at) && n == m && r == rewritten && at == i,
    decreases i,
{
    if i > 0 {
        every_alias_is_remembered(c, m, rewritten, stages, actions, i - 1);
    }
    assert(leads(c, stages[i], Event::Done, stages[i + 1], actions[i]));
}

/// Behind the last alias the literal indexes are swept, then the mirrors, each
/// where there are any, and then the declared equalities are deleted.
pub proof fn sweeps_come_before_the_last_deletion(
    c: Config,
    m: Merge,
    rewritten: u64,
    at: usize,
    counts: SweepCounts,
    documents: SweepResult,
    event: Event,
    next: Stage,
    action: Action,
)
    ensures
        at + 1 >= m.aliases.key_seq().len() && leads(
            c,
            Stage::Remembering(m, rewritten, at),
            Event::Done,
            next,
            action,
        ) ==> {
            &&& c.fulltext_indexes@.len() > 0 ==> action is SweepFulltext
            &&& c.fulltext_indexes@.len() == 0 && c.document_indexes@.len() > 0 ==> action is SweepDocuments
            &&& c.fulltext_indexes@.len() == 0 && c.document_indexes@.len() == 0 ==> deletes_declarations(action)
        },
        leads(c, Stage::SweepingFulltext(m, rewritten), Event::Swept(counts), next, action) ==> {
            &&& c.document_indexes@.len() > 0 ==> action is SweepDocuments
            &&& c.document_indexes@.len() == 0 ==> deletes_declarations(action)
        },
        leads(c, Stage::SweepingDocuments(m, rewritten, counts), Event::Mirrored(documents), next, action)
            ==> deletes_declarations(action) && next == Stage::DeletingSameAs(m, rewritten, counts, documents),
{
    declarations_are_written();
}

/// Whether an action deletes the declared equalities.
pub open spec fn deletes_declarations(action: Action) -> bool {
    action matches Action::Update(u) && u@
        == "DELETE { ?a <http://www.w3.org/2002/07/owl#sameAs> ?b } WHERE { ?a <http://www.w3.org/2002/07/owl#sameAs> ?b }"@
}

proof fn declarations_are_written()
    ensures
        delete_same_as_text()
            == "DELETE { ?a <http://www.w3.org/2002/07/owl#sameAs> ?b } WHERE { ?a <http://www.w3.org/2002/07/owl#sameAs> ?b }"@,
        same_as_query_text() == "SELECT ?a ?b WHERE { ?a <http://www.w3.org/2002/07/owl#sameAs> ?b }"@,
{
    reveal_strlit("DELETE { ?a <");
    reveal_strlit("http://www.w3.org/2002/07/owl#sameAs");
    reveal_strlit("> ?b } WHERE { ?a <");
    reveal_strlit("> ?b }");
    reveal_strlit(
        "DELETE { ?a <http://www.w3.org/2002/07/owl#sameAs> ?b } WHERE { ?a <http://www.w3.org/2002/07/owl#sameAs> ?b }",
    );
    reveal_strlit("SELECT ?a ?b WHERE { ?a <");
    reveal_strlit("SELECT ?a ?b WHERE { ?a <http://www.w3.org/2002/07/owl#sameAs> ?b }");
    assert(delete_same_as_text()
        =~= "DELETE { ?a <http://www.w3.org/2002/07/owl#sameAs> ?b } WHERE { ?a <http://www.w3.org/2002/07/owl#sameAs> ?b }"@);
    assert(same_as_query_text() =~= "SELECT ?a ?b WHERE { ?a <http://www.w3.org/2002/07/owl#sameAs> ?b }"@);
}

/// A run begins with the aliases that are known, and then asks the graph for the
/// equalities that are declared.
pub proof fn known_and_declared_are_read(
    c: Config,
    rows: Vec<Vec<TrackerValue>>,
    pairs: Seq<(Seq<char>, Seq<char>)>,
    next: Stage,
    action: Action,
)
    requires
        leads(c, Stage::ReadingAliases, Event::Rows(rows), next, action),
        rows@.len() == pairs.len(),
        forall|i: int| 0 <= i < rows@.len() ==> is_alias_row((#[trigger] rows@[i])@, pairs[i]),
    ensures
        next matches Stage::ReadingSameAs(known) && pair_views(known@) == pairs,
        action matches Action::Query(q) && q@
            == "SELECT ?a ?b WHERE { ?a <http://www.w3.org/2002/07/owl#sameAs> ?b }"@,
{
    declarations_are_written();
    let all = views(rows@);
    assert forall|i: int| 0 <= i < all.len() implies is_alias_row(#[trigger] all[i], pairs[i]) by {
        assert(is_alias_row(rows@[i]@, pairs[i]));
    }
    aliases_are_read(all, pairs);
}

/// The literals for the indexes are asked for under their predicates, and each row
/// with an IRI as its subject and a literal or an IRI as its object is one.
pub proof fn literals_are_asked_for(predicates: Seq<Seq<char>>, facts: Seq<Fact>)
    requires
        forall|i: int|
            0 <= i < facts.len() ==> (#[trigger] facts[i]).subject is NamedNode && (facts[i].object is Literal
                || facts[i].object is NamedNode),
    ensures
        literal_query_text(predicates) == "SELECT ?s ?p ?o WHERE { ?s ?p ?o . VALUES ?p { "@ + names_text(predicates)
            + " } }"@,
        statements_of(fact_rows(facts)).len() == facts.len(),
        forall|i: int|
            0 <= i < facts.len() ==> (#[trigger] statements_of(fact_rows(facts))[i]) == (
                facts[i].subject->NamedNode_0,
                facts[i].predicate,
                facts[i].object,
            ),
    decreases facts.len(),
{
    list_is_written(predicates);
    if facts.len() > 0 {
        let rest = facts.drop_last();
        assert forall|i: int| 0 <= i < rest.len() implies (#[trigger] rest[i]).subject is NamedNode && (
        rest[i].object is Literal || rest[i].object is NamedNode) by {
            assert(rest[i] == facts[i]);
        }
        literals_are_asked_for(predicates, rest);
        fact_rows_are_read(facts);
        let rows = fact_rows(facts);
        assert(rows.drop_last() =~= fact_rows(rest));
        assert(rows.last() == rows[facts.len() - 1]);
        assert(facts[facts.len() - 1].subject is NamedNode);
        let before = statements_of(fact_rows(rest));
        assert forall|i: int| 0 <= i < facts.len() implies (#[trigger] statements_of(rows)[i]) == (
            facts[i].subject->NamedNode_0,
            facts[i].predicate,
            facts[i].object,
        ) by {
            if i < rest.len() {
                assert(statements_of(rows)[i] == before[i]);
                assert(rest[i] == facts[i]);
            }
        }
    }
}

/// The summary of a run tells how many classes and aliases there are, how many
/// statements were rewritten, how many names were known before, and what the
/// sweeps did.
pub proof fn summary_tells_the_run(
    classes: u64,
    aliased: u64,
    rewritten: u64,
    seeded: u64,
    fulltext: SweepCounts,
    documents: SweepResult,
)
    ensures
        ({
            let tree = summary_tree(classes, aliased, rewritten, seeded, fulltext, documents);
            &&& tree.get("classes"@) == Some(JsonView::Unsigned(classes))
            &&& tree.get("aliased"@) == Some(JsonView::Unsigned(aliased))
            &&& tree.get("rewritten"@) == Some(JsonView::Unsigned(rewritten))
            &&& tree.get("seeded"@) == Some(JsonView::Unsigned(seeded))
            &&& tree.get("ft_inserted"@) == Some(JsonView::Unsigned(fulltext.inserted))
            &&& tree.get("ft_deleted"@) == Some(JsonView::Unsigned(fulltext.deleted))
            &&& tree.get("ft_errors"@) == Some(JsonView::Unsigned(fulltext.errors))
            &&& tree.get("doc_inserted"@) == Some(JsonView::Unsigned(documents.inserted))
            &&& tree.get("doc_deleted"@) == Some(JsonView::Unsigned(documents.deleted))
            &&& tree.get("doc_unchanged"@) == Some(JsonView::Unsigned(documents.unchanged))
            &&& tree.get("doc_errors"@) == Some(JsonView::Unsigned(documents.errors))
        }),
{
    reveal_strlit("classes");
    reveal_strlit("aliased");
    reveal_strlit("rewritten");
    reveal_strlit("seeded");
    reveal_strlit("ft_inserted");
    reveal_strlit("ft_deleted");
    reveal_strlit("ft_errors");
    reveal_strlit("doc_inserted");
    reveal_strlit("doc_deleted");
    reveal_strlit("doc_unchanged");
    reveal_strlit("doc_errors");
    assert("classes"@.len() == 7 && "aliased"@.len() == 7 && "classes"@[0] == 'c' && "aliased"@[0] == 'a');
    assert("rewritten"@.len() == 9 && "rewritten"@[0] == 'r' && "seeded"@.len() == 6);
    assert("ft_inserted"@.len() == 11 && "ft_inserted"@[0] == 'f' && "ft_deleted"@.len() == 10 && "ft_deleted"@[0]
        == 'f');
    assert("ft_errors"@.len() == 9 && "ft_errors"@[0] == 'f');
    assert("doc_inserted"@.len() == 12 && "doc_deleted"@.len() == 11 && "doc_deleted"@[0] == 'd');
    assert("doc_unchanged"@.len() == 13 && "doc_errors"@.len() == 10 && "doc_errors"@[0] == 'd');
    nothing_is_found();
    let f0 = no_fields();
    with_is_found(f0, "classes"@, JsonView::Unsigned(classes));
    let f1 = f0.with("classes"@, JsonView::Unsigned(classes));
    with_is_found(f1, "aliased"@, JsonView::Unsigned(aliased));
    let f2 = f1.with("aliased"@, JsonView::Unsigned(aliased));
    with_is_found(f2, "rewritten"@, JsonView::Unsigned(rewritten));
    let f3 = f2.with("rewritten"@, JsonView::Unsigned(rewritten));
    with_is_found(f3, "seeded"@, JsonView::Unsigned(seeded));
    let f4 = f3.with("seeded"@, JsonView::Unsigned(seeded));
    with_is_found(f4, "ft_inserted"@, JsonView::Unsigned(fulltext.inserted));
    let f5 = f4.with("ft_inserted"@, JsonView::Unsigned(fulltext.inserted));
    with_is_found(f5, "ft_deleted"@, JsonView::Unsigned(fulltext.deleted));
    let f6 = f5.with("ft_deleted"@, JsonView::Unsigned(fulltext.deleted));
    with_is_found(f6, "ft_errors"@, JsonView::Unsigned(fulltext.errors));
    let f7 = f6.with("ft_errors"@, JsonView::Unsigned(fulltext.errors));
    with_is_found(f7, "doc_inserted"@, JsonView::Unsigned(documents.inserted));
    let f8 = f7.with("doc_inserted"@, JsonView::Unsigned(documents.inserted));
    with_is_found(f8, "doc_deleted"@, JsonView::Unsigned(documents.deleted));
    let f9 = f8.with("doc_deleted"@, JsonView::Unsigned(documents.deleted));
    with_is_found(f9, "doc_unchanged"@, JsonView::Unsigned(documents.unchanged));
    let f10 = f9.with("doc_unchanged"@, JsonView::Unsigned(documents.unchanged));
    with_is_found(f10, "doc_errors"@, JsonView::Unsigned(documents.errors));
}

} // verus!

//! A canonicalization as a conversation with the host: it reads the aliases
//! that are known and the equalities that are declared, rewrites the graph to
//! the identifiers that stand for the classes, remembers the aliases, lets the
//! sweeps run, and deletes the declarations last.

use vstd::prelude::*;
use vstd::string::*;

use crate::canonicalize::document_sweep::{DocumentIndexConfig, SweepResult};
use crate::canonicalize::fulltext_sweep::{texts, FulltextIndexConfig, SweepCounts};
use crate::canonicalize::merge::{alias_rows, delete_same_as, delete_same_as_text, delete_update, delete_update_text,
    fetch_query, fetch_query_text, merge, merges, pair_views, read_aliases, read_same_as, refused, rewrite,
    rewritten_rows, same_as_pairs, same_as_query, same_as_query_text, summary, summary_tree, Merge, TrackerValue};
use crate::guest::{rows_of, select_rows};
use crate::host::outcome;
use crate::json::json_text;
use crate::rdf::{row_views, typed, Binding, BindingView, QueryResult, Term, TermView, RDF_JSON};
use crate::text::views;

verus! {

pub const COMPONENT: &'static str = "wf_canonicalize";

/// How to canonicalize.
pub struct Config {
    /// The sink that keeps the tables.
    pub sink: String,
    pub rule: String,
    pub fulltext_indexes: Vec<FulltextIndexConfig>,
    pub document_indexes: Vec<DocumentIndexConfig>,
    pub full_scan: bool,
}

/// What a canonicalization asks of the host.
pub enum Action {
    /// To have the alias table.
    RegisterAliases,
    /// The rows of the alias table.
    SelectAliases,
    Query(String),
    Update(String),
    /// An alias and what it stands for, for the alias table.
    Remember(String, String),
    SweepFulltext,
    SweepDocuments,
    Finish(Result<Term, String>),
}

/// What the host answers.
pub enum Event {
    Done,
    Failed(String),
    Rows(Vec<Vec<TrackerValue>>),
    Result(QueryResult),
    Swept(SweepCounts),
    Mirrored(SweepResult),
}

/// How far a canonicalization has come: what it waits for.
pub enum Stage {
    Registering,
    ReadingAliases,
    ReadingSameAs(Vec<(String, String)>),
    Fetching(Merge),
    Inserting(Merge, u64),
    Deleting(Merge, u64),
    /// The alias at this position, to be remembered.
    Remembering(Merge, u64, usize),
    SweepingFulltext(Merge, u64),
    SweepingDocuments(Merge, u64, SweepCounts),
    DeletingSameAs(Merge, u64, SweepCounts, SweepResult),
    Over,
}

// ---------------------------------------------------------------------------
// What follows what
// ---------------------------------------------------------------------------

pub open spec fn fails(next: Stage, action: Action, e: Seq<char>) -> bool {
    next is Over && (action matches Action::Finish(Err(text)) && text@ == e)
}

/// The end of a run whose event brings the host's error, or does not answer
/// the action.
pub open spec fn breaks_off(prefix: Seq<char>, event: Event, next: Stage, action: Action) -> bool {
    match event {
        Event::Failed(e) => fails(next, action, prefix + e@),
        _ => fails(next, action, "wf_canonicalize: unexpected reply from the host"@),
    }
}

fn fail(e: String) -> (r: (Stage, Action))
    ensures
        fails(r.0, r.1, e@),
{
    (Stage::Over, Action::Finish(Err(e)))
}

fn break_off(prefix: &str, event: Event) -> (r: (Stage, Action))
    ensures
        breaks_off(prefix@, event, r.0, r.1),
{
    match event {
        Event::Failed(e) => fail(prefix.to_owned().concat(&e)),
        _ => fail("wf_canonicalize: unexpected reply from the host".to_owned()),
    }
}

/// The declarations are to be deleted.
pub open spec fn goes_to_same_as(
    m: Merge,
    rewritten: u64,
    fulltext: SweepCounts,
    documents: SweepResult,
    next: Stage,
    action: Action,
) -> bool {
    &&& next == Stage::DeletingSameAs(m, rewritten, fulltext, documents)
    &&& action matches Action::Update(u) && u@ == delete_same_as_text()
}

/// The mirrors are to be swept, where there are any.
pub open spec fn goes_to_documents(
    c: Config,
    m: Merge,
    rewritten: u64,
    fulltext: SweepCounts,
    next: Stage,
    action: Action,
) -> bool {
    if c.document_indexes@.len() == 0 {
        goes_to_same_as(
            m,
            rewritten,
            fulltext,
            SweepResult { inserted: 0, deleted: 0, unchanged: 0, errors: 0 },
            next,
            action,
        )
    } else {
        next == Stage::SweepingDocuments(m, rewritten, fulltext) && action is SweepDocuments
    }
}

/// The literal indexes are to be swept, where there are any.
pub open spec fn goes_to_fulltext(c: Config, m: Merge, rewritten: u64, next: Stage, action: Action) -> bool {
    if c.fulltext_indexes@.len() == 0 {
        goes_to_documents(
            c,
            m,
            rewritten,
            SweepCounts { inserted: 0, deleted: 0, errors: 0 },
            next,
            action,
        )
    } else {
        next == Stage::SweepingFulltext(m, rewritten) && action is SweepFulltext
    }
}

/// The alias at a position is to be remembered, where there is one.
pub open spec fn goes_to_alias(c: Config, m: Merge, rewritten: u64, at: int, next: Stage, action: Action) -> bool {
    if 0 <= at < m.aliases.key_seq().len() {
        &&& next matches Stage::Remembering(m2, n, i) && m2 == m && n == rewritten && i == at
        &&& action matches Action::Remember(alias, canonical) && alias@ == m.aliases.key_seq()[at]
            && canonical@ == m.aliases.value_seq()[at]@
    } else {
        goes_to_fulltext(c, m, rewritten, next, action)
    }
}

/// The alias at a position.
pub open spec fn alias_at(m: Merge, at: int) -> Seq<char> {
    if 0 <= at < m.aliases.key_seq().len() {
        m.aliases.key_seq()[at]
    } else {
        Seq::empty()
    }
}

fn to_same_as(m: Merge, rewritten: u64, fulltext: SweepCounts, documents: SweepResult) -> (r: (Stage, Action))
    ensures
        goes_to_same_as(m, rewritten, fulltext, documents, r.0, r.1),
{
    (Stage::DeletingSameAs(m, rewritten, fulltext, documents), Action::Update(delete_same_as()))
}

fn to_documents(c: &Config, m: Merge, rewritten: u64, fulltext: SweepCounts) -> (r: (Stage, Action))
    ensures
        goes_to_documents(*c, m, rewritten, fulltext, r.0, r.1),
{
    if c.document_indexes.len() == 0 {
        to_same_as(m, rewritten, fulltext, SweepResult::zero())
    } else {
        (Stage::SweepingDocuments(m, rewritten, fulltext), Action::SweepDocuments)
    }
}

fn to_fulltext(c: &Config, m: Merge, rewritten: u64) -> (r: (Stage, Action))
    ensures
        goes_to_fulltext(*c, m, rewritten, r.0, r.1),
{
    if c.fulltext_indexes.len() == 0 {
        to_documents(c, m, rewritten, SweepCounts::zero())
    } else {
        (Stage::SweepingFulltext(m, rewritten), Action::SweepFulltext)
    }
}

fn to_alias(c: &Config, m: Merge, rewritten: u64, at: usize) -> (r: (Stage, Action))
    ensures
        goes_to_alias(*c, m, rewritten, at as int, r.0, r.1),
{
    if at < m.aliases.len() {
        let alias = m.aliases.key_at(at).clone();
        let canonical = m.aliases.value_at(at).clone();
        (Stage::Remembering(m, rewritten, at), Action::Remember(alias, canonical))
    } else {
        to_fulltext(c, m, rewritten)
    }
}

// ---------------------------------------------------------------------------
// The run
// ---------------------------------------------------------------------------

/// Begins a run.
pub fn begin() -> (r: (Stage, Action))
    ensures
        r.0 is Registering,
        r.1 is RegisterAliases,
{
    (Stage::Registering, Action::RegisterAliases)
}

/// Whether the run goes on rightly once the declared equalities have been read.
pub open spec fn merges_on(
    c: Config,
    known: Seq<(Seq<char>, Seq<char>)>,
    declared: Seq<(Seq<char>, Seq<char>)>,
    next: Stage,
    action: Action,
) -> bool {
    ||| exists|e: Seq<char>| refused(e, known, declared, c.rule@) && #[trigger] fails(next, action, e)
    ||| exists|m: Merge|
        #[trigger] merges(m, known, declared, c.rule@) && if m.aliases.key_seq().len() == 0 {
            goes_to_fulltext(c, m, 0, next, action)
        } else {
            &&& next == Stage::Fetching(m)
            &&& action matches Action::Query(q) && q@ == fetch_query_text(m.aliases.key_seq())
        }
}

/// Whether the run goes on rightly once the statements that mention an alias
/// have been fetched.
pub open spec fn rewrites_on(
    m: Merge,
    rows: Seq<Seq<BindingView>>,
    next: Stage,
    action: Action,
) -> bool {
    let (body, n) = rewritten_rows(rows, texts(m.aliases@));
    if n == 0 {
        &&& next == Stage::Deleting(m, 0)
        &&& action matches Action::Update(u) && u@ == delete_update_text(m.aliases.key_seq())
    } else {
        &&& next matches Stage::Inserting(m2, k) && m2 == m && k == n
        &&& action matches Action::Update(u) && u@ == "INSERT DATA { "@ + body + " }"@
    }
}

/// Whether an event leads from one stage to the next.
pub open spec fn leads(c: Config, stage: Stage, event: Event, next: Stage, action: Action) -> bool {
    match (stage, event) {
        (Stage::Registering, Event::Done) => next is ReadingAliases && action is SelectAliases,
        (Stage::ReadingAliases, Event::Rows(rows)) => match alias_rows(views(rows@)) {
            Ok(pairs) => {
                &&& next matches Stage::ReadingSameAs(known) && pair_views(known@) == pairs
                &&& action matches Action::Query(q) && q@ == same_as_query_text()
            },
            Err(e) => fails(next, action, e),
        },
        (Stage::ReadingSameAs(known), Event::Result(result)) => match rows_of(COMPONENT@, result@) {
            Ok(rows) => merges_on(c, pair_views(known@), same_as_pairs(rows), next, action),
            Err(e) => fails(next, action, e),
        },
        (Stage::Fetching(m), Event::Result(result)) => match rows_of(COMPONENT@, result@) {
            Ok(rows) => rewrites_on(m, rows, next, action),
            Err(e) => fails(next, action, e),
        },
        (Stage::Inserting(m, rewritten), Event::Done) => {
            &&& next == Stage::Deleting(m, rewritten)
            &&& action matches Action::Update(u) && u@ == delete_update_text(m.aliases.key_seq())
        },
        (Stage::Deleting(m, rewritten), Event::Done) => goes_to_alias(c, m, rewritten, 0, next, action),
        (Stage::Remembering(m, rewritten, at), Event::Done) => goes_to_alias(
            c,
            m,
            rewritten,
            at + 1,
            next,
            action,
        ),
        (Stage::SweepingFulltext(m, rewritten), Event::Swept(counts)) => goes_to_documents(
            c,
            m,
            rewritten,
            counts,
            next,
            action,
        ),
        (Stage::SweepingDocuments(m, rewritten, fulltext), Event::Mirrored(documents)) => goes_to_same_as(
            m,
            rewritten,
            fulltext,
            documents,
            next,
            action,
        ),
        (Stage::DeletingSameAs(m, rewritten, fulltext, documents), Event::Done) => {
            &&& next is Over
            &&& action matches Action::Finish(result) && outcome(result) == Ok::<TermView, Seq<char>>(
                typed(
                    json_text(
                        summary_tree(
                            m.classes as u64,
                            m.aliases.key_seq().len() as u64,
                            rewritten,
                            m.seeded as u64,
                            fulltext,
                            documents,
                        ),
                    ),
                    RDF_JSON@,
                ),
            )
        },
        (Stage::Inserting(_, _), _) => breaks_off(
            "wf_canonicalize: insert canonicalized batch: "@,
            event,
            next,
            action,
        ),
        (Stage::Deleting(_, _), _) => breaks_off(
            "wf_canonicalize: delete alias-bearing triples: "@,
            event,
            next,
            action,
        ),
        (Stage::Remembering(m, _, at), _) => breaks_off(
            "wf_canonicalize: alias table upsert `"@ + alias_at(m, at as int) + "`: "@,
            event,
            next,
            action,
        ),
        (Stage::DeletingSameAs(_, _, _, _), _) => breaks_off(
            "wf_canonicalize: delete sameAs assertions: "@,
            event,
            next,
            action,
        ),
        _ => breaks_off(""@, event, next, action),
    }
}

fn after_same_as(c: &Config, known: Vec<(String, String)>, rows: &Vec<Vec<Binding>>) -> (r: (Stage, Action))
    ensures
        merges_on(*c, pair_views(known@), same_as_pairs(row_views(rows@)), r.0, r.1),
{
    let declared = read_same_as(rows);
    match merge(&known, &declared, &c.rule) {
        Err(e) => fail(e),
        Ok(m) => {
            let ghost made = m;
            if m.aliases.len() == 0 {
                to_fulltext(c, m, 0)
            } else {
                let q = fetch_query(&m.aliases);
                proof {
                    assert(merges(made, pair_views(known@), pair_views(declared@), c.rule@));
                }
                (Stage::Fetching(m), Action::Query(q))
            }
        },
    }
}

fn after_fetch(m: Merge, rows: &Vec<Vec<Binding>>) -> (r: (Stage, Action))
    ensures
        rewrites_on(m, row_views(rows@), r.0, r.1),
{
    let (insert, n) = rewrite(rows, &m.aliases);
    match insert {
        Some(update) => (Stage::Inserting(m, n), Action::Update(update)),
        None => {
            let update = delete_update(&m.aliases);
            (Stage::Deleting(m, 0), Action::Update(update))
        },
    }
}

/// Moves a run on with the host's answer.
pub fn step(c: &Config, stage: Stage, event: Event) -> (r: (Stage, Action))
    ensures
        leads(*c, stage, event, r.0, r.1),
{
    match stage {
        Stage::Registering => match event {
            Event::Done => (Stage::ReadingAliases, Action::SelectAliases),
            other => break_off("", other),
        },
        Stage::ReadingAliases => match event {
            Event::Rows(rows) => match read_aliases(&rows) {
                Ok(known) => (Stage::ReadingSameAs(known), Action::Query(same_as_query())),
                Err(e) => fail(e),
            },
            other => break_off("", other),
        },
        Stage::ReadingSameAs(known) => match event {
            Event::Result(result) => match select_rows(COMPONENT, result) {
                Ok(rows) => after_same_as(c, known, &rows),
                Err(e) => fail(e),
            },
            other => break_off("", other),
        },
        Stage::Fetching(m) => match event {
            Event::Result(result) => match select_rows(COMPONENT, result) {
                Ok(rows) => after_fetch(m, &rows),
                Err(e) => fail(e),
            },
            other => break_off("", other),
        },
        Stage::Inserting(m, rewritten) => match event {
            Event::Done => {
                let update = delete_update(&m.aliases);
                (Stage::Deleting(m, rewritten), Action::Update(update))
            },
            other => break_off("wf_canonicalize: insert canonicalized batch: ", other),
        },
        Stage::Deleting(m, rewritten) => match event {
            Event::Done => to_alias(c, m, rewritten, 0),
            other => break_off("wf_canonicalize: delete alias-bearing triples: ", other),
        },
        Stage::Remembering(m, rewritten, at) => match event {
            Event::Done => if at < m.aliases.len() {
                to_alias(c, m, rewritten, at + 1)
            } else {
                to_fulltext(c, m, rewritten)
            },
            other => {
                let alias = if at < m.aliases.len() {
                    m.aliases.key_at(at).clone()
                } else {
                    String::new()
                };
                let prefix = "wf_canonicalize: alias table upsert `".to_owned().concat(&alias).concat("`: ");
                break_off(&prefix, other)
            },
        },
        Stage::SweepingFulltext(m, rewritten) => match event {
            Event::Swept(counts) => to_documents(c, m, rewritten, counts),
            other => break_off("", other),
        },
        Stage::SweepingDocuments(m, rewritten, fulltext) => match event {
            Event::Mirrored(documents) => to_same_as(m, rewritten, fulltext, documents),
            other => break_off("", other),
        },
        Stage::DeletingSameAs(m, rewritten, fulltext, documents) => match event {
            Event::Done => (Stage::Over, Action::Finish(Ok(summary(&m, rewritten, &fulltext, &documents)))),
            other => break_off("wf_canonicalize: delete sameAs assertions: ", other),
        },
        Stage::Over => break_off("", event),
    }
}

// ---------------------------------------------------------------------------
// Laws of a run
// ---------------------------------------------------------------------------

/// Statements that mention an alias are deleted only once their rewritten forms
/// have been inserted, or where there are none.
pub proof fn nothing_is_lost(c: Config, stage: Stage, event: Event, next: Stage, action: Action)
    requires
        leads(c, stage, event, next, action),
        next is Deleting,
    ensures
        match stage {
            Stage::Inserting(_, _) => event is Done,
            Stage::Fetching(m) => exists|rows: Seq<Seq<BindingView>>|
                (#[trigger] rewritten_rows(rows, texts(m.aliases@))).1 == 0,
            _ => false,
        },
{
    match stage {
        Stage::Fetching(m) => match event {
            Event::Result(result) => match rows_of(COMPONENT@, result@) {
                Ok(rows) => {
                    assert(rewritten_rows(rows, texts(m.aliases@)).1 == 0);
                },
                Err(_) => {},
            },
            _ => {},
        },
        _ => {},
    }
}

/// The declarations are the last thing that a run deletes: once it has asked for
/// that, it finishes.
pub proof fn declarations_go_last(c: Config, stage: Stage, event: Event, next: Stage, action: Action)
    requires
        leads(c, stage, event, next, action),
        stage is DeletingSameAs,
    ensures
        next is Over,
        action is Finish,
{
}

/// A failure of the host ends the run with an error, whatever the run waits for.
pub proof fn failure_ends(c: Config, stage: Stage, e: String, next: Stage, action: Action)
    requires
        leads(c, stage, Event::Failed(e), next, action),
    ensures
        next is Over,
        action matches Action::Finish(Err(text)) && exists|prefix: Seq<char>| text@ == #[trigger] (prefix + e@),
{
}

} // verus!

//! `wf_demote`: deletes from the graph the statements that a materialized shape
//! has put on a sink.

use vstd::prelude::*;
use vstd::string::*;

use crate::guest::{describes, never_constructed, never_constructed_text, one_function, unknown_function,
    unknown_function_text, FunctionDescriptor};
use crate::host::{count_views, fail, failure, give_up, given_up, literal_arg, literal_or, missing_sink, summarize,
    summary_of, text_or_error, validate_sink_present, Reply, ReplyView, Request, RequestView};
use crate::infer::engine::{read_size, size_in};
use crate::names::{in_order, listed, lists, lists_unique, Names};
use crate::number::{capped, decimal_of, decimal_usize};
use crate::rdf::{bracket, bracketed, node_id, term_iri, Quad, QuadView, Term, RDF_TYPE};
use crate::shape::{Anchor, Column, ColumnView};
use crate::text::{join, joined, same, starts_with, views, views_push};

verus! {

pub const COMPONENT: &'static str = "wf_demote";

/// How many subjects one update names at most.
pub const CHUNK: usize = 1000;

/// What to demote.
#[derive(Debug)]
pub struct Descriptor {
    pub name: String,
    pub shape: String,
    pub anchor: Anchor,
    pub columns: Vec<Column>,
    pub sink: Option<String>,
    /// The graph that the shape lives in; the default graph where it is absent.
    pub graph: Option<String>,
}

/// The descriptor's text among the arguments of a call.
pub fn descriptor_text(args: &Vec<Term>) -> (r: Result<String, String>)
    ensures
        text_or_error(r) == literal_or(
            views(args@),
            "wf_demote: expected one arg (descriptor json)"@,
            "wf_demote: first arg must be a descriptor-json string literal, got "@,
        ),
{
    literal_arg(
        args,
        "wf_demote: expected one arg (descriptor json)",
        "wf_demote: first arg must be a descriptor-json string literal, got ",
    )
}

// ---------------------------------------------------------------------------
// Predicates and subjects
// ---------------------------------------------------------------------------

/// The predicates of the columns that do not hold the subject.
pub open spec fn column_predicates(columns: Seq<ColumnView>) -> Seq<Seq<char>>
    decreases columns.len(),
{
    if columns.len() == 0 {
        Seq::empty()
    } else {
        let before = column_predicates(columns.drop_last());
        match columns.last().predicate {
            Some(p) => if columns.last().role != "subject_iri"@ {
                before.push(p)
            } else {
                before
            },
            None => before,
        }
    }
}

/// The predicates whose statements are deleted: those of the columns, and
/// `rdf:type` where the anchor is a class.
pub open spec fn demoted_predicates(d: Descriptor) -> Seq<Seq<char>> {
    let of_columns = column_predicates(views(d.columns@));
    if d.anchor.class is Some {
        of_columns.push(RDF_TYPE@)
    } else {
        of_columns
    }
}

pub fn predicates(d: &Descriptor) -> (r: Vec<String>)
    ensures
        views(r@) == demoted_predicates(*d),
{
    broadcast use views_push;

    let ghost all = views(d.columns@);
    let mut r: Vec<String> = Vec::new();
    proof {
        assert(views(r@) =~= column_predicates(all.take(0)));
    }
    for i in 0..d.columns.len()
        invariant
            all == views(d.columns@),
            views(r@) == column_predicates(all.take(i as int)),
    {
        proof {
            assert(all.take(i + 1).drop_last() =~= all.take(i as int));
        }
        let column = &d.columns[i];
        match &column.predicate {
            Some(p) => {
                if !same(&column.role, "subject_iri") {
                    r.push(p.clone());
                }
            },
            None => {},
        }
    }
    proof {
        assert(all.take(all.len() as int) =~= all);
    }
    if d.anchor.class.is_some() {
        r.push(RDF_TYPE.to_owned());
    }
    r
}

/// The subjects of statements, added to a set; what is no node is left out.
pub open spec fn with_subjects(set: Set<Seq<char>>, quads: Seq<QuadView>) -> Set<Seq<char>>
    decreases quads.len(),
{
    if quads.len() == 0 {
        set
    } else {
        let before = with_subjects(set, quads.drop_last());
        match node_id(quads.last().subject) {
            Some(s) => before.insert(s),
            None => before,
        }
    }
}

fn add_subjects(set: &mut Names, quads: &Vec<Quad>)
    ensures
        final(set)@ == with_subjects(old(set)@, views(quads@)),
{
    let ghost all = views(quads@);
    let ghost start = set@;
    for i in 0..quads.len()
        invariant
            all == views(quads@),
            set@ == with_subjects(start, all.take(i as int)),
    {
        proof {
            assert(all.take(i + 1).drop_last() =~= all.take(i as int));
        }
        match term_iri(&quads[i].subject) {
            Some(s) => {
                set.insert(s);
            },
            None => {},
        }
    }
    proof {
        assert(all.take(all.len() as int) =~= all);
    }
}

// ---------------------------------------------------------------------------
// Updates
// ---------------------------------------------------------------------------

/// A subject in an update.
pub open spec fn subject_text(id: Seq<char>) -> Seq<char> {
    if "_:"@.is_prefix_of(id) {
        id
    } else {
        bracketed(id)
    }
}

/// The subjects of an update.
pub open spec fn subject_texts(ids: Seq<Seq<char>>) -> Seq<Seq<char>> {
    Seq::new(ids.len(), |i: int| subject_text(ids[i]))
}

/// A pattern in a graph.
pub open spec fn in_graph(graph: Option<Seq<char>>, body: Seq<char>) -> Seq<char> {
    match graph {
        Some(g) => "GRAPH <"@ + g + "> { "@ + body + " }"@,
        None => body,
    }
}

fn put_in_graph(graph: &Option<String>, body: &str) -> (r: String)
    ensures
        r@ == in_graph(crate::text::opt_view(*graph), body@),
{
    match graph {
        Some(g) => "GRAPH <".to_owned().concat(g).concat("> { ").concat(body).concat(" }"),
        None => body.to_owned(),
    }
}

/// The statements under a predicate.
pub open spec fn pattern_text(graph: Option<Seq<char>>, predicate: Seq<char>) -> Seq<char> {
    in_graph(graph, "?s <"@ + predicate + "> ?o"@)
}

/// The statements of subjects under a predicate.
pub open spec fn where_text(graph: Option<Seq<char>>, predicate: Seq<char>, ids: Seq<Seq<char>>) -> Seq<char> {
    " WHERE { "@ + pattern_text(graph, predicate) + " . VALUES ?s { "@ + joined(subject_texts(ids), " "@) + " } }"@
}

/// The query that counts the statements of subjects under a predicate.
pub open spec fn count_text(graph: Option<Seq<char>>, predicate: Seq<char>, ids: Seq<Seq<char>>) -> Seq<char> {
    "SELECT (COUNT(*) AS ?n)"@ + where_text(graph, predicate, ids)
}

/// The update that deletes the statements of subjects under a predicate.
pub open spec fn delete_text(graph: Option<Seq<char>>, predicate: Seq<char>, ids: Seq<Seq<char>>) -> Seq<char> {
    "DELETE { "@ + pattern_text(graph, predicate) + " }"@ + where_text(graph, predicate, ids)
}

/// The end of the chunk of subjects that starts at `from`.
pub open spec fn chunk_end(subjects: nat, from: nat) -> nat {
    if from + CHUNK < subjects {
        (from + CHUNK) as nat
    } else {
        subjects
    }
}

/// The chunk of subjects that starts at `from`.
pub open spec fn chunk_at(subjects: Seq<Seq<char>>, from: nat) -> Seq<Seq<char>> {
    if from < subjects.len() {
        subjects.subrange(from as int, chunk_end(subjects.len(), from) as int)
    } else {
        Seq::empty()
    }
}

fn pattern(graph: &Option<String>, predicate: &str) -> (r: String)
    ensures
        r@ == pattern_text(crate::text::opt_view(*graph), predicate@),
{
    put_in_graph(graph, &"?s <".to_owned().concat(predicate).concat("> ?o"))
}

fn where_chunk(graph: &Option<String>, predicate: &str, subjects: &Vec<String>, from: usize) -> (r: String)
    ensures
        r@ == where_text(
            crate::text::opt_view(*graph),
            predicate@,
            chunk_at(views(subjects@), from as nat),
        ),
{
    broadcast use views_push;

    let ghost ids = chunk_at(views(subjects@), from as nat);
    let mut shown: Vec<String> = Vec::new();
    let end: usize = if from >= subjects.len() {
        from
    } else if CHUNK < subjects.len() - from {
        from + CHUNK
    } else {
        subjects.len()
    };
    let mut i: usize = from;
    proof {
        assert(views(shown@) =~= subject_texts(ids).take(0));
    }
    while i < end
        invariant
            from <= i <= end,
            end == from || end <= subjects@.len(),
            ids.len() == end - from,
            ids == chunk_at(views(subjects@), from as nat),
            views(shown@) == subject_texts(ids).take(i - from),
        decreases end - i,
    {
        proof {
            assert(ids[i - from] == subjects@[i as int]@);
            assert(subject_texts(ids).take(i + 1 - from) =~= subject_texts(ids).take(i - from).push(
                subject_text(ids[i - from]),
            ));
        }
        if starts_with(&subjects[i], "_:") {
            shown.push(subjects[i].clone());
        } else {
            shown.push(bracket(&subjects[i]));
        }
        i = i + 1;
    }
    proof {
        assert(subject_texts(ids).take(ids.len() as int) =~= subject_texts(ids));
    }
    " WHERE { ".to_owned().concat(&pattern(graph, predicate)).concat(" . VALUES ?s { ").concat(
        &join(&shown, " "),
    ).concat(" } }")
}

fn count_chunk(graph: &Option<String>, predicate: &str, subjects: &Vec<String>, from: usize) -> (r: String)
    ensures
        r@ == count_text(crate::text::opt_view(*graph), predicate@, chunk_at(views(subjects@), from as nat)),
{
    "SELECT (COUNT(*) AS ?n)".to_owned().concat(&where_chunk(graph, predicate, subjects, from))
}

fn delete_chunk(graph: &Option<String>, predicate: &str, subjects: &Vec<String>, from: usize) -> (r: String)
    ensures
        r@ == delete_text(crate::text::opt_view(*graph), predicate@, chunk_at(views(subjects@), from as nat)),
{
    "DELETE { ".to_owned().concat(&pattern(graph, predicate)).concat(" }").concat(
        &where_chunk(graph, predicate, subjects, from),
    )
}

// ---------------------------------------------------------------------------
// The call
// ---------------------------------------------------------------------------

/// Where the deletion stands: under the predicate at a position, at the chunk
/// of subjects that starts at another, with so many statements deleted.
pub struct Progress {
    pub predicates: Vec<String>,
    pub subjects: Vec<String>,
    pub at: usize,
    pub from: usize,
    pub deleted: u64,
}

pub struct ProgressView {
    pub predicates: Seq<Seq<char>>,
    pub subjects: Seq<Seq<char>>,
    pub at: nat,
    pub from: nat,
    pub deleted: u64,
}

impl View for Progress {
    type V = ProgressView;

    open spec fn view(&self) -> ProgressView {
        ProgressView {
            predicates: views(self.predicates@),
            subjects: views(self.subjects@),
            at: self.at as nat,
            from: self.from as nat,
            deleted: self.deleted,
        }
    }
}

/// How far a call has come: what it waits for.
pub enum Stage {
    /// The names of the sinks.
    Sinks,
    /// The sink's statements under the predicate at this position.
    Scanning(Vec<String>, usize, Names),
    /// How many statements the next deletion will meet.
    Counting(Progress),
    /// The deletion; what it meets has been counted.
    Deleting(Progress),
    /// Nothing: the call has finished.
    Over,
}

pub enum StageView {
    Sinks,
    Scanning(Seq<Seq<char>>, nat, Set<Seq<char>>),
    Counting(ProgressView),
    Deleting(ProgressView),
    Over,
}

impl View for Stage {
    type V = StageView;

    open spec fn view(&self) -> StageView {
        match self {
            Stage::Sinks => StageView::Sinks,
            Stage::Scanning(predicates, at, found) => StageView::Scanning(views(predicates@), *at as nat, found@),
            Stage::Counting(p) => StageView::Counting(p@),
            Stage::Deleting(p) => StageView::Deleting(p@),
            Stage::Over => StageView::Over,
        }
    }
}

pub open spec fn ends(request: RequestView) -> (StageView, RequestView) {
    (StageView::Over, request)
}

/// A call's summary.
pub open spec fn demote_summary(deleted: u64, predicates: nat, subjects: nat) -> RequestView {
    RequestView::Finish(
        Ok(
            summary_of(
                seq![
                    ("deleted"@, deleted),
                    ("predicates"@, predicates as u64),
                    ("subjects"@, subjects as u64),
                ],
            ),
        ),
    )
}

fn finish(deleted: u64, predicates: usize, subjects: usize) -> (r: Request)
    ensures
        r@ == demote_summary(deleted, predicates as nat, subjects as nat),
{
    let counts = vec![("deleted", deleted), ("predicates", predicates as u64), ("subjects", subjects as u64)];
    proof {
        assert(count_views(counts@) =~= seq![
            ("deleted"@, deleted),
            ("predicates"@, predicates as u64),
            ("subjects"@, subjects as u64),
        ]);
    }
    Request::Finish(Ok(summarize(&counts)))
}

/// The scan under the predicate at a position, or the first count where all
/// predicates have been scanned.
pub open spec fn scan_on(
    d: Descriptor,
    sink: Seq<char>,
    predicates: Seq<Seq<char>>,
    at: nat,
    found: Set<Seq<char>>,
) -> (StageView, RequestView) {
    if at < predicates.len() {
        (StageView::Scanning(predicates, at, found), RequestView::Scan(sink, predicates[at as int]))
    } else {
        count_on(d, ProgressView { predicates, subjects: in_order(found), at: 0, from: 0, deleted: 0 })
    }
}

/// The count of what the next deletion will meet, or the end where nothing is
/// left to delete.
pub open spec fn count_on(d: Descriptor, p: ProgressView) -> (StageView, RequestView) {
    if p.at < p.predicates.len() && p.from < p.subjects.len() {
        (
            StageView::Counting(p),
            RequestView::Query(
                count_text(
                    crate::text::opt_view(d.graph),
                    p.predicates[p.at as int],
                    chunk_at(p.subjects, p.from),
                ),
            ),
        )
    } else {
        ends(demote_summary(p.deleted, p.predicates.len(), p.subjects.len()))
    }
}

fn count_from(d: &Descriptor, p: Progress) -> (r: (Stage, Request))
    ensures
        (r.0@, r.1@) == count_on(*d, p@),
{
    if p.at < p.predicates.len() && p.from < p.subjects.len() {
        let query = count_chunk(&d.graph, &p.predicates[p.at], &p.subjects, p.from);
        (Stage::Counting(p), Request::Query(query))
    } else {
        let request = finish(p.deleted, p.predicates.len(), p.subjects.len());
        (Stage::Over, request)
    }
}

/// The predicate that the deletion is at.
pub open spec fn predicate_at(p: ProgressView) -> Seq<char> {
    if p.at < p.predicates.len() {
        p.predicates[p.at as int]
    } else {
        Seq::empty()
    }
}

fn current_predicate(p: &Progress) -> (r: String)
    ensures
        r@ == predicate_at(p@),
{
    if p.at < p.predicates.len() {
        p.predicates[p.at].clone()
    } else {
        String::new()
    }
}

/// The deletion that has been counted.
pub open spec fn delete_on(d: Descriptor, p: ProgressView) -> (StageView, RequestView) {
    (
        StageView::Deleting(p),
        RequestView::Update(
            delete_text(crate::text::opt_view(d.graph), predicate_at(p), chunk_at(p.subjects, p.from)),
        ),
    )
}

/// Where the deletion goes on once a chunk is gone: at the next chunk, or at the
/// first one under the next predicate.
pub open spec fn past_chunk(p: ProgressView) -> ProgressView {
    let end = chunk_end(p.subjects.len(), p.from);
    if end < p.subjects.len() {
        ProgressView { from: end, ..p }
    } else {
        ProgressView { at: p.at + 1, from: 0, ..p }
    }
}

/// The message of a count or a deletion that failed.
pub open spec fn chunk_error(verb: Seq<char>, p: ProgressView, e: Seq<char>) -> Seq<char> {
    "wf_demote: "@ + verb + " predicate `"@ + predicate_at(p) + "` chunk of "@ + decimal_of(
        chunk_at(p.subjects, p.from).len(),
    ) + ": "@ + e
}

fn chunk_failed(verb: &str, p: &Progress, e: &str) -> (r: Request)
    ensures
        r@ == failure(chunk_error(verb@, p@, e@)),
{
    let size: usize = if p.from >= p.subjects.len() {
        0
    } else if CHUNK < p.subjects.len() - p.from {
        CHUNK
    } else {
        p.subjects.len() - p.from
    };
    fail(
        "wf_demote: ".to_owned().concat(verb).concat(" predicate `").concat(&current_predicate(p)).concat(
            "` chunk of ",
        ).concat(&decimal_usize(size)).concat(": ").concat(e),
    )
}

fn scan_from(
    d: &Descriptor,
    sink: &str,
    predicates: Vec<String>,
    at: usize,
    found: Names,
) -> (r: (Stage, Request))
    ensures
        (r.0@, r.1@) == scan_on(*d, sink@, views(predicates@), at as nat, found@),
{
    if at < predicates.len() {
        let request = Request::Scan(sink.to_owned(), predicates[at].clone());
        (Stage::Scanning(predicates, at, found), request)
    } else {
        let subjects = found.items();
        count_from(d, Progress { predicates, subjects, at: 0, from: 0, deleted: 0 })
    }
}

/// The first request of a call.
pub open spec fn begun(d: Descriptor) -> (StageView, RequestView) {
    if d.sink is None {
        ends(failure("wf_demote: descriptor has no `sink`"@))
    } else {
        (StageView::Sinks, RequestView::ListSinks)
    }
}

/// Begins a call.
pub fn begin(d: &Descriptor) -> (r: (Stage, Request))
    ensures
        (r.0@, r.1@) == begun(*d),
{
    if d.sink.is_none() {
        (Stage::Over, fail("wf_demote: descriptor has no `sink`".to_owned()))
    } else {
        (Stage::Sinks, Request::ListSinks)
    }
}

/// What a reply leads to.
pub open spec fn next(d: Descriptor, stage: StageView, reply: ReplyView) -> (StageView, RequestView) {
    match d.sink {
        None => ends(failure("wf_demote: descriptor has no `sink`"@)),
        Some(sink) => match (stage, reply) {
            (StageView::Sinks, ReplyView::Sinks(names)) => if names.contains(sink@) {
                scan_on(d, sink@, demoted_predicates(d), 0, Set::empty())
            } else {
                ends(failure(missing_sink(COMPONENT@, sink@, names.len())))
            },
            (StageView::Scanning(predicates, at, found), ReplyView::Quads(quads)) => scan_on(
                d,
                sink@,
                predicates,
                at + 1,
                with_subjects(found, quads),
            ),
            (StageView::Counting(p), ReplyView::Result(result)) => delete_on(
                d,
                ProgressView { deleted: capped(p.deleted, size_in(result)), ..p },
            ),
            (StageView::Counting(p), ReplyView::Failed(e)) => ends(failure(chunk_error("count"@, p, e))),
            (StageView::Deleting(p), ReplyView::Done) => count_on(d, past_chunk(p)),
            (StageView::Deleting(p), ReplyView::Failed(e)) => ends(failure(chunk_error("delete"@, p, e))),
            (_, reply) => ends(given_up(COMPONENT@, reply)),
        },
    }
}

/// Moves a call on with the host's reply.
pub fn step(d: &Descriptor, stage: Stage, reply: Reply) -> (r: (Stage, Request))
    ensures
        (r.0@, r.1@) == next(*d, stage@, reply@),
{
    let sink = match &d.sink {
        Some(sink) => sink,
        None => {
            return (Stage::Over, fail("wf_demote: descriptor has no `sink`".to_owned()));
        },
    };
    match stage {
        Stage::Sinks => match reply {
            Reply::Sinks(names) => match validate_sink_present(COMPONENT, sink, &names) {
                Ok(_) => scan_from(d, sink, predicates(d), 0, Names::new()),
                Err(e) => (Stage::Over, fail(e)),
            },
            other => (Stage::Over, give_up(COMPONENT, other)),
        },
        Stage::Scanning(predicates, at, found) => match reply {
            Reply::Quads(quads) => {
                let mut found = found;
                add_subjects(&mut found, &quads);
                if at < predicates.len() {
                    scan_from(d, sink, predicates, at + 1, found)
                } else {
                    let subjects = found.items();
                    count_from(d, Progress { predicates, subjects, at: 0, from: 0, deleted: 0 })
                }
            },
            other => (Stage::Over, give_up(COMPONENT, other)),
        },
        Stage::Counting(p) => match reply {
            Reply::Result(result) => {
                let mut p = p;
                p.deleted = p.deleted.saturating_add(read_size(&result));
                let update = delete_chunk(&d.graph, &current_predicate(&p), &p.subjects, p.from);
                (Stage::Deleting(p), Request::Update(update))
            },
            Reply::Failed(e) => (Stage::Over, chunk_failed("count", &p, &e)),
            other => (Stage::Over, give_up(COMPONENT, other)),
        },
        Stage::Deleting(p) => match reply {
            Reply::Done => {
                let mut p = p;
                if p.from < p.subjects.len() && CHUNK < p.subjects.len() - p.from {
                    p.from = p.from + CHUNK;
                    count_from(d, p)
                } else if p.at < p.predicates.len() {
                    p.at = p.at + 1;
                    p.from = 0;
                    count_from(d, p)
                } else {
                    let request = finish(p.deleted, p.predicates.len(), p.subjects.len());
                    (Stage::Over, request)
                }
            },
            Reply::Failed(e) => (Stage::Over, chunk_failed("delete", &p, &e)),
            other => (Stage::Over, give_up(COMPONENT, other)),
        },
        Stage::Over => (Stage::Over, give_up(COMPONENT, reply)),
    }
}

// ---------------------------------------------------------------------------
// Laws
// ---------------------------------------------------------------------------

/// The subjects that the updates under one predicate name, in order, from a
/// chunk on.
pub open spec fn named_from(subjects: Seq<Seq<char>>, from: nat) -> Seq<Seq<char>>
    decreases subjects.len() - from,
{
    if from >= subjects.len() {
        Seq::empty()
    } else {
        chunk_at(subjects, from) + named_from(subjects, chunk_end(subjects.len(), from))
    }
}

/// The chunks name every subject once, and no other.
pub proof fn chunks_cover_the_subjects(subjects: Seq<Seq<char>>, from: nat)
    requires
        from <= subjects.len(),
    ensures
        named_from(subjects, from) == subjects.skip(from as int),
    decreases subjects.len() - from,
{
    if from < subjects.len() {
        let end = chunk_end(subjects.len(), from);
        chunks_cover_the_subjects(subjects, end);
        assert(chunk_at(subjects, from) + subjects.skip(end as int) =~= subjects.skip(from as int));
    } else {
        assert(subjects.skip(from as int) =~= Seq::empty());
    }
}

/// Only subjects that the sink names are found.
pub proof fn subjects_come_from_the_sink(set: Set<Seq<char>>, quads: Seq<QuadView>, id: Seq<char>)
    ensures
        with_subjects(set, quads).contains(id) <==> set.contains(id) || exists|i: int|
            0 <= i < quads.len() && node_id((#[trigger] quads[i]).subject) == Some(id),
    decreases quads.len(),
{
    if quads.len() > 0 {
        let rest = quads.drop_last();
        subjects_come_from_the_sink(set, rest, id);
        if exists|i: int| 0 <= i < quads.len() && node_id((#[trigger] quads[i]).subject) == Some(id) {
            let i = choose|i: int| 0 <= i < quads.len() && node_id((#[trigger] quads[i]).subject) == Some(id);
            if i < rest.len() {
                assert(rest[i] == quads[i]);
            }
        }
        if exists|i: int| 0 <= i < rest.len() && node_id((#[trigger] rest[i]).subject) == Some(id) {
            let i = choose|i: int| 0 <= i < rest.len() && node_id((#[trigger] rest[i]).subject) == Some(id);
            assert(quads[i] == rest[i]);
        }
        if node_id(quads.last().subject) == Some(id) {
            assert(quads[quads.len() - 1] == quads.last());
        }
    }
}

/// Where a call stands once the replies have come in.
pub open spec fn reached(d: Descriptor, replies: Seq<ReplyView>) -> (StageView, RequestView)
    decreases replies.len(),
{
    if replies.len() == 0 {
        begun(d)
    } else {
        next(d, reached(d, replies.drop_last()).0, replies.last())
    }
}

/// Whether a reply lists statements, one of them about `id`.
pub open spec fn lists_subject(reply: ReplyView, id: Seq<char>) -> bool {
    match reply {
        ReplyView::Quads(quads) => exists|i: int|
            0 <= i < quads.len() && node_id((#[trigger] quads[i]).subject) == Some(id),
        _ => false,
    }
}

/// Whether one of the replies lists a statement about `id`.
pub open spec fn sink_names(replies: Seq<ReplyView>, id: Seq<char>) -> bool {
    exists|i: int| 0 <= i < replies.len() && lists_subject(#[trigger] replies[i], id)
}

/// Whether a text deletes one predicate of the shape, for subjects of the sink
/// only.
pub open spec fn deletes_from_shape(d: Descriptor, replies: Seq<ReplyView>, text: Seq<char>) -> bool {
    exists|at: int, ids: Seq<Seq<char>>|
        #![trigger demoted_predicates(d)[at], delete_text(crate::text::opt_view(d.graph), demoted_predicates(d)[at], ids)]
        0 <= at < demoted_predicates(d).len() && text == delete_text(
            crate::text::opt_view(d.graph),
            demoted_predicates(d)[at],
            ids,
        ) && forall|i: int| 0 <= i < ids.len() ==> sink_names(replies, #[trigger] ids[i])
}

/// Whether a stage goes by the predicates of the shape and by subjects that
/// the replies name.
spec fn in_shape(d: Descriptor, replies: Seq<ReplyView>, stage: StageView) -> bool {
    match stage {
        StageView::Scanning(predicates, _, found) => predicates == demoted_predicates(d) && found.finite()
            && forall|id: Seq<char>| #[trigger] found.contains(id) ==> sink_names(replies, id),
        StageView::Counting(p) => p.at < p.predicates.len() && progress_in_shape(d, replies, p),
        StageView::Deleting(p) => progress_in_shape(d, replies, p),
        _ => true,
    }
}

spec fn progress_in_shape(d: Descriptor, replies: Seq<ReplyView>, p: ProgressView) -> bool {
    p.predicates == demoted_predicates(d) && forall|i: int|
        0 <= i < p.subjects.len() ==> sink_names(replies, #[trigger] p.subjects[i])
}

proof fn still_named(replies: Seq<ReplyView>, id: Seq<char>)
    requires
        replies.len() > 0,
        sink_names(replies.drop_last(), id),
    ensures
        sink_names(replies, id),
{
    let i = choose|i: int|
        0 <= i < replies.drop_last().len() && lists_subject(#[trigger] replies.drop_last()[i], id);
    assert(replies[i] == replies.drop_last()[i]);
}

proof fn deleting_in_shape(d: Descriptor, replies: Seq<ReplyView>, p: ProgressView)
    requires
        progress_in_shape(d, replies, p),
        p.at < p.predicates.len(),
    ensures
        delete_on(d, p).1 matches RequestView::Update(text) && deletes_from_shape(d, replies, text),
{
    let ids = chunk_at(p.subjects, p.from);
    assert forall|i: int| 0 <= i < ids.len() implies sink_names(replies, #[trigger] ids[i]) by {
        assert(ids[i] == p.subjects[p.from + i]);
    }
    let text = delete_text(crate::text::opt_view(d.graph), demoted_predicates(d)[p.at as int], ids);
    assert(deletes_from_shape(d, replies, text));
}

proof fn scanning_in_shape(d: Descriptor, sink: Seq<char>, replies: Seq<ReplyView>, at: nat, found: Set<Seq<char>>)
    requires
        found.finite(),
        forall|id: Seq<char>| #[trigger] found.contains(id) ==> sink_names(replies, id),
    ensures
        ({
            let (stage, request) = scan_on(d, sink, demoted_predicates(d), at, found);
            &&& in_shape(d, replies, stage)
            &&& request matches RequestView::Update(text) ==> deletes_from_shape(d, replies, text)
        }),
{
    let subjects = in_order(found);
    listed(found);
    assert forall|i: int| 0 <= i < subjects.len() implies sink_names(replies, #[trigger] subjects[i]) by {
        assert(subjects.contains(subjects[i]));
    }
}

/// A call deletes only what the shape has put on the sink: every update names
/// one predicate of the descriptor, in the graph of the descriptor, and only
/// subjects that a scan of the sink has listed.
pub proof fn only_the_shape_is_deleted(d: Descriptor, replies: Seq<ReplyView>)
    ensures
        reached(d, replies).1 matches RequestView::Update(text) ==> deletes_from_shape(d, replies, text),
{
    stays_in_shape(d, replies);
}

proof fn stays_in_shape(d: Descriptor, replies: Seq<ReplyView>)
    ensures
        in_shape(d, replies, reached(d, replies).0),
        reached(d, replies).1 matches RequestView::Update(text) ==> deletes_from_shape(d, replies, text),
    decreases replies.len(),
{
    if replies.len() > 0 {
        let before = replies.drop_last();
        stays_in_shape(d, before);
        assert forall|id: Seq<char>| sink_names(before, id) implies #[trigger] sink_names(replies, id) by {
            still_named(replies, id);
        }
        if let Some(sink) = d.sink {
            match (reached(d, before).0, replies.last()) {
                (StageView::Sinks, ReplyView::Sinks(names)) => {
                    scanning_in_shape(d, sink@, replies, 0, Set::empty());
                },
                (StageView::Scanning(predicates, at, found), ReplyView::Quads(quads)) => {
                    subjects_are_finite(found, quads);
                    assert forall|id: Seq<char>| #[trigger]
                        with_subjects(found, quads).contains(id) implies sink_names(replies, id) by {
                        subjects_come_from_the_sink(found, quads, id);
                        if !found.contains(id) {
                            assert(lists_subject(replies[replies.len() - 1], id));
                        }
                    }
                    scanning_in_shape(d, sink@, replies, at + 1, with_subjects(found, quads));
                },
                (StageView::Counting(p), ReplyView::Result(result)) => {
                    deleting_in_shape(
                        d,
                        replies,
                        ProgressView { deleted: capped(p.deleted, size_in(result)), ..p },
                    );
                },
                _ => {},
            }
        }
    }
}

/// Finitely many statements add finitely many subjects.
pub proof fn subjects_are_finite(set: Set<Seq<char>>, quads: Seq<QuadView>)
    requires
        set.finite(),
    ensures
        with_subjects(set, quads).finite(),
    decreases quads.len(),
{
    if quads.len() > 0 {
        subjects_are_finite(set, quads.drop_last());
    }
}

/// A sink without statements of the shape leaves the graph as it is: while the
/// scans come back empty, nothing is found and no update is asked for, and the
/// call ends with a count of none deleted.
pub proof fn empty_sink_deletes_nothing(
    d: Descriptor,
    names: Seq<Seq<char>>,
    predicates: Seq<Seq<char>>,
    at: nat,
)
    ensures
        next(d, StageView::Sinks, ReplyView::Sinks(names)).1 !is Update,
        ({
            let (stage, request) = next(
                d,
                StageView::Scanning(predicates, at, Set::empty()),
                ReplyView::Quads(Seq::empty()),
            );
            &&& request !is Update
            &&& d.sink is Some && at + 1 >= predicates.len() ==> request == demote_summary(
                0,
                predicates.len(),
                0,
            )
            &&& stage matches StageView::Scanning(p, i, found) ==> p == predicates && i == at + 1
                && found == Set::<Seq<char>>::empty()
        }),
{
    assert(with_subjects(Set::empty(), Seq::empty()) == Set::<Seq<char>>::empty());
    let none = Seq::<Seq<char>>::empty();
    assert(lists(none, Set::empty()));
    lists_unique(in_order(Set::empty()), none, Set::empty());
}

/// The sum of the counts among the replies.
pub open spec fn counted(replies: Seq<ReplyView>) -> u64
    decreases replies.len(),
{
    if replies.len() == 0 {
        0
    } else {
        let before = counted(replies.drop_last());
        match replies.last() {
            ReplyView::Result(result) => capped(before, size_in(result)),
            _ => before,
        }
    }
}

/// Whether a request, where it ends a call well, reports so many statements as
/// deleted.
pub open spec fn reports(d: Descriptor, deleted: u64, request: RequestView) -> bool {
    request matches RequestView::Finish(Ok(_)) ==> exists|subjects: nat| #[trigger]
        demote_summary(deleted, demoted_predicates(d).len(), subjects) == request
}

/// A call reports as deleted the statements that the graph counted before the
/// deletions.
pub proof fn reports_what_was_counted(d: Descriptor, replies: Seq<ReplyView>)
    ensures
        reports(d, counted(replies), reached(d, replies).1),
{
    keeps_the_count(d, replies);
}

/// Where the graph holds no statement of the shape any more, as after a call
/// that went through, a call reports that it deleted none.
pub proof fn nothing_left_reports_none(d: Descriptor, replies: Seq<ReplyView>)
    requires
        forall|i: int|
            0 <= i < replies.len() ==> (#[trigger] replies[i] matches ReplyView::Result(result) ==> size_in(result)
                == 0),
    ensures
        reports(d, 0, reached(d, replies).1),
{
    counts_none(replies);
    reports_what_was_counted(d, replies);
}

proof fn counts_none(replies: Seq<ReplyView>)
    requires
        forall|i: int|
            0 <= i < replies.len() ==> (#[trigger] replies[i] matches ReplyView::Result(result) ==> size_in(result)
                == 0),
    ensures
        counted(replies) == 0,
    decreases replies.len(),
{
    if replies.len() > 0 {
        let before = replies.drop_last();
        assert forall|i: int| 0 <= i < before.len() implies (#[trigger] before[i] matches ReplyView::Result(
            result,
        ) ==> size_in(result) == 0) by {
            assert(before[i] == replies[i]);
        }
        counts_none(before);
        assert(replies[replies.len() - 1] == replies.last());
    }
}

proof fn keeps_the_count(d: Descriptor, replies: Seq<ReplyView>)
    ensures
        match reached(d, replies).0 {
            StageView::Sinks => counted(replies) == 0,
            StageView::Scanning(predicates, _, _) => counted(replies) == 0 && predicates == demoted_predicates(d),
            StageView::Counting(p) => counted(replies) == p.deleted && p.predicates == demoted_predicates(d),
            StageView::Deleting(p) => counted(replies) == p.deleted && p.predicates == demoted_predicates(d),
            StageView::Over => true,
        },
        reports(d, counted(replies), reached(d, replies).1),
    decreases replies.len(),
{
    if replies.len() > 0 {
        let before = replies.drop_last();
        keeps_the_count(d, before);
        match (reached(d, before).0, replies.last()) {
            (StageView::Deleting(p), ReplyView::Done) => {
                assert(past_chunk(p).predicates == demoted_predicates(d));
                count_on_reports(d, past_chunk(p));
            },
            (StageView::Sinks, ReplyView::Sinks(_)) => {
                count_on_reports(d, first_progress(d, Set::empty()));
            },
            (StageView::Scanning(_, _, found), ReplyView::Quads(quads)) => {
                count_on_reports(d, first_progress(d, with_subjects(found, quads)));
            },
            _ => {},
        }
    }
}

spec fn first_progress(d: Descriptor, found: Set<Seq<char>>) -> ProgressView {
    ProgressView { predicates: demoted_predicates(d), subjects: in_order(found), at: 0, from: 0, deleted: 0 }
}

proof fn count_on_reports(d: Descriptor, p: ProgressView)
    requires
        p.predicates == demoted_predicates(d),
    ensures
        reports(d, p.deleted, count_on(d, p).1),
{
    let end = demote_summary(p.deleted, demoted_predicates(d).len(), p.subjects.len());
    assert(count_on(d, p).1 is Finish ==> count_on(d, p).1 == end);
}

// ---------------------------------------------------------------------------
// The component
// ---------------------------------------------------------------------------

pub fn register() -> (r: Vec<FunctionDescriptor>)
    ensures
        r@.len() == 1,
        describes(r@[0], "urn:webfunction:demote"@, 1),
{
    one_function("urn:webfunction:demote", 1)
}

/// Whether the component offers the function.
pub fn offers(name: &str) -> (r: Result<(), String>)
    ensures
        r is Ok <==> name@ == "urn:webfunction:demote"@,
        r matches Err(e) ==> e@ == unknown_function_text(COMPONENT@, name@),
{
    if same(name, "urn:webfunction:demote") {
        Ok(())
    } else {
        Err(unknown_function(COMPONENT, name))
    }
}

/// The state of an aggregate. The component has none, so none is ever made.
pub struct UnreachableState;

impl UnreachableState {
    pub fn step(&self, args: Vec<Term>) -> (r: Result<(), String>)
        ensures
            r matches Err(e) && e@ == never_constructed_text(COMPONENT@),
    {
        Err(never_constructed(COMPONENT))
    }

    pub fn finish(&self) -> (r: Result<Term, String>)
        ensures
            r matches Err(e) && e@ == never_constructed_text(COMPONENT@),
    {
        Err(never_constructed(COMPONENT))
    }
}

} // verus!

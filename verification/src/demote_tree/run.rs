//! A demotion of trees as a conversation with the host: for each root, its part
//! of the graph is read and put on the sink as a document; at the end the
//! statements are deleted, where that is asked for.

use vstd::prelude::*;
use vstd::string::*;

use crate::demote_tree::edges::{collect, collected, is_tree, spans_tree, Config, EdgeMap, EdgeMapView};
use crate::demote_tree::serialize::{serialize_tree, shown_nodes, subject_value};
use crate::guest::{describes, never_constructed, never_constructed_text, one_function, unknown_function,
    unknown_function_text, FunctionDescriptor};
use crate::host::{count_views, fail, failure, give_up, given_up, literal_arg, literal_or, missing_sink, summarize,
    summary_of, text_or_error, validate_sink_present, Reply, ReplyView, Request, RequestView};
use crate::json::json_text;
use crate::names::{in_order, Names};
use crate::rdf::{node_id, term_iri, Binding, BindingView, Quad, QuadView, QueryResult, QueryResultView, Term};
use crate::text::{same, starts_with, strip_prefix, views, views_push};

verus! {

pub const COMPONENT: &'static str = "wf_demote_tree";

/// The configuration's text among the arguments of a call.
pub fn config_text(args: &Vec<Term>) -> (r: Result<String, String>)
    ensures
        text_or_error(r) == literal_or(
            views(args@),
            "wf_demote_tree: expected one arg (config json)"@,
            "wf_demote_tree: first arg must be a config-json string literal, got "@,
        ),
{
    literal_arg(
        args,
        "wf_demote_tree: expected one arg (config json)",
        "wf_demote_tree: first arg must be a config-json string literal, got ",
    )
}

// ---------------------------------------------------------------------------
// Queries and updates
// ---------------------------------------------------------------------------

/// The query for the roots.
pub open spec fn roots_text(selector: Seq<char>) -> Seq<char> {
    "SELECT DISTINCT ?r WHERE { "@ + selector + " }"@
}

fn roots_query(selector: &str) -> (r: String)
    ensures
        r@ == roots_text(selector@),
{
    "SELECT DISTINCT ?r WHERE { ".to_owned().concat(selector).concat(" }")
}

/// The roots among the bindings: the nodes that `?r` is bound to.
pub open spec fn root_ids(flat: Seq<BindingView>) -> Seq<Seq<char>>
    decreases flat.len(),
{
    if flat.len() == 0 {
        Seq::empty()
    } else {
        let before = root_ids(flat.drop_last());
        if flat.last().variable == "r"@ {
            match node_id(flat.last().value) {
                Some(id) => before.push(id),
                None => before,
            }
        } else {
            before
        }
    }
}

pub fn enumerate_roots(flat: &Vec<Binding>) -> (r: Vec<String>)
    ensures
        views(r@) == root_ids(views(flat@)),
{
    broadcast use views_push;

    let ghost all = views(flat@);
    let mut out: Vec<String> = Vec::new();
    proof {
        assert(views(out@) =~= root_ids(all.take(0)));
    }
    for i in 0..flat.len()
        invariant
            all == views(flat@),
            views(out@) == root_ids(all.take(i as int)),
    {
        proof {
            assert(all.take(i + 1).drop_last() =~= all.take(i as int));
            assert(all[i as int] == flat@[i as int]@);
        }
        if same(&flat[i].variable, "r") {
            match term_iri(&flat[i].value) {
                Some(id) => out.push(id),
                None => {},
            }
        }
    }
    proof {
        assert(all.take(all.len() as int) =~= all);
    }
    out
}

/// The query for the part of the graph that a root reaches.
pub open spec fn subgraph_text(root: Seq<char>) -> Seq<char> {
    "CONSTRUCT { ?s ?p ?o } WHERE { <"@ + root + "> (!<urn:tegmentum:no-such-predicate>)* ?s . ?s ?p ?o }"@
}

fn subgraph_query(root: &str) -> (r: String)
    ensures
        r@ == subgraph_text(root@),
{
    "CONSTRUCT { ?s ?p ?o } WHERE { <".to_owned().concat(root).concat(
        "> (!<urn:tegmentum:no-such-predicate>)* ?s . ?s ?p ?o }",
    )
}

/// The refusal of a root that is a blank node.
pub open spec fn blank_root(root: Seq<char>) -> Seq<char> {
    "wf_demote_tree: bnode-rooted tree at "@ + root
        + " — skolemize upstream (wf_skolemize) before demoting; the sink boundary does not preserve bnode identity"@
}

/// The update that deletes the statements about a subject.
pub open spec fn delete_text(subject: Seq<char>) -> Seq<char> {
    if "_:"@.is_prefix_of(subject) {
        "DELETE { ?s ?p ?o } WHERE { ?s ?p ?o . FILTER(isBlank(?s) && str(?s) = \""@ + subject.skip(
            "_:"@.len() as int,
        ) + "\") }"@
    } else {
        "DELETE { <"@ + subject + "> ?p ?o } WHERE { <"@ + subject + "> ?p ?o }"@
    }
}

fn delete_update(subject: &str) -> (r: String)
    ensures
        r@ == delete_text(subject@),
{
    match strip_prefix(subject, "_:") {
        Some(label) => {
            proof {
                assert(subject@.skip("_:"@.len() as int) =~= label@);
            }
            "DELETE { ?s ?p ?o } WHERE { ?s ?p ?o . FILTER(isBlank(?s) && str(?s) = \"".to_owned().concat(
                &label,
            ).concat("\") }")
        },
        None => "DELETE { <".to_owned().concat(subject).concat("> ?p ?o } WHERE { <").concat(subject).concat(
            "> ?p ?o }",
        ),
    }
}

// ---------------------------------------------------------------------------
// The call
// ---------------------------------------------------------------------------

/// How far the roots have been worked off.
pub struct Progress {
    pub roots: Vec<String>,
    /// The root at hand.
    pub at: usize,
    pub trees: u64,
    pub nodes: u64,
    pub skipped: u64,
    /// The subjects that have been put on the sink.
    pub moved: Names,
}

pub struct ProgressView {
    pub roots: Seq<Seq<char>>,
    pub at: nat,
    pub trees: u64,
    pub nodes: u64,
    pub skipped: u64,
    pub moved: Set<Seq<char>>,
}

impl View for Progress {
    type V = ProgressView;

    open spec fn view(&self) -> ProgressView {
        ProgressView {
            roots: views(self.roots@),
            at: self.at as nat,
            trees: self.trees,
            nodes: self.nodes,
            skipped: self.skipped,
            moved: self.moved@,
        }
    }
}

/// How far a call has come: what it waits for.
pub enum Stage {
    /// The names of the sinks.
    Sinks,
    Roots,
    /// The part of the graph that the root at hand reaches.
    Collecting(Progress),
    /// The sink, to take the document of the root at hand, which shows so many
    /// nodes and moves these subjects.
    Putting(Progress, u64, Names),
    /// The deletion of the subject at a position.
    Deleting(Progress, Vec<String>, usize),
    /// Nothing: the call has finished.
    Over,
}

pub enum StageView {
    Sinks,
    Roots,
    Collecting(ProgressView),
    Putting(ProgressView, u64, Set<Seq<char>>),
    Deleting(ProgressView, Seq<Seq<char>>, nat),
    Over,
}

impl View for Stage {
    type V = StageView;

    open spec fn view(&self) -> StageView {
        match self {
            Stage::Sinks => StageView::Sinks,
            Stage::Roots => StageView::Roots,
            Stage::Collecting(p) => StageView::Collecting(p@),
            Stage::Putting(p, nodes, subjects) => StageView::Putting(p@, *nodes, subjects@),
            Stage::Deleting(p, subjects, at) => StageView::Deleting(p@, views(subjects@), *at as nat),
            Stage::Over => StageView::Over,
        }
    }
}

pub open spec fn ends(request: RequestView) -> (StageView, RequestView) {
    (StageView::Over, request)
}

/// A call's summary.
pub open spec fn tree_summary(p: ProgressView, deleted: u64) -> RequestView {
    RequestView::Finish(
        Ok(
            summary_of(
                seq![
                    ("trees"@, p.trees),
                    ("nodes"@, p.nodes),
                    ("skipped"@, p.skipped),
                    ("deleted"@, deleted),
                ],
            ),
        ),
    )
}

fn finish(p: &Progress, deleted: u64) -> (r: Request)
    ensures
        r@ == tree_summary(p@, deleted),
{
    let counts = vec![("trees", p.trees), ("nodes", p.nodes), ("skipped", p.skipped), ("deleted", deleted)];
    proof {
        assert(count_views(counts@) =~= seq![
            ("trees"@, p.trees),
            ("nodes"@, p.nodes),
            ("skipped"@, p.skipped),
            ("deleted"@, deleted),
        ]);
    }
    Request::Finish(Ok(summarize(&counts)))
}

/// The deletion of the subject at a position, or the end behind the last.
pub open spec fn delete_on(p: ProgressView, subjects: Seq<Seq<char>>, at: nat) -> (StageView, RequestView) {
    if at < subjects.len() {
        (StageView::Deleting(p, subjects, at), RequestView::Update(delete_text(subjects[at as int])))
    } else {
        ends(tree_summary(p, subjects.len() as u64))
    }
}

fn delete_from(p: Progress, subjects: Vec<String>, at: usize) -> (r: (Stage, Request))
    ensures
        (r.0@, r.1@) == delete_on(p@, views(subjects@), at as nat),
{
    if at < subjects.len() {
        let update = delete_update(&subjects[at]);
        (Stage::Deleting(p, subjects, at), Request::Update(update))
    } else {
        let n: u64 = subjects.len() as u64;
        (Stage::Over, finish(&p, n))
    }
}

/// What the root at hand asks for; behind the last root, the deletions.
pub open spec fn root_on(c: Config, p: ProgressView) -> (StageView, RequestView) {
    if p.at < p.roots.len() {
        let root = p.roots[p.at as int];
        if "_:"@.is_prefix_of(root) {
            ends(failure(blank_root(root)))
        } else {
            (StageView::Collecting(p), RequestView::Query(subgraph_text(root)))
        }
    } else if c.delete_source {
        delete_on(p, in_order(p.moved), 0)
    } else {
        ends(tree_summary(p, 0))
    }
}

fn root_from(c: &Config, p: Progress) -> (r: (Stage, Request))
    ensures
        (r.0@, r.1@) == root_on(*c, p@),
{
    if p.at < p.roots.len() {
        if starts_with(&p.roots[p.at], "_:") {
            (
                Stage::Over,
                fail(
                    "wf_demote_tree: bnode-rooted tree at ".to_owned().concat(&p.roots[p.at]).concat(
                        " — skolemize upstream (wf_skolemize) before demoting; the sink boundary does not preserve bnode identity",
                    ),
                ),
            )
        } else {
            let query = subgraph_query(&p.roots[p.at]);
            (Stage::Collecting(p), Request::Query(query))
        }
    } else if c.delete_source {
        let subjects = p.moved.items();
        delete_from(p, subjects, 0)
    } else {
        (Stage::Over, finish(&p, 0))
    }
}

/// The root at hand.
pub open spec fn root_at(p: ProgressView) -> Seq<char> {
    if p.at < p.roots.len() {
        p.roots[p.at as int]
    } else {
        Seq::empty()
    }
}

fn current_root(p: &Progress) -> (r: String)
    ensures
        r@ == root_at(p@),
{
    if p.at < p.roots.len() {
        p.roots[p.at].clone()
    } else {
        let none = String::new();
        proof {
            assert(none@ =~= Seq::empty());
        }
        none
    }
}

/// The document of a root's tree and the number of nodes that it shows.
#[verifier::opaque]
pub open spec fn document_of(c: Config, edges: EdgeMapView, root: Seq<char>) -> Result<(u64, Seq<char>), Seq<char>> {
    let w = subject_value(edges, c, root, Set::empty(), 0);
    match w.value {
        Ok(tree) => Ok((0u64.wrapping_add(shown_nodes(edges, c, root, w.met) as u64), json_text(tree))),
        Err(e) => Err(e),
    }
}

pub open spec fn document_view(r: Result<(u64, String), String>) -> Result<(u64, Seq<char>), Seq<char>> {
    match r {
        Ok((nodes, content)) => Ok((nodes, content@)),
        Err(e) => Err(e@),
    }
}

fn to_document(c: &Config, edges: &EdgeMap, root: &str) -> (r: Result<(u64, String), String>)
    ensures
        document_view(r) == document_of(*c, edges@, root@),
{
    proof {
        reveal(document_of);
    }
    let mut nodes: u64 = 0;
    match serialize_tree(edges, root, c, &mut nodes) {
        Ok(tree) => {
            let content = tree.render();
            Ok((nodes, content))
        },
        Err(e) => Err(e),
    }
}

/// What the part of the graph that the root at hand reaches leads to.
pub open spec fn collect_on(c: Config, p: ProgressView, quads: Seq<QuadView>) -> (StageView, RequestView) {
    let root = root_at(p);
    if p.at >= p.roots.len() {
        root_on(c, p)
    } else {
        match collected(root, quads) {
            Err(e) => ends(failure(e)),
            Ok(edges) => if !spans_tree(edges, root) && c.reject_non_tree {
                root_on(c, ProgressView { skipped: p.skipped.wrapping_add(1), at: p.at + 1, ..p })
            } else {
                match document_of(c, edges, root) {
                    Err(e) => ends(failure(e)),
                    Ok((nodes, content)) => (
                        StageView::Putting(p, nodes, edges.subjects),
                        RequestView::Put(c.sink@, root, content),
                    ),
                }
            },
        }
    }
}

fn collect_from(c: &Config, p: Progress, quads: &Vec<Quad>) -> (r: (Stage, Request))
    ensures
        (r.0@, r.1@) == collect_on(*c, p@, views(quads@)),
{
    if p.at >= p.roots.len() {
        return root_from(c, p);
    }
    let root = current_root(&p);
    let edges = match collect(&root, quads) {
        Ok(edges) => edges,
        Err(e) => {
            return (Stage::Over, fail(e));
        },
    };
    if !is_tree(&edges, &root) && c.reject_non_tree {
        let next = Progress { skipped: p.skipped.wrapping_add(1), at: p.at + 1, ..p };
        return root_from(c, next);
    }
    match to_document(c, &edges, &root) {
        Ok((nodes, content)) => (
            Stage::Putting(p, nodes, edges.subjects),
            Request::Put(c.sink.clone(), root, content),
        ),
        Err(e) => (Stage::Over, fail(e)),
    }
}

/// The first request of a call.
pub fn begin() -> (r: (Stage, Request))
    ensures
        (r.0@, r.1@) == (StageView::Sinks, RequestView::ListSinks),
{
    (Stage::Sinks, Request::ListSinks)
}

/// What a reply leads to.
pub open spec fn next(c: Config, stage: StageView, reply: ReplyView) -> (StageView, RequestView) {
    match (stage, reply) {
        (StageView::Sinks, ReplyView::Sinks(names)) => if names.contains(c.sink@) {
            (StageView::Roots, RequestView::Query(roots_text(c.root_selector@)))
        } else {
            ends(failure(missing_sink(COMPONENT@, c.sink@, names.len())))
        },
        (StageView::Roots, ReplyView::Result(result)) => match result {
            QueryResultView::Bindings(flat) => root_on(
                c,
                ProgressView {
                    roots: root_ids(flat),
                    at: 0,
                    trees: 0,
                    nodes: 0,
                    skipped: 0,
                    moved: Set::empty(),
                },
            ),
            _ => ends(failure("wf_demote_tree: root selector must yield bindings, not CONSTRUCT/ASK"@)),
        },
        (StageView::Collecting(p), ReplyView::Result(result)) => match result {
            QueryResultView::Quads(quads) => collect_on(c, p, quads),
            _ => ends(failure("wf_demote_tree: subgraph CONSTRUCT must yield quads, not bindings/ASK"@)),
        },
        (StageView::Putting(p, nodes, subjects), ReplyView::Done) => root_on(
            c,
            ProgressView {
                trees: p.trees.wrapping_add(1),
                nodes: p.nodes.wrapping_add(nodes),
                moved: p.moved.union(subjects),
                at: if p.at < p.roots.len() {
                    p.at + 1
                } else {
                    p.at
                },
                ..p
            },
        ),
        (StageView::Putting(p, _, _), ReplyView::Failed(e)) => ends(
            failure("wf_demote_tree: put-document for `"@ + root_at(p) + "`: "@ + e),
        ),
        (StageView::Deleting(p, subjects, at), ReplyView::Done) => delete_on(p, subjects, at + 1),
        (StageView::Deleting(_, subjects, at), ReplyView::Failed(e)) => ends(
            failure(
                "wf_demote_tree: delete outgoing for `"@ + (if at < subjects.len() {
                    subjects[at as int]
                } else {
                    Seq::empty()
                }) + "`: "@ + e,
            ),
        ),
        (_, reply) => ends(given_up(COMPONENT@, reply)),
    }
}

/// Moves a call on with the host's reply.
pub fn step(c: &Config, stage: Stage, reply: Reply) -> (r: (Stage, Request))
    ensures
        (r.0@, r.1@) == next(*c, stage@, reply@),
{
    match stage {
        Stage::Sinks => match reply {
            Reply::Sinks(names) => match validate_sink_present(COMPONENT, &c.sink, &names) {
                Ok(_) => (Stage::Roots, Request::Query(roots_query(&c.root_selector))),
                Err(e) => (Stage::Over, fail(e)),
            },
            other => (Stage::Over, give_up(COMPONENT, other)),
        },
        Stage::Roots => match reply {
            Reply::Result(result) => match result {
                QueryResult::Bindings(flat) => root_from(
                    c,
                    Progress {
                        roots: enumerate_roots(&flat),
                        at: 0,
                        trees: 0,
                        nodes: 0,
                        skipped: 0,
                        moved: Names::new(),
                    },
                ),
                _ => (
                    Stage::Over,
                    fail("wf_demote_tree: root selector must yield bindings, not CONSTRUCT/ASK".to_owned()),
                ),
            },
            other => (Stage::Over, give_up(COMPONENT, other)),
        },
        Stage::Collecting(p) => match reply {
            Reply::Result(result) => match result {
                QueryResult::Quads(quads) => collect_from(c, p, &quads),
                _ => (
                    Stage::Over,
                    fail("wf_demote_tree: subgraph CONSTRUCT must yield quads, not bindings/ASK".to_owned()),
                ),
            },
            other => (Stage::Over, give_up(COMPONENT, other)),
        },
        Stage::Putting(p, nodes, subjects) => match reply {
            Reply::Done => {
                let at: usize = if p.at < p.roots.len() {
                    p.at + 1
                } else {
                    p.at
                };
                let mut moved = p.moved;
                moved.extend(&subjects);
                let next = Progress {
                    roots: p.roots,
                    at,
                    trees: p.trees.wrapping_add(1),
                    nodes: p.nodes.wrapping_add(nodes),
                    skipped: p.skipped,
                    moved,
                };
                root_from(c, next)
            },
            Reply::Failed(e) => (
                Stage::Over,
                fail(
                    "wf_demote_tree: put-document for `".to_owned().concat(&current_root(&p)).concat("`: ").concat(&e),
                ),
            ),
            other => (Stage::Over, give_up(COMPONENT, other)),
        },
        Stage::Deleting(p, subjects, at) => match reply {
            Reply::Done => if at < subjects.len() {
                delete_from(p, subjects, at + 1)
            } else {
                let n: u64 = subjects.len() as u64;
                (Stage::Over, finish(&p, n))
            },
            Reply::Failed(e) => {
                let subject = if at < subjects.len() {
                    subjects[at].clone()
                } else {
                    String::new()
                };
                (
                    Stage::Over,
                    fail("wf_demote_tree: delete outgoing for `".to_owned().concat(&subject).concat("`: ").concat(&e)),
                )
            },
            other => (Stage::Over, give_up(COMPONENT, other)),
        },
        Stage::Over => (Stage::Over, give_up(COMPONENT, reply)),
    }
}

// ---------------------------------------------------------------------------
// Laws
// ---------------------------------------------------------------------------

/// A root that spans no tree, where those are rejected, leaves nothing behind:
/// no document is put, and none of its subjects counts as moved.
pub proof fn rejected_root_is_untouched(c: Config, p: ProgressView, quads: Seq<QuadView>, edges: EdgeMapView)
    requires
        p.at < p.roots.len(),
        collected(root_at(p), quads) == Ok::<EdgeMapView, Seq<char>>(edges),
        !spans_tree(edges, root_at(p)),
        c.reject_non_tree,
    ensures
        collect_on(c, p, quads) == root_on(
            c,
            ProgressView { skipped: p.skipped.wrapping_add(1), at: p.at + 1, ..p },
        ),
{
}

/// Where the source is to be kept, no statement is deleted.
pub proof fn kept_source_is_not_deleted(c: Config, stage: StageView, reply: ReplyView)
    requires
        !c.delete_source,
        !(stage is Deleting),
    ensures
        !(next(c, stage, reply).1 is Update),
        !(next(c, stage, reply).0 is Deleting),
{
}

// ---------------------------------------------------------------------------
// The component
// ---------------------------------------------------------------------------

pub fn register() -> (r: Vec<FunctionDescriptor>)
    ensures
        r@.len() == 1,
        describes(r@[0], "urn:webfunction:demote-tree"@, 1),
{
    one_function("urn:webfunction:demote-tree", 1)
}

/// Whether the component offers the function.
pub fn offers(name: &str) -> (r: Result<(), String>)
    ensures
        r is Ok <==> name@ == "urn:webfunction:demote-tree"@,
        r matches Err(e) ==> e@ == unknown_function_text(COMPONENT@, name@),
{
    if same(name, "urn:webfunction:demote-tree") {
        Ok(())
    } else {
        Err(unknown_function(COMPONENT, name))
    }
}

/// The state of an aggregate. The component has none, so none is ever made.
pub struct UnreachableState;

impl UnreachableState {
    pub fn step(&self, args: Vec<Term>) -> (r: Result<(), String>)
        ensures
            r matches Err(e) && e@ == never_constructed_text(COMPONENT@),
    {
        Err(never_constructed(COMPONENT))
    }

    pub fn finish(&self) -> (r: Result<Term, String>)
        ensures
            r matches Err(e) && e@ == never_constructed_text(COMPONENT@),
    {
        Err(never_constructed(COMPONENT))
    }
}

} // verus!

//! The part of the graph that a root reaches: its edges, and whether they make
//! up a tree.

use vstd::prelude::*;
use vstd::string::*;

use crate::names::{lists, Names};
use crate::rdf::{node_id, show, shown, term_iri, Quad, QuadView, XSD_STRING};
use crate::table::Table;
use crate::text::{copy_opt, opt_view, same, strip_prefix, views, views_push};

verus! {

/// How to demote.
#[derive(Debug)]
pub struct Config {
    pub name: Option<String>,
    /// The pattern that picks the roots, as `?r`.
    pub root_selector: String,
    /// The sink that takes the documents.
    pub sink: String,
    /// Whether the statements are deleted from the graph.
    pub delete_source: bool,
    /// Whether a root that spans no tree is left out. Otherwise a node that is
    /// met again is shown as a reference.
    pub reject_non_tree: bool,
    /// Whether RDF lists become arrays.
    pub collapse_rdf_lists: bool,
    /// Whether every node shows its identifier.
    pub include_id: bool,
}

/// What a flag is where it is not given.
pub fn default_true() -> (r: bool)
    ensures
        r,
{
    true
}

/// What an edge leads to.
#[derive(Debug, PartialEq, Eq)]
pub enum Term {
    Iri(String),
    Bnode(String),
    Literal { label: String, datatype: String, lang: Option<String> },
}

pub enum TermView {
    Iri(Seq<char>),
    Bnode(Seq<char>),
    Literal { label: Seq<char>, datatype: Seq<char>, lang: Option<Seq<char>> },
}

impl View for Term {
    type V = TermView;

    open spec fn view(&self) -> TermView {
        match self {
            Term::Iri(iri) => TermView::Iri(iri@),
            Term::Bnode(label) => TermView::Bnode(label@),
            Term::Literal { label, datatype, lang } => TermView::Literal {
                label: label@,
                datatype: datatype@,
                lang: opt_view(*lang),
            },
        }
    }
}

impl Clone for Term {
    fn clone(&self) -> (r: Self)
        ensures
            r@ == self@,
    {
        match self {
            Term::Iri(iri) => Term::Iri(iri.clone()),
            Term::Bnode(label) => Term::Bnode(label.clone()),
            Term::Literal { label, datatype, lang } => Term::Literal {
                label: label.clone(),
                datatype: datatype.clone(),
                lang: copy_opt(lang),
            },
        }
    }
}

/// The key under which edges to a term are counted.
pub open spec fn key_of(t: TermView) -> Seq<char> {
    match t {
        TermView::Iri(iri) => "i:"@ + iri,
        TermView::Bnode(label) => "b:"@ + label,
        TermView::Literal { label, datatype, lang } => match lang {
            Some(l) => "l:"@ + label + "@"@ + l,
            None => "l:"@ + label + "^^"@ + datatype,
        },
    }
}

pub fn term_key(t: &Term) -> (r: String)
    ensures
        r@ == key_of(t@),
{
    match t {
        Term::Iri(iri) => "i:".to_owned().concat(iri),
        Term::Bnode(label) => "b:".to_owned().concat(label),
        Term::Literal { label, datatype, lang } => match lang {
            Some(l) => "l:".to_owned().concat(label).concat("@").concat(l),
            None => "l:".to_owned().concat(label).concat("^^").concat(datatype),
        },
    }
}

/// The key under which edges to a subject are counted.
pub open spec fn subject_key(subject: Seq<char>) -> Seq<char> {
    if "_:"@.is_prefix_of(subject) {
        "b:"@ + subject.skip("_:"@.len() as int)
    } else {
        "i:"@ + subject
    }
}

fn key_of_subject(subject: &str) -> (r: String)
    ensures
        r@ == subject_key(subject@),
{
    match strip_prefix(subject, "_:") {
        Some(label) => {
            proof {
                assert(subject@.skip("_:"@.len() as int) =~= label@);
            }
            "b:".to_owned().concat(&label)
        },
        None => "i:".to_owned().concat(subject),
    }
}

// ---------------------------------------------------------------------------
// Edges
// ---------------------------------------------------------------------------

pub type Edge = (String, Term);

/// Edges, by the subject that they leave, with how many lead to each term.
pub struct EdgeMap {
    pub subjects: Names,
    pub out: Table<Vec<(String, Term)>>,
    pub in_count: Table<u32>,
}

pub struct EdgeMapView {
    pub subjects: Set<Seq<char>>,
    /// The predicates and objects of each subject, in order.
    pub out: Map<Seq<char>, Seq<(Seq<char>, TermView)>>,
    pub in_count: Map<Seq<char>, u32>,
}

/// The edges of each subject.
pub open spec fn edge_views(m: Map<Seq<char>, Vec<(String, Term)>>) -> Map<Seq<char>, Seq<(Seq<char>, TermView)>> {
    m.map_values(|v: Vec<(String, Term)>| views(v@))
}

impl View for EdgeMap {
    type V = EdgeMapView;

    open spec fn view(&self) -> EdgeMapView {
        EdgeMapView { subjects: self.subjects@, out: edge_views(self.out@), in_count: self.in_count@ }
    }
}

/// The edges that leave a subject.
pub open spec fn edges_from(e: EdgeMapView, subject: Seq<char>) -> Seq<(Seq<char>, TermView)> {
    if e.out.contains_key(subject) {
        e.out[subject]
    } else {
        Seq::empty()
    }
}

/// How many edges lead to the term with a key.
pub open spec fn edges_to(e: EdgeMapView, key: Seq<char>) -> u32 {
    if e.in_count.contains_key(key) {
        e.in_count[key]
    } else {
        0
    }
}

/// One more, as far as the count goes.
pub open spec fn one_more(n: u32) -> u32 {
    if n < u32::MAX {
        (n + 1) as u32
    } else {
        n
    }
}

/// The edges with one more.
pub open spec fn with_edge(
    e: EdgeMapView,
    subject: Seq<char>,
    predicate: Seq<char>,
    object: TermView,
) -> EdgeMapView {
    EdgeMapView {
        subjects: e.subjects.insert(subject),
        out: e.out.insert(subject, edges_from(e, subject).push((predicate, object))),
        in_count: e.in_count.insert(key_of(object), one_more(edges_to(e, key_of(object)))),
    }
}

/// No edges.
pub open spec fn no_edges() -> EdgeMapView {
    EdgeMapView { subjects: Set::empty(), out: Map::empty(), in_count: Map::empty() }
}

impl Default for EdgeMap {
    fn default() -> (r: Self)
        ensures
            r@ == no_edges(),
    {
        let r = EdgeMap { subjects: Names::new(), out: Table::new(), in_count: Table::new() };
        proof {
            assert(r@.out =~= Map::empty());
            assert(r@.in_count =~= Map::empty());
        }
        r
    }
}

impl EdgeMap {
    /// Adds an edge.
    pub fn add_edge(&mut self, subject: &str, predicate: &str, object: Term)
        ensures
            final(self)@ == with_edge(old(self)@, subject@, predicate@, object@),
    {
        broadcast use views_push;

        let ghost start = self@;
        let ghost target = object@;
        let key = term_key(&object);
        let known: u32 = match self.in_count.get(&key) {
            Some(n) => *n,
            None => 0,
        };
        let count: u32 = if known < u32::MAX {
            known + 1
        } else {
            known
        };
        self.in_count.insert(key, count);
        self.subjects.insert(subject.to_owned());
        let mut edges: Vec<(String, Term)> = match self.out.remove(subject) {
            Some(edges) => edges,
            None => Vec::new(),
        };
        proof {
            assert(views(edges@) =~= edges_from(start, subject@));
        }
        edges.push((predicate.to_owned(), object));
        let ghost now = views(edges@);
        self.out.insert(subject.to_owned(), edges);
        proof {
            assert(now =~= edges_from(start, subject@).push((predicate@, target)));
            assert(self@.out =~= start.out.insert(subject@, now));
            assert(self@.in_count =~= with_edge(start, subject@, predicate@, target).in_count);
        }
    }

    /// The edges that leave a subject.
    pub fn edges_of(&self, subject: &str) -> (r: Option<&Vec<(String, Term)>>)
        ensures
            match r {
                Some(v) => self@.out.contains_key(subject@) && self@.out[subject@] == views(v@),
                None => !self@.out.contains_key(subject@),
            },
    {
        self.out.get(subject)
    }
}

/// Whether the edges make up a tree under `root`: exactly one edge leads to
/// every subject but the root.
pub open spec fn spans_tree(e: EdgeMapView, root: Seq<char>) -> bool {
    forall|s: Seq<char>| #[trigger] e.subjects.contains(s) && s != root ==> edges_to(e, subject_key(s)) == 1
}

pub fn is_tree(edges: &EdgeMap, root: &str) -> (r: bool)
    ensures
        r == spans_tree(edges@, root@),
{
    let subjects = edges.subjects.items();
    let ghost all = views(subjects@);
    for i in 0..subjects.len()
        invariant
            all == views(subjects@),
            lists(all, edges@.subjects),
            forall|j: int|
                0 <= j < i && #[trigger] all[j] != root@ ==> edges_to(edges@, subject_key(all[j])) == 1,
    {
        proof {
            assert(all[i as int] == subjects@[i as int]@);
            assert(all.contains(all[i as int]));
        }
        if !same(&subjects[i], root) {
            let key = key_of_subject(&subjects[i]);
            let count: u32 = match edges.in_count.get(&key) {
                Some(n) => *n,
                None => 0,
            };
            if count != 1 {
                return false;
            }
        }
    }
    proof {
        assert forall|s: Seq<char>| #[trigger] edges@.subjects.contains(s) && s != root@ implies edges_to(
            edges@,
            subject_key(s),
        ) == 1 by {
            assert(all.contains(s));
            let j = choose|j: int| 0 <= j < all.len() && all[j] == s;
            assert(all[j] != root@);
        }
    }
    true
}

// ---------------------------------------------------------------------------
// Reading edges from statements
// ---------------------------------------------------------------------------

/// What an edge to an RDF term leads to. A quoted triple counts as a text.
pub open spec fn target_of(t: crate::rdf::TermView) -> TermView {
    match t {
        crate::rdf::TermView::NamedNode(iri) => TermView::Iri(iri),
        crate::rdf::TermView::BlankNode(label) => TermView::Bnode(label),
        crate::rdf::TermView::Literal(l) => TermView::Literal {
            label: l.value,
            datatype: match l.datatype {
                Some(d) => d,
                None => Seq::empty(),
            },
            lang: l.language,
        },
        crate::rdf::TermView::Triple(_) => TermView::Literal {
            label: "<<quoted triple>>"@,
            datatype: XSD_STRING@,
            lang: None,
        },
    }
}

pub fn wit_to_term(v: &crate::rdf::Term) -> (r: Term)
    ensures
        r@ == target_of(v@),
{
    match v {
        crate::rdf::Term::NamedNode(iri) => Term::Iri(iri.clone()),
        crate::rdf::Term::BlankNode(label) => Term::Bnode(label.clone()),
        crate::rdf::Term::Literal(l) => {
            let datatype = match &l.datatype {
                Some(d) => d.clone(),
                None => {
                    let none = String::new();
                    proof {
                        assert(none@ =~= Seq::empty());
                    }
                    none
                },
            };
            Term::Literal { label: l.value.clone(), datatype, lang: copy_opt(&l.language) }
        },
        crate::rdf::Term::Triple(_) => Term::Literal {
            label: "<<quoted triple>>".to_owned(),
            datatype: XSD_STRING.to_owned(),
            lang: None,
        },
    }
}

/// The edge of a statement, or why it has none.
pub open spec fn edge_of(q: QuadView) -> Result<(Seq<char>, Seq<char>, TermView), Seq<char>> {
    match q.predicate {
        crate::rdf::TermView::NamedNode(predicate) => match node_id(q.subject) {
            Some(subject) => Ok((subject, predicate, target_of(q.object))),
            None => Err("wf_demote_tree: non-node subject: "@ + shown(q.subject)),
        },
        other => Err("wf_demote_tree: non-IRI predicate: "@ + shown(other)),
    }
}

/// The edges of statements that a root reaches; the first statement without an
/// edge refuses all.
pub open spec fn collected(root: Seq<char>, quads: Seq<QuadView>) -> Result<EdgeMapView, Seq<char>>
    decreases quads.len(),
{
    if quads.len() == 0 {
        Ok(EdgeMapView { subjects: no_edges().subjects.insert(root), ..no_edges() })
    } else {
        match collected(root, quads.drop_last()) {
            Err(e) => Err(e),
            Ok(done) => match edge_of(quads.last()) {
                Err(e) => Err(e),
                Ok((subject, predicate, object)) => Ok(with_edge(done, subject, predicate, object)),
            },
        }
    }
}

proof fn collect_error_stays(root: Seq<char>, quads: Seq<QuadView>, k: int)
    requires
        0 <= k <= quads.len(),
        collected(root, quads.take(k)) is Err,
    ensures
        collected(root, quads) == collected(root, quads.take(k)),
    decreases quads.len(),
{
    if k == quads.len() {
        assert(quads.take(k) =~= quads);
    } else {
        assert(quads.drop_last().take(k) =~= quads.take(k));
        collect_error_stays(root, quads.drop_last(), k);
    }
}

/// Collects the edges of statements.
pub fn collect(root: &str, quads: &Vec<Quad>) -> (r: Result<EdgeMap, String>)
    ensures
        match r {
            Ok(e) => collected(root@, views(quads@)) == Ok::<EdgeMapView, Seq<char>>(e@),
            Err(e) => collected(root@, views(quads@)) == Err::<EdgeMapView, Seq<char>>(e@),
        },
{
    let ghost all = views(quads@);
    let mut edges = EdgeMap::default();
    edges.subjects.insert(root.to_owned());
    proof {
        assert(collected(root@, all.take(0)) == Ok::<EdgeMapView, Seq<char>>(edges@));
    }
    for i in 0..quads.len()
        invariant
            all == views(quads@),
            collected(root@, all.take(i as int)) == Ok::<EdgeMapView, Seq<char>>(edges@),
    {
        proof {
            assert(all.take(i + 1).drop_last() =~= all.take(i as int));
            assert(all[i as int] == quads@[i as int]@);
        }
        let q = &quads[i];
        let predicate = match &q.predicate {
            crate::rdf::Term::NamedNode(p) => p,
            other => {
                proof {
                    collect_error_stays(root@, all, i + 1);
                }
                return Err("wf_demote_tree: non-IRI predicate: ".to_owned().concat(&show(other)));
            },
        };
        let subject = match term_iri(&q.subject) {
            Some(s) => s,
            None => {
                proof {
                    collect_error_stays(root@, all, i + 1);
                }
                return Err("wf_demote_tree: non-node subject: ".to_owned().concat(&show(&q.subject)));
            },
        };
        edges.add_edge(&subject, predicate, wit_to_term(&q.object));
    }
    proof {
        assert(all.take(all.len() as int) =~= all);
    }
    Ok(edges)
}

/// A part of the graph that spans a tree still spans one once an edge to a new
/// leaf is added.
pub proof fn leaf_keeps_tree(
    e: EdgeMapView,
    root: Seq<char>,
    subject: Seq<char>,
    predicate: Seq<char>,
    object: TermView,
)
    requires
        spans_tree(e, root),
        e.subjects.contains(subject),
        edges_to(e, key_of(object)) == 0,
    ensures
        spans_tree(with_edge(e, subject, predicate, object), root),
{
    let f = with_edge(e, subject, predicate, object);
    assert forall|s: Seq<char>| #[trigger] f.subjects.contains(s) && s != root implies edges_to(f, subject_key(s))
        == 1 by {
        assert(e.subjects.contains(s));
    }
}

} // verus!

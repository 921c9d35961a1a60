//! What moving trees out of a graph puts on the sink and deletes.

use vstd::prelude::*;
use crate::demote_tree::edges;
use crate::demote_tree::edges::{collected, edges_from, edges_to, key_of, spans_tree, subject_key, target_of,
    with_edge, Config, EdgeMapView};
use crate::demote_tree::run::{delete_on, document_of, next, root_on, ProgressView, StageView};
use crate::demote_tree::serialize::{edge_values, grouped_values, id_of, is_head, is_tail, literal_value, local,
    local_name_is_unique, names_predicate, node_object, object_value, one_or_all, subject_value, with_groups};
use crate::hash::genid;
use crate::host::{ReplyView, RequestView};
use crate::json::{ascending, integer, lookup, lookup_put, no_fields, put_names, Fields, JsonView};
use crate::laws::deriving::are_quads;
use crate::laws::graph::Fact;
use crate::names::{in_order, listed, lists};
use crate::number::{int_text, parse_undoes_signed_decimal};
use crate::rdf::{node_id, QuadView, QueryResultView, TermView};

verus! {

// ---------------------------------------------------------------------------
// The edges of a part of a graph
// ---------------------------------------------------------------------------

/// The node that an identifier stands for.
pub open spec fn node_term(id: Seq<char>) -> TermView {
    if "_:"@.is_prefix_of(id) {
        TermView::BlankNode(id.skip(2))
    } else {
        TermView::NamedNode(id)
    }
}

/// Whether every statement is about a node.
pub open spec fn about_nodes(facts: Seq<Fact>) -> bool {
    forall|i: int| 0 <= i < facts.len() ==> (#[trigger] facts[i]).subject is NamedNode || facts[i].subject is BlankNode
}

/// Whether a statement is about the node with an identifier.
pub open spec fn is_about(f: Fact, id: Seq<char>) -> bool {
    match f.subject {
        TermView::NamedNode(iri) => id == iri,
        TermView::BlankNode(label) => id == "_:"@ + label,
        _ => false,
    }
}

/// Whether one of the statements is about a node.
pub open spec fn some_about(facts: Seq<Fact>, id: Seq<char>) -> bool {
    exists|i: int| 0 <= i < facts.len() && is_about(#[trigger] facts[i], id)
}

/// How many statements lead to a term.
pub open spec fn leading_to(facts: Seq<Fact>, t: TermView) -> nat
    decreases facts.len(),
{
    if facts.len() == 0 {
        0
    } else {
        leading_to(facts.drop_last(), t) + if facts.last().object == t {
            1nat
        } else {
            0nat
        }
    }
}

/// Whether an edge is that of a statement.
pub open spec fn is_edge_of(edge: (Seq<char>, edges::TermView), f: Fact) -> bool {
    &&& edge.0 == f.predicate
    &&& match f.object {
        TermView::NamedNode(iri) => edge.1 == edges::TermView::Iri(iri),
        TermView::BlankNode(label) => edge.1 == edges::TermView::Bnode(label),
        TermView::Literal(l) => edge.1 matches edges::TermView::Literal { label, datatype, lang } && label == l.value
            && lang == l.language && (match l.datatype {
            Some(d) => datatype == d,
            None => datatype.len() == 0,
        }),
        TermView::Triple(_) => edge.1 is Literal,
    }
}

/// Whether one of the edges is that of a statement.
pub open spec fn has_edge(all: Seq<(Seq<char>, edges::TermView)>, f: Fact) -> bool {
    exists|k: int| 0 <= k < all.len() && is_edge_of(#[trigger] all[k], f)
}

/// Whether an edge is that of one of the statements about a node.
pub open spec fn has_statement(facts: Seq<Fact>, id: Seq<char>, edge: (Seq<char>, edges::TermView)) -> bool {
    exists|i: int| 0 <= i < facts.len() && is_about(#[trigger] facts[i], id) && is_edge_of(edge, facts[i])
}

/// Whether there is an edge for each statement about a node, and no other.
pub open spec fn edges_match(all: Seq<(Seq<char>, edges::TermView)>, facts: Seq<Fact>, id: Seq<char>) -> bool {
    &&& forall|i: int| 0 <= i < facts.len() && is_about(#[trigger] facts[i], id) ==> has_edge(all, facts[i])
    &&& forall|k: int| 0 <= k < all.len() ==> has_statement(facts, id, #[trigger] all[k])
}

proof fn edges_match_more(
    before: Seq<(Seq<char>, edges::TermView)>,
    after: Seq<(Seq<char>, edges::TermView)>,
    facts: Seq<Fact>,
    id: Seq<char>,
    edge: (Seq<char>, edges::TermView),
)
    requires
        facts.len() > 0,
        edges_match(before, facts.drop_last(), id),
        is_edge_of(edge, facts.last()),
        is_about(facts.last(), id) ==> after == before.push(edge),
        !is_about(facts.last(), id) ==> after == before,
    ensures
        edges_match(after, facts, id),
{
    let fs = facts.drop_last();
    assert(facts.last() == facts[facts.len() - 1]);
    assert forall|i: int| 0 <= i < facts.len() && is_about(#[trigger] facts[i], id) implies has_edge(after, facts[i]) by {
        if i < fs.len() {
            assert(fs[i] == facts[i]);
            let k = choose|k: int| 0 <= k < before.len() && is_edge_of(#[trigger] before[k], fs[i]);
            assert(after[k] == before[k]);
        } else {
            assert(is_edge_of(after[before.len() as int], facts[i]));
        }
    }
    assert forall|k: int| 0 <= k < after.len() implies has_statement(facts, id, #[trigger] after[k]) by {
        if k < before.len() {
            assert(after[k] == before[k]);
            assert(has_statement(fs, id, before[k]));
            let i = choose|i: int| 0 <= i < fs.len() && is_about(#[trigger] fs[i], id) && is_edge_of(before[k], fs[i]);
            assert(facts[i] == fs[i]);
        } else {
            assert(is_about(facts[facts.len() - 1], id));
        }
    }
}

proof fn keys_tell_nodes(id: Seq<char>, t: TermView)
    ensures
        key_of(target_of(t)) == subject_key(id) <==> t == node_term(id),
{
    reveal_strlit("_:");
    reveal_strlit("i:");
    reveal_strlit("b:");
    reveal_strlit("l:");
    let k = subject_key(id);
    let key = key_of(target_of(t));
    if "_:"@.is_prefix_of(id) {
        assert(k =~= "b:"@ + id.skip(2));
        assert(k[0] == 'b');
        assert(k.skip(2) =~= id.skip(2));
    } else {
        assert(k[0] == 'i');
        assert(k.skip(2) =~= id);
    }
    match t {
        TermView::NamedNode(iri) => {
            assert(key[0] == 'i');
            assert(key.skip(2) =~= iri);
        },
        TermView::BlankNode(label) => {
            assert(key[0] == 'b');
            assert(key.skip(2) =~= label);
        },
        _ => {
            assert(key[0] == 'l');
        },
    }
}

proof fn edge_is_taken(f: Fact)
    ensures
        is_edge_of((f.predicate, target_of(f.object)), f),
{
}

proof fn edges_are_gathered(root: Seq<char>, quads: Seq<QuadView>, facts: Seq<Fact>, id: Seq<char>)
    requires
        are_quads(quads, facts),
        about_nodes(facts),
    ensures
        collected(root, quads) matches Ok(e) && {
            &&& e.subjects.contains(id) <==> id == root || some_about(facts, id)
            &&& e.subjects.finite()
            &&& e.out.contains_key(id) <==> some_about(facts, id)
            &&& edges_to(e, subject_key(id)) == if leading_to(facts, node_term(id)) <= u32::MAX {
                leading_to(facts, node_term(id)) as u32
            } else {
                u32::MAX
            }
            &&& edges_match(edges_from(e, id), facts, id)
        },
    decreases facts.len(),
{
    if facts.len() > 0 {
        let fs = facts.drop_last();
        let qs = quads.drop_last();
        let f = facts.last();
        let q = quads.last();
        assert(about_nodes(fs)) by {
            assert forall|i: int| 0 <= i < fs.len() implies (#[trigger] fs[i]).subject is NamedNode
                || fs[i].subject is BlankNode by {
                assert(fs[i] == facts[i]);
            }
        }
        assert(are_quads(qs, fs)) by {
            assert forall|i: int| 0 <= i < fs.len() implies {
                &&& (#[trigger] qs[i]).subject == fs[i].subject
                &&& qs[i].predicate == TermView::NamedNode(fs[i].predicate)
                &&& qs[i].object == fs[i].object
            } by {
                assert(qs[i] == quads[i]);
            }
        }
        edges_are_gathered(root, qs, fs, id);
        assert(q == quads[facts.len() - 1]);
        assert(f == facts[facts.len() - 1]);
        assert(f.subject is NamedNode || f.subject is BlankNode);
        let done = collected(root, qs)->Ok_0;
        let s = node_id(f.subject)->0;
        let t = target_of(f.object);
        let e = with_edge(done, s, f.predicate, t);
        assert(collected(root, quads) == Ok::<EdgeMapView, Seq<char>>(e));
        assert(is_about(f, id) <==> s == id);
        keys_tell_nodes(id, f.object);
        assert(some_about(facts, id) <==> some_about(fs, id) || s == id) by {
            if some_about(fs, id) {
                let i = choose|i: int| 0 <= i < fs.len() && is_about(#[trigger] fs[i], id);
                assert(facts[i] == fs[i]);
            }
            if some_about(facts, id) && s != id {
                let i = choose|i: int| 0 <= i < facts.len() && is_about(#[trigger] facts[i], id);
                assert(fs[i] == facts[i]);
            }
        }
        edge_is_taken(f);
        edges_match_more(edges_from(done, id), edges_from(e, id), facts, id, (f.predicate, t));
    } else {
        assert(!some_about(facts, id));
    }
}

/// The part of a graph below a root is a tree exactly where one statement leads
/// to each of its subjects but the root.
pub proof fn one_way_to_each_node_is_a_tree(root: Seq<char>, quads: Seq<QuadView>, facts: Seq<Fact>)
    requires
        are_quads(quads, facts),
        about_nodes(facts),
    ensures
        collected(root, quads) matches Ok(e) && (spans_tree(e, root) <==> forall|id: Seq<char>| #[trigger]
            some_about(facts, id) && id != root ==> leading_to(facts, node_term(id)) == 1),
{
    edges_are_gathered(root, quads, facts, root);
    let e = collected(root, quads)->Ok_0;
    if spans_tree(e, root) {
        assert forall|id: Seq<char>| #[trigger] some_about(facts, id) && id != root implies leading_to(
            facts,
            node_term(id),
        ) == 1 by {
            edges_are_gathered(root, quads, facts, id);
            assert(e.subjects.contains(id));
        }
    }
    if forall|id: Seq<char>| #[trigger]
        some_about(facts, id) && id != root ==> leading_to(facts, node_term(id)) == 1 {
        assert forall|id: Seq<char>| #[trigger] e.subjects.contains(id) && id != root implies edges_to(
            e,
            subject_key(id),
        ) == 1 by {
            edges_are_gathered(root, quads, facts, id);
            assert(some_about(facts, id));
        }
    }
}

/// A node has one edge for each statement about it, and no other.
pub proof fn edges_are_the_statements(root: Seq<char>, quads: Seq<QuadView>, facts: Seq<Fact>, id: Seq<char>)
    requires
        are_quads(quads, facts),
        about_nodes(facts),
    ensures
        collected(root, quads) matches Ok(e) && {
            &&& e.subjects.contains(id) <==> id == root || some_about(facts, id)
            &&& edges_match(edges_from(e, id), facts, id)
        },
{
    edges_are_gathered(root, quads, facts, id);
}

// ---------------------------------------------------------------------------
// Putting and deleting
// ---------------------------------------------------------------------------

/// Each root is asked for all that it reaches. Where that is a tree, or where
/// anything is taken, the root's document goes to the sink under the root's
/// name, with all subjects below it noted; otherwise the root is passed over.
/// Nothing is deleted meanwhile.
pub proof fn trees_are_put_under_their_roots(c: Config, p: ProgressView, quads: Seq<QuadView>, facts: Seq<Fact>)
    requires
        are_quads(quads, facts),
        about_nodes(facts),
        p.at < p.roots.len(),
        !"_:"@.is_prefix_of(p.roots[p.at as int]),
    ensures
        root_on(c, p) == (
            StageView::Collecting(p),
            RequestView::Query(
                "CONSTRUCT { ?s ?p ?o } WHERE { <"@ + p.roots[p.at as int]
                    + "> (!<urn:tegmentum:no-such-predicate>)* ?s . ?s ?p ?o }"@,
            ),
        ),
        ({
            let root = p.roots[p.at as int];
            let is_tree = forall|id: Seq<char>| #[trigger]
                some_about(facts, id) && id != root ==> leading_to(facts, node_term(id)) == 1;
            let (stage, request) = next(c, StageView::Collecting(p), ReplyView::Result(QueryResultView::Quads(quads)));
            &&& is_tree || !c.reject_non_tree ==> match document_of(c, collected(root, quads)->Ok_0, root) {
                Ok((n, content)) => {
                    &&& request == RequestView::Put(c.sink@, root, content)
                    &&& stage matches StageView::Putting(q, m, subjects) && q == p && m == n && subjects.finite()
                        && forall|id: Seq<char>| #[trigger]
                            subjects.contains(id) <==> id == root || some_about(facts, id)
                },
                Err(e) => request == RequestView::Finish(Err(e)),
            }
            &&& !is_tree && c.reject_non_tree ==> (stage, request) == root_on(
                c,
                ProgressView { skipped: p.skipped.wrapping_add(1), at: p.at + 1, ..p },
            )
        }),
{
    let root = p.roots[p.at as int];
    one_way_to_each_node_is_a_tree(root, quads, facts);
    let e = collected(root, quads)->Ok_0;
    edges_are_gathered(root, quads, facts, root);
    assert forall|id: Seq<char>| #[trigger] e.subjects.contains(id) <==> id == root || some_about(facts, id) by {
        edges_are_gathered(root, quads, facts, id);
    }
}

/// Once a document has been put, its subjects count as moved, and the next root
/// comes.
pub proof fn put_subjects_are_moved(c: Config, p: ProgressView, n: u64, subjects: Set<Seq<char>>)
    requires
        p.at < p.roots.len(),
    ensures
        next(c, StageView::Putting(p, n, subjects), ReplyView::Done) == root_on(
            c,
            ProgressView {
                roots: p.roots,
                at: p.at + 1,
                trees: p.trees.wrapping_add(1),
                nodes: p.nodes.wrapping_add(n),
                skipped: p.skipped,
                moved: p.moved.union(subjects),
            },
        ),
{
}

/// The update that deletes the statements about a node.
pub open spec fn node_deletion(id: Seq<char>) -> Seq<char> {
    if "_:"@.is_prefix_of(id) {
        "DELETE { ?s ?p ?o } WHERE { ?s ?p ?o . FILTER(isBlank(?s) && str(?s) = \""@ + id.skip(2) + "\") }"@
    } else {
        "DELETE { <"@ + id + "> ?p ?o } WHERE { <"@ + id + "> ?p ?o }"@
    }
}

/// What so many deletions that are carried out lead to.
pub open spec fn after_deletions(c: Config, at: (StageView, RequestView), n: nat) -> (StageView, RequestView)
    decreases n,
{
    if n == 0 {
        at
    } else {
        next(c, after_deletions(c, at, (n - 1) as nat).0, ReplyView::Done)
    }
}

proof fn deletions_follow(c: Config, p: ProgressView, subjects: Seq<Seq<char>>, n: nat)
    requires
        n <= subjects.len(),
    ensures
        after_deletions(c, delete_on(p, subjects, 0), n) == delete_on(p, subjects, n),
    decreases n,
{
    if n > 0 {
        deletions_follow(c, p, subjects, (n - 1) as nat);
    }
}

/// Behind the last root, where the source is not to be kept, the statements about
/// every subject that was moved are deleted, each subject in its turn, and then
/// the call ends.
pub proof fn moved_subjects_are_deleted(c: Config, p: ProgressView)
    requires
        p.at >= p.roots.len(),
        c.delete_source,
        p.moved.finite(),
    ensures
        exists|order: Seq<Seq<char>>|
            {
                &&& #[trigger] lists(order, p.moved)
                &&& forall|i: int|
                    0 <= i < order.len() ==> (#[trigger] after_deletions(c, root_on(c, p), i as nat)).1
                        == RequestView::Update(node_deletion(order[i]))
                &&& after_deletions(c, root_on(c, p), order.len()).0 is Over
            },
{
    reveal_strlit("_:");
    let order = in_order(p.moved);
    listed(p.moved);
    assert forall|i: int| 0 <= i < order.len() implies (#[trigger] after_deletions(c, root_on(c, p), i as nat)).1
        == RequestView::Update(node_deletion(order[i])) by {
        deletions_follow(c, p, order, i as nat);
    }
    deletions_follow(c, p, order, order.len());
}

// ---------------------------------------------------------------------------
// Documents
// ---------------------------------------------------------------------------

/// A predicate is called by what follows its last `#`, or else its last `/`.
pub proof fn predicates_go_by_their_last_part(base: Seq<char>, name: Seq<char>)
    requires
        name.len() > 0,
        !name.contains('#'),
        !name.contains('/'),
    ensures
        base + "#"@ + name != "http://www.w3.org/1999/02/22-rdf-syntax-ns#type"@ ==> local(base + "#"@ + name) == name,
        !base.contains('#') ==> local(base + "/"@ + name) == name,
        local("http://www.w3.org/1999/02/22-rdf-syntax-ns#type"@) == "@type"@,
{
    reveal_strlit("#");
    reveal_strlit("/");
    reveal_strlit("http://www.w3.org/1999/02/22-rdf-syntax-ns#type");
    let ty = "http://www.w3.org/1999/02/22-rdf-syntax-ns#type"@;
    assert(names_predicate(ty, "@type"@));
    local_name_is_unique(ty, local(ty), "@type"@);
    let p = base + "#"@ + name;
    let n: int = base.len() as int;
    if p != ty {
        assert(p[n] == '#');
        assert(p.skip(n + 1) =~= name);
        assert(is_tail(p, '#', Some(name)));
        assert(names_predicate(p, name));
        local_name_is_unique(p, local(p), name);
    }
    if !base.contains('#') {
        let q = base + "/"@ + name;
        assert(q[n] == '/');
        assert(q.skip(n + 1) =~= name);
        assert(is_tail(q, '/', Some(name)));
        assert(!q.contains('#')) by {
            if q.contains('#') {
                let i = choose|i: int| 0 <= i < q.len() && q[i] == '#';
                if i < n {
                    assert(base[i] == '#');
                } else if i > n {
                    assert(name[i - n - 1] == '#');
                }
            }
        }
        assert(q != ty) by {
            assert(ty[42] == '#');
            assert(ty.contains('#'));
        }
        assert(is_tail(q, '#', None));
        assert(names_predicate(q, name));
        local_name_is_unique(q, local(q), name);
    }
}

/// Whether a value of a document is that of a literal.
pub open spec fn shows_literal(v: JsonView, label: Seq<char>, datatype: Seq<char>, lang: Option<Seq<char>>) -> bool {
    &&& lang is Some ==> v == JsonView::Text(label)
    &&& lang is None && (datatype == "http://www.w3.org/2001/XMLSchema#integer"@ || datatype
        == "http://www.w3.org/2001/XMLSchema#int"@ || datatype == "http://www.w3.org/2001/XMLSchema#long"@ || datatype
        == "http://www.w3.org/2001/XMLSchema#short"@ || datatype == "http://www.w3.org/2001/XMLSchema#byte"@)
        ==> forall|n: i64| label == #[trigger] int_text(n as int) ==> v == integer(n)
    &&& lang is None && datatype == "http://www.w3.org/2001/XMLSchema#boolean"@ ==> {
        &&& label == "true"@ || label == "1"@ ==> v == JsonView::Bool(true)
        &&& label == "false"@ || label == "0"@ ==> v == JsonView::Bool(false)
    }
    &&& lang is None && (datatype.len() == 0 || datatype == "http://www.w3.org/2001/XMLSchema#string"@ || datatype
        == "http://www.w3.org/2001/XMLSchema#date"@ || datatype == "http://www.w3.org/2001/XMLSchema#dateTime"@)
        ==> v == JsonView::Text(label)
}

/// A literal is shown as its datatype says: integers as numbers, flags as flags,
/// and texts, dates and anything with a language as texts.
pub proof fn literals_are_shown_by_datatype(label: Seq<char>, datatype: Seq<char>, lang: Option<Seq<char>>)
    ensures
        shows_literal(literal_value(label, datatype, lang), label, datatype, lang),
{
    reveal_strlit("http://www.w3.org/2001/XMLSchema#integer");
    reveal_strlit("http://www.w3.org/2001/XMLSchema#int");
    reveal_strlit("http://www.w3.org/2001/XMLSchema#long");
    reveal_strlit("http://www.w3.org/2001/XMLSchema#short");
    reveal_strlit("http://www.w3.org/2001/XMLSchema#byte");
    reveal_strlit("http://www.w3.org/2001/XMLSchema#decimal");
    reveal_strlit("http://www.w3.org/2001/XMLSchema#double");
    reveal_strlit("http://www.w3.org/2001/XMLSchema#float");
    reveal_strlit("http://www.w3.org/2001/XMLSchema#boolean");
    reveal_strlit("http://www.w3.org/2001/XMLSchema#string");
    reveal_strlit("http://www.w3.org/2001/XMLSchema#date");
    reveal_strlit("http://www.w3.org/2001/XMLSchema#dateTime");
    reveal_strlit("true");
    reveal_strlit("false");
    reveal_strlit("1");
    reveal_strlit("0");
    let b = "http://www.w3.org/2001/XMLSchema#boolean"@;
    let s = "http://www.w3.org/2001/XMLSchema#string"@;
    let d = "http://www.w3.org/2001/XMLSchema#date"@;
    let t = "http://www.w3.org/2001/XMLSchema#dateTime"@;
    assert(b[33] == 'b' && b[34] == 'o');
    assert(s[33] == 's' && s[34] == 't');
    assert(d[33] == 'd' && d[34] == 'a' && d.len() == 37);
    assert(t[33] == 'd' && t[34] == 'a' && t.len() == 41);
    assert("http://www.w3.org/2001/XMLSchema#integer"@[33] == 'i');
    assert("http://www.w3.org/2001/XMLSchema#int"@[33] == 'i');
    assert("http://www.w3.org/2001/XMLSchema#long"@[33] == 'l');
    assert("http://www.w3.org/2001/XMLSchema#short"@[34] == 'h');
    assert("http://www.w3.org/2001/XMLSchema#byte"@[34] == 'y');
    assert("http://www.w3.org/2001/XMLSchema#decimal"@[34] == 'e');
    assert("http://www.w3.org/2001/XMLSchema#double"@[34] == 'o' && "http://www.w3.org/2001/XMLSchema#double"@[33] == 'd');
    assert("http://www.w3.org/2001/XMLSchema#float"@[33] == 'f');
    assert("1"@[0] != "0"@[0]);
    assert("true"@.len() == 4 && "false"@.len() == 5);
    assert forall|n: i64| label == #[trigger] int_text(n as int) implies crate::json::integer_or_text(label) == integer(
        n,
    ) by {
        parse_undoes_signed_decimal(n);
    }
}

/// Whether a field shows a value: alone, or among others.
pub open spec fn field_shows(fields: Seq<(Seq<char>, JsonView)>, name: Seq<char>, v: JsonView) -> bool {
    match lookup(fields, name) {
        Some(found) => found == v || (found matches JsonView::Array(items) && items.contains(v)),
        None => false,
    }
}

proof fn groups_hold(pairs: Seq<(Seq<char>, JsonView)>, i: int)
    requires
        0 <= i < pairs.len(),
    ensures
        grouped_values(pairs).dom().finite(),
        grouped_values(pairs).contains_key(pairs[i].0),
        grouped_values(pairs)[pairs[i].0].contains(pairs[i].1),
    decreases pairs.len(),
{
    let rest = pairs.drop_last();
    let before = grouped_values(rest);
    let (key, value) = pairs.last();
    groups_are_finite(rest);
    let after = grouped_values(pairs);
    if i < rest.len() {
        groups_hold(rest, i);
        assert(rest[i] == pairs[i]);
        let name = pairs[i].0;
        if name == key {
            let k = choose|k: int| 0 <= k < before[name].len() && before[name][k] == pairs[i].1;
            assert(after[name][k] == pairs[i].1);
        }
    } else {
        assert(after[key][after[key].len() - 1] == value);
    }
}

proof fn groups_are_finite(pairs: Seq<(Seq<char>, JsonView)>)
    ensures
        grouped_values(pairs).dom().finite(),
    decreases pairs.len(),
{
    if pairs.len() > 0 {
        groups_are_finite(pairs.drop_last());
    }
}

proof fn groups_are_found(
    fields: Seq<(Seq<char>, JsonView)>,
    keys: Seq<Seq<char>>,
    groups: Map<Seq<char>, Seq<JsonView>>,
    name: Seq<char>,
)
    requires
        ascending(fields),
    ensures
        ascending(with_groups(fields, keys, groups)),
        keys.contains(name) ==> lookup(with_groups(fields, keys, groups), name) == Some(one_or_all(groups[name])),
        !keys.contains(name) ==> lookup(with_groups(fields, keys, groups), name) == lookup(fields, name),
    decreases keys.len(),
{
    if keys.len() > 0 {
        let rest = keys.drop_last();
        let last = keys.last();
        groups_are_found(fields, rest, groups, name);
        let before = with_groups(fields, rest, groups);
        put_names(before, last, one_or_all(groups[last]));
        lookup_put(before, last, one_or_all(groups[last]), name);
        if keys.contains(name) {
            let i = choose|i: int| 0 <= i < keys.len() && keys[i] == name;
            if i < rest.len() {
                assert(rest[i] == name);
                assert(rest.contains(name));
            }
        }
        if rest.contains(name) {
            let i = choose|i: int| 0 <= i < rest.len() && rest[i] == name;
            assert(keys[i] == name);
        }
        if name == last {
            assert(keys[keys.len() - 1] == name);
        }
    }
}

/// A node's object shows every value under its name, and the node's identifier
/// where identifiers are shown and no value goes by that name.
pub proof fn object_shows_every_value(id: Seq<char>, include_id: bool, pairs: Seq<(Seq<char>, JsonView)>)
    ensures
        node_object(id, include_id, pairs) matches JsonView::Object(fields) && {
            &&& forall|i: int| 0 <= i < pairs.len() ==> field_shows(fields, (#[trigger] pairs[i]).0, pairs[i].1)
            &&& (forall|i: int| 0 <= i < pairs.len() ==> (#[trigger] pairs[i]).0 != "@id"@) ==> lookup(fields, "@id"@)
                == if include_id {
                Some(JsonView::Text(id))
            } else {
                None
            }
        },
{
    let groups = grouped_values(pairs);
    let start = if include_id {
        no_fields().with("@id"@, JsonView::Text(id))
    } else {
        no_fields()
    };
    groups_are_finite(pairs);
    listed(groups.dom());
    let keys = in_order(groups.dom());
    put_names(no_fields(), "@id"@, JsonView::Text(id));
    lookup_put(no_fields(), "@id"@, JsonView::Text(id), "@id"@);
    let fields = with_groups(start, keys, groups);
    assert forall|i: int| 0 <= i < pairs.len() implies field_shows(fields, (#[trigger] pairs[i]).0, pairs[i].1) by {
        groups_hold(pairs, i);
        let name = pairs[i].0;
        groups_are_found(start, keys, groups, name);
        assert(keys.contains(name));
        let values = groups[name];
        if values.len() == 1 {
            let k = choose|k: int| 0 <= k < values.len() && values[k] == pairs[i].1;
            assert(values[0] == pairs[i].1);
        }
    }
    if forall|i: int| 0 <= i < pairs.len() ==> (#[trigger] pairs[i]).0 != "@id"@ {
        groups_are_found(start, keys, groups, "@id"@);
        assert(!groups.contains_key("@id"@)) by {
            keys_come_from_pairs(pairs, "@id"@);
        }
    }
}

proof fn keys_come_from_pairs(pairs: Seq<(Seq<char>, JsonView)>, name: Seq<char>)
    requires
        forall|i: int| 0 <= i < pairs.len() ==> (#[trigger] pairs[i]).0 != name,
    ensures
        !grouped_values(pairs).contains_key(name),
    decreases pairs.len(),
{
    if pairs.len() > 0 {
        let rest = pairs.drop_last();
        assert forall|i: int| 0 <= i < rest.len() implies (#[trigger] rest[i]).0 != name by {
            assert(rest[i] == pairs[i]);
        }
        keys_come_from_pairs(rest, name);
        assert(pairs[pairs.len() - 1].0 != name);
    }
}

/// Whether a value shows what an edge leads to that is not walked into: a
/// literal, the empty list, or a node without statements.
pub open spec fn shows_leaf(e: EdgeMapView, object: edges::TermView, v: JsonView) -> bool {
    match object {
        edges::TermView::Literal { label, datatype, lang } => shows_literal(v, label, datatype, lang),
        edges::TermView::Iri(iri) => if iri == "http://www.w3.org/1999/02/22-rdf-syntax-ns#nil"@ {
            v == JsonView::Array(Seq::empty())
        } else {
            !e.out.contains_key(iri) ==> v == JsonView::Text(iri)
        },
        edges::TermView::Bnode(label) => !e.out.contains_key("_:"@ + label) ==> v == JsonView::Text(genid(label)),
    }
}

proof fn edges_give_pairs(
    e: EdgeMapView,
    c: Config,
    all: Seq<(Seq<char>, edges::TermView)>,
    met: Set<Seq<char>>,
    depth: int,
)
    ensures
        edge_values(e, c, all, met, depth).value matches Ok(pairs) ==> {
            &&& pairs.len() == all.len()
            &&& forall|i: int|
                0 <= i < all.len() ==> (#[trigger] pairs[i]).0 == local(all[i].0) && shows_leaf(e, all[i].1, pairs[i].1)
        },
    decreases all.len(),
{
    if all.len() > 0 {
        let rest = all.drop_last();
        edges_give_pairs(e, c, rest, met, depth);
        let before = edge_values(e, c, rest, met, depth);
        match before.value {
            Ok(done) => {
                let w = object_value(e, c, all.last().1, before.met, depth);
                match all.last().1 {
                    edges::TermView::Literal { label, datatype, lang } => literals_are_shown_by_datatype(
                        label,
                        datatype,
                        lang,
                    ),
                    _ => {},
                }
                match w.value {
                    Ok(value) => {
                        assert(shows_leaf(e, all.last().1, value));
                        let pairs = done.push((local(all.last().0), value));
                        assert forall|i: int| 0 <= i < all.len() implies (#[trigger] pairs[i]).0 == local(all[i].0)
                            && shows_leaf(e, all[i].1, pairs[i].1) by {
                            if i < rest.len() {
                                assert(pairs[i] == done[i]);
                                assert(rest[i] == all[i]);
                            }
                        }
                    },
                    Err(_) => {},
                }
            },
            Err(_) => {},
        }
    }
}

/// Whether the fields of an object show what an edge leads to, under the edge's
/// name.
#[verifier::opaque]
pub open spec fn edge_is_shown(
    e: EdgeMapView,
    fields: Seq<(Seq<char>, JsonView)>,
    edge: (Seq<char>, edges::TermView),
) -> bool {
    exists|value: JsonView| #[trigger] field_shows(fields, local(edge.0), value) && shows_leaf(e, edge.1, value)
}

proof fn edge_is_shown_by(
    e: EdgeMapView,
    fields: Seq<(Seq<char>, JsonView)>,
    edge: (Seq<char>, edges::TermView),
    value: JsonView,
)
    requires
        field_shows(fields, local(edge.0), value),
        shows_leaf(e, edge.1, value),
    ensures
        edge_is_shown(e, fields, edge),
{
    reveal(edge_is_shown);
}

/// A node that is no list and has not been met is an object that shows, under
/// each edge's name, what the edge leads to; a node that has been met is shown
/// as a reference.
pub proof fn document_shows_every_edge(e: EdgeMapView, c: Config, subject: Seq<char>, met: Set<Seq<char>>, depth: int)
    requires
        depth <= 4096,
        !(c.collapse_rdf_lists && is_head(e, subject)),
    ensures
        met.contains(subject) ==> (subject_value(e, c, subject, met, depth).value matches Ok(
            JsonView::Object(fields),
        ) && lookup(fields, "$ref"@) == Some(JsonView::Text(id_of(subject)))),
        !met.contains(subject) ==> (subject_value(e, c, subject, met, depth).value matches Ok(v) ==> {
            &&& v matches JsonView::Object(fields)
            &&& forall|i: int|
                0 <= i < edges_from(e, subject).len() ==> edge_is_shown(
                    e,
                    fields,
                    #[trigger] edges_from(e, subject)[i],
                )
        }),
{
    let all = edges_from(e, subject);
    if met.contains(subject) {
        let fields = seq![("$ref"@, JsonView::Text(id_of(subject)))];
        reveal_with_fuel(lookup, 2);
    } else {
        edges_give_pairs(e, c, all, met.insert(subject), depth + 1);
        let w = edge_values(e, c, all, met.insert(subject), depth + 1);
        match w.value {
            Ok(pairs) => {
                object_shows_every_value(id_of(subject), c.include_id, pairs);
                let fields = node_object(id_of(subject), c.include_id, pairs)->Object_0;
                assert forall|i: int| 0 <= i < all.len() implies edge_is_shown(e, fields, #[trigger] all[i]) by {
                    edge_is_shown_by(e, fields, all[i], pairs[i].1);
                }
            },
            Err(_) => {},
        }
    }
}

} // verus!

//! What the documents say that a graph's trees are put as.

use vstd::prelude::*;
use crate::host::{ReplyView, RequestView};
use crate::json::{ascending, integer, json_text, lookup, lookup_put, no_fields, put_names, Fields, JsonView};
use crate::laws::graph::{column, column_is_read, result_of, Fact};
use crate::materialize_tree::{attribute_text, children_at, children_in, cycle_mark, described, fresh, leads, next,
    node_document, root_names, rooted, subtree, subtrees, value_as, walk_puts_the_subtree, with_attribute, FrameView,
    PlanView, StageView, WalkView, MAX_DEPTH};
use crate::number::{int_text, parse_undoes_signed_decimal};
use crate::rdf::{flattened, node_id, node_in, BindingView, QueryResultView, TermView};

verus! {

/// How a node is written in a document: an IRI as it is, a blank node with `_:`
/// in front.
pub open spec fn names_node(id: Seq<char>, t: TermView) -> bool {
    match t {
        TermView::NamedNode(iri) => id == iri,
        TermView::BlankNode(label) => id == "_:"@ + label,
        _ => false,
    }
}

/// Whether the values are the objects of a node's statements with a predicate.
pub open spec fn are_objects(g: Set<Fact>, subject: Seq<char>, predicate: Seq<char>, values: Seq<TermView>) -> bool {
    forall|t: TermView| #[trigger]
        values.contains(t) <==> g.contains(Fact { subject: TermView::NamedNode(subject), predicate, object: t })
}

/// Whether the values are the subjects of a node's statements with a predicate.
pub open spec fn are_subjects(g: Set<Fact>, object: Seq<char>, predicate: Seq<char>, values: Seq<TermView>) -> bool {
    forall|t: TermView| #[trigger]
        values.contains(t) <==> g.contains(Fact { subject: t, predicate, object: TermView::NamedNode(object) })
}

/// Whether a store that holds the graph answers the two patterns of a link from
/// and to a node.
pub open spec fn answers_links(
    answers: spec_fn(Seq<char>) -> QueryResultView,
    g: Set<Fact>,
    node: Seq<char>,
    predicate: Seq<char>,
) -> bool {
    &&& exists|values: Seq<TermView>|
        answers("SELECT ?c WHERE { <"@ + node + "> <"@ + predicate + "> ?c }"@) == result_of(column("c"@, values))
            && #[trigger] are_objects(g, node, predicate, values)
    &&& exists|values: Seq<TermView>|
        answers("SELECT ?c WHERE { ?c <"@ + predicate + "> <"@ + node + "> }"@) == result_of(column("c"@, values))
            && #[trigger] are_subjects(g, node, predicate, values)
}

proof fn children_are_read(values: Seq<TermView>)
    ensures
        forall|id: Seq<char>| #[trigger]
            children_in(column("c"@, values)).contains(id) <==> exists|t: TermView|
                values.contains(t) && #[trigger] names_node(id, t),
    decreases values.len(),
{
    let rows = column("c"@, values);
    if values.len() > 0 {
        let rest = values.drop_last();
        children_are_read(rest);
        column_is_read("c"@, values);
        assert(rows.drop_last() =~= column("c"@, rest));
        let t = values.last();
        assert(rows.last() == rows[values.len() - 1]);
        assert(node_in(rows.last(), "c"@) == node_id(t));
        let before = children_in(rows.drop_last());
        let all = children_in(rows);
        assert forall|id: Seq<char>| #[trigger] all.contains(id) <==> exists|t: TermView|
            values.contains(t) && #[trigger] names_node(id, t) by {
            if all.contains(id) {
                let k = choose|k: int| 0 <= k < all.len() && all[k] == id;
                if k < before.len() {
                    assert(before[k] == id);
                    assert(before.contains(id));
                    let u = choose|u: TermView| rest.contains(u) && #[trigger] names_node(id, u);
                    let m = choose|m: int| 0 <= m < rest.len() && rest[m] == u;
                    assert(values[m] == u);
                    assert(values.contains(u) && names_node(id, u));
                } else {
                    assert(values.contains(t) && names_node(id, t));
                }
            }
            if exists|u: TermView| values.contains(u) && #[trigger] names_node(id, u) {
                let u = choose|u: TermView| values.contains(u) && #[trigger] names_node(id, u);
                let m = choose|m: int| 0 <= m < values.len() && values[m] == u;
                if m < rest.len() {
                    assert(rest[m] == u);
                    assert(rest.contains(u) && names_node(id, u));
                    assert(before.contains(id));
                    let k = choose|k: int| 0 <= k < before.len() && before[k] == id;
                    assert(all[k] == id);
                } else {
                    assert(all[all.len() - 1] == id);
                }
            }
        }
    } else {
        assert forall|id: Seq<char>| !(#[trigger] children_in(rows).contains(id)) by {
            assert(children_in(rows) =~= Seq::empty());
        }
    }
}

/// The children of a node lie at the end of the child link. Where there is none,
/// they are the nodes whose parent link leads to it. Without either link a node
/// has no children.
pub proof fn children_lie_along_the_link(
    plan: PlanView,
    answers: spec_fn(Seq<char>) -> QueryResultView,
    g: Set<Fact>,
    subject: Seq<char>,
)
    requires
        plan.child matches Some(p) ==> answers_links(answers, g, subject, p),
        plan.parent matches Some(p) ==> answers_links(answers, g, subject, p),
    ensures
        forall|id: Seq<char>| #[trigger]
            children_at(plan, answers, subject).contains(id) <==> match (plan.child, plan.parent) {
                (Some(p), _) => exists|t: TermView|
                    g.contains(Fact { subject: TermView::NamedNode(subject), predicate: p, object: t })
                        && #[trigger] names_node(id, t),
                (None, Some(p)) => exists|t: TermView|
                    g.contains(Fact { subject: t, predicate: p, object: TermView::NamedNode(subject) })
                        && #[trigger] names_node(id, t),
                (None, None) => false,
            },
{
    match (plan.child, plan.parent) {
        (Some(p), _) => {
            let values = choose|values: Seq<TermView>|
                answers("SELECT ?c WHERE { <"@ + subject + "> <"@ + p + "> ?c }"@) == result_of(column("c"@, values))
                    && #[trigger] are_objects(g, subject, p, values);
            column_is_read("c"@, values);
            children_are_read(values);
            let kids = children_at(plan, answers, subject);
            assert(kids == children_in(column("c"@, values)));
            assert forall|id: Seq<char>| #[trigger] kids.contains(id) <==> exists|t: TermView|
                g.contains(Fact { subject: TermView::NamedNode(subject), predicate: p, object: t })
                    && #[trigger] names_node(id, t) by {
                if kids.contains(id) {
                    let t = choose|t: TermView| values.contains(t) && #[trigger] names_node(id, t);
                    assert(g.contains(Fact { subject: TermView::NamedNode(subject), predicate: p, object: t })
                        && names_node(id, t));
                }
                if exists|t: TermView|
                    g.contains(Fact { subject: TermView::NamedNode(subject), predicate: p, object: t })
                        && #[trigger] names_node(id, t) {
                    let t = choose|t: TermView|
                        g.contains(Fact { subject: TermView::NamedNode(subject), predicate: p, object: t })
                            && #[trigger] names_node(id, t);
                    assert(values.contains(t) && names_node(id, t));
                }
            }
        },
        (None, Some(p)) => {
            let values = choose|values: Seq<TermView>|
                answers("SELECT ?c WHERE { ?c <"@ + p + "> <"@ + subject + "> }"@) == result_of(column("c"@, values))
                    && #[trigger] are_subjects(g, subject, p, values);
            column_is_read("c"@, values);
            children_are_read(values);
            let kids = children_at(plan, answers, subject);
            assert(kids == children_in(column("c"@, values)));
            assert forall|id: Seq<char>| #[trigger] kids.contains(id) <==> exists|t: TermView|
                g.contains(Fact { subject: t, predicate: p, object: TermView::NamedNode(subject) })
                    && #[trigger] names_node(id, t) by {
                if kids.contains(id) {
                    let t = choose|t: TermView| values.contains(t) && #[trigger] names_node(id, t);
                    assert(g.contains(Fact { subject: t, predicate: p, object: TermView::NamedNode(subject) })
                        && names_node(id, t));
                }
                if exists|t: TermView|
                    g.contains(Fact { subject: t, predicate: p, object: TermView::NamedNode(subject) })
                        && #[trigger] names_node(id, t) {
                    let t = choose|t: TermView|
                        g.contains(Fact { subject: t, predicate: p, object: TermView::NamedNode(subject) })
                            && #[trigger] names_node(id, t);
                    assert(values.contains(t) && names_node(id, t));
                }
            }
        },
        (None, None) => {},
    }
}

/// Whether no attribute has a name that every document uses.
pub open spec fn names_are_free(plan: PlanView) -> bool {
    forall|i: int|
        0 <= i < plan.attributes.len() ==> {
            let name = (#[trigger] plan.attributes[i]).name;
            name != "id"@ && name != "children"@ && name != "cycle"@
        }
}

/// The fields of a document.
pub open spec fn fields_of(document: JsonView) -> Seq<(Seq<char>, JsonView)> {
    match document {
        JsonView::Object(fields) => fields,
        _ => Seq::empty(),
    }
}

/// Whether a document is that of a node.
pub open spec fn is_document_of(document: JsonView, id: Seq<char>) -> bool {
    document is Object && lookup(fields_of(document), "id"@) == Some(JsonView::Text(id))
}

/// Whether a document holds one document for each of the children, in order.
pub open spec fn holds_children(document: JsonView, children: Seq<Seq<char>>) -> bool {
    if children.len() == 0 {
        lookup(fields_of(document), "children"@) is None
    } else {
        lookup(fields_of(document), "children"@) matches Some(JsonView::Array(items)) && {
            &&& items.len() == children.len()
            &&& forall|i: int| 0 <= i < items.len() ==> is_document_of(#[trigger] items[i], children[i])
        }
    }
}

proof fn described_is_found(
    plan: PlanView,
    answers: spec_fn(Seq<char>) -> QueryResultView,
    f: FrameView,
    at: nat,
    name: Seq<char>,
)
    requires
        ascending(f.fields),
        forall|i: int| at <= i < plan.attributes.len() ==> (#[trigger] plan.attributes[i]).name != name,
    ensures
        ascending(described(plan, answers, f, at).fields),
        lookup(described(plan, answers, f, at).fields, name) == lookup(f.fields, name),
        described(plan, answers, f, at).subject == f.subject,
    decreases plan.attributes.len() - at,
{
    if at < plan.attributes.len() {
        let a = plan.attributes[at as int];
        let result = answers(attribute_text(f.subject, a.predicate));
        let more = with_attribute(f, a, result);
        match result {
            QueryResultView::Bindings(flat) => {
                if flat.len() > 0 {
                    let v = value_as(flat[0].value, a.value_type);
                    put_names(f.fields, a.name, v);
                    lookup_put(f.fields, a.name, v, name);
                }
            },
            _ => {},
        }
        described_is_found(plan, answers, more, at + 1, name);
    }
}

proof fn fresh_is_found(subject: Seq<char>)
    ensures
        ascending(fresh(subject).fields),
        lookup(fresh(subject).fields, "id"@) == Some(JsonView::Text(subject)),
        forall|name: Seq<char>| name != "id"@ ==> (#[trigger] lookup(fresh(subject).fields, name)) is None,
        is_document_of(cycle_mark(subject), subject),
        lookup(fields_of(cycle_mark(subject)), "cycle"@) == Some(JsonView::Bool(true)),
{
    reveal_strlit("id");
    reveal_strlit("cycle");
    assert("id"@.len() != "cycle"@.len());
    let f = fresh(subject).fields;
    put_names(no_fields(), "id"@, JsonView::Text(subject));
    assert forall|name: Seq<char>| name != "id"@ implies (#[trigger] lookup(f, name)) is None by {
        lookup_put(no_fields(), "id"@, JsonView::Text(subject), name);
    }
    lookup_put(no_fields(), "id"@, JsonView::Text(subject), "id"@);
    lookup_put(f, "cycle"@, JsonView::Bool(true), "id"@);
    lookup_put(f, "cycle"@, JsonView::Bool(true), "cycle"@);
}

proof fn document_is_made(plan: PlanView, answers: spec_fn(Seq<char>) -> QueryResultView, subject: Seq<char>, children: Seq<JsonView>)
    requires
        names_are_free(plan),
    ensures
        ({
            let doc = node_document(FrameView { children, ..described(plan, answers, fresh(subject), 0) });
            &&& is_document_of(doc, subject)
            &&& children.len() == 0 ==> lookup(fields_of(doc), "children"@) is None
            &&& children.len() > 0 ==> lookup(fields_of(doc), "children"@) == Some(JsonView::Array(children))
            &&& lookup(fields_of(doc), "cycle"@) is None
            &&& forall|name: Seq<char>|
                name != "children"@ ==> #[trigger] lookup(fields_of(doc), name) == lookup(
                    described(plan, answers, fresh(subject), 0).fields,
                    name,
                )
        }),
{
    reveal_strlit("id");
    reveal_strlit("children");
    reveal_strlit("cycle");
    assert("id"@.len() != "children"@.len() && "cycle"@.len() != "children"@.len() && "id"@.len() != "cycle"@.len());
    fresh_is_found(subject);
    let f = fresh(subject);
    described_is_found(plan, answers, f, 0, "id"@);
    described_is_found(plan, answers, f, 0, "children"@);
    described_is_found(plan, answers, f, 0, "cycle"@);
    let d = described(plan, answers, f, 0);
    let doc = node_document(FrameView { children, ..d });
    assert forall|name: Seq<char>| name != "children"@ implies #[trigger] lookup(fields_of(doc), name) == lookup(
        d.fields,
        name,
    ) by {
        lookup_put(d.fields, "children"@, JsonView::Array(children), name);
    }
    lookup_put(d.fields, "children"@, JsonView::Array(children), "children"@);
}

proof fn children_are_documents(
    plan: PlanView,
    answers: spec_fn(Seq<char>) -> QueryResultView,
    subjects: Seq<Seq<char>>,
    done: Seq<JsonView>,
    visited: Set<Seq<char>>,
    nodes: u64,
    depth: int,
)
    requires
        names_are_free(plan),
    ensures
        subtrees(plan, answers, subjects, done, visited, nodes, depth).value matches Ok(items) ==> {
            &&& items.len() == done.len() + subjects.len()
            &&& forall|i: int| 0 <= i < done.len() ==> #[trigger] items[i] == done[i]
            &&& forall|i: int|
                0 <= i < subjects.len() ==> is_document_of(items[done.len() + i], #[trigger] subjects[i])
        },
    decreases subjects.len(),
{
    if subjects.len() > 0 {
        let first = subtree(plan, answers, subjects[0], visited, nodes, depth);
        match first.value {
            Ok(document) => {
                node_is_a_document(plan, answers, subjects[0], visited, nodes, depth);
                let rest = subjects.drop_first();
                let more = done.push(document);
                children_are_documents(plan, answers, rest, more, first.visited, first.nodes, depth);
                let all = subtrees(plan, answers, subjects, done, visited, nodes, depth);
                match all.value {
                    Ok(items) => {
                        assert forall|i: int| 0 <= i < done.len() implies #[trigger] items[i] == done[i] by {
                            assert(items[i] == more[i]);
                        }
                        assert forall|i: int| 0 <= i < subjects.len() implies is_document_of(
                            items[done.len() + i],
                            #[trigger] subjects[i],
                        ) by {
                            if i == 0 {
                                assert(items[done.len() as int] == more[done.len() as int]);
                            } else {
                                assert(rest[i - 1] == subjects[i]);
                                assert(is_document_of(items[more.len() + (i - 1)], rest[i - 1]));
                            }
                        }
                    },
                    Err(_) => {},
                }
            },
            Err(_) => {},
        }
    }
}

proof fn node_is_a_document(
    plan: PlanView,
    answers: spec_fn(Seq<char>) -> QueryResultView,
    subject: Seq<char>,
    visited: Set<Seq<char>>,
    nodes: u64,
    depth: int,
)
    requires
        names_are_free(plan),
    ensures
        subtree(plan, answers, subject, visited, nodes, depth).value matches Ok(document) ==> is_document_of(
            document,
            subject,
        ),
{
    fresh_is_found(subject);
    if depth <= MAX_DEPTH && !visited.contains(subject) {
        let below = subtrees(
            plan,
            answers,
            children_at(plan, answers, subject),
            Seq::empty(),
            visited.insert(subject),
            nodes.wrapping_add(1),
            depth + 1,
        );
        match below.value {
            Ok(children) => document_is_made(plan, answers, subject, children),
            Err(_) => {},
        }
    }
}

/// The document of a node that has not been met holds one document for each of
/// the node's children, in their order. A node that has been met is marked, and
/// nothing below it is repeated.
pub proof fn document_holds_each_child(
    plan: PlanView,
    answers: spec_fn(Seq<char>) -> QueryResultView,
    subject: Seq<char>,
    visited: Set<Seq<char>>,
    nodes: u64,
    depth: int,
)
    requires
        names_are_free(plan),
        depth <= 4096,
    ensures
        visited.contains(subject) ==> (subtree(plan, answers, subject, visited, nodes, depth).value matches Ok(d)
            && is_document_of(d, subject) && lookup(fields_of(d), "cycle"@) == Some(JsonView::Bool(true)) && lookup(
            fields_of(d),
            "children"@,
        ) is None),
        !visited.contains(subject) ==> (subtree(plan, answers, subject, visited, nodes, depth).value matches Ok(d)
            ==> is_document_of(d, subject) && holds_children(d, children_at(plan, answers, subject)) && lookup(
            fields_of(d),
            "cycle"@,
        ) is None),
{
    reveal_strlit("id");
    reveal_strlit("children");
    reveal_strlit("cycle");
    assert("id"@.len() != "children"@.len() && "cycle"@.len() != "children"@.len() && "id"@.len() != "cycle"@.len());
    fresh_is_found(subject);
    if visited.contains(subject) {
        let f = fresh(subject).fields;
        lookup_put(f, "cycle"@, JsonView::Bool(true), "children"@);
    } else {
        let kids = children_at(plan, answers, subject);
        let below = subtrees(
            plan,
            answers,
            kids,
            Seq::empty(),
            visited.insert(subject),
            nodes.wrapping_add(1),
            depth + 1,
        );
        children_are_documents(
            plan,
            answers,
            kids,
            Seq::empty(),
            visited.insert(subject),
            nodes.wrapping_add(1),
            depth + 1,
        );
        match below.value {
            Ok(children) => {
                document_is_made(plan, answers, subject, children);
                assert forall|i: int| 0 <= i < children.len() implies is_document_of(#[trigger] children[i], kids[i]) by {
                    assert(is_document_of(children[0 + i], kids[i]));
                }
            },
            Err(_) => {},
        }
    }
}

/// Whether a value of a document is that of a term, as an attribute of a type.
pub open spec fn shows(v: JsonView, t: TermView, ty: Seq<char>) -> bool {
    match t {
        TermView::NamedNode(iri) => v == JsonView::Text(iri),
        TermView::BlankNode(label) => v == JsonView::Text("_:"@ + label),
        TermView::Literal(l) => {
            &&& ty != "integer"@ && ty != "decimal"@ && ty != "boolean"@ ==> v == JsonView::Text(l.value)
            &&& ty == "integer"@ ==> forall|n: i64| l.value == #[trigger] int_text(n as int) ==> v == integer(n)
            &&& ty == "boolean"@ && (l.value == "true"@ || l.value == "1"@) ==> v == JsonView::Bool(true)
            &&& ty == "boolean"@ && (l.value == "false"@ || l.value == "0"@) ==> v == JsonView::Bool(false)
        },
        TermView::Triple(_) => true,
    }
}

proof fn value_is_shown(t: TermView, ty: Seq<char>)
    ensures
        shows(value_as(t, ty), t, ty),
{
    reveal_strlit("integer");
    reveal_strlit("decimal");
    reveal_strlit("boolean");
    reveal_strlit("true");
    reveal_strlit("false");
    reveal_strlit("1");
    reveal_strlit("0");
    assert("integer"@[0] != "decimal"@[0] && "integer"@[0] != "boolean"@[0] && "decimal"@[0] != "boolean"@[0]);
    assert("1"@[0] != "0"@[0]);
    match t {
        TermView::Literal(l) => {
            if ty == "integer"@ {
                assert forall|n: i64| l.value == #[trigger] int_text(n as int) implies value_as(t, ty) == integer(n) by {
                    parse_undoes_signed_decimal(n);
                }
            }
        },
        _ => {},
    }
}

/// A node's document shows each attribute of the node that the graph has a value
/// for, under the attribute's name, and leaves out the others.
pub proof fn document_shows_the_attributes(
    plan: PlanView,
    answers: spec_fn(Seq<char>) -> QueryResultView,
    subject: Seq<char>,
    values: Seq<TermView>,
    children: Seq<JsonView>,
    i: int,
)
    requires
        names_are_free(plan),
        0 <= i < plan.attributes.len(),
        forall|j: int|
            0 <= j < plan.attributes.len() && j != i ==> (#[trigger] plan.attributes[j]).name
                != plan.attributes[i].name,
        answers("SELECT ?o WHERE { <"@ + subject + "> <"@ + plan.attributes[i].predicate + "> ?o } LIMIT 1"@)
            == result_of(column("o"@, values)),
    ensures
        ({
            let doc = node_document(FrameView { children, ..described(plan, answers, fresh(subject), 0) });
            let found = lookup(fields_of(doc), plan.attributes[i].name);
            &&& values.len() == 0 ==> found is None
            &&& values.len() > 0 ==> (found matches Some(v) && shows(v, values[0], plan.attributes[i].value_type))
        }),
{
    fresh_is_found(subject);
    document_is_made(plan, answers, subject, children);
    attribute_is_found(plan, answers, fresh(subject), values, 0, i);
    assert(plan.attributes[i].name != "children"@);
    if values.len() > 0 {
        value_is_shown(values[0], plan.attributes[i].value_type);
    }
}

proof fn attribute_is_found(
    plan: PlanView,
    answers: spec_fn(Seq<char>) -> QueryResultView,
    f: FrameView,
    values: Seq<TermView>,
    at: nat,
    i: int,
)
    requires
        ascending(f.fields),
        at <= i < plan.attributes.len(),
        forall|j: int|
            0 <= j < plan.attributes.len() && j != i ==> (#[trigger] plan.attributes[j]).name
                != plan.attributes[i].name,
        answers("SELECT ?o WHERE { <"@ + f.subject + "> <"@ + plan.attributes[i].predicate + "> ?o } LIMIT 1"@)
            == result_of(column("o"@, values)),
        lookup(f.fields, plan.attributes[i].name) is None,
    ensures
        lookup(described(plan, answers, f, at).fields, plan.attributes[i].name) == if values.len() == 0 {
            None
        } else {
            Some(value_as(values[0], plan.attributes[i].value_type))
        },
    decreases plan.attributes.len() - at,
{
    let a = plan.attributes[at as int];
    let name = plan.attributes[i].name;
    let result = answers(attribute_text(f.subject, a.predicate));
    let more = with_attribute(f, a, result);
    if at == i {
        let rows = column("o"@, values);
        column_starts("o"@, values);
        if values.len() > 0 {
            let v = value_as(values[0], a.value_type);
            put_names(f.fields, a.name, v);
            lookup_put(f.fields, a.name, v, name);
        }
        described_is_found(plan, answers, more, at + 1, name);
    } else {
        assert(a.name != name);
        match result {
            QueryResultView::Bindings(flat) => {
                if flat.len() > 0 {
                    let v = value_as(flat[0].value, a.value_type);
                    put_names(f.fields, a.name, v);
                    lookup_put(f.fields, a.name, v, name);
                }
            },
            _ => {},
        }
        attribute_is_found(plan, answers, more, values, at + 1, i);
    }
}

proof fn column_starts(variable: Seq<char>, values: Seq<TermView>)
    ensures
        flattened(column(variable, values)).len() == values.len(),
        forall|i: int|
            0 <= i < values.len() ==> (#[trigger] flattened(column(variable, values))[i]) == (BindingView {
                variable,
                value: values[i],
            }),
    decreases values.len(),
{
    let rows = column(variable, values);
    if values.len() > 0 {
        column_starts(variable, values.drop_last());
        assert(rows.drop_last() =~= column(variable, values.drop_last()));
        assert forall|i: int| 0 <= i < values.len() implies (#[trigger] flattened(rows)[i]) == (BindingView {
            variable,
            value: values[i],
        }) by {
            if i < values.len() - 1 {
                assert(flattened(rows)[i] == flattened(rows.drop_last())[i]);
            }
        }
    }
}

/// The roots are asked for by their class, and where there is a parent link only
/// those without one. Each IRI that the store gives is a root, in its order.
pub proof fn roots_are_the_members_without_parent(plan: PlanView, names: Seq<Seq<char>>, iris: Seq<Seq<char>>)
    requires
        names.contains(plan.sink),
        plan.class is Some,
    ensures
        next(plan, StageView::Sinks, ReplyView::Sinks(names)) == (
            StageView::Roots,
            RequestView::Query(
                match plan.parent {
                    None => "SELECT DISTINCT ?s WHERE { ?s a <"@ + plan.class->0 + "> }"@,
                    Some(p) => "SELECT DISTINCT ?s WHERE { ?s a <"@ + plan.class->0
                        + "> FILTER NOT EXISTS { ?s <"@ + p + "> ?anyparent } }"@,
                },
            ),
        ),
        next(
            plan,
            StageView::Roots,
            ReplyView::Result(result_of(column("s"@, Seq::new(iris.len(), |i: int| TermView::NamedNode(iris[i]))))),
        ) == rooted(
            plan,
            WalkView {
                roots: iris,
                root: Seq::empty(),
                visited: Set::empty(),
                path: Seq::empty(),
                trees: 0,
                nodes: 0,
            },
        ),
{
    roots_are_read(iris);
}

proof fn roots_are_read(iris: Seq<Seq<char>>)
    ensures
        root_names(flattened(column("s"@, Seq::new(iris.len(), |i: int| TermView::NamedNode(iris[i]))))) == iris,
    decreases iris.len(),
{
    let values = Seq::new(iris.len(), |i: int| TermView::NamedNode(iris[i]));
    let rows = column("s"@, values);
    if iris.len() > 0 {
        let rest = iris.drop_last();
        roots_are_read(rest);
        let before = Seq::new(rest.len(), |i: int| TermView::NamedNode(rest[i]));
        assert(values.drop_last() =~= before);
        assert(rows.drop_last() =~= column("s"@, before));
        let flat = flattened(rows);
        column_starts("s"@, values);
        assert(flat.last() == flat[values.len() - 1]);
        assert(flat.drop_last() =~= flattened(rows.drop_last()));
        assert(rest.push(iris.last()) =~= iris);
    } else {
        assert(flattened(rows) =~= Seq::empty());
        assert(iris =~= Seq::empty());
    }
}

/// The document that is put for a root is the root's own, under the root's name,
/// and holds a document for each child that the root has in the graph.
pub proof fn root_document_holds_its_children(
    plan: PlanView,
    answers: spec_fn(Seq<char>) -> QueryResultView,
    g: Set<Fact>,
    w: WalkView,
    id: Seq<char>,
)
    requires
        w.roots.len() > 0,
        names_are_free(plan),
        plan.child matches Some(p) ==> answers_links(answers, g, w.roots[0], p),
        plan.parent matches Some(p) ==> answers_links(answers, g, w.roots[0], p),
        subtree(plan, answers, w.roots[0], Set::empty(), w.nodes, 0).value is Ok,
    ensures
        exists|document: JsonView, end: StageView|
            {
                &&& #[trigger] leads(
                    plan,
                    answers,
                    rooted(plan, w),
                    (end, RequestView::Put(plan.sink, w.roots[0], json_text(document))),
                )
                &&& is_document_of(document, w.roots[0])
                &&& has_child(document, id) <==> match (plan.child, plan.parent) {
                    (Some(p), _) => exists|t: TermView|
                        g.contains(Fact { subject: TermView::NamedNode(w.roots[0]), predicate: p, object: t })
                            && #[trigger] names_node(id, t),
                    (None, Some(p)) => exists|t: TermView|
                        g.contains(Fact { subject: t, predicate: p, object: TermView::NamedNode(w.roots[0]) })
                            && #[trigger] names_node(id, t),
                    (None, None) => false,
                }
            },
{
    let root = w.roots[0];
    let tree = subtree(plan, answers, root, Set::empty(), w.nodes, 0);
    let document = tree.value->Ok_0;
    walk_puts_the_subtree(plan, answers, w);
    document_holds_each_child(plan, answers, root, Set::empty(), w.nodes, 0);
    children_lie_along_the_link(plan, answers, g, root);
    let kids = children_at(plan, answers, root);
    assert(has_child(document, id) <==> kids.contains(id)) by {
        match lookup(fields_of(document), "children"@) {
            Some(JsonView::Array(items)) => {
                if kids.contains(id) {
                    let i = choose|i: int| 0 <= i < kids.len() && kids[i] == id;
                    assert(is_document_of(items[i], kids[i]));
                }
                if has_child(document, id) {
                    let i = choose|i: int| 0 <= i < items.len() && is_document_of(#[trigger] items[i], id);
                    assert(is_document_of(items[i], kids[i]));
                    assert(kids[i] == id);
                }
            },
            _ => {},
        }
    }
    let end = StageView::Putting(
        WalkView {
            roots: w.roots.drop_first(),
            root,
            visited: tree.visited,
            path: Seq::empty(),
            trees: w.trees,
            nodes: tree.nodes,
        },
    );
    assert(leads(plan, answers, rooted(plan, w), (end, RequestView::Put(plan.sink, root, json_text(document)))));
}

/// Whether one of a document's children is the document of a node.
pub open spec fn has_child(document: JsonView, id: Seq<char>) -> bool {
    lookup(fields_of(document), "children"@) matches Some(JsonView::Array(items)) && exists|i: int|
        0 <= i < items.len() && is_document_of(#[trigger] items[i], id)
}

} // verus!

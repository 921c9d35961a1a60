//! `wf_materialize_tree`: puts the trees of a graph on a document sink, one
//! document for each root. A node's document holds its attributes and, under
//! `children`, the documents of the nodes below it.

use vstd::prelude::*;
use vstd::string::*;

use crate::guest::{describes, never_constructed, never_constructed_text, one_function, unknown_function,
    unknown_function_text, FunctionDescriptor};
use crate::host::{count_views, fail, failure, give_up, given_up, literal_arg, literal_or, missing_sink, summarize,
    summary_of, text_or_error, validate_sink_present, Reply, ReplyView, Request, RequestView};
use crate::json::{all_wf, array_view, array_wf, fields_wf, flag_or_text, integer_or_text, json_text, no_fields,
    no_fields_wf, object_view, put_field, put_wf, real_or_text, to_flag, to_integer, to_real, Fields, Json, JsonView};
use crate::names::Names;
use crate::order::turned;
use crate::rdf::{find_node, group_bindings_into_rows, grouped, node_in, row_views, Binding, BindingView, QueryResult,
    QueryResultView, Term, TermView};
use crate::shape::{Anchor, Column, ColumnView};
use crate::text::{copy_opt, opt_view, same, views, views_push};

verus! {

pub const COMPONENT: &'static str = "wf_materialize_tree";

/// How many nodes a path from the root may hold.
pub const MAX_DEPTH: usize = 4096;

/// What to materialize.
pub struct Descriptor {
    pub name: String,
    pub shape: String,
    pub anchor: Anchor,
    pub columns: Vec<Column>,
    pub sink: Option<String>,
}

/// The descriptor's text among the arguments of a call.
pub fn descriptor_text(args: &Vec<Term>) -> (r: Result<String, String>)
    ensures
        text_or_error(r) == literal_or(
            views(args@),
            "wf_materialize_tree: expected one arg (descriptor json)"@,
            "wf_materialize_tree: first arg must be a descriptor-json string literal, got "@,
        ),
{
    literal_arg(
        args,
        "wf_materialize_tree: expected one arg (descriptor json)",
        "wf_materialize_tree: first arg must be a descriptor-json string literal, got ",
    )
}

// ---------------------------------------------------------------------------
// Values
// ---------------------------------------------------------------------------

/// A term as a value of the asked type.
pub open spec fn value_as(t: TermView, ty: Seq<char>) -> JsonView {
    match t {
        TermView::NamedNode(iri) => JsonView::Text(iri),
        TermView::BlankNode(label) => JsonView::Text("_:"@ + label),
        TermView::Literal(l) => if ty == "integer"@ {
            integer_or_text(l.value)
        } else if ty == "decimal"@ {
            real_or_text(l.value)
        } else if ty == "boolean"@ {
            flag_or_text(l.value)
        } else {
            JsonView::Text(l.value)
        },
        TermView::Triple(_) => JsonView::Text("<<quoted triple>>"@),
    }
}

pub fn value_to_json(v: &Term, ty: &str) -> (r: Json)
    ensures
        r@ == value_as(v@, ty@),
        r@.wf(),
{
    match v {
        Term::NamedNode(iri) => Json::text(iri),
        Term::BlankNode(label) => Json::Text("_:".to_owned().concat(label)),
        Term::Literal(l) => {
            if same(ty, "integer") {
                to_integer(&l.value)
            } else if same(ty, "decimal") {
                to_real(&l.value)
            } else if same(ty, "boolean") {
                to_flag(&l.value)
            } else {
                Json::text(&l.value)
            }
        },
        Term::Triple(_) => Json::text("<<quoted triple>>"),
    }
}

// ---------------------------------------------------------------------------
// The plan
// ---------------------------------------------------------------------------

/// The predicate of the first column in a role.
pub open spec fn predicate_in(columns: Seq<ColumnView>, role: Seq<char>) -> Option<Seq<char>>
    decreases columns.len(),
{
    if columns.len() == 0 {
        None
    } else if columns[0].role == role {
        columns[0].predicate
    } else {
        predicate_in(columns.drop_first(), role)
    }
}

pub fn column_predicate(columns: &Vec<Column>, role: &str) -> (r: Option<String>)
    ensures
        opt_view(r) == predicate_in(views(columns@), role@),
{
    let ghost all = views(columns@);
    proof {
        assert(all.skip(0) =~= all);
    }
    for i in 0..columns.len()
        invariant
            all == views(columns@),
            predicate_in(all, role@) == predicate_in(all.skip(i as int), role@),
    {
        proof {
            assert(all.skip(i as int)[0] == columns@[i as int]@);
            assert(all.skip(i as int).drop_first() =~= all.skip(i + 1));
        }
        if same(&columns[i].role, role) {
            return copy_opt(&columns[i].predicate);
        }
    }
    None
}

/// An attribute of the nodes: the field, the predicate and the type.
pub struct Attribute {
    pub name: String,
    pub predicate: String,
    pub value_type: String,
}

pub struct AttributeView {
    pub name: Seq<char>,
    pub predicate: Seq<char>,
    pub value_type: Seq<char>,
}

impl View for Attribute {
    type V = AttributeView;

    open spec fn view(&self) -> AttributeView {
        AttributeView { name: self.name@, predicate: self.predicate@, value_type: self.value_type@ }
    }
}

/// The attributes among the columns: those in that role with a predicate.
pub open spec fn attributes_in(columns: Seq<ColumnView>) -> Seq<AttributeView>
    decreases columns.len(),
{
    if columns.len() == 0 {
        Seq::empty()
    } else {
        let before = attributes_in(columns.drop_last());
        let c = columns.last();
        match c.predicate {
            Some(predicate) => if c.role == "attribute"@ {
                before.push(AttributeView { name: c.name, predicate, value_type: c.value_type })
            } else {
                before
            },
            None => before,
        }
    }
}

fn attributes(columns: &Vec<Column>) -> (r: Vec<Attribute>)
    ensures
        views(r@) == attributes_in(views(columns@)),
{
    broadcast use views_push;

    let ghost all = views(columns@);
    let mut out: Vec<Attribute> = Vec::new();
    proof {
        assert(views(out@) =~= attributes_in(all.take(0)));
    }
    for i in 0..columns.len()
        invariant
            all == views(columns@),
            views(out@) == attributes_in(all.take(i as int)),
    {
        proof {
            assert(all.take(i + 1).drop_last() =~= all.take(i as int));
            assert(all[i as int] == columns@[i as int]@);
        }
        match &columns[i].predicate {
            Some(predicate) => {
                if same(&columns[i].role, "attribute") {
                    out.push(
                        Attribute {
                            name: columns[i].name.clone(),
                            predicate: predicate.clone(),
                            value_type: columns[i].value_type.clone(),
                        },
                    );
                }
            },
            None => {},
        }
    }
    proof {
        assert(all.take(all.len() as int) =~= all);
    }
    out
}

/// How a descriptor's trees are walked.
pub struct Plan {
    pub sink: String,
    pub class: Option<String>,
    pub parent: Option<String>,
    pub child: Option<String>,
    pub attributes: Vec<Attribute>,
}

pub struct PlanView {
    pub sink: Seq<char>,
    pub class: Option<Seq<char>>,
    pub parent: Option<Seq<char>>,
    pub child: Option<Seq<char>>,
    pub attributes: Seq<AttributeView>,
}

impl View for Plan {
    type V = PlanView;

    open spec fn view(&self) -> PlanView {
        PlanView {
            sink: self.sink@,
            class: opt_view(self.class),
            parent: opt_view(self.parent),
            child: opt_view(self.child),
            attributes: views(self.attributes@),
        }
    }
}

/// The plan of a descriptor, or why it cannot be carried out.
pub open spec fn planned(d: Descriptor) -> Result<PlanView, Seq<char>> {
    if d.shape@ != "tree"@ {
        Err("wf_materialize_tree: descriptor shape must be `tree`, got `"@ + d.shape@ + "`"@)
    } else {
        match d.sink {
            None => Err("wf_materialize_tree: descriptor has no `sink`"@),
            Some(sink) => Ok(
                PlanView {
                    sink: sink@,
                    class: opt_view(d.anchor.class),
                    parent: predicate_in(views(d.columns@), "parent_link"@),
                    child: predicate_in(views(d.columns@), "child_link"@),
                    attributes: attributes_in(views(d.columns@)),
                },
            ),
        }
    }
}

pub open spec fn plan_view(r: Result<Plan, String>) -> Result<PlanView, Seq<char>> {
    match r {
        Ok(plan) => Ok(plan@),
        Err(e) => Err(e@),
    }
}

pub fn plan(d: &Descriptor) -> (r: Result<Plan, String>)
    ensures
        plan_view(r) == planned(*d),
{
    if !same(&d.shape, "tree") {
        return Err(
            "wf_materialize_tree: descriptor shape must be `tree`, got `".to_owned().concat(&d.shape).concat("`"),
        );
    }
    match &d.sink {
        None => Err("wf_materialize_tree: descriptor has no `sink`".to_owned()),
        Some(sink) => Ok(
            Plan {
                sink: sink.clone(),
                class: copy_opt(&d.anchor.class),
                parent: column_predicate(&d.columns, "parent_link"),
                child: column_predicate(&d.columns, "child_link"),
                attributes: attributes(&d.columns),
            },
        ),
    }
}

// ---------------------------------------------------------------------------
// Queries
// ---------------------------------------------------------------------------

/// The query for the roots: the members of the class, and of these only those
/// without a parent where the parent's predicate is known.
pub open spec fn roots_text(class: Seq<char>, parent: Option<Seq<char>>) -> Seq<char> {
    match parent {
        Some(p) => "SELECT DISTINCT ?s WHERE { ?s a <"@ + class + "> FILTER NOT EXISTS { ?s <"@ + p
            + "> ?anyparent } }"@,
        None => "SELECT DISTINCT ?s WHERE { ?s a <"@ + class + "> }"@,
    }
}

fn roots_query(class: &str, parent: &Option<String>) -> (r: String)
    ensures
        r@ == roots_text(class@, opt_view(*parent)),
{
    match parent {
        Some(p) => "SELECT DISTINCT ?s WHERE { ?s a <".to_owned().concat(class).concat(
            "> FILTER NOT EXISTS { ?s <",
        ).concat(p).concat("> ?anyparent } }"),
        None => "SELECT DISTINCT ?s WHERE { ?s a <".to_owned().concat(class).concat("> }"),
    }
}

/// The roots among the bindings: the names that `?s` is bound to.
pub open spec fn root_names(flat: Seq<BindingView>) -> Seq<Seq<char>>
    decreases flat.len(),
{
    if flat.len() == 0 {
        Seq::empty()
    } else {
        let before = root_names(flat.drop_last());
        match flat.last().value {
            TermView::NamedNode(iri) => if flat.last().variable == "s"@ {
                before.push(iri)
            } else {
                before
            },
            _ => before,
        }
    }
}

pub fn enumerate_roots(flat: &Vec<Binding>) -> (r: Vec<String>)
    ensures
        views(r@) == root_names(views(flat@)),
{
    broadcast use views_push;

    let ghost all = views(flat@);
    let mut out: Vec<String> = Vec::new();
    proof {
        assert(views(out@) =~= root_names(all.take(0)));
    }
    for i in 0..flat.len()
        invariant
            all == views(flat@),
            views(out@) == root_names(all.take(i as int)),
    {
        proof {
            assert(all.take(i + 1).drop_last() =~= all.take(i as int));
            assert(all[i as int] == flat@[i as int]@);
        }
        match &flat[i].value {
            Term::NamedNode(iri) => {
                if same(&flat[i].variable, "s") {
                    out.push(iri.clone());
                }
            },
            _ => {},
        }
    }
    proof {
        assert(all.take(all.len() as int) =~= all);
    }
    out
}

/// The query for an attribute of a node.
pub open spec fn attribute_text(subject: Seq<char>, predicate: Seq<char>) -> Seq<char> {
    "SELECT ?o WHERE { <"@ + subject + "> <"@ + predicate + "> ?o } LIMIT 1"@
}

/// The query for the children of a node, by the predicate that leads to them
/// or else by the one that leads back.
pub open spec fn children_text(plan: PlanView, subject: Seq<char>) -> Option<Seq<char>> {
    match (plan.child, plan.parent) {
        (Some(p), _) => Some("SELECT ?c WHERE { <"@ + subject + "> <"@ + p + "> ?c }"@),
        (None, Some(p)) => Some("SELECT ?c WHERE { ?c <"@ + p + "> <"@ + subject + "> }"@),
        (None, None) => None,
    }
}

/// A query about a node.
pub enum Question {
    Attribute(String),
    Children(String),
}

pub enum QuestionView {
    Attribute(Seq<char>),
    Children(Seq<char>),
}

pub open spec fn question_view(q: Option<Question>) -> Option<QuestionView> {
    match q {
        Some(Question::Attribute(text)) => Some(QuestionView::Attribute(text@)),
        Some(Question::Children(text)) => Some(QuestionView::Children(text@)),
        None => None,
    }
}

/// The query about a node that comes when `at` attributes have been asked for.
pub open spec fn question_at(plan: PlanView, subject: Seq<char>, at: nat) -> Option<QuestionView> {
    if at < plan.attributes.len() {
        Some(QuestionView::Attribute(attribute_text(subject, plan.attributes[at as int].predicate)))
    } else {
        match children_text(plan, subject) {
            Some(text) => Some(QuestionView::Children(text)),
            None => None,
        }
    }
}

fn question(plan: &Plan, subject: &str, at: usize) -> (r: Option<Question>)
    ensures
        question_view(r) == question_at(plan@, subject@, at as nat),
{
    if at < plan.attributes.len() {
        proof {
            assert(plan@.attributes[at as int] == plan.attributes@[at as int]@);
        }
        return Some(
            Question::Attribute(
                "SELECT ?o WHERE { <".to_owned().concat(subject).concat("> <").concat(
                    &plan.attributes[at].predicate,
                ).concat("> ?o } LIMIT 1"),
            ),
        );
    }
    match &plan.child {
        Some(p) => Some(
            Question::Children(
                "SELECT ?c WHERE { <".to_owned().concat(subject).concat("> <").concat(p).concat("> ?c }"),
            ),
        ),
        None => match &plan.parent {
            Some(p) => Some(
                Question::Children(
                    "SELECT ?c WHERE { ?c <".to_owned().concat(p).concat("> <").concat(subject).concat("> }"),
                ),
            ),
            None => None,
        },
    }
}

/// The children that a result names, row by row.
pub open spec fn children_in(rows: Seq<Seq<BindingView>>) -> Seq<Seq<char>>
    decreases rows.len(),
{
    if rows.len() == 0 {
        Seq::empty()
    } else {
        let before = children_in(rows.drop_last());
        match node_in(rows.last(), "c"@) {
            Some(id) => before.push(id),
            None => before,
        }
    }
}

fn children(rows: &Vec<Vec<Binding>>) -> (r: Vec<String>)
    ensures
        views(r@) == children_in(row_views(rows@)),
{
    broadcast use views_push;

    let ghost all = row_views(rows@);
    let mut out: Vec<String> = Vec::new();
    proof {
        assert(views(out@) =~= children_in(all.take(0)));
    }
    for i in 0..rows.len()
        invariant
            all == row_views(rows@),
            views(out@) == children_in(all.take(i as int)),
    {
        proof {
            assert(all.take(i + 1).drop_last() =~= all.take(i as int));
            assert(all[i as int] == views(rows@[i as int]@));
        }
        match find_node(&rows[i], "c") {
            Some(id) => out.push(id),
            None => {},
        }
    }
    proof {
        assert(all.take(all.len() as int) =~= all);
    }
    out
}
// ---------------------------------------------------------------------------
// The walk
// ---------------------------------------------------------------------------

/// A node whose subtree is being read.
pub struct Frame {
    pub subject: String,
    pub fields: Vec<(String, Json)>,
    /// The children that have not been looked at, last first.
    pub ahead: Vec<String>,
    /// The documents of the others.
    pub children: Vec<Json>,
}

pub struct FrameView {
    pub subject: Seq<char>,
    pub fields: Seq<(Seq<char>, JsonView)>,
    /// The children that have not been looked at.
    pub ahead: Seq<Seq<char>>,
    pub children: Seq<JsonView>,
}

impl View for Frame {
    type V = FrameView;

    open spec fn view(&self) -> FrameView {
        FrameView {
            subject: self.subject@,
            fields: views(self.fields@),
            ahead: views(self.ahead@).reverse(),
            children: views(self.children@),
        }
    }
}

impl FrameView {
    pub open spec fn wf(self) -> bool {
        fields_wf(self.fields) && all_wf(self.children)
    }
}

/// A node of which nothing has been read but its identifier.
pub open spec fn fresh(subject: Seq<char>) -> FrameView {
    FrameView {
        subject,
        fields: no_fields().with("id"@, JsonView::Text(subject)),
        ahead: Seq::empty(),
        children: Seq::empty(),
    }
}

fn new_frame(subject: &str) -> (r: Frame)
    ensures
        r@ == fresh(subject@),
        r@.wf(),
{
    broadcast use {no_fields_wf, put_wf};

    let mut fields: Vec<(String, Json)> = Vec::new();
    proof {
        assert(views(fields@) =~= no_fields());
    }
    put_field(&mut fields, "id", Json::text(subject));
    let ahead: Vec<String> = Vec::new();
    let children: Vec<Json> = Vec::new();
    let r = Frame { subject: subject.to_owned(), fields, ahead, children };
    proof {
        assert(r@.ahead =~= Seq::empty());
        assert(r@.children =~= Seq::empty());
    }
    r
}

/// The document of a node whose subtree has been read.
pub open spec fn node_document(f: FrameView) -> JsonView {
    if f.children.len() == 0 {
        JsonView::Object(f.fields)
    } else {
        JsonView::Object(f.fields.with("children"@, JsonView::Array(f.children)))
    }
}

fn close(f: Frame) -> (r: Json)
    requires
        f@.wf(),
    ensures
        r@ == node_document(f@),
        r@.wf(),
{
    broadcast use {put_wf, object_view, array_view};

    let mut fields = f.fields;
    if f.children.len() > 0 {
        proof {
            array_wf(views(f.children@));
        }
        put_field(&mut fields, "children", Json::Array(f.children));
    }
    Json::Object(fields)
}

/// What stands for a node that has been met before.
pub open spec fn cycle_mark(subject: Seq<char>) -> JsonView {
    JsonView::Object(no_fields().with("id"@, JsonView::Text(subject)).with("cycle"@, JsonView::Bool(true)))
}

fn mark_cycle(subject: &str) -> (r: Json)
    ensures
        r@ == cycle_mark(subject@),
        r@.wf(),
{
    broadcast use {no_fields_wf, put_wf, object_view};

    let mut fields: Vec<(String, Json)> = Vec::new();
    proof {
        assert(views(fields@) =~= no_fields());
    }
    put_field(&mut fields, "id", Json::text(subject));
    put_field(&mut fields, "cycle", Json::Bool(true));
    Json::Object(fields)
}

/// The walk through the trees.
pub struct Walk {
    /// The roots that have not been looked at, last first.
    pub roots: Vec<String>,
    pub root: String,
    /// The nodes of the root's tree that have been met.
    pub visited: Names,
    /// The path from the root to the node at hand.
    pub path: Vec<Frame>,
    pub trees: u64,
    pub nodes: u64,
}

pub struct WalkView {
    /// The roots that have not been looked at.
    pub roots: Seq<Seq<char>>,
    pub root: Seq<char>,
    pub visited: Set<Seq<char>>,
    pub path: Seq<FrameView>,
    pub trees: u64,
    pub nodes: u64,
}

impl View for Walk {
    type V = WalkView;

    open spec fn view(&self) -> WalkView {
        WalkView {
            roots: views(self.roots@).reverse(),
            root: self.root@,
            visited: self.visited@,
            path: views(self.path@),
            trees: self.trees,
            nodes: self.nodes,
        }
    }
}

impl WalkView {
    pub open spec fn wf(self) -> bool {
        forall|i: int| 0 <= i < self.path.len() ==> (#[trigger] self.path[i]).wf()
    }
}

/// How far a call has come: what it waits for.
pub enum Stage {
    /// The names of the sinks.
    Sinks,
    Roots,
    /// The attribute at a position, of the last node of the path.
    Attribute(Walk, usize),
    /// The children of the last node of the path.
    Children(Walk),
    /// The sink, to take the document of the root.
    Putting(Walk),
    /// Nothing: the call has finished.
    Over,
}

pub enum StageView {
    Sinks,
    Roots,
    Attribute(WalkView, nat),
    Children(WalkView),
    Putting(WalkView),
    Over,
}

impl View for Stage {
    type V = StageView;

    open spec fn view(&self) -> StageView {
        match self {
            Stage::Sinks => StageView::Sinks,
            Stage::Roots => StageView::Roots,
            Stage::Attribute(w, at) => StageView::Attribute(w@, *at as nat),
            Stage::Children(w) => StageView::Children(w@),
            Stage::Putting(w) => StageView::Putting(w@),
            Stage::Over => StageView::Over,
        }
    }
}

impl StageView {
    /// Whether every document of the stage is well-formed.
    pub open spec fn wf(self) -> bool {
        match self {
            StageView::Attribute(w, _) => w.wf(),
            StageView::Children(w) => w.wf(),
            StageView::Putting(w) => w.wf(),
            _ => true,
        }
    }
}

pub open spec fn ends(request: RequestView) -> (StageView, RequestView) {
    (StageView::Over, request)
}

pub open spec fn too_deep(subject: Seq<char>) -> Seq<char> {
    "wf_materialize_tree: max recursion depth exceeded at "@ + subject
}

/// How much is left to do along a path before a query comes.
pub open spec fn load(path: Seq<FrameView>) -> nat
    decreases path.len(),
{
    if path.len() == 0 {
        0
    } else {
        load(path.drop_last()) + 1 + 2 * path.last().ahead.len()
    }
}

pub proof fn load_push(path: Seq<FrameView>, f: FrameView)
    ensures
        load(path.push(f)) == load(path) + 1 + 2 * f.ahead.len(),
{
    assert(path.push(f).drop_last() =~= path);
}

/// The path with one more document among the children of its last node.
pub open spec fn with_child(path: Seq<FrameView>, child: JsonView) -> Seq<FrameView> {
    let top = path.last();
    path.drop_last().push(FrameView { children: top.children.push(child), ..top })
}

/// The last node of the path without its next child.
pub open spec fn without_next(f: FrameView) -> FrameView {
    FrameView { ahead: f.ahead.drop_first(), ..f }
}

/// The query about the last node of the path when `at` of its attributes have
/// been asked for; where there is none, the walk goes on.
pub open spec fn asked(plan: PlanView, w: WalkView, at: nat) -> (StageView, RequestView)
    decreases load(w.path), 1int,
{
    match question_at(plan, w.path.last().subject, at) {
        Some(QuestionView::Attribute(text)) => (StageView::Attribute(w, at), RequestView::Query(text)),
        Some(QuestionView::Children(text)) => (StageView::Children(w), RequestView::Query(text)),
        None => settled(plan, w),
    }
}

/// The walk with the next child of the path's last node, where there is one:
/// a child that has been met is marked, another becomes the last node. Without
/// a child the node's document is done: the parent gets it, and the sink where
/// there is no parent.
pub open spec fn settled(plan: PlanView, w: WalkView) -> (StageView, RequestView)
    decreases load(w.path), 0int,
{
    if w.path.len() == 0 {
        (StageView::Putting(w), RequestView::Put(plan.sink, w.root, Seq::empty()))
    } else {
        let top = w.path.last();
        let above = w.path.drop_last();
        proof {
            load_push(above, without_next(top));
            load_push(
                above,
                FrameView {
                    children: without_next(top).children.push(cycle_mark(top.ahead[0])),
                    ..without_next(top)
                },
            );
            load_push(above.push(without_next(top)), fresh(top.ahead[0]));
            assert(above.push(without_next(top)).last() == without_next(top));
            assert(above.push(without_next(top)).drop_last() =~= above);
            load_push(
                above.drop_last(),
                FrameView { children: above.last().children.push(node_document(top)), ..above.last() },
            );
        }
        if top.ahead.len() > 0 {
            let child = top.ahead[0];
            let path = above.push(without_next(top));
            if path.len() > MAX_DEPTH {
                ends(failure(too_deep(child)))
            } else if w.visited.contains(child) {
                settled(plan, WalkView { path: with_child(path, cycle_mark(child)), ..w })
            } else {
                asked(
                    plan,
                    WalkView {
                        path: path.push(fresh(child)),
                        visited: w.visited.insert(child),
                        nodes: w.nodes.wrapping_add(1),
                        ..w
                    },
                    0,
                )
            }
        } else if above.len() == 0 {
            (
                StageView::Putting(WalkView { path: above, ..w }),
                RequestView::Put(plan.sink, w.root, json_text(node_document(top))),
            )
        } else {
            settled(plan, WalkView { path: with_child(above, node_document(top)), ..w })
        }
    }
}

proof fn child_keeps_wf(w: WalkView, child: JsonView)
    requires
        w.wf(),
        w.path.len() > 0,
        child.wf(),
    ensures
        (WalkView { path: with_child(w.path, child), ..w }).wf(),
{
    let top = w.path.last();
    assert(w.path[w.path.len() - 1].wf());
    let more = top.children.push(child);
    assert forall|i: int| 0 <= i < more.len() implies (#[trigger] more[i]).wf() by {
        if i < top.children.len() {
            assert(top.children[i].wf());
        }
    }
    let path = with_child(w.path, child);
    assert forall|i: int| 0 <= i < path.len() implies (#[trigger] path[i]).wf() by {
        if i < path.len() - 1 {
            assert(path[i] == w.path[i]);
        }
    }
}

fn settle(plan: &Plan, w: Walk) -> (r: (Stage, Request))
    requires
        w@.wf(),
    ensures
        (r.0@, r.1@) == settled(plan@, w@),
        r.0@.wf(),
{
    broadcast use views_push;

    let ghost goal = settled(plan@, w@);
    let mut w = w;
    loop
        invariant
            w@.wf(),
            settled(plan@, w@) == goal,
        decreases load(w@.path),
    {
        let ghost was = w@;
        let mut top = match w.path.pop() {
            Some(top) => top,
            None => {
                let root = w.root.clone();
                return (Stage::Putting(w), Request::Put(plan.sink.clone(), root, String::new()));
            },
        };
        proof {
            assert(was.path.last() == top@);
            assert(w@.path =~= was.path.drop_last());
            assert(was.path[was.path.len() - 1].wf());
            assert forall|i: int| 0 <= i < w@.path.len() implies (#[trigger] w@.path[i]).wf() by {
                assert(w@.path[i] == was.path[i]);
            }
        }
        let ghost before = top@;
        match top.ahead.pop() {
            Some(child) => {
                proof {
                    assert(before.ahead[0] == child@);
                    assert(top@.ahead =~= before.ahead.drop_first());
                    assert(top@ == without_next(before));
                    load_push(was.path.drop_last(), without_next(before));
                }
                w.path.push(top);
                proof {
                    assert(w@.path =~= was.path.drop_last().push(without_next(before)));
                    assert(was.path.drop_last().push(before) =~= was.path);
                    load_push(was.path.drop_last(), before);
                }
                if w.path.len() > MAX_DEPTH {
                    return (
                        Stage::Over,
                        fail("wf_materialize_tree: max recursion depth exceeded at ".to_owned().concat(&child)),
                    );
                }
                if w.visited.contains(&child) {
                    let mark = mark_cycle(&child);
                    proof {
                        child_keeps_wf(w@, mark@);
                    }
                    add_child(&mut w, mark);
                    proof {
                        load_push(w@.path.drop_last(), w@.path.last());
                        assert(w@.path.drop_last().push(w@.path.last()) =~= w@.path);
                        assert(w@.path.drop_last() =~= was.path.drop_last());
                    }
                } else {
                    let ghost path = w@.path;
                    let asks = question(plan, &child, 0);
                    w.path.push(new_frame(&child));
                    w.visited.insert(child);
                    w.nodes = w.nodes.wrapping_add(1);
                    proof {
                        assert(w@.path =~= path.push(fresh(child@)));
                        load_push(path, fresh(child@));
                        assert(w@.path.last() == fresh(child@));
                        assert(asked(plan@, w@, 0) == goal);
                    }
                    match asks {
                        Some(Question::Attribute(text)) => {
                            return (Stage::Attribute(w, 0), Request::Query(text));
                        },
                        Some(Question::Children(text)) => {
                            return (Stage::Children(w), Request::Query(text));
                        },
                        None => {},
                    }
                }
            },
            None => {
                proof {
                    assert(before.ahead.len() == 0);
                    assert(top@ == before);
                    assert(was.path.drop_last().push(before) =~= was.path);
                    load_push(was.path.drop_last(), before);
                }
                let value = close(top);
                if w.path.len() == 0 {
                    let content = value.render();
                    let root = w.root.clone();
                    return (Stage::Putting(w), Request::Put(plan.sink.clone(), root, content));
                }
                proof {
                    child_keeps_wf(w@, value@);
                    let above = w@.path;
                    assert(above.drop_last().push(above.last()) =~= above);
                    load_push(above.drop_last(), above.last());
                    load_push(
                        above.drop_last(),
                        FrameView { children: above.last().children.push(value@), ..above.last() },
                    );
                }
                add_child(&mut w, value);
            },
        }
    }
}

/// Adds a document to the children of the path's last node.
fn add_child(w: &mut Walk, child: Json)
    requires
        old(w)@.path.len() > 0,
    ensures
        final(w)@ == (WalkView { path: with_child(old(w)@.path, child@), ..old(w)@ }),
{
    broadcast use views_push;

    let ghost was = w@;
    match w.path.pop() {
        Some(top) => {
            proof {
                assert(was.path.last() == top@);
                assert(w@.path =~= was.path.drop_last());
            }
            let mut top = top;
            top.children.push(child);
            w.path.push(top);
        },
        None => {},
    }
}

/// Asks the next query about the path's last node, or goes on with the walk.
fn ask(plan: &Plan, w: Walk, at: usize) -> (r: (Stage, Request))
    requires
        w@.wf(),
        w@.path.len() > 0,
    ensures
        (r.0@, r.1@) == asked(plan@, w@, at as nat),
        r.0@.wf(),
{
    let last: usize = w.path.len() - 1;
    proof {
        assert(w@.path.last() == w.path@[last as int]@);
    }
    match question(plan, &w.path[last].subject, at) {
        Some(Question::Attribute(text)) => (Stage::Attribute(w, at), Request::Query(text)),
        Some(Question::Children(text)) => (Stage::Children(w), Request::Query(text)),
        None => settle(plan, w),
    }
}

/// A call's summary.
pub open spec fn tree_summary(w: WalkView) -> RequestView {
    RequestView::Finish(Ok(summary_of(seq![("trees"@, w.trees), ("nodes"@, w.nodes)])))
}

/// The walk into the next root's tree; behind the last root, the end.
pub open spec fn rooted(plan: PlanView, w: WalkView) -> (StageView, RequestView) {
    if w.roots.len() == 0 {
        ends(tree_summary(w))
    } else {
        asked(
            plan,
            WalkView {
                roots: w.roots.drop_first(),
                root: w.roots[0],
                visited: Set::empty().insert(w.roots[0]),
                path: seq![fresh(w.roots[0])],
                trees: w.trees,
                nodes: w.nodes.wrapping_add(1),
            },
            0,
        )
    }
}

fn next_root(plan: &Plan, w: Walk) -> (r: (Stage, Request))
    ensures
        (r.0@, r.1@) == rooted(plan@, w@),
        r.0@.wf(),
{
    let ghost was = w@;
    let mut roots = w.roots;
    match roots.pop() {
        None => {
            let counts = vec![("trees", w.trees), ("nodes", w.nodes)];
            proof {
                assert(count_views(counts@) =~= seq![("trees"@, w.trees), ("nodes"@, w.nodes)]);
            }
            (Stage::Over, Request::Finish(Ok(summarize(&counts))))
        },
        Some(root) => {
            proof {
                assert(was.roots[0] == root@);
                assert(was.roots.drop_first() =~= views(roots@).reverse());
            }
            let mut visited = Names::new();
            visited.insert(root.clone());
            let path = vec![new_frame(&root)];
            let next = Walk { roots, root, visited, path, trees: w.trees, nodes: w.nodes.wrapping_add(1) };
            proof {
                assert(next@.path =~= seq![fresh(root@)]);
            }
            ask(plan, next, 0)
        },
    }
}

/// The node with the attribute that a result gives.
pub open spec fn with_attribute(f: FrameView, a: AttributeView, result: QueryResultView) -> FrameView {
    match result {
        QueryResultView::Bindings(flat) => if flat.len() > 0 {
            FrameView { fields: f.fields.with(a.name, value_as(flat[0].value, a.value_type)), ..f }
        } else {
            f
        },
        _ => f,
    }
}

/// The path with its last node changed.
pub open spec fn with_last(w: WalkView, f: FrameView) -> WalkView {
    WalkView { path: w.path.drop_last().push(f), ..w }
}

/// The children that a result names.
pub open spec fn children_of(result: QueryResultView) -> Seq<Seq<char>> {
    match result {
        QueryResultView::Bindings(flat) => children_in(grouped(flat)),
        _ => Seq::empty(),
    }
}

fn take_attribute(plan: &Plan, w: Walk, at: usize, result: QueryResult) -> (r: (Stage, Request))
    requires
        w@.wf(),
        w@.path.len() > 0,
        at < plan@.attributes.len(),
    ensures
        (r.0@, r.1@) == asked(
            plan@,
            with_last(w@, with_attribute(w@.path.last(), plan@.attributes[at as int], result@)),
            at as nat + 1,
        ),
        r.0@.wf(),
{
    let mut w = w;
    let ghost was = w@;
    let count: usize = plan.attributes.len();
    match w.path.pop() {
        Some(top) => {
            let mut top = top;
            proof {
                assert(was.path.last() == top@);
                assert(was.path[was.path.len() - 1].wf());
                assert(plan@.attributes[at as int] == plan.attributes@[at as int]@);
            }
            match result {
                QueryResult::Bindings(flat) => {
                    if flat.len() > 0 {
                        let value = value_to_json(&flat[0].value, &plan.attributes[at].value_type);
                        put_field(&mut top.fields, &plan.attributes[at].name, value);
                        proof {
                            assert(result@->Bindings_0[0] == flat@[0]@);
                        }
                    }
                },
                _ => {},
            }
            w.path.push(top);
            proof {
                let f = with_attribute(was.path.last(), plan@.attributes[at as int], result@);
                assert(top@ == f);
                assert(w@.path =~= was.path.drop_last().push(f));
                assert forall|i: int| 0 <= i < w@.path.len() implies (#[trigger] w@.path[i]).wf() by {
                    if i < w@.path.len() - 1 {
                        assert(w@.path[i] == was.path[i]);
                    }
                }
                assert(at < count);
            }
            ask(plan, w, at + 1)
        },
        None => (Stage::Over, fail(String::new())),
    }
}

fn take_children(plan: &Plan, w: Walk, result: QueryResult) -> (r: (Stage, Request))
    requires
        w@.wf(),
        w@.path.len() > 0,
    ensures
        (r.0@, r.1@) == settled(
            plan@,
            with_last(w@, FrameView { ahead: children_of(result@), ..w@.path.last() }),
        ),
        r.0@.wf(),
{
    let mut w = w;
    let ghost was = w@;
    match w.path.pop() {
        Some(top) => {
            let mut top = top;
            proof {
                assert(was.path.last() == top@);
                assert(was.path[was.path.len() - 1].wf());
            }
            let ids = match result {
                QueryResult::Bindings(flat) => children(&group_bindings_into_rows(flat)),
                _ => Vec::new(),
            };
            proof {
                assert(views(ids@) =~= children_of(result@));
            }
            top.ahead = turned(ids);
            proof {
                assert(views(top.ahead@).reverse() =~= views(ids@));
            }
            w.path.push(top);
            proof {
                let f = FrameView { ahead: children_of(result@), ..was.path.last() };
                assert(top@ == f);
                assert(w@.path =~= was.path.drop_last().push(f));
                assert forall|i: int| 0 <= i < w@.path.len() implies (#[trigger] w@.path[i]).wf() by {
                    if i < w@.path.len() - 1 {
                        assert(w@.path[i] == was.path[i]);
                    }
                }
            }
            settle(plan, w)
        },
        None => (Stage::Over, fail(String::new())),
    }
}

// ---------------------------------------------------------------------------
// The call
// ---------------------------------------------------------------------------

/// The first request of a call.
pub fn begin() -> (r: (Stage, Request))
    ensures
        (r.0@, r.1@) == (StageView::Sinks, RequestView::ListSinks),
{
    (Stage::Sinks, Request::ListSinks)
}

/// What a reply leads to.
pub open spec fn next(plan: PlanView, stage: StageView, reply: ReplyView) -> (StageView, RequestView) {
    match (stage, reply) {
        (StageView::Sinks, ReplyView::Sinks(names)) => if !names.contains(plan.sink) {
            ends(failure(missing_sink(COMPONENT@, plan.sink, names.len())))
        } else {
            match plan.class {
                Some(class) => (StageView::Roots, RequestView::Query(roots_text(class, plan.parent))),
                None => ends(
                    failure(
                        "wf_materialize_tree: anchor.class required (predicate_signature not yet supported)"@,
                    ),
                ),
            }
        },
        (StageView::Roots, ReplyView::Result(result)) => match result {
            QueryResultView::Bindings(flat) => rooted(
                plan,
                WalkView {
                    roots: root_names(flat),
                    root: Seq::empty(),
                    visited: Set::empty(),
                    path: Seq::empty(),
                    trees: 0,
                    nodes: 0,
                },
            ),
            _ => ends(failure("wf_materialize_tree: root query must yield bindings, not CONSTRUCT/ASK"@)),
        },
        (StageView::Attribute(w, at), ReplyView::Result(result)) => if w.path.len() > 0 && at
            < plan.attributes.len() {
            asked(plan, with_last(w, with_attribute(w.path.last(), plan.attributes[at as int], result)), at + 1)
        } else {
            ends(given_up(COMPONENT@, reply))
        },
        (StageView::Children(w), ReplyView::Result(result)) => if w.path.len() > 0 {
            settled(plan, with_last(w, FrameView { ahead: children_of(result), ..w.path.last() }))
        } else {
            ends(given_up(COMPONENT@, reply))
        },
        (StageView::Putting(w), ReplyView::Done) => rooted(
            plan,
            WalkView { trees: w.trees.wrapping_add(1), ..w },
        ),
        (StageView::Putting(w), ReplyView::Failed(e)) => ends(
            failure("wf_materialize_tree: put-document for root `"@ + w.root + "`: "@ + e),
        ),
        (_, reply) => ends(given_up(COMPONENT@, reply)),
    }
}

/// Moves a call on with the host's reply.
pub fn step(plan: &Plan, stage: Stage, reply: Reply) -> (r: (Stage, Request))
    requires
        stage@.wf(),
    ensures
        (r.0@, r.1@) == next(plan@, stage@, reply@),
        r.0@.wf(),
{
    match stage {
        Stage::Sinks => match reply {
            Reply::Sinks(names) => match validate_sink_present(COMPONENT, &plan.sink, &names) {
                Ok(_) => match &plan.class {
                    Some(class) => (Stage::Roots, Request::Query(roots_query(class, &plan.parent))),
                    None => (
                        Stage::Over,
                        fail(
                            "wf_materialize_tree: anchor.class required (predicate_signature not yet supported)".to_owned(),
                        ),
                    ),
                },
                Err(e) => (Stage::Over, fail(e)),
            },
            other => (Stage::Over, give_up(COMPONENT, other)),
        },
        Stage::Roots => match reply {
            Reply::Result(result) => match result {
                QueryResult::Bindings(flat) => {
                    let names = enumerate_roots(&flat);
                    let roots = turned(names);
                    let path: Vec<Frame> = Vec::new();
                    let w = Walk {
                        roots,
                        root: String::new(),
                        visited: Names::new(),
                        path,
                        trees: 0,
                        nodes: 0,
                    };
                    proof {
                        assert(w@.roots =~= root_names(views(flat@)));
                        assert(w@.path =~= Seq::empty());
                        assert(w@.root =~= Seq::empty());
                    }
                    next_root(plan, w)
                },
                _ => (
                    Stage::Over,
                    fail("wf_materialize_tree: root query must yield bindings, not CONSTRUCT/ASK".to_owned()),
                ),
            },
            other => (Stage::Over, give_up(COMPONENT, other)),
        },
        Stage::Attribute(w, at) => match reply {
            Reply::Result(result) => if w.path.len() > 0 && at < plan.attributes.len() {
                take_attribute(plan, w, at, result)
            } else {
                (Stage::Over, give_up(COMPONENT, Reply::Result(result)))
            },
            other => (Stage::Over, give_up(COMPONENT, other)),
        },
        Stage::Children(w) => match reply {
            Reply::Result(result) => if w.path.len() > 0 {
                take_children(plan, w, result)
            } else {
                (Stage::Over, give_up(COMPONENT, Reply::Result(result)))
            },
            other => (Stage::Over, give_up(COMPONENT, other)),
        },
        Stage::Putting(w) => match reply {
            Reply::Done => {
                let trees: u64 = w.trees.wrapping_add(1);
                next_root(plan, Walk { trees, ..w })
            },
            Reply::Failed(e) => (
                Stage::Over,
                fail(
                    "wf_materialize_tree: put-document for root `".to_owned().concat(&w.root).concat("`: ").concat(&e),
                ),
            ),
            other => (Stage::Over, give_up(COMPONENT, other)),
        },
        Stage::Over => (Stage::Over, give_up(COMPONENT, reply)),
    }
}

// ---------------------------------------------------------------------------
// Laws
// ---------------------------------------------------------------------------

/// What is read from a graph: a value or the error that ended the walk, the
/// nodes that have been met, and how many nodes have been counted.
pub struct Reading<T> {
    pub value: Result<T, Seq<char>>,
    pub visited: Set<Seq<char>>,
    pub nodes: u64,
}

/// A node with the attributes from the one at a position on, where `answers`
/// gives what each query results in.
pub open spec fn described(
    plan: PlanView,
    answers: spec_fn(Seq<char>) -> QueryResultView,
    f: FrameView,
    at: nat,
) -> FrameView
    decreases plan.attributes.len() - at,
{
    if at < plan.attributes.len() {
        let a = plan.attributes[at as int];
        described(plan, answers, with_attribute(f, a, answers(attribute_text(f.subject, a.predicate))), at + 1)
    } else {
        f
    }
}

/// The children of a node in the graph.
pub open spec fn children_at(
    plan: PlanView,
    answers: spec_fn(Seq<char>) -> QueryResultView,
    subject: Seq<char>,
) -> Seq<Seq<char>> {
    match children_text(plan, subject) {
        Some(text) => children_of(answers(text)),
        None => Seq::empty(),
    }
}

/// The document of a node and of all below it.
pub open spec fn subtree(
    plan: PlanView,
    answers: spec_fn(Seq<char>) -> QueryResultView,
    subject: Seq<char>,
    visited: Set<Seq<char>>,
    nodes: u64,
    depth: int,
) -> Reading<JsonView>
    decreases MAX_DEPTH + 1 - depth, 0int, 0int,
{
    if depth > MAX_DEPTH {
        Reading { value: Err(too_deep(subject)), visited, nodes }
    } else if visited.contains(subject) {
        Reading { value: Ok(cycle_mark(subject)), visited, nodes }
    } else {
        let below = subtrees(
            plan,
            answers,
            children_at(plan, answers, subject),
            Seq::empty(),
            visited.insert(subject),
            nodes.wrapping_add(1),
            depth + 1,
        );
        Reading {
            value: match below.value {
                Ok(children) => Ok(
                    node_document(FrameView { children, ..described(plan, answers, fresh(subject), 0) }),
                ),
                Err(e) => Err(e),
            },
            visited: below.visited,
            nodes: below.nodes,
        }
    }
}

/// The documents `done` and those of more nodes, one after the other.
pub open spec fn subtrees(
    plan: PlanView,
    answers: spec_fn(Seq<char>) -> QueryResultView,
    subjects: Seq<Seq<char>>,
    done: Seq<JsonView>,
    visited: Set<Seq<char>>,
    nodes: u64,
    depth: int,
) -> Reading<Seq<JsonView>>
    decreases MAX_DEPTH + 1 - depth, 1int, subjects.len(),
{
    if subjects.len() == 0 {
        Reading { value: Ok(done), visited, nodes }
    } else {
        let first = subtree(plan, answers, subjects[0], visited, nodes, depth);
        match first.value {
            Err(e) => Reading { value: Err(e), visited: first.visited, nodes: first.nodes },
            Ok(document) => subtrees(
                plan,
                answers,
                subjects.drop_first(),
                done.push(document),
                first.visited,
                first.nodes,
                depth,
            ),
        }
    }
}

/// A call after `n` queries have been answered.
pub open spec fn after(
    plan: PlanView,
    answers: spec_fn(Seq<char>) -> QueryResultView,
    from: (StageView, RequestView),
    n: nat,
) -> (StageView, RequestView)
    decreases n,
{
    if n == 0 {
        from
    } else {
        match from.1 {
            RequestView::Query(text) => after(
                plan,
                answers,
                next(plan, from.0, ReplyView::Result(answers(text))),
                (n - 1) as nat,
            ),
            _ => from,
        }
    }
}

/// Whether answering queries leads from one point of a call to another.
pub open spec fn leads(
    plan: PlanView,
    answers: spec_fn(Seq<char>) -> QueryResultView,
    from: (StageView, RequestView),
    to: (StageView, RequestView),
) -> bool {
    exists|n: nat| after(plan, answers, from, n) == to
}

proof fn after_adds(
    plan: PlanView,
    answers: spec_fn(Seq<char>) -> QueryResultView,
    from: (StageView, RequestView),
    n: nat,
    m: nat,
)
    ensures
        after(plan, answers, after(plan, answers, from, n), m) == after(plan, answers, from, n + m),
    decreases n,
{
    if n > 0 {
        match from.1 {
            RequestView::Query(text) => {
                after_adds(
                    plan,
                    answers,
                    next(plan, from.0, ReplyView::Result(answers(text))),
                    (n - 1) as nat,
                    m,
                );
            },
            _ => {
                assert(after(plan, answers, from, m) == from);
            },
        }
    }
}

proof fn leads_on(
    plan: PlanView,
    answers: spec_fn(Seq<char>) -> QueryResultView,
    a: (StageView, RequestView),
    b: (StageView, RequestView),
    c: (StageView, RequestView),
)
    requires
        leads(plan, answers, a, b),
        leads(plan, answers, b, c),
    ensures
        leads(plan, answers, a, c),
{
    let n = choose|n: nat| after(plan, answers, a, n) == b;
    let m = choose|m: nat| after(plan, answers, b, m) == c;
    after_adds(plan, answers, a, n, m);
    assert(after(plan, answers, a, n + m) == c);
}

proof fn leads_itself(
    plan: PlanView,
    answers: spec_fn(Seq<char>) -> QueryResultView,
    a: (StageView, RequestView),
)
    ensures
        leads(plan, answers, a, a),
{
    assert(after(plan, answers, a, 0) == a);
}

proof fn one_answer(
    plan: PlanView,
    answers: spec_fn(Seq<char>) -> QueryResultView,
    a: (StageView, RequestView),
    text: Seq<char>,
)
    requires
        a.1 == RequestView::Query(text),
    ensures
        leads(plan, answers, a, next(plan, a.0, ReplyView::Result(answers(text)))),
{
    let b = next(plan, a.0, ReplyView::Result(answers(text)));
    assert(after(plan, answers, b, 0) == b);
    assert(after(plan, answers, a, 1) == b);
}

/// Where a walk stands once the last node of the path has its attributes and
/// its children are known.
pub open spec fn opened(
    plan: PlanView,
    answers: spec_fn(Seq<char>) -> QueryResultView,
    w: WalkView,
    at: nat,
) -> WalkView {
    let top = described(plan, answers, w.path.last(), at);
    with_last(w, FrameView { ahead: children_at(plan, answers, top.subject), ..top })
}

proof fn node_opens(
    plan: PlanView,
    answers: spec_fn(Seq<char>) -> QueryResultView,
    w: WalkView,
    at: nat,
)
    requires
        w.path.len() > 0,
        w.path.last().ahead.len() == 0,
    ensures
        leads(plan, answers, asked(plan, w, at), settled(plan, opened(plan, answers, w, at))),
    decreases plan.attributes.len() - at,
{
    let top = w.path.last();
    let from = asked(plan, w, at);
    if at < plan.attributes.len() {
        let a = plan.attributes[at as int];
        let text = attribute_text(top.subject, a.predicate);
        one_answer(plan, answers, from, text);
        let f = with_attribute(top, a, answers(text));
        let more = with_last(w, f);
        assert(more.path.last() == f);
        assert(more.path.drop_last() =~= w.path.drop_last());
        node_opens(plan, answers, more, at + 1);
        assert(opened(plan, answers, more, at + 1) == opened(plan, answers, w, at));
        leads_on(
            plan,
            answers,
            from,
            asked(plan, more, at + 1),
            settled(plan, opened(plan, answers, w, at)),
        );
    } else {
        match children_text(plan, top.subject) {
            Some(text) => {
                one_answer(plan, answers, from, text);
            },
            None => {
                let o = opened(plan, answers, w, at);
                assert(o.path.last().ahead =~= top.ahead);
                assert(o.path =~= w.path);
                leads_itself(plan, answers, from);
            },
        }
    }
}

/// The walk when all children of the path's last node have been read.
pub open spec fn gathered(w: WalkView, below: Reading<Seq<JsonView>>, children: Seq<JsonView>) -> WalkView {
    let top = w.path.last();
    WalkView {
        path: w.path.drop_last().push(FrameView { ahead: Seq::empty(), children, ..top }),
        visited: below.visited,
        nodes: below.nodes,
        ..w
    }
}

/// Where the reading of the children of the path's last node ends.
pub open spec fn gathering_end(plan: PlanView, w: WalkView, below: Reading<Seq<JsonView>>) -> (
    StageView,
    RequestView,
) {
    match below.value {
        Ok(children) => settled(plan, gathered(w, below, children)),
        Err(e) => ends(failure(e)),
    }
}

proof fn children_gather(
    plan: PlanView,
    answers: spec_fn(Seq<char>) -> QueryResultView,
    w: WalkView,
)
    requires
        0 < w.path.len() <= MAX_DEPTH + 1,
    ensures
        ({
            let top = w.path.last();
            let below = subtrees(
                plan,
                answers,
                top.ahead,
                top.children,
                w.visited,
                w.nodes,
                w.path.len() as int,
            );
            leads(plan, answers, settled(plan, w), gathering_end(plan, w, below))
        }),
    decreases MAX_DEPTH + 1 - w.path.len(), w.path.last().ahead.len(),
{
    let top = w.path.last();
    let above = w.path.drop_last();
    let depth = w.path.len() as int;
    let from = settled(plan, w);
    let below = subtrees(plan, answers, top.ahead, top.children, w.visited, w.nodes, depth);
    let end = gathering_end(plan, w, below);
    if top.ahead.len() == 0 {
        assert(top.ahead =~= Seq::empty());
        assert(above.push(top) =~= w.path);
        assert(gathered(w, below, top.children) == w);
        leads_itself(plan, answers, from);
    } else {
        let child = top.ahead[0];
        let path = above.push(without_next(top));
        assert(path.last() == without_next(top));
        assert(path.drop_last() =~= above);
        let first = subtree(plan, answers, child, w.visited, w.nodes, depth);
        if path.len() > MAX_DEPTH {
            leads_itself(plan, answers, from);
        } else if w.visited.contains(child) {
            let next_w = WalkView { path: with_child(path, cycle_mark(child)), ..w };
            assert(next_w.path.last().ahead == top.ahead.drop_first());
            assert(next_w.path.drop_last() =~= above);
            children_gather(plan, answers, next_w);
        } else {
            let inner = WalkView {
                path: path.push(fresh(child)),
                visited: w.visited.insert(child),
                nodes: w.nodes.wrapping_add(1),
                ..w
            };
            assert(from == asked(plan, inner, 0));
            assert(inner.path.last() == fresh(child));
            node_opens(plan, answers, inner, 0);
            let open = opened(plan, answers, inner, 0);
            described_keeps(plan, answers, fresh(child), 0);
            assert(inner.path.drop_last() =~= path);
            assert(open.path.drop_last() =~= path);
            assert(open.path.len() == depth + 1);
            children_gather(plan, answers, open);
            let inside = subtrees(
                plan,
                answers,
                children_at(plan, answers, child),
                Seq::empty(),
                open.visited,
                open.nodes,
                depth + 1,
            );
            assert(open.path.last().children == Seq::<JsonView>::empty());
            leads_on(plan, answers, from, settled(plan, open), gathering_end(plan, open, inside));
            match inside.value {
                Err(e) => {},
                Ok(children) => {
                    let full = gathered(open, inside, children);
                    let document = node_document(full.path.last());
                    assert(full.path.drop_last() =~= path);
                    let next_w = WalkView { path: with_child(path, document), ..full };
                    assert(settled(plan, full) == settled(plan, next_w));
                    assert(document == node_document(
                        FrameView { children, ..described(plan, answers, fresh(child), 0) },
                    )) by {
                        let a = full.path.last();
                        let b = FrameView { children, ..described(plan, answers, fresh(child), 0) };
                        assert(a.fields == b.fields);
                    }
                    assert(next_w.path.last().ahead == top.ahead.drop_first());
                    assert(next_w.path.drop_last() =~= above);
                    children_gather(plan, answers, next_w);
                    leads_on(plan, answers, from, settled(plan, next_w), end);
                },
            }
        }
    }
}

proof fn described_keeps(
    plan: PlanView,
    answers: spec_fn(Seq<char>) -> QueryResultView,
    f: FrameView,
    at: nat,
)
    ensures
        described(plan, answers, f, at).subject == f.subject,
        described(plan, answers, f, at).ahead == f.ahead,
        described(plan, answers, f, at).children == f.children,
    decreases plan.attributes.len() - at,
{
    if at < plan.attributes.len() {
        let a = plan.attributes[at as int];
        described_keeps(
            plan,
            answers,
            with_attribute(f, a, answers(attribute_text(f.subject, a.predicate))),
            at + 1,
        );
    }
}

/// Against a graph that answers each query in one way, the walk into a root's
/// tree puts the root's subtree on the sink, or fails as the subtree does.
pub proof fn walk_puts_the_subtree(
    plan: PlanView,
    answers: spec_fn(Seq<char>) -> QueryResultView,
    w: WalkView,
)
    requires
        w.roots.len() > 0,
    ensures
        ({
            let root = w.roots[0];
            let tree = subtree(plan, answers, root, Set::empty(), w.nodes, 0);
            leads(
                plan,
                answers,
                rooted(plan, w),
                match tree.value {
                    Ok(document) => (
                        StageView::Putting(
                            WalkView {
                                roots: w.roots.drop_first(),
                                root,
                                visited: tree.visited,
                                path: Seq::empty(),
                                trees: w.trees,
                                nodes: tree.nodes,
                            },
                        ),
                        RequestView::Put(plan.sink, root, json_text(document)),
                    ),
                    Err(e) => ends(failure(e)),
                },
            )
        }),
{
    let root = w.roots[0];
    let inner = WalkView {
        roots: w.roots.drop_first(),
        root,
        visited: Set::empty().insert(root),
        path: seq![fresh(root)],
        trees: w.trees,
        nodes: w.nodes.wrapping_add(1),
    };
    assert(inner.path.last() == fresh(root));
    node_opens(plan, answers, inner, 0);
    described_keeps(plan, answers, fresh(root), 0);
    let open = opened(plan, answers, inner, 0);
    assert(open.path.drop_last() =~= Seq::empty());
    children_gather(plan, answers, open);
    let inside = subtrees(
        plan,
        answers,
        children_at(plan, answers, root),
        Seq::empty(),
        open.visited,
        open.nodes,
        1,
    );
    leads_on(plan, answers, rooted(plan, w), settled(plan, open), gathering_end(plan, open, inside));
    match inside.value {
        Err(e) => {},
        Ok(children) => {
            let full = gathered(open, inside, children);
            assert(full.path.drop_last() =~= Seq::empty());
            assert(full.path.last().fields == described(plan, answers, fresh(root), 0).fields);
        },
    }
}

// ---------------------------------------------------------------------------
// The component
// ---------------------------------------------------------------------------

pub fn register() -> (r: Vec<FunctionDescriptor>)
    ensures
        r@.len() == 1,
        describes(r@[0], "urn:webfunction:materialize-tree"@, 1),
{
    one_function("urn:webfunction:materialize-tree", 1)
}

/// Whether the component offers the function.
pub fn offers(name: &str) -> (r: Result<(), String>)
    ensures
        r is Ok <==> name@ == "urn:webfunction:materialize-tree"@,
        r matches Err(e) ==> e@ == unknown_function_text(COMPONENT@, name@),
{
    if same(name, "urn:webfunction:materialize-tree") {
        Ok(())
    } else {
        Err(unknown_function(COMPONENT, name))
    }
}

/// The state of an aggregate. The component has none, so none is ever made.
pub struct UnreachableState;

impl UnreachableState {
    pub fn step(&self, args: Vec<Term>) -> (r: Result<(), String>)
        ensures
            r matches Err(e) && e@ == never_constructed_text(COMPONENT@),
    {
        Err(never_constructed(COMPONENT))
    }

    pub fn finish(&self) -> (r: Result<Term, String>)
        ensures
            r matches Err(e) && e@ == never_constructed_text(COMPONENT@),
    {
        Err(never_constructed(COMPONENT))
    }
}

} // verus!

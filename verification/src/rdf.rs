//! RDF terms, bindings and quads as the host exchanges them, their rows, and
//! their SPARQL text.

use vstd::prelude::*;
use vstd::string::*;

use crate::number::{i64_of, parse_i64};
use crate::text::{copy_opt, debug_text, escape_literal, escaped, opt_view, quote, same, strip_prefix, views, views_push};

verus! {

pub const RDF_JSON: &'static str = "http://www.w3.org/1999/02/22-rdf-syntax-ns#JSON";

pub const RDF_TYPE: &'static str = "http://www.w3.org/1999/02/22-rdf-syntax-ns#type";

pub const RDF_FIRST: &'static str = "http://www.w3.org/1999/02/22-rdf-syntax-ns#first";

pub const RDF_REST: &'static str = "http://www.w3.org/1999/02/22-rdf-syntax-ns#rest";

pub const RDF_NIL: &'static str = "http://www.w3.org/1999/02/22-rdf-syntax-ns#nil";

pub const XSD_STRING: &'static str = "http://www.w3.org/2001/XMLSchema#string";

pub const XSD_INTEGER: &'static str = "http://www.w3.org/2001/XMLSchema#integer";

// ---------------------------------------------------------------------------
// Terms
// ---------------------------------------------------------------------------

/// A literal: its lexical form, with a datatype or a language where it has one.
#[derive(Debug, PartialEq, Eq)]
pub struct Literal {
    pub value: String,
    pub datatype: Option<String>,
    pub language: Option<String>,
}

pub struct LiteralView {
    pub value: Seq<char>,
    pub datatype: Option<Seq<char>>,
    pub language: Option<Seq<char>>,
}

impl View for Literal {
    type V = LiteralView;

    open spec fn view(&self) -> LiteralView {
        LiteralView {
            value: self.value@,
            datatype: opt_view(self.datatype),
            language: opt_view(self.language),
        }
    }
}

/// An RDF term. A quoted triple is carried as the text the host gives it.
#[derive(Debug, PartialEq, Eq)]
pub enum Term {
    NamedNode(String),
    BlankNode(String),
    Literal(Literal),
    Triple(String),
}

pub enum TermView {
    NamedNode(Seq<char>),
    BlankNode(Seq<char>),
    Literal(LiteralView),
    Triple(Seq<char>),
}

impl View for Term {
    type V = TermView;

    open spec fn view(&self) -> TermView {
        match self {
            Term::NamedNode(iri) => TermView::NamedNode(iri@),
            Term::BlankNode(label) => TermView::BlankNode(label@),
            Term::Literal(l) => TermView::Literal(l@),
            Term::Triple(t) => TermView::Triple(t@),
        }
    }
}

impl Clone for Literal {
    fn clone(&self) -> (r: Self)
        ensures
            r@ == self@,
    {
        Literal {
            value: self.value.clone(),
            datatype: copy_opt(&self.datatype),
            language: copy_opt(&self.language),
        }
    }
}

impl Clone for Term {
    fn clone(&self) -> (r: Self)
        ensures
            r@ == self@,
    {
        match self {
            Term::NamedNode(iri) => Term::NamedNode(iri.clone()),
            Term::BlankNode(label) => Term::BlankNode(label.clone()),
            Term::Literal(l) => Term::Literal(l.clone()),
            Term::Triple(t) => Term::Triple(t.clone()),
        }
    }
}

/// A variable of a query solution and its value.
#[derive(Debug, PartialEq, Eq)]
pub struct Binding {
    pub variable: String,
    pub value: Term,
}

pub struct BindingView {
    pub variable: Seq<char>,
    pub value: TermView,
}

impl View for Binding {
    type V = BindingView;

    open spec fn view(&self) -> BindingView {
        BindingView { variable: self.variable@, value: self.value@ }
    }
}

/// A statement, in a named graph or in the default graph.
#[derive(Debug, PartialEq, Eq)]
pub struct Quad {
    pub subject: Term,
    pub predicate: Term,
    pub object: Term,
    pub graph: Option<String>,
}

pub struct QuadView {
    pub subject: TermView,
    pub predicate: TermView,
    pub object: TermView,
    pub graph: Option<Seq<char>>,
}

impl View for Quad {
    type V = QuadView;

    open spec fn view(&self) -> QuadView {
        QuadView {
            subject: self.subject@,
            predicate: self.predicate@,
            object: self.object@,
            graph: opt_view(self.graph),
        }
    }
}

/// What a query gives back.
#[derive(Debug)]
pub enum QueryResult {
    Bindings(Vec<Binding>),
    Quads(Vec<Quad>),
    Boolean(bool),
}

pub enum QueryResultView {
    Bindings(Seq<BindingView>),
    Quads(Seq<QuadView>),
    Boolean(bool),
}

impl View for QueryResult {
    type V = QueryResultView;

    open spec fn view(&self) -> QueryResultView {
        match self {
            QueryResult::Bindings(b) => QueryResultView::Bindings(views(b@)),
            QueryResult::Quads(q) => QueryResultView::Quads(views(q@)),
            QueryResult::Boolean(b) => QueryResultView::Boolean(*b),
        }
    }
}

// ---------------------------------------------------------------------------
// Literals that guests return
// ---------------------------------------------------------------------------

/// A literal with a datatype.
pub open spec fn typed(value: Seq<char>, datatype: Seq<char>) -> TermView {
    TermView::Literal(LiteralView { value, datatype: Some(datatype), language: None })
}

/// A JSON document as a literal.
pub fn json_literal(s: &str) -> (r: Term)
    ensures
        r@ == typed(s@, RDF_JSON@),
{
    typed_literal(s, RDF_JSON)
}

pub fn typed_literal(s: &str, datatype: &str) -> (r: Term)
    ensures
        r@ == typed(s@, datatype@),
{
    Term::Literal(
        Literal { value: s.to_owned(), datatype: Some(datatype.to_owned()), language: None },
    )
}

// ---------------------------------------------------------------------------
// Rows
// ---------------------------------------------------------------------------

/// Whether the row binds the variable.
pub open spec fn binds(row: Seq<BindingView>, variable: Seq<char>) -> bool {
    exists|i: int| 0 <= i < row.len() && (#[trigger] row[i]).variable == variable
}

/// The rows of a flat list of bindings: a row ends where a variable that it
/// already binds comes again.
pub open spec fn grouped(flat: Seq<BindingView>) -> Seq<Seq<BindingView>>
    decreases flat.len(),
{
    if flat.len() == 0 {
        Seq::empty()
    } else {
        let rows = grouped(flat.drop_last());
        let b = flat.last();
        if rows.len() > 0 && !binds(rows.last(), b.variable) {
            rows.drop_last().push(rows.last().push(b))
        } else {
            rows.push(seq![b])
        }
    }
}

/// The bindings of all rows, one after the other.
pub open spec fn flattened(rows: Seq<Seq<BindingView>>) -> Seq<BindingView>
    decreases rows.len(),
{
    if rows.len() == 0 {
        Seq::empty()
    } else {
        flattened(rows.drop_last()) + rows.last()
    }
}

pub proof fn flattened_push(rows: Seq<Seq<BindingView>>, row: Seq<BindingView>)
    ensures
        flattened(rows.push(row)) == flattened(rows) + row,
{
    assert(rows.push(row).drop_last() =~= rows);
}

/// Rows hold exactly the bindings they were made of, in order; no row is empty
/// and none binds a variable twice.
pub proof fn grouping_keeps_bindings(flat: Seq<BindingView>)
    ensures
        flattened(grouped(flat)) == flat,
        forall|i: int| 0 <= i < grouped(flat).len() ==> (#[trigger] grouped(flat)[i]).len() > 0,
        forall|i: int, j: int, k: int|
            0 <= i < grouped(flat).len() && 0 <= j < k < grouped(flat)[i].len()
                ==> (#[trigger] grouped(flat)[i][j]).variable != (#[trigger] grouped(flat)[i][k]).variable,
    decreases flat.len(),
{
    if flat.len() > 0 {
        let rest = flat.drop_last();
        let b = flat.last();
        let rows = grouped(rest);
        let r = grouped(flat);
        grouping_keeps_bindings(rest);
        assert(flat =~= rest.push(b));
        if rows.len() > 0 && !binds(rows.last(), b.variable) {
            flattened_push(rows.drop_last(), rows.last().push(b));
            flattened_push(rows.drop_last(), rows.last());
            assert(rows.drop_last().push(rows.last()) =~= rows);
            assert(flattened(rows.drop_last()) + rows.last().push(b) =~= rest.push(b));
            assert forall|i: int| 0 <= i < r.len() implies (#[trigger] r[i]).len() > 0 by {
                if i < rows.len() - 1 {
                    assert(rows[i].len() > 0);
                }
            }
            assert forall|i: int, j: int, k: int|
                0 <= i < r.len() && 0 <= j < k < r[i].len() implies (#[trigger] r[i][j]).variable != (
            #[trigger] r[i][k]).variable by {
                if i < rows.len() - 1 {
                    assert(rows[i][j].variable != rows[i][k].variable);
                } else if k < rows[i].len() {
                    assert(rows[i][j].variable != rows[i][k].variable);
                } else {
                    assert(rows.last()[j] == r[i][j]);
                }
            }
        } else {
            flattened_push(rows, seq![b]);
            assert(rest + seq![b] =~= flat);
            assert forall|i: int| 0 <= i < r.len() implies (#[trigger] r[i]).len() > 0 by {
                if i < rows.len() {
                    assert(rows[i].len() > 0);
                }
            }
            assert forall|i: int, j: int, k: int|
                0 <= i < r.len() && 0 <= j < k < r[i].len() implies (#[trigger] r[i][j]).variable != (
            #[trigger] r[i][k]).variable by {
                if i < rows.len() {
                    assert(rows[i][j].variable != rows[i][k].variable);
                }
            }
        }
    }
}

/// The views of the rows.
pub open spec fn row_views(rows: Seq<Vec<Binding>>) -> Seq<Seq<BindingView>> {
    Seq::new(rows.len(), |i: int| views(rows[i]@))
}

/// The first value that the row gives the variable.
pub open spec fn value_in(row: Seq<BindingView>, variable: Seq<char>) -> Option<TermView>
    decreases row.len(),
{
    if row.len() == 0 {
        None
    } else if row[0].variable == variable {
        Some(row[0].value)
    } else {
        value_in(row.drop_first(), variable)
    }
}

pub proof fn value_in_binds(row: Seq<BindingView>, variable: Seq<char>)
    ensures
        value_in(row, variable) is Some <==> binds(row, variable),
    decreases row.len(),
{
    if row.len() > 0 {
        value_in_binds(row.drop_first(), variable);
        if row[0].variable != variable {
            if binds(row, variable) {
                let i = choose|i: int| 0 <= i < row.len() && (#[trigger] row[i]).variable == variable;
                assert(row.drop_first()[i - 1] == row[i]);
            }
            if binds(row.drop_first(), variable) {
                let i = choose|i: int|
                    0 <= i < row.drop_first().len() && (#[trigger] row.drop_first()[i]).variable == variable;
                assert(row[i + 1] == row.drop_first()[i]);
            }
        }
    }
}

/// The first value that the row gives the variable.
pub fn find_value<'a>(row: &'a Vec<Binding>, variable: &str) -> (r: Option<&'a Term>)
    ensures
        match r {
            Some(t) => value_in(views(row@), variable@) == Some(t@),
            None => value_in(views(row@), variable@) is None,
        },
{
    let ghost all = views(row@);
    proof {
        assert(all.skip(0) =~= all);
    }
    for i in 0..row.len()
        invariant
            all == views(row@),
            value_in(all.skip(i as int), variable@) == value_in(all, variable@),
    {
        proof {
            assert(all.skip(i as int).drop_first() =~= all.skip(i + 1));
            assert(all[i as int] == row@[i as int]@);
        }
        if same(&row[i].variable, variable) {
            return Some(&row[i].value);
        }
    }
    None
}

/// Splits a flat list of bindings into rows.
pub fn group_bindings_into_rows(flat: Vec<Binding>) -> (r: Vec<Vec<Binding>>)
    ensures
        row_views(r@) == grouped(views(flat@)),
{
    broadcast use views_push;

    let ghost all = views(flat@);
    let mut rows: Vec<Vec<Binding>> = Vec::new();
    let mut current: Vec<Binding> = Vec::new();
    proof {
        assert(grouped(all.take(0)) =~= row_views(rows@));
    }
    for b in iter: flat
        invariant
            views(iter.seq()) == all,
            current@.len() == 0 ==> rows@.len() == 0 && iter.index() == 0,
            current@.len() > 0 ==> grouped(all.take(iter.index() as int)) == row_views(rows@).push(
                views(current@),
            ),
            current@.len() == 0 ==> grouped(all.take(iter.index() as int)) == row_views(rows@),
    {
        let ghost k = iter.index() as int;
        let ghost old_rows = row_views(rows@);
        let ghost old_current = views(current@);
        let repeated = find_value(&current, &b.variable).is_some();
        proof {
            value_in_binds(old_current, b.variable@);
            assert(all[k] == b@);
            assert(all.take(k + 1).drop_last() =~= all.take(k));
            if old_current.len() > 0 {
                assert(old_rows.push(old_current).drop_last() =~= old_rows);
            }
        }
        if repeated {
            rows.push(current);
            current = Vec::new();
            proof {
                assert(row_views(rows@) =~= old_rows.push(old_current));
            }
        }
        current.push(b);
        proof {
            if repeated {
                assert(views(current@) =~= seq![b@]);
            } else if old_current.len() == 0 {
                assert(views(current@) =~= seq![b@]);
                assert(old_rows.push(seq![b@]) =~= row_views(rows@).push(views(current@)));
            }
        }
    }
    proof {
        assert(all.take(all.len() as int) =~= all);
    }
    let ghost done = row_views(rows@);
    if current.len() > 0 {
        let ghost last = views(current@);
        rows.push(current);
        proof {
            assert(row_views(rows@) =~= done.push(last));
        }
    }
    rows
}

// ---------------------------------------------------------------------------
// SPARQL text
// ---------------------------------------------------------------------------

/// The SPARQL text of a literal.
pub open spec fn literal_sparql(l: LiteralView) -> Seq<char> {
    match l.language {
        Some(tag) => "\""@ + escaped(l.value) + "\"@"@ + tag,
        None => match l.datatype {
            Some(dt) => "\""@ + escaped(l.value) + "\"^^<"@ + dt + ">"@,
            None => "\""@ + escaped(l.value) + "\""@,
        },
    }
}

pub fn literal_to_sparql(l: &Literal) -> (r: String)
    ensures
        r@ == literal_sparql(l@),
{
    let body = escape_literal(&l.value);
    match &l.language {
        Some(tag) => "\"".to_owned().concat(&body).concat("\"@").concat(tag),
        None => match &l.datatype {
            Some(dt) => "\"".to_owned().concat(&body).concat("\"^^<").concat(dt).concat(">"),
            None => "\"".to_owned().concat(&body).concat("\""),
        },
    }
}

/// An IRI in angle brackets.
pub open spec fn bracketed(iri: Seq<char>) -> Seq<char> {
    "<"@ + iri + ">"@
}

pub fn bracket(iri: &str) -> (r: String)
    ensures
        r@ == bracketed(iri@),
{
    "<".to_owned().concat(iri).concat(">")
}

/// The SPARQL text of a term; a quoted triple has none.
pub open spec fn term_sparql(t: TermView) -> Seq<char> {
    match t {
        TermView::NamedNode(iri) => bracketed(iri),
        TermView::BlankNode(label) => "_:"@ + label,
        TermView::Literal(l) => literal_sparql(l),
        TermView::Triple(_) => Seq::empty(),
    }
}

pub fn term_to_sparql(t: &Term) -> (r: String)
    ensures
        r@ == term_sparql(t@),
{
    match t {
        Term::NamedNode(iri) => bracket(iri),
        Term::BlankNode(label) => "_:".to_owned().concat(label),
        Term::Literal(l) => literal_to_sparql(l),
        Term::Triple(_) => String::new(),
    }
}

/// The identifier of a node: the IRI, or the label after `_:`.
pub open spec fn node_id(t: TermView) -> Option<Seq<char>> {
    match t {
        TermView::NamedNode(iri) => Some(iri),
        TermView::BlankNode(label) => Some("_:"@ + label),
        _ => None,
    }
}

pub fn term_iri(t: &Term) -> (r: Option<String>)
    ensures
        opt_view(r) == node_id(t@),
{
    match t {
        Term::NamedNode(iri) => Some(iri.clone()),
        Term::BlankNode(label) => Some("_:".to_owned().concat(label)),
        _ => None,
    }
}

/// The node of an identifier: a blank node where it starts with `_:`.
pub open spec fn term_of(id: Seq<char>) -> TermView {
    if "_:"@.is_prefix_of(id) {
        TermView::BlankNode(id.skip("_:"@.len() as int))
    } else {
        TermView::NamedNode(id)
    }
}

pub fn node_term(id: &str) -> (r: Term)
    ensures
        r@ == term_of(id@),
{
    match strip_prefix(id, "_:") {
        Some(label) => {
            proof {
                assert(id@.skip("_:"@.len() as int) =~= label@);
            }
            Term::BlankNode(label)
        },
        None => Term::NamedNode(id.to_owned()),
    }
}

/// The identifier of a node gives the node back, unless an IRI starts like a
/// blank node's identifier.
pub proof fn identifier_names_node(t: TermView)
    requires
        node_id(t) is Some,
        t matches TermView::NamedNode(iri) ==> !"_:"@.is_prefix_of(iri),
    ensures
        term_of(node_id(t)->0) == t,
{
    match t {
        TermView::BlankNode(label) => {
            assert(("_:"@ + label).take("_:"@.len() as int) =~= "_:"@);
            assert("_:"@.is_prefix_of("_:"@ + label));
            assert(("_:"@ + label).skip("_:"@.len() as int) =~= label);
        },
        _ => {},
    }
}

// ---------------------------------------------------------------------------
// Terms in messages
// ---------------------------------------------------------------------------

/// The node that a variable is bound to.
pub open spec fn node_in(row: Seq<BindingView>, variable: Seq<char>) -> Option<Seq<char>> {
    match value_in(row, variable) {
        Some(t) => node_id(t),
        None => None,
    }
}

pub fn find_node(row: &Vec<Binding>, variable: &str) -> (r: Option<String>)
    ensures
        opt_view(r) == node_in(views(row@), variable@),
{
    match find_value(row, variable) {
        Some(t) => term_iri(t),
        None => None,
    }
}

/// The integer that a variable is bound to, written as a literal.
pub open spec fn int_in(row: Seq<BindingView>, variable: Seq<char>) -> Option<i64> {
    match value_in(row, variable) {
        Some(TermView::Literal(l)) => i64_of(l.value),
        _ => None,
    }
}

pub fn binding_int(row: &Vec<Binding>, variable: &str) -> (r: Option<i64>)
    ensures
        r == int_in(views(row@), variable@),
{
    match find_value(row, variable) {
        Some(t) => match t {
            Term::Literal(l) => parse_i64(&l.value),
            _ => None,
        },
        None => None,
    }
}

/// The name or the text that a variable is bound to.
pub open spec fn text_in(row: Seq<BindingView>, variable: Seq<char>) -> Option<Seq<char>> {
    match value_in(row, variable) {
        Some(TermView::NamedNode(iri)) => Some(iri),
        Some(TermView::Literal(l)) => Some(l.value),
        _ => None,
    }
}

pub fn binding_iri(row: &Vec<Binding>, variable: &str) -> (r: Option<String>)
    ensures
        opt_view(r) == text_in(views(row@), variable@),
{
    match find_value(row, variable) {
        Some(t) => match t {
            Term::NamedNode(iri) => Some(iri.clone()),
            Term::Literal(l) => Some(l.value.clone()),
            _ => None,
        },
        None => None,
    }
}

pub open spec fn shown_option(o: Option<Seq<char>>) -> Seq<char> {
    match o {
        Some(s) => "Some("@ + debug_text(s) + ")"@,
        None => "None"@,
    }
}

/// A term as messages show it.
pub open spec fn shown(t: TermView) -> Seq<char> {
    match t {
        TermView::NamedNode(iri) => "Term::NamedNode("@ + debug_text(iri) + ")"@,
        TermView::BlankNode(label) => "Term::BlankNode("@ + debug_text(label) + ")"@,
        TermView::Literal(l) => "Term::Literal(Literal { value: "@ + debug_text(l.value) + ", datatype: "@
            + shown_option(l.datatype) + ", language: "@ + shown_option(l.language) + " })"@,
        TermView::Triple(text) => "Term::Triple("@ + text + ")"@,
    }
}

fn show_option(o: &Option<String>) -> (r: String)
    ensures
        r@ == shown_option(opt_view(*o)),
{
    match o {
        Some(s) => "Some(".to_owned().concat(&quote(s)).concat(")"),
        None => "None".to_owned(),
    }
}

pub fn show(t: &Term) -> (r: String)
    ensures
        r@ == shown(t@),
{
    match t {
        Term::NamedNode(iri) => "Term::NamedNode(".to_owned().concat(&quote(iri)).concat(")"),
        Term::BlankNode(label) => "Term::BlankNode(".to_owned().concat(&quote(label)).concat(")"),
        Term::Literal(l) => "Term::Literal(Literal { value: ".to_owned().concat(&quote(&l.value)).concat(
            ", datatype: ",
        ).concat(&show_option(&l.datatype)).concat(", language: ").concat(&show_option(&l.language)).concat(" })"),
        Term::Triple(text) => "Term::Triple(".to_owned().concat(text).concat(")"),
    }
}

} // verus!

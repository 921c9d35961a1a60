//! `wf_fetch`: gets an RDF document over HTTP and hands its statements to a
//! sink.

use vstd::prelude::*;
use vstd::string::*;
use vstd::utf8::encode_utf8;

use oxrdf::{GraphName, NamedOrBlankNode, Quad as OxQuad};
use oxttl::{NQuadsParser, NTriplesParser, TurtleParser};

use crate::guest;
use crate::guest::{
    describes, http_error_text, never_constructed, never_constructed_text, one_function,
    unknown_function, unknown_function_text, FunctionDescriptor, HttpError,
};
use crate::host::{count_views, outcome, summarize, summary_of};
use crate::number::{decimal, decimal_of, decimal_usize};
use crate::rdf::{show, shown, Literal, LiteralView, Quad, QuadView, Term, TermView, XSD_STRING};
use crate::text::{
    ascii_lower, bytes_of, copy_opt, lower_all, opt_view, pieces, pieces_nonempty, same, same_ignoring_case, split,
    trim, trimmed, views,
};

verus! {

pub const COMPONENT: &'static str = "wf_fetch";

/// What is asked for, most wanted first.
pub const ACCEPT: &'static str = "text/turtle, application/n-triples, application/n-quads;q=0.9";

// ---------------------------------------------------------------------------
// Syntaxes
// ---------------------------------------------------------------------------

#[derive(Copy, Clone, Debug, PartialEq, Eq, Structural)]
pub enum Syntax {
    Turtle,
    NTriples,
    NQuads,
}

/// A header of a response.
#[derive(Debug)]
pub struct HttpHeader {
    pub name: String,
    pub value: String,
}

pub struct HeaderView {
    pub name: Seq<char>,
    pub value: Seq<char>,
}

impl View for HttpHeader {
    type V = HeaderView;

    open spec fn view(&self) -> HeaderView {
        HeaderView { name: self.name@, value: self.value@ }
    }
}

/// The media type of a content type: what stands before the parameters.
pub open spec fn media_of(value: Seq<char>) -> Seq<char> {
    trimmed(pieces(lower_all(value), ';')[0])
}

/// The syntax of a media type; Turtle where it names none.
pub open spec fn syntax_of(media: Seq<char>) -> Syntax {
    if media == "application/n-triples"@ || media == "text/plain"@ {
        Syntax::NTriples
    } else if media == "application/n-quads"@ {
        Syntax::NQuads
    } else {
        Syntax::Turtle
    }
}

/// The syntax that the first content type among the headers names.
pub open spec fn syntax_in(headers: Seq<HeaderView>) -> Syntax
    decreases headers.len(),
{
    if headers.len() == 0 {
        Syntax::Turtle
    } else if lower_all(headers[0].name) == lower_all("content-type"@) {
        syntax_of(media_of(headers[0].value))
    } else {
        syntax_in(headers.drop_first())
    }
}

pub fn syntax_from_content_type(headers: &[HttpHeader]) -> (r: Syntax)
    ensures
        r == syntax_in(views(headers@)),
{
    let ghost all = views(headers@);
    proof {
        assert(all.skip(0) =~= all);
    }
    for i in 0..headers.len()
        invariant
            all == views(headers@),
            syntax_in(all) == syntax_in(all.skip(i as int)),
    {
        proof {
            assert(all.skip(i as int)[0] == headers@[i as int]@);
            assert(all.skip(i as int).drop_first() =~= all.skip(i + 1));
        }
        if same_ignoring_case(&headers[i].name, "content-type") {
            let raw = ascii_lower(&headers[i].value);
            let parts = split(&raw, ';');
            proof {
                pieces_nonempty(raw@, ';');
                assert(views(parts@)[0] == parts@[0]@);
            }
            let media = trim(&parts[0]);
            if same(&media, "application/n-triples") || same(&media, "text/plain") {
                return Syntax::NTriples;
            }
            if same(&media, "application/n-quads") {
                return Syntax::NQuads;
            }
            return Syntax::Turtle;
        }
    }
    Syntax::Turtle
}

// ---------------------------------------------------------------------------
// Statements
// ---------------------------------------------------------------------------

/// A term of a document.
pub enum Node {
    Named(String),
    Blank(String),
    Literal { value: String, datatype: String, language: Option<String> },
}

pub enum NodeView {
    Named(Seq<char>),
    Blank(Seq<char>),
    Literal { value: Seq<char>, datatype: Seq<char>, language: Option<Seq<char>> },
}

impl View for Node {
    type V = NodeView;

    open spec fn view(&self) -> NodeView {
        match self {
            Node::Named(iri) => NodeView::Named(iri@),
            Node::Blank(label) => NodeView::Blank(label@),
            Node::Literal { value, datatype, language } => NodeView::Literal {
                value: value@,
                datatype: datatype@,
                language: opt_view(*language),
            },
        }
    }
}

/// A statement of a document.
pub struct Statement {
    pub subject: Node,
    pub predicate: String,
    pub object: Node,
    pub graph: Option<Node>,
}

pub struct StatementView {
    pub subject: NodeView,
    pub predicate: Seq<char>,
    pub object: NodeView,
    pub graph: Option<NodeView>,
}

impl View for Statement {
    type V = StatementView;

    open spec fn view(&self) -> StatementView {
        StatementView {
            subject: self.subject@,
            predicate: self.predicate@,
            object: self.object@,
            graph: opt_view(self.graph),
        }
    }
}

/// A node as a term. The datatype of plain and of tagged strings goes without
/// saying.
pub open spec fn term_of_node(n: NodeView) -> TermView {
    match n {
        NodeView::Named(iri) => TermView::NamedNode(iri),
        NodeView::Blank(label) => TermView::BlankNode(label),
        NodeView::Literal { value, datatype, language } => TermView::Literal(
            LiteralView {
                value,
                datatype: if language is Some || datatype == XSD_STRING@ {
                    None
                } else {
                    Some(datatype)
                },
                language,
            },
        ),
    }
}

pub fn wit_from_term(n: &Node) -> (r: Term)
    ensures
        r@ == term_of_node(n@),
{
    match n {
        Node::Named(iri) => Term::NamedNode(iri.clone()),
        Node::Blank(label) => Term::BlankNode(label.clone()),
        Node::Literal { value, datatype, language } => {
            let plain = language.is_some() || same(datatype, XSD_STRING);
            Term::Literal(
                Literal {
                    value: value.clone(),
                    datatype: if plain {
                        None
                    } else {
                        Some(datatype.clone())
                    },
                    language: copy_opt(language),
                },
            )
        },
    }
}

/// The name of a graph; the default graph has none.
pub open spec fn graph_name_of(g: Option<NodeView>) -> Option<Seq<char>> {
    match g {
        Some(NodeView::Named(iri)) => Some(iri),
        Some(NodeView::Blank(label)) => Some("_:"@ + label),
        _ => None,
    }
}

pub fn graph_iri_from(g: &Option<Node>) -> (r: Option<String>)
    ensures
        opt_view(r) == graph_name_of(opt_view(*g)),
{
    match g {
        Some(Node::Named(iri)) => Some(iri.clone()),
        Some(Node::Blank(label)) => Some("_:".to_owned().concat(label)),
        _ => None,
    }
}

/// A statement as the host takes it.
pub open spec fn quad_of(s: StatementView) -> QuadView {
    QuadView {
        subject: term_of_node(s.subject),
        predicate: TermView::NamedNode(s.predicate),
        object: term_of_node(s.object),
        graph: graph_name_of(s.graph),
    }
}

pub fn wit_quad_from(s: &Statement) -> (r: Quad)
    ensures
        r@ == quad_of(s@),
{
    Quad {
        subject: wit_from_term(&s.subject),
        predicate: Term::NamedNode(s.predicate.clone()),
        object: wit_from_term(&s.object),
        graph: graph_iri_from(&s.graph),
    }
}

/// Statements as the host takes them.
pub open spec fn quads_of(statements: Seq<StatementView>) -> Seq<QuadView> {
    Seq::new(statements.len(), |i: int| quad_of(statements[i]))
}

// ---------------------------------------------------------------------------
// The readers
// ---------------------------------------------------------------------------

/// A triple of `oxrdf`.
#[verifier::external_type_specification]
#[verifier::external_body]
pub struct ExTriple(oxrdf::Triple);

/// A quad of `oxrdf`.
#[verifier::external_type_specification]
#[verifier::external_body]
pub struct ExQuad(OxQuad);

/// What a triple of `oxrdf` holds.
pub uninterp spec fn triple_view(t: oxrdf::Triple) -> StatementView;

/// What a quad of `oxrdf` holds.
pub uninterp spec fn quad_view(q: OxQuad) -> StatementView;

/// What `oxttl` reads from an N-Triples document: its statements, or the
/// message of the first error.
pub uninterp spec fn ntriples_read(bytes: Seq<u8>) -> Result<Seq<StatementView>, Seq<char>>;

/// What `oxttl` reads from an N-Quads document: its statements, or the message
/// of the first error.
pub uninterp spec fn nquads_read(bytes: Seq<u8>) -> Result<Seq<StatementView>, Seq<char>>;

/// A node of a Turtle document: one that the document names, labels or spells
/// out, or one that it leaves without a label. The latter are numbered.
pub enum TurtleNode {
    Given(NodeView),
    Anonymous(nat),
}

/// A statement of a Turtle document.
pub struct TurtleStatement {
    pub subject: TurtleNode,
    pub predicate: Seq<char>,
    pub object: TurtleNode,
}

/// What `oxttl` reads from a Turtle document: its statements, or the message of
/// the first error. The blank nodes without a label are numbered as the document
/// brings them.
pub uninterp spec fn turtle_read(bytes: Seq<u8>) -> Result<Seq<TurtleStatement>, Seq<char>>;

/// A node of a Turtle document, where `labels` gives the nodes without a label
/// one each.
pub open spec fn node_with_label(n: TurtleNode, labels: spec_fn(nat) -> Seq<char>) -> NodeView {
    match n {
        TurtleNode::Given(node) => node,
        TurtleNode::Anonymous(i) => NodeView::Blank(labels(i)),
    }
}

/// The statements of a Turtle document, where `labels` gives the nodes without a
/// label one each.
pub open spec fn with_labels(
    statements: Seq<TurtleStatement>,
    labels: spec_fn(nat) -> Seq<char>,
) -> Seq<StatementView> {
    Seq::new(
        statements.len(),
        |i: int|
            StatementView {
                subject: node_with_label(statements[i].subject, labels),
                predicate: statements[i].predicate,
                object: node_with_label(statements[i].object, labels),
                graph: None,
            },
    )
}

/// What triples hold.
pub open spec fn triple_views(triples: Seq<oxrdf::Triple>) -> Seq<StatementView> {
    Seq::new(triples.len(), |i: int| triple_view(triples[i]))
}

/// What quads hold.
pub open spec fn quad_views(quads: Seq<OxQuad>) -> Seq<StatementView> {
    Seq::new(quads.len(), |i: int| quad_view(quads[i]))
}

/// Whether triples, or an error, are what was read.
pub open spec fn triples_are(
    r: Result<Vec<oxrdf::Triple>, String>,
    read: Result<Seq<StatementView>, Seq<char>>,
) -> bool {
    match (r, read) {
        (Ok(triples), Ok(statements)) => triple_views(triples@) == statements,
        (Err(e), Err(message)) => e@ == message,
        _ => false,
    }
}

/// Whether triples, or an error, are what was read from a Turtle document: the
/// document's labels are kept, and each node without one has one label
/// throughout.
pub open spec fn turtle_triples_are(
    r: Result<Vec<oxrdf::Triple>, String>,
    read: Result<Seq<TurtleStatement>, Seq<char>>,
) -> bool {
    match (r, read) {
        (Ok(triples), Ok(statements)) => exists|labels: spec_fn(nat) -> Seq<char>|
            triple_views(triples@) == #[trigger] with_labels(statements, labels),
        (Err(e), Err(message)) => e@ == message,
        _ => false,
    }
}

/// Whether quads, or an error, are what was read.
pub open spec fn quads_are(
    r: Result<Vec<OxQuad>, String>,
    read: Result<Seq<StatementView>, Seq<char>>,
) -> bool {
    match (r, read) {
        (Ok(quads), Ok(statements)) => quad_views(quads@) == statements,
        (Err(e), Err(message)) => e@ == message,
        _ => false,
    }
}

/// `oxttl::TurtleParser::for_slice`, read to its end or to the first error. A
/// blank node that the document labels has that label. One without a label has
/// the same label in all its statements, which `oxrdf::BlankNode::default` draws
/// at random: which label it is, and that it differs from the others, is not
/// said.
#[verifier::external_body]
fn read_turtle(bytes: &[u8]) -> (r: Result<Vec<oxrdf::Triple>, String>)
    ensures
        turtle_triples_are(r, turtle_read(bytes@)),
{
    let read: Result<Vec<oxrdf::Triple>, _> = TurtleParser::new().for_slice(bytes).collect();
    read.map_err(|e| e.to_string())
}

/// `oxttl::NTriplesParser::for_slice`, read to its end or to the first error.
/// Every blank node has the label that the document gives it.
#[verifier::external_body]
fn read_ntriples(bytes: &[u8]) -> (r: Result<Vec<oxrdf::Triple>, String>)
    ensures
        triples_are(r, ntriples_read(bytes@)),
{
    let read: Result<Vec<oxrdf::Triple>, _> = NTriplesParser::new().for_slice(bytes).collect();
    read.map_err(|e| e.to_string())
}

/// `oxttl::NQuadsParser::for_slice`, read to its end or to the first error.
/// Every blank node has the label that the document gives it.
#[verifier::external_body]
fn read_nquads(bytes: &[u8]) -> (r: Result<Vec<OxQuad>, String>)
    ensures
        quads_are(r, nquads_read(bytes@)),
{
    let read: Result<Vec<OxQuad>, _> = NQuadsParser::new().for_slice(bytes).collect();
    read.map_err(|e| e.to_string())
}

/// The fields of an `oxrdf::Triple`, through `NamedNode::as_str`,
/// `BlankNode::as_str`, `Literal::value`, `Literal::datatype` and
/// `Literal::language`. A triple stands in no graph.
#[verifier::external_body]
fn triple_parts(t: &oxrdf::Triple) -> (r: Statement)
    ensures
        r@ == triple_view(*t),
        r@.graph is None,
{
    let subject = match &t.subject {
        NamedOrBlankNode::NamedNode(n) => Node::Named(n.as_str().to_owned()),
        NamedOrBlankNode::BlankNode(b) => Node::Blank(b.as_str().to_owned()),
    };
    let object = match &t.object {
        oxrdf::Term::NamedNode(n) => Node::Named(n.as_str().to_owned()),
        oxrdf::Term::BlankNode(b) => Node::Blank(b.as_str().to_owned()),
        oxrdf::Term::Literal(l) => {
            let datatype = l.datatype().as_str().to_owned();
            Node::Literal { value: l.value().to_owned(), datatype, language: l.language().map(str::to_owned) }
        },
    };
    Statement { subject, predicate: t.predicate.as_str().to_owned(), object, graph: None }
}

/// A statement in another graph.
pub open spec fn in_graph(s: StatementView, graph: Option<NodeView>) -> StatementView {
    StatementView { graph, ..s }
}

/// `oxrdf::Triple::from`: a quad's triple, without the graph.
#[verifier::external_body]
fn quad_triple(q: &OxQuad) -> (r: oxrdf::Triple)
    ensures
        triple_view(r) == in_graph(quad_view(*q), None),
{
    oxrdf::Triple::from(q.clone())
}

/// The graph of an `oxrdf::Quad`, through `NamedNode::as_str` and
/// `BlankNode::as_str`.
#[verifier::external_body]
fn quad_graph(q: &OxQuad) -> (r: Option<Node>)
    ensures
        opt_view(r) == quad_view(*q).graph,
{
    match &q.graph_name {
        GraphName::NamedNode(n) => Some(Node::Named(n.as_str().to_owned())),
        GraphName::BlankNode(b) => Some(Node::Blank(b.as_str().to_owned())),
        GraphName::DefaultGraph => None,
    }
}

/// Triples as the host takes them.
pub fn triples_to_quads(triples: &Vec<oxrdf::Triple>) -> (r: Vec<Quad>)
    ensures
        views(r@) == quads_of(triple_views(triples@)),
        forall|i: int| 0 <= i < r@.len() ==> (#[trigger] r@[i])@.graph is None,
{
    let mut out: Vec<Quad> = Vec::new();
    for i in 0..triples.len()
        invariant
            out@.len() == i,
            forall|j: int|
                0 <= j < i ==> (#[trigger] out@[j])@ == quad_of(triple_view(triples@[j])) && out@[j]@.graph is None,
    {
        out.push(wit_quad_from(&triple_parts(&triples[i])));
    }
    proof {
        assert(views(out@) =~= quads_of(triple_views(triples@)));
    }
    out
}

/// Quads as the host takes them.
pub fn quads_to_quads(quads: &Vec<OxQuad>) -> (r: Vec<Quad>)
    ensures
        views(r@) == quads_of(quad_views(quads@)),
{
    let mut out: Vec<Quad> = Vec::new();
    for i in 0..quads.len()
        invariant
            out@.len() == i,
            forall|j: int| 0 <= j < i ==> (#[trigger] out@[j])@ == quad_of(quad_view(quads@[j])),
    {
        let mut statement = triple_parts(&quad_triple(&quads[i]));
        statement.graph = quad_graph(&quads[i]);
        out.push(wit_quad_from(&statement));
    }
    proof {
        assert(views(out@) =~= quads_of(quad_views(quads@)));
    }
    out
}

/// The triples of a Turtle document.
pub fn turtle_triples(body: &str) -> (r: Result<Vec<oxrdf::Triple>, String>)
    ensures
        turtle_triples_are(r, turtle_read(encode_utf8(body@))),
{
    let bytes = bytes_of(body);
    read_turtle(bytes.as_slice())
}

/// Whether quads, or an error, are what a document in a syntax holds. A Turtle
/// document holds what [`turtle_triples`] reads from it.
pub open spec fn parses(syntax: Syntax, body: Seq<char>, r: Result<Seq<QuadView>, Seq<char>>) -> bool {
    match syntax {
        Syntax::Turtle => exists|text: &str, read: Result<Vec<oxrdf::Triple>, String>|
            text@ == body && #[trigger] call_ensures(turtle_triples, (text,), read) && match (read, r) {
                (Ok(triples), Ok(quads)) => quads == quads_of(triple_views(triples@)),
                (Err(message), Err(e)) => e == "wf_fetch: turtle parse: "@ + message@,
                _ => false,
            },
        Syntax::NTriples => match (ntriples_read(encode_utf8(body)), r) {
            (Ok(statements), Ok(quads)) => quads == quads_of(statements),
            (Err(message), Err(e)) => e == "wf_fetch: n-triples parse: "@ + message,
            _ => false,
        },
        Syntax::NQuads => match (nquads_read(encode_utf8(body)), r) {
            (Ok(statements), Ok(quads)) => quads == quads_of(statements),
            (Err(message), Err(e)) => e == "wf_fetch: n-quads parse: "@ + message,
            _ => false,
        },
    }
}

pub open spec fn quads_or_error(r: Result<Vec<Quad>, String>) -> Result<Seq<QuadView>, Seq<char>> {
    match r {
        Ok(quads) => Ok(views(quads@)),
        Err(e) => Err(e@),
    }
}

/// Reads a document.
pub fn parse_body(syntax: Syntax, body: &str) -> (r: Result<Vec<Quad>, String>)
    ensures
        parses(syntax, body@, quads_or_error(r)),
        !(syntax is NQuads) ==> (r matches Ok(quads) ==> forall|i: int|
            0 <= i < quads@.len() ==> (#[trigger] quads@[i])@.graph is None),
{
    match syntax {
        Syntax::Turtle => match turtle_triples(body) {
            Ok(triples) => Ok(triples_to_quads(&triples)),
            Err(e) => Err("wf_fetch: turtle parse: ".to_owned().concat(&e)),
        },
        Syntax::NTriples => {
            let bytes = bytes_of(body);
            match read_ntriples(bytes.as_slice()) {
                Ok(triples) => Ok(triples_to_quads(&triples)),
                Err(e) => Err("wf_fetch: n-triples parse: ".to_owned().concat(&e)),
            }
        },
        Syntax::NQuads => {
            let bytes = bytes_of(body);
            match read_nquads(bytes.as_slice()) {
                Ok(quads) => Ok(quads_to_quads(&quads)),
                Err(e) => Err("wf_fetch: n-quads parse: ".to_owned().concat(&e)),
            }
        },
    }
}

// ---------------------------------------------------------------------------
// Arguments
// ---------------------------------------------------------------------------

/// What to get, and the sink that takes it.
pub struct Job {
    pub url: String,
    pub sink: String,
}

pub open spec fn job_view(r: Result<Job, String>) -> Result<(Seq<char>, Seq<char>), Seq<char>> {
    match r {
        Ok(job) => Ok((job.url@, job.sink@)),
        Err(e) => Err(e@),
    }
}

/// The text of an argument.
pub open spec fn arg_text(t: TermView, name: Seq<char>) -> Result<Seq<char>, Seq<char>> {
    match t {
        TermView::Literal(l) => Ok(l.value),
        TermView::NamedNode(iri) => Ok(iri),
        _ => Err("wf_fetch: expected "@ + name + " as string/IRI, got "@ + shown(t)),
    }
}

pub open spec fn text_view(r: Result<String, String>) -> Result<Seq<char>, Seq<char>> {
    match r {
        Ok(text) => Ok(text@),
        Err(e) => Err(e@),
    }
}

pub fn arg_as_string(t: &Term, name: &str) -> (r: Result<String, String>)
    ensures
        text_view(r) == arg_text(t@, name@),
{
    match t {
        Term::Literal(l) => Ok(l.value.clone()),
        Term::NamedNode(iri) => Ok(iri.clone()),
        other => Err("wf_fetch: expected ".to_owned().concat(name).concat(" as string/IRI, got ").concat(&show(other))),
    }
}

/// The job that the arguments of a call give.
pub open spec fn job_of(args: Seq<TermView>) -> Result<(Seq<char>, Seq<char>), Seq<char>> {
    if args.len() == 0 {
        Err("wf_fetch: expected two args (url, sink-name)"@)
    } else {
        match arg_text(args[0], "first arg (url)"@) {
            Err(e) => Err(e),
            Ok(url) => if args.len() == 1 {
                Err("wf_fetch: expected two args (url, sink-name)"@)
            } else {
                match arg_text(args[1], "second arg (sink-name)"@) {
                    Err(e) => Err(e),
                    Ok(sink) => Ok((url, sink)),
                }
            },
        }
    }
}

pub fn read_args(args: &Vec<Term>) -> (r: Result<Job, String>)
    ensures
        job_view(r) == job_of(views(args@)),
{
    if args.len() == 0 {
        return Err("wf_fetch: expected two args (url, sink-name)".to_owned());
    }
    proof {
        assert(views(args@)[0] == args@[0]@);
    }
    match arg_as_string(&args[0], "first arg (url)") {
        Err(e) => Err(e),
        Ok(url) => {
            if args.len() == 1 {
                return Err("wf_fetch: expected two args (url, sink-name)".to_owned());
            }
            proof {
                assert(views(args@)[1] == args@[1]@);
            }
            match arg_as_string(&args[1], "second arg (sink-name)") {
                Err(e) => Err(e),
                Ok(sink) => Ok(Job { url, sink }),
            }
        },
    }
}

// ---------------------------------------------------------------------------
// The call
// ---------------------------------------------------------------------------

/// What a call asks for.
pub enum Action {
    /// A document, with the `accept` header [`ACCEPT`].
    Get(String),
    /// Statements for a sink.
    Emit(String, Vec<Quad>),
    /// Nothing more: the result of the call.
    Finish(Result<Term, String>),
}

pub enum ActionView {
    Get(Seq<char>),
    Emit(Seq<char>, Seq<QuadView>),
    Finish(Result<TermView, Seq<char>>),
}

impl View for Action {
    type V = ActionView;

    open spec fn view(&self) -> ActionView {
        match self {
            Action::Get(url) => ActionView::Get(url@),
            Action::Emit(sink, quads) => ActionView::Emit(sink@, views(quads@)),
            Action::Finish(r) => ActionView::Finish(outcome(*r)),
        }
    }
}

/// A response to a request for a document.
pub struct Response {
    pub status: u16,
    pub headers: Vec<HttpHeader>,
    pub body: String,
}

/// What came of an action.
pub enum Event {
    Response(Response),
    /// How many statements the sink took.
    Accepted(u64),
    Failed(String),
}

/// How the failure of a request is told.
pub open spec fn http_failure(e: HttpError) -> Seq<char> {
    match e {
        HttpError::Status(code) => "http-callbacks non-2xx status: "@ + decimal_of(code as nat),
        other => http_error_text(other),
    }
}

pub fn map_http_err(e: &HttpError) -> (r: String)
    ensures
        r@ == http_failure(*e),
{
    match e {
        HttpError::Status(code) => "http-callbacks non-2xx status: ".to_owned().concat(&decimal(*code as u64)),
        other => guest::map_http_err(other),
    }
}

/// How far a call has come: what it waits for.
pub enum Stage {
    Getting,
    /// The sink, to take the statements of so many bytes.
    Emitting(u64),
    /// Nothing: the call has finished.
    Over,
}

/// The first request of a call.
pub fn begin(job: &Job) -> (r: (Stage, Action))
    ensures
        (r.0, r.1@) == (Stage::Getting, ActionView::Get(job.url@)),
{
    (Stage::Getting, Action::Get(job.url.clone()))
}

/// A call's summary.
pub open spec fn fetch_summary(fetched: u64, emitted: u64) -> (Stage, ActionView) {
    (
        Stage::Over,
        ActionView::Finish(Ok(summary_of(seq![("fetched"@, fetched), ("emitted"@, emitted)]))),
    )
}

fn finish(fetched: u64, emitted: u64) -> (r: (Stage, Action))
    ensures
        (r.0, r.1@) == fetch_summary(fetched, emitted),
{
    let counts = vec![("fetched", fetched), ("emitted", emitted)];
    proof {
        assert(count_views(counts@) =~= seq![("fetched"@, fetched), ("emitted"@, emitted)]);
    }
    (Stage::Over, Action::Finish(Ok(summarize(&counts))))
}

pub open spec fn failing(e: Seq<char>) -> (Stage, ActionView) {
    (Stage::Over, ActionView::Finish(Err(e)))
}

fn fail(e: String) -> (r: (Stage, Action))
    ensures
        (r.0, r.1@) == failing(e@),
{
    (Stage::Over, Action::Finish(Err(e)))
}

/// What the statements of a document of so many bytes lead to.
pub open spec fn taken(job: Job, fetched: u64, read: Result<Seq<QuadView>, Seq<char>>) -> (Stage, ActionView) {
    match read {
        Err(e) => failing(e),
        Ok(quads) => if quads.len() == 0 {
            fetch_summary(fetched, 0)
        } else {
            (Stage::Emitting(fetched), ActionView::Emit(job.sink@, quads))
        },
    }
}

/// Goes on with the statements of a document.
pub fn take(job: &Job, fetched: u64, read: Result<Vec<Quad>, String>) -> (r: (Stage, Action))
    ensures
        (r.0, r.1@) == taken(*job, fetched, quads_or_error(read)),
{
    match read {
        Err(e) => fail(e),
        Ok(quads) => {
            if quads.len() == 0 {
                finish(fetched, 0)
            } else {
                (Stage::Emitting(fetched), Action::Emit(job.sink.clone(), quads))
            }
        },
    }
}

pub open spec fn status_text(job: Job, status: u16) -> Seq<char> {
    "wf_fetch: HTTP "@ + decimal_of(status as nat) + " from "@ + job.url@
}

/// Whether an event leads there.
pub open spec fn leads(job: Job, stage: Stage, event: Event, to: (Stage, ActionView)) -> bool {
    match (stage, event) {
        (Stage::Getting, Event::Response(response)) => if 200 <= response.status < 300 {
            exists|read: Result<Seq<QuadView>, Seq<char>>| #[trigger]
                parses(syntax_in(views(response.headers@)), response.body@, read) && to == taken(
                    job,
                    encode_utf8(response.body@).len() as u64,
                    read,
                )
        } else {
            to == failing(status_text(job, response.status))
        },
        (Stage::Emitting(fetched), Event::Accepted(n)) => to == fetch_summary(fetched, n),
        (Stage::Over, _) => to == failing("wf_fetch: reply out of turn"@),
        (_, Event::Failed(e)) => to == failing(e@),
        _ => to == failing("wf_fetch: reply out of turn"@),
    }
}

/// Moves a call on.
pub fn step(job: &Job, stage: Stage, event: Event) -> (r: (Stage, Action))
    ensures
        leads(*job, stage, event, (r.0, r.1@)),
{
    match stage {
        Stage::Getting => match event {
            Event::Response(response) => {
                if response.status < 200 || response.status >= 300 {
                    return fail(
                        "wf_fetch: HTTP ".to_owned().concat(&decimal_usize(response.status as usize)).concat(
                            " from ",
                        ).concat(&job.url),
                    );
                }
                let fetched: u64 = bytes_of(&response.body).len() as u64;
                let read = parse_body(syntax_from_content_type(&response.headers), &response.body);
                take(job, fetched, read)
            },
            Event::Failed(e) => fail(e),
            _ => fail("wf_fetch: reply out of turn".to_owned()),
        },
        Stage::Emitting(fetched) => match event {
            Event::Accepted(n) => finish(fetched, n),
            Event::Failed(e) => fail(e),
            _ => fail("wf_fetch: reply out of turn".to_owned()),
        },
        Stage::Over => fail("wf_fetch: reply out of turn".to_owned()),
    }
}

// ---------------------------------------------------------------------------
// Laws
// ---------------------------------------------------------------------------

/// The term for a node of a Turtle document.
pub open spec fn stands_for(t: TermView, n: TurtleNode) -> bool {
    match n {
        TurtleNode::Given(node) => t == term_of_node(node),
        TurtleNode::Anonymous(_) => t is BlankNode,
    }
}

/// Which blank node is which is kept when a Turtle document is read: every node
/// that the document labels has its label, and a node without a label has one
/// label in all its statements.
pub proof fn blank_nodes_keep_their_identity(body: Seq<char>, quads: Seq<QuadView>)
    requires
        parses(Syntax::Turtle, body, Ok(quads)),
    ensures
        turtle_read(encode_utf8(body)) matches Ok(statements) && quads.len() == statements.len() && (forall|i: int|
            0 <= i < quads.len() ==> stands_for((#[trigger] quads[i]).subject, statements[i].subject)
                && quads[i].predicate == TermView::NamedNode(statements[i].predicate) && stands_for(
                quads[i].object,
                statements[i].object,
            )) && (forall|i: int, j: int|
            #![trigger quads[i], quads[j]]
            0 <= i < quads.len() && 0 <= j < quads.len() ==> {
                &&& statements[i].subject == statements[j].subject ==> quads[i].subject == quads[j].subject
                &&& statements[i].subject == statements[j].object ==> quads[i].subject == quads[j].object
                &&& statements[i].object == statements[j].object ==> quads[i].object == quads[j].object
            }),
{
    let (text, read) = choose|text: &str, read: Result<Vec<oxrdf::Triple>, String>|
        text@ == body && #[trigger] call_ensures(turtle_triples, (text,), read) && match (
            read,
            Ok::<Seq<QuadView>, Seq<char>>(quads),
        ) {
            (Ok(triples), Ok(quads)) => quads == quads_of(triple_views(triples@)),
            (Err(message), Err(e)) => e == "wf_fetch: turtle parse: "@ + message@,
            _ => false,
        };
    assert(turtle_triples_are(read, turtle_read(encode_utf8(body))));
}

/// Parameters behind the media type do not decide the syntax.
pub proof fn parameters_do_not_matter(media: Seq<char>, parameters: Seq<char>)
    requires
        !media.contains(';'),
    ensures
        syntax_of(media_of(media + seq![';'] + parameters)) == syntax_of(media_of(media)),
{
    let with = lower_all(media + seq![';'] + parameters);
    let without = lower_all(media);
    assert(with =~= without + seq![';'] + lower_all(parameters));
    assert(!without.contains(';')) by {
        if without.contains(';') {
            let i = choose|i: int| 0 <= i < without.len() && without[i] == ';';
            assert(media[i] == ';');
        }
    }
    first_piece(without, lower_all(parameters));
}

/// What stands before the first semicolon is the first piece.
pub proof fn first_piece(front: Seq<char>, back: Seq<char>)
    requires
        !front.contains(';'),
    ensures
        pieces(front + seq![';'] + back, ';')[0] == front,
        pieces(front, ';')[0] == front,
    decreases back.len(), front.len(),
{
    let whole = front + seq![';'] + back;
    pieces_nonempty(whole, ';');
    pieces_nonempty(front, ';');
    if back.len() == 0 {
        assert(whole.drop_last() =~= front);
        whole_piece(front);
        pieces_nonempty(front, ';');
    } else {
        first_piece(front, back.drop_last());
        assert(whole.drop_last() =~= front + seq![';'] + back.drop_last());
        more_pieces(front, back.drop_last());
    }
}

proof fn whole_piece(s: Seq<char>)
    requires
        !s.contains(';'),
    ensures
        pieces(s, ';') == seq![s],
    decreases s.len(),
{
    if s.len() > 0 {
        let rest = s.drop_last();
        assert(!rest.contains(';')) by {
            if rest.contains(';') {
                let i = choose|i: int| 0 <= i < rest.len() && rest[i] == ';';
                assert(s[i] == ';');
            }
        }
        whole_piece(rest);
        assert(s[s.len() - 1] != ';');
        assert(rest.push(s.last()) =~= s);
        assert(pieces(s, ';') =~= seq![s]);
    } else {
        assert(s =~= Seq::empty());
    }
}

proof fn more_pieces(front: Seq<char>, back: Seq<char>)
    ensures
        pieces(front + seq![';'] + back, ';').len() > 1,
    decreases back.len(),
{
    let whole = front + seq![';'] + back;
    if back.len() == 0 {
        assert(whole.drop_last() =~= front);
        pieces_nonempty(front, ';');
    } else {
        assert(whole.drop_last() =~= front + seq![';'] + back.drop_last());
        more_pieces(front, back.drop_last());
    }
}

// ---------------------------------------------------------------------------
// The component
// ---------------------------------------------------------------------------

pub fn register() -> (r: Vec<FunctionDescriptor>)
    ensures
        r@.len() == 1,
        describes(r@[0], "fetch"@, 2),
{
    one_function("fetch", 2)
}

/// Whether the component offers the function.
pub fn offers(name: &str) -> (r: Result<(), String>)
    ensures
        r is Ok <==> name@ == "fetch"@,
        r matches Err(e) ==> e@ == unknown_function_text(COMPONENT@, name@),
{
    if same(name, "fetch") {
        Ok(())
    } else {
        Err(unknown_function(COMPONENT, name))
    }
}

/// The state of an aggregate. The component has none, so none is ever made.
pub struct UnreachableState;

impl UnreachableState {
    pub fn step(&self, args: Vec<Term>) -> (r: Result<(), String>)
        ensures
            r matches Err(e) && e@ == never_constructed_text(COMPONENT@),
    {
        Err(never_constructed(COMPONENT))
    }

    pub fn finish(&self) -> (r: Result<Term, String>)
        ensures
            r matches Err(e) && e@ == never_constructed_text(COMPONENT@),
    {
        Err(never_constructed(COMPONENT))
    }
}

} // verus!

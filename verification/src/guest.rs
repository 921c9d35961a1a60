//! What every component says of itself: its functions, and that it has no
//! aggregates and no property functions.

use vstd::prelude::*;
use vstd::string::*;

use crate::number::{decimal, decimal_of};
use crate::rdf::{group_bindings_into_rows, grouped, row_views, Binding, BindingView, QueryResult, QueryResultView};

verus! {

/// A function that a component offers.
#[derive(Debug, PartialEq, Eq)]
pub struct FunctionDescriptor {
    pub name: String,
    pub min_arity: u32,
    pub max_arity: Option<u32>,
}

/// Whether `d` describes a function of exactly `arity` arguments.
pub open spec fn describes(d: FunctionDescriptor, name: Seq<char>, arity: u32) -> bool {
    d.name@ == name && d.min_arity == arity && d.max_arity == Some(arity)
}

/// One function of a fixed number of arguments.
pub fn one_function(name: &str, arity: u32) -> (r: Vec<FunctionDescriptor>)
    ensures
        r@.len() == 1,
        describes(r@[0], name@, arity),
{
    let mut r: Vec<FunctionDescriptor> = Vec::new();
    r.push(FunctionDescriptor { name: name.to_owned(), min_arity: arity, max_arity: Some(arity) });
    r
}

pub open spec fn unknown_function_text(component: Seq<char>, name: Seq<char>) -> Seq<char> {
    component + ": unknown function '"@ + name + "'"@
}

/// The refusal of a call to a function that the component does not offer.
pub fn unknown_function(component: &str, name: &str) -> (r: String)
    ensures
        r@ == unknown_function_text(component@, name@),
{
    component.to_owned().concat(": unknown function '").concat(name).concat("'")
}

pub open spec fn unknown_aggregate_text(component: Seq<char>, name: Seq<char>) -> Seq<char> {
    component + ": unknown aggregate '"@ + name + "' (this component provides none)"@
}

/// The refusal of an aggregate.
pub fn unknown_aggregate(component: &str, name: &str) -> (r: String)
    ensures
        r@ == unknown_aggregate_text(component@, name@),
{
    component.to_owned().concat(": unknown aggregate '").concat(name).concat(
        "' (this component provides none)",
    )
}

pub open spec fn unknown_property_text(component: Seq<char>, name: Seq<char>) -> Seq<char> {
    component + ": unknown property function '"@ + name + "' (this component provides none)"@
}

/// The refusal of a property function.
pub fn unknown_property(component: &str, name: &str) -> (r: String)
    ensures
        r@ == unknown_property_text(component@, name@),
{
    component.to_owned().concat(": unknown property function '").concat(name).concat(
        "' (this component provides none)",
    )
}

pub open spec fn never_constructed_text(component: Seq<char>) -> Seq<char> {
    component + ": aggregate state was never constructed"@
}

/// The refusal of a step of an aggregate that cannot exist.
pub fn never_constructed(component: &str) -> (r: String)
    ensures
        r@ == never_constructed_text(component@),
{
    component.to_owned().concat(": aggregate state was never constructed")
}

// ---------------------------------------------------------------------------
// Failures of the host
// ---------------------------------------------------------------------------

/// Why the graph refused a query or an update.
#[derive(Debug)]
pub enum GraphError {
    SyntaxError(String),
    BackendError(String),
    NotPermitted(String),
}

pub open spec fn graph_error_text(e: GraphError) -> Seq<char> {
    match e {
        GraphError::SyntaxError(m) => "graph-callbacks syntax-error: "@ + m@,
        GraphError::BackendError(m) => "graph-callbacks backend-error: "@ + m@,
        GraphError::NotPermitted(m) => "graph-callbacks not-permitted: "@ + m@,
    }
}

pub fn map_graph_err(e: &GraphError) -> (r: String)
    ensures
        r@ == graph_error_text(*e),
{
    match e {
        GraphError::SyntaxError(m) => "graph-callbacks syntax-error: ".to_owned().concat(m),
        GraphError::BackendError(m) => "graph-callbacks backend-error: ".to_owned().concat(m),
        GraphError::NotPermitted(m) => "graph-callbacks not-permitted: ".to_owned().concat(m),
    }
}

/// Why a sink refused quads.
#[derive(Debug)]
pub enum SinkError {
    NoSuchSink(String),
    SchemaViolation(String),
    BackendError(String),
    NotPermitted(String),
}

pub open spec fn sink_error_text(e: SinkError) -> Seq<char> {
    match e {
        SinkError::NoSuchSink(m) => "sink-callbacks no-such-sink: "@ + m@,
        SinkError::SchemaViolation(m) => "sink-callbacks schema-violation: "@ + m@,
        SinkError::BackendError(m) => "sink-callbacks backend-error: "@ + m@,
        SinkError::NotPermitted(m) => "sink-callbacks not-permitted: "@ + m@,
    }
}

pub fn map_sink_err(e: &SinkError) -> (r: String)
    ensures
        r@ == sink_error_text(*e),
{
    match e {
        SinkError::NoSuchSink(m) => "sink-callbacks no-such-sink: ".to_owned().concat(m),
        SinkError::SchemaViolation(m) => "sink-callbacks schema-violation: ".to_owned().concat(m),
        SinkError::BackendError(m) => "sink-callbacks backend-error: ".to_owned().concat(m),
        SinkError::NotPermitted(m) => "sink-callbacks not-permitted: ".to_owned().concat(m),
    }
}

/// Why a component could not be invoked.
#[derive(Debug)]
pub enum WasmError {
    NotFound(String),
    InvocationError(String),
    NotPermitted(String),
}

pub open spec fn wasm_error_text(e: WasmError) -> Seq<char> {
    match e {
        WasmError::NotFound(m) => "wasm-callbacks not-found: "@ + m@,
        WasmError::InvocationError(m) => "wasm-callbacks invocation-error: "@ + m@,
        WasmError::NotPermitted(m) => "wasm-callbacks not-permitted: "@ + m@,
    }
}

pub fn map_wasm_err(e: &WasmError) -> (r: String)
    ensures
        r@ == wasm_error_text(*e),
{
    match e {
        WasmError::NotFound(m) => "wasm-callbacks not-found: ".to_owned().concat(m),
        WasmError::InvocationError(m) => "wasm-callbacks invocation-error: ".to_owned().concat(m),
        WasmError::NotPermitted(m) => "wasm-callbacks not-permitted: ".to_owned().concat(m),
    }
}

/// Why a prepared query failed.
#[derive(Debug)]
pub enum PreparedError {
    SyntaxError(String),
    BackendError(String),
    UnknownHandle,
}

pub open spec fn prepared_error_text(e: PreparedError) -> Seq<char> {
    match e {
        PreparedError::SyntaxError(m) => "prepared-query syntax-error: "@ + m@,
        PreparedError::BackendError(m) => "prepared-query backend-error: "@ + m@,
        PreparedError::UnknownHandle => "prepared-query unknown-handle"@,
    }
}

pub fn map_prepared_err(e: &PreparedError) -> (r: String)
    ensures
        r@ == prepared_error_text(*e),
{
    match e {
        PreparedError::SyntaxError(m) => "prepared-query syntax-error: ".to_owned().concat(m),
        PreparedError::BackendError(m) => "prepared-query backend-error: ".to_owned().concat(m),
        PreparedError::UnknownHandle => "prepared-query unknown-handle".to_owned(),
    }
}

/// Why a sink could not be read.
#[derive(Debug)]
pub enum SinkQueryError {
    NoSuchSink(String),
    SyntaxError(String),
    BackendError(String),
    NotPermitted(String),
}

pub open spec fn sink_query_error_text(e: SinkQueryError) -> Seq<char> {
    match e {
        SinkQueryError::NoSuchSink(m) => "sink-query no-such-sink: "@ + m@,
        SinkQueryError::SyntaxError(m) => "sink-query syntax-error: "@ + m@,
        SinkQueryError::BackendError(m) => "sink-query backend-error: "@ + m@,
        SinkQueryError::NotPermitted(m) => "sink-query not-permitted: "@ + m@,
    }
}

pub fn map_sink_query_err(e: &SinkQueryError) -> (r: String)
    ensures
        r@ == sink_query_error_text(*e),
{
    match e {
        SinkQueryError::NoSuchSink(m) => "sink-query no-such-sink: ".to_owned().concat(m),
        SinkQueryError::SyntaxError(m) => "sink-query syntax-error: ".to_owned().concat(m),
        SinkQueryError::BackendError(m) => "sink-query backend-error: ".to_owned().concat(m),
        SinkQueryError::NotPermitted(m) => "sink-query not-permitted: ".to_owned().concat(m),
    }
}

/// Why a document sink failed.
#[derive(Debug)]
pub enum DocumentSinkError {
    NoSuchSink(String),
    NoSuchDocument(String),
    BackendError(String),
    NotPermitted(String),
}

pub open spec fn doc_error_text(e: DocumentSinkError) -> Seq<char> {
    match e {
        DocumentSinkError::NoSuchSink(m) => "document-sink no-such-sink: "@ + m@,
        DocumentSinkError::NoSuchDocument(m) => "document-sink no-such-document: "@ + m@,
        DocumentSinkError::BackendError(m) => "document-sink backend-error: "@ + m@,
        DocumentSinkError::NotPermitted(m) => "document-sink not-permitted: "@ + m@,
    }
}

pub fn map_doc_err(e: &DocumentSinkError) -> (r: String)
    ensures
        r@ == doc_error_text(*e),
{
    match e {
        DocumentSinkError::NoSuchSink(m) => "document-sink no-such-sink: ".to_owned().concat(m),
        DocumentSinkError::NoSuchDocument(m) => "document-sink no-such-document: ".to_owned().concat(m),
        DocumentSinkError::BackendError(m) => "document-sink backend-error: ".to_owned().concat(m),
        DocumentSinkError::NotPermitted(m) => "document-sink not-permitted: ".to_owned().concat(m),
    }
}

/// Why a request over HTTP failed.
#[derive(Debug)]
pub enum HttpError {
    Network(String),
    Status(u16),
    InvalidRequest(String),
    NotPermitted(String),
}

pub open spec fn http_error_text(e: HttpError) -> Seq<char> {
    match e {
        HttpError::Network(m) => "http-callbacks network: "@ + m@,
        HttpError::Status(c) => "http-callbacks non-2xx: "@ + decimal_of(c as nat),
        HttpError::InvalidRequest(m) => "http-callbacks invalid-request: "@ + m@,
        HttpError::NotPermitted(m) => "http-callbacks not-permitted: "@ + m@,
    }
}

pub fn map_http_err(e: &HttpError) -> (r: String)
    ensures
        r@ == http_error_text(*e),
{
    match e {
        HttpError::Network(m) => "http-callbacks network: ".to_owned().concat(m),
        HttpError::Status(c) => "http-callbacks non-2xx: ".to_owned().concat(&decimal(*c as u64)),
        HttpError::InvalidRequest(m) => "http-callbacks invalid-request: ".to_owned().concat(m),
        HttpError::NotPermitted(m) => "http-callbacks not-permitted: ".to_owned().concat(m),
    }
}

/// Why a tracker's table failed.
#[derive(Debug)]
pub enum TrackerError {
    NoSuchSink(String),
    NoSuchTable(String),
    NoSuchRow(String),
    SchemaViolation(String),
    BackendError(String),
    NotPermitted(String),
}

pub open spec fn tracker_error_text(e: TrackerError) -> Seq<char> {
    match e {
        TrackerError::NoSuchSink(m) => "tracker-sink no-such-sink: "@ + m@,
        TrackerError::NoSuchTable(m) => "tracker-sink no-such-table: "@ + m@,
        TrackerError::NoSuchRow(m) => "tracker-sink no-such-row: "@ + m@,
        TrackerError::SchemaViolation(m) => "tracker-sink schema-violation: "@ + m@,
        TrackerError::BackendError(m) => "tracker-sink backend-error: "@ + m@,
        TrackerError::NotPermitted(m) => "tracker-sink not-permitted: "@ + m@,
    }
}

pub fn map_tracker_err(e: &TrackerError) -> (r: String)
    ensures
        r@ == tracker_error_text(*e),
{
    match e {
        TrackerError::NoSuchSink(m) => "tracker-sink no-such-sink: ".to_owned().concat(m),
        TrackerError::NoSuchTable(m) => "tracker-sink no-such-table: ".to_owned().concat(m),
        TrackerError::NoSuchRow(m) => "tracker-sink no-such-row: ".to_owned().concat(m),
        TrackerError::SchemaViolation(m) => "tracker-sink schema-violation: ".to_owned().concat(m),
        TrackerError::BackendError(m) => "tracker-sink backend-error: ".to_owned().concat(m),
        TrackerError::NotPermitted(m) => "tracker-sink not-permitted: ".to_owned().concat(m),
    }
}

// ---------------------------------------------------------------------------
// Results of queries
// ---------------------------------------------------------------------------

/// What a SELECT gave: its rows, or why there are none.
pub open spec fn rows_of(component: Seq<char>, result: QueryResultView) -> Result<Seq<Seq<BindingView>>, Seq<char>> {
    match result {
        QueryResultView::Bindings(flat) => Ok(grouped(flat)),
        QueryResultView::Quads(_) => Err(
            component + ": SELECT expected but graph-callbacks returned quads"@,
        ),
        QueryResultView::Boolean(_) => Err(
            component + ": SELECT expected but graph-callbacks returned boolean"@,
        ),
    }
}

/// The view of rows or an error message.
pub open spec fn rows_or_error(r: Result<Vec<Vec<Binding>>, String>) -> Result<Seq<Seq<BindingView>>, Seq<char>> {
    match r {
        Ok(rows) => Ok(row_views(rows@)),
        Err(e) => Err(e@),
    }
}

/// The rows of a SELECT's result.
pub fn select_rows(component: &str, result: QueryResult) -> (r: Result<Vec<Vec<Binding>>, String>)
    ensures
        rows_or_error(r) == rows_of(component@, result@),
{
    match result {
        QueryResult::Bindings(flat) => Ok(group_bindings_into_rows(flat)),
        QueryResult::Quads(_) => Err(
            component.to_owned().concat(": SELECT expected but graph-callbacks returned quads"),
        ),
        QueryResult::Boolean(_) => Err(
            component.to_owned().concat(": SELECT expected but graph-callbacks returned boolean"),
        ),
    }
}

} // verus!

//! The classification of a predicate. A few queries count how its statements
//! look; from the counts follow a shape, a cardinality and a type of values.

use vstd::prelude::*;
use vstd::string::*;

use crate::host::{Reply, ReplyView};
use crate::json::{integer, integer_json, no_fields, no_fields_wf, number_view, object_view, put_field, put_wf, Fields,
    Json, JsonView};
use crate::rdf::{binding_int, binding_iri, group_bindings_into_rows, grouped, int_in, row_views, text_in, Binding,
    BindingView, QueryResult, QueryResultView, RDF_FIRST, RDF_REST};
use crate::text::{same, views};

verus! {

// ---------------------------------------------------------------------------
// Queries
// ---------------------------------------------------------------------------

/// A predicate to classify.
pub struct Subject {
    pub predicate: String,
    /// How the query for the elements of lists begins.
    pub list_head: String,
}

pub struct SubjectView {
    pub predicate: Seq<char>,
    pub list_head: Seq<char>,
}

impl View for Subject {
    type V = SubjectView;

    open spec fn view(&self) -> SubjectView {
        SubjectView { predicate: self.predicate@, list_head: self.list_head@ }
    }
}

/// How many values a subject has at most.
pub open spec fn cardinality_text(predicate: Seq<char>) -> Seq<char> {
    "SELECT (MAX(?c) AS ?maxc) WHERE { SELECT ?s (COUNT(?o) AS ?c) WHERE { ?s <"@ + predicate
        + "> ?o } GROUP BY ?s }"@
}

fn cardinality_query(predicate: &str) -> (r: String)
    ensures
        r@ == cardinality_text(predicate@),
{
    "SELECT (MAX(?c) AS ?maxc) WHERE { SELECT ?s (COUNT(?o) AS ?c) WHERE { ?s <".to_owned().concat(predicate).concat(
        "> ?o } GROUP BY ?s }",
    )
}

/// How many values are names, literals and blank nodes.
pub open spec fn mix_text(predicate: Seq<char>) -> Seq<char> {
    "SELECT (SUM(IF(isIRI(?o), 1, 0)) AS ?iris) (SUM(IF(isLiteral(?o), 1, 0)) AS ?lits) (SUM(IF(isBlank(?o), 1, 0)) AS ?bns) WHERE { ?s <"@
        + predicate + "> ?o }"@
}

fn mix_query(predicate: &str) -> (r: String)
    ensures
        r@ == mix_text(predicate@),
{
    "SELECT (SUM(IF(isIRI(?o), 1, 0)) AS ?iris) (SUM(IF(isLiteral(?o), 1, 0)) AS ?lits) (SUM(IF(isBlank(?o), 1, 0)) AS ?bns) WHERE { ?s <".to_owned().concat(
        predicate,
    ).concat("> ?o }")
}

/// Whether a value is the head of a collection.
pub open spec fn listing_text(predicate: Seq<char>) -> Seq<char> {
    "SELECT ?head WHERE { ?s <"@ + predicate + "> ?head . ?head <"@ + RDF_FIRST@ + "> ?_f ; <"@ + RDF_REST@
        + ">  ?_r . } LIMIT 1"@
}

fn listing_query(predicate: &str) -> (r: String)
    ensures
        r@ == listing_text(predicate@),
{
    "SELECT ?head WHERE { ?s <".to_owned().concat(predicate).concat("> ?head . ?head <").concat(RDF_FIRST).concat(
        "> ?_f ; <",
    ).concat(RDF_REST).concat(">  ?_r . } LIMIT 1")
}

/// The most frequent datatype of the elements of the collections.
pub open spec fn list_type_text(subject: SubjectView) -> Seq<char> {
    subject.list_head + "?s <"@ + subject.predicate + "> ?head . ?head <"@ + RDF_REST@ + ">*/<"@ + RDF_FIRST@
        + "> ?item . FILTER(isLiteral(?item)) BIND(datatype(?item) AS ?dt) } GROUP BY ?dt ORDER BY DESC(?n) LIMIT 1"@
}

fn list_type_query(subject: &Subject) -> (r: String)
    ensures
        r@ == list_type_text(subject@),
{
    subject.list_head.clone().concat("?s <").concat(&subject.predicate).concat("> ?head . ?head <").concat(
        RDF_REST,
    ).concat(">*/<").concat(RDF_FIRST).concat(
        "> ?item . FILTER(isLiteral(?item)) BIND(datatype(?item) AS ?dt) } GROUP BY ?dt ORDER BY DESC(?n) LIMIT 1",
    )
}

/// The most frequent datatype of the values.
pub open spec fn datatype_text(predicate: Seq<char>) -> Seq<char> {
    "SELECT ?dt (COUNT(*) AS ?n) WHERE { ?s <"@ + predicate
        + "> ?o . FILTER(isLiteral(?o)) BIND(datatype(?o) AS ?dt) } GROUP BY ?dt ORDER BY DESC(?n) LIMIT 1"@
}

fn datatype_query(predicate: &str) -> (r: String)
    ensures
        r@ == datatype_text(predicate@),
{
    "SELECT ?dt (COUNT(*) AS ?n) WHERE { ?s <".to_owned().concat(predicate).concat(
        "> ?o . FILTER(isLiteral(?o)) BIND(datatype(?o) AS ?dt) } GROUP BY ?dt ORDER BY DESC(?n) LIMIT 1",
    )
}

// ---------------------------------------------------------------------------
// Types of values
// ---------------------------------------------------------------------------

pub open spec fn says_integer(datatype: Seq<char>) -> bool {
    ||| datatype == "http://www.w3.org/2001/XMLSchema#integer"@
    ||| datatype == "http://www.w3.org/2001/XMLSchema#int"@
    ||| datatype == "http://www.w3.org/2001/XMLSchema#long"@
    ||| datatype == "http://www.w3.org/2001/XMLSchema#short"@
    ||| datatype == "http://www.w3.org/2001/XMLSchema#byte"@
    ||| datatype == "http://www.w3.org/2001/XMLSchema#nonNegativeInteger"@
    ||| datatype == "http://www.w3.org/2001/XMLSchema#positiveInteger"@
}

pub open spec fn says_decimal(datatype: Seq<char>) -> bool {
    ||| datatype == "http://www.w3.org/2001/XMLSchema#decimal"@
    ||| datatype == "http://www.w3.org/2001/XMLSchema#double"@
    ||| datatype == "http://www.w3.org/2001/XMLSchema#float"@
}

pub open spec fn says_date(datatype: Seq<char>) -> bool {
    ||| datatype == "http://www.w3.org/2001/XMLSchema#date"@
    ||| datatype == "http://www.w3.org/2001/XMLSchema#gYear"@
    ||| datatype == "http://www.w3.org/2001/XMLSchema#gYearMonth"@
}

/// The column type for a datatype.
pub open spec fn column_type(datatype: Seq<char>) -> Seq<char> {
    if says_integer(datatype) {
        "integer"@
    } else if says_decimal(datatype) {
        "decimal"@
    } else if datatype == "http://www.w3.org/2001/XMLSchema#boolean"@ {
        "boolean"@
    } else if says_date(datatype) {
        "date"@
    } else if datatype == "http://www.w3.org/2001/XMLSchema#dateTime"@ {
        "datetime"@
    } else {
        "string"@
    }
}

pub fn xsd_to_column_type(datatype: &str) -> (r: String)
    ensures
        r@ == column_type(datatype@),
{
    if same(datatype, "http://www.w3.org/2001/XMLSchema#integer") || same(
        datatype,
        "http://www.w3.org/2001/XMLSchema#int",
    ) || same(datatype, "http://www.w3.org/2001/XMLSchema#long") || same(
        datatype,
        "http://www.w3.org/2001/XMLSchema#short",
    ) || same(datatype, "http://www.w3.org/2001/XMLSchema#byte") || same(
        datatype,
        "http://www.w3.org/2001/XMLSchema#nonNegativeInteger",
    ) || same(datatype, "http://www.w3.org/2001/XMLSchema#positiveInteger") {
        "integer".to_owned()
    } else if same(datatype, "http://www.w3.org/2001/XMLSchema#decimal") || same(
        datatype,
        "http://www.w3.org/2001/XMLSchema#double",
    ) || same(datatype, "http://www.w3.org/2001/XMLSchema#float") {
        "decimal".to_owned()
    } else if same(datatype, "http://www.w3.org/2001/XMLSchema#boolean") {
        "boolean".to_owned()
    } else if same(datatype, "http://www.w3.org/2001/XMLSchema#date") || same(
        datatype,
        "http://www.w3.org/2001/XMLSchema#gYear",
    ) || same(datatype, "http://www.w3.org/2001/XMLSchema#gYearMonth") {
        "date".to_owned()
    } else if same(datatype, "http://www.w3.org/2001/XMLSchema#dateTime") {
        "datetime".to_owned()
    } else {
        "string".to_owned()
    }
}

// ---------------------------------------------------------------------------
// The classification
// ---------------------------------------------------------------------------

/// What a classification rests on. It decides the shape, and how sure the
/// classification is.
#[derive(Copy, Clone, Debug, PartialEq, Eq, Structural)]
pub enum Basis {
    /// The values are collections.
    Collections,
    /// Literals, at most one for each subject.
    SingleLiterals,
    ManyLiterals,
    /// Names, at most one for each subject.
    SingleNames,
    ManyNames,
    /// A mixture in which blank nodes occur.
    BlankNodes,
    Mixture,
}

/// The shape's name.
pub open spec fn shape_of(b: Basis) -> Seq<char> {
    match b {
        Basis::Collections => "list"@,
        Basis::SingleLiterals => "attribute"@,
        Basis::ManyLiterals => "child_table"@,
        Basis::SingleNames => "foreign_key"@,
        _ => "graph"@,
    }
}

fn shape_name(b: Basis) -> (r: String)
    ensures
        r@ == shape_of(b),
{
    match b {
        Basis::Collections => "list".to_owned(),
        Basis::SingleLiterals => "attribute".to_owned(),
        Basis::ManyLiterals => "child_table".to_owned(),
        Basis::SingleNames => "foreign_key".to_owned(),
        _ => "graph".to_owned(),
    }
}

/// How many values a subject may have.
pub open spec fn cardinality_of(most: i64, subjects: i64) -> Seq<char> {
    if most <= 1 {
        "0..1"@
    } else if subjects > 0 {
        "0..n"@
    } else {
        "0..1"@
    }
}

pub fn cardinality_name(most: i64, subjects: i64) -> (r: String)
    ensures
        r@ == cardinality_of(most, subjects),
{
    if most <= 1 {
        "0..1".to_owned()
    } else if subjects > 0 {
        "0..n".to_owned()
    } else {
        "0..1".to_owned()
    }
}

/// What has been counted.
#[derive(Copy, Clone, Debug, PartialEq, Eq, Structural)]
pub struct Facts {
    /// How many values a subject has at most.
    pub most: i64,
    pub iris: i64,
    pub lits: i64,
    pub bns: i64,
    /// Whether nearly all values are literals.
    pub literals: bool,
    /// Whether nearly all values are names.
    pub names: bool,
}

/// How many values there are, but one at least.
pub open spec fn total(f: Facts) -> i64 {
    let sum = f.iris.wrapping_add(f.lits).wrapping_add(f.bns);
    if sum < 1 {
        1
    } else {
        sum
    }
}

fn count_all(f: &Facts) -> (r: i64)
    ensures
        r == total(*f),
{
    let sum: i64 = f.iris.wrapping_add(f.lits).wrapping_add(f.bns);
    if sum < 1 {
        1
    } else {
        sum
    }
}

/// What a classification says.
pub struct Class {
    pub basis: Basis,
    pub target_type: String,
    pub most: i64,
    /// How sure it is.
    pub confidence: serde_json::Number,
}

pub struct ClassView {
    pub basis: Basis,
    pub target_type: Seq<char>,
    pub most: i64,
    pub confidence: JsonView,
}

impl View for Class {
    type V = ClassView;

    open spec fn view(&self) -> ClassView {
        ClassView {
            basis: self.basis,
            target_type: self.target_type@,
            most: self.most,
            confidence: number_view(self.confidence),
        }
    }
}

/// What a classification asks for.
pub enum Action {
    Query(String),
    /// Whether the names and the literals are nearly all of the values.
    Weigh { iris: i64, lits: i64, total: i64 },
    /// How sure a classification on this basis is.
    Rate { basis: Basis, iris: i64, lits: i64, total: i64 },
}

pub enum ActionView {
    Query(Seq<char>),
    Weigh { iris: i64, lits: i64, total: i64 },
    Rate { basis: Basis, iris: i64, lits: i64, total: i64 },
}

impl View for Action {
    type V = ActionView;

    open spec fn view(&self) -> ActionView {
        match self {
            Action::Query(q) => ActionView::Query(q@),
            Action::Weigh { iris, lits, total } => ActionView::Weigh { iris: *iris, lits: *lits, total: *total },
            Action::Rate { basis, iris, lits, total } => ActionView::Rate {
                basis: *basis,
                iris: *iris,
                lits: *lits,
                total: *total,
            },
        }
    }
}

/// What came of it.
pub enum Event {
    Reply(Reply),
    Weighed { literals: bool, names: bool },
    Rated(serde_json::Number),
}

pub enum EventView {
    Reply(ReplyView),
    Weighed { literals: bool, names: bool },
    Rated(serde_json::Number),
}

impl View for Event {
    type V = EventView;

    open spec fn view(&self) -> EventView {
        match self {
            Event::Reply(r) => EventView::Reply(r@),
            Event::Weighed { literals, names } => EventView::Weighed { literals: *literals, names: *names },
            Event::Rated(n) => EventView::Rated(*n),
        }
    }
}

/// How far a classification has come: what it waits for.
pub enum Probing {
    Cardinality,
    Mix(i64),
    Weighing(Facts),
    Listing(Facts),
    ListType(Facts),
    Datatype(Facts),
    Rating(Facts, Basis, String),
}

pub enum ProbingView {
    Cardinality,
    Mix(i64),
    Weighing(Facts),
    Listing(Facts),
    ListType(Facts),
    Datatype(Facts),
    Rating(Facts, Basis, Seq<char>),
}

impl View for Probing {
    type V = ProbingView;

    open spec fn view(&self) -> ProbingView {
        match self {
            Probing::Cardinality => ProbingView::Cardinality,
            Probing::Mix(most) => ProbingView::Mix(*most),
            Probing::Weighing(f) => ProbingView::Weighing(*f),
            Probing::Listing(f) => ProbingView::Listing(*f),
            Probing::ListType(f) => ProbingView::ListType(*f),
            Probing::Datatype(f) => ProbingView::Datatype(*f),
            Probing::Rating(f, b, target) => ProbingView::Rating(*f, *b, target@),
        }
    }
}

/// What a classification does next.
pub enum Progress {
    Ask(Probing, Action),
    Done(Class),
    /// The event does not fit.
    Stuck,
}

pub enum ProgressView {
    Ask(ProbingView, ActionView),
    Done(ClassView),
    Stuck,
}

impl View for Progress {
    type V = ProgressView;

    open spec fn view(&self) -> ProgressView {
        match self {
            Progress::Ask(p, a) => ProgressView::Ask(p@, a@),
            Progress::Done(c) => ProgressView::Done(c@),
            Progress::Stuck => ProgressView::Stuck,
        }
    }
}

/// The first row of a result. A query that fails counts as one without rows.
pub open spec fn first_row(reply: ReplyView) -> Seq<BindingView> {
    match reply {
        ReplyView::Result(QueryResultView::Bindings(flat)) => if grouped(flat).len() > 0 {
            grouped(flat)[0]
        } else {
            Seq::empty()
        },
        _ => Seq::empty(),
    }
}

pub fn take_first_row(reply: Reply) -> (r: Vec<Binding>)
    ensures
        views(r@) == first_row(reply@),
{
    let none: Vec<Binding> = Vec::new();
    proof {
        assert(views(none@) =~= Seq::empty());
    }
    match reply {
        Reply::Result(result) => match result {
            QueryResult::Bindings(flat) => {
                let ghost all = views(flat@);
                let mut rows = group_bindings_into_rows(flat);
                if rows.len() > 0 {
                    proof {
                        assert(row_views(rows@)[0] == views(rows@[0]@));
                    }
                    rows.remove(0)
                } else {
                    none
                }
            },
            _ => none,
        },
        _ => none,
    }
}

/// The number under a name, zero where there is none.
pub open spec fn count_in(row: Seq<BindingView>, name: Seq<char>) -> i64 {
    match int_in(row, name) {
        Some(n) => n,
        None => 0,
    }
}

pub fn read_count(row: &Vec<Binding>, name: &str) -> (r: i64)
    ensures
        r == count_in(views(row@), name@),
{
    match binding_int(row, name) {
        Some(n) => n,
        None => 0,
    }
}

/// The request to rate a classification.
pub open spec fn rating(f: Facts, basis: Basis, target: Seq<char>) -> ProgressView {
    ProgressView::Ask(
        ProbingView::Rating(f, basis, target),
        ActionView::Rate { basis, iris: f.iris, lits: f.lits, total: total(f) },
    )
}

fn rate(f: Facts, basis: Basis, target: String) -> (r: Progress)
    ensures
        r@ == rating(f, basis, target@),
{
    let all: i64 = count_all(&f);
    Progress::Ask(
        Probing::Rating(f, basis, target),
        Action::Rate { basis, iris: f.iris, lits: f.lits, total: all },
    )
}

/// The classification of values that are no collections.
pub open spec fn unlisted(subject: SubjectView, f: Facts) -> ProgressView {
    if f.literals {
        ProgressView::Ask(ProbingView::Datatype(f), ActionView::Query(datatype_text(subject.predicate)))
    } else if f.names {
        rating(
            f,
            if f.most <= 1 {
                Basis::SingleNames
            } else {
                Basis::ManyNames
            },
            "iri"@,
        )
    } else if f.bns > 0 {
        rating(f, Basis::BlankNodes, "bnode"@)
    } else {
        rating(f, Basis::Mixture, "mixed"@)
    }
}

fn go_unlisted(subject: &Subject, f: Facts) -> (r: Progress)
    ensures
        r@ == unlisted(subject@, f),
{
    if f.literals {
        Progress::Ask(Probing::Datatype(f), Action::Query(datatype_query(&subject.predicate)))
    } else if f.names {
        let basis = if f.most <= 1 {
            Basis::SingleNames
        } else {
            Basis::ManyNames
        };
        rate(f, basis, "iri".to_owned())
    } else if f.bns > 0 {
        rate(f, Basis::BlankNodes, "bnode".to_owned())
    } else {
        rate(f, Basis::Mixture, "mixed".to_owned())
    }
}

/// The first request of a classification.
pub fn begin_classify(subject: &Subject) -> (r: (Probing, Action))
    ensures
        (r.0@, r.1@) == (ProbingView::Cardinality, ActionView::Query(cardinality_text(subject.predicate@))),
{
    (Probing::Cardinality, Action::Query(cardinality_query(&subject.predicate)))
}

/// What an event leads to.
pub open spec fn probed(subject: SubjectView, p: ProbingView, event: EventView) -> ProgressView {
    match (p, event) {
        (ProbingView::Cardinality, EventView::Reply(reply)) => ProgressView::Ask(
            ProbingView::Mix(count_in(first_row(reply), "maxc"@)),
            ActionView::Query(mix_text(subject.predicate)),
        ),
        (ProbingView::Mix(most), EventView::Reply(reply)) => {
            let row = first_row(reply);
            let f = Facts {
                most,
                iris: count_in(row, "iris"@),
                lits: count_in(row, "lits"@),
                bns: count_in(row, "bns"@),
                literals: false,
                names: false,
            };
            ProgressView::Ask(
                ProbingView::Weighing(f),
                ActionView::Weigh { iris: f.iris, lits: f.lits, total: total(f) },
            )
        },
        (ProbingView::Weighing(f), EventView::Weighed { literals, names }) => {
            let weighed = Facts { literals, names, ..f };
            if f.most <= 1 {
                ProgressView::Ask(
                    ProbingView::Listing(weighed),
                    ActionView::Query(listing_text(subject.predicate)),
                )
            } else {
                unlisted(subject, weighed)
            }
        },
        (ProbingView::Listing(f), EventView::Reply(reply)) => if first_row(reply).len() > 0 {
            ProgressView::Ask(ProbingView::ListType(f), ActionView::Query(list_type_text(subject)))
        } else {
            unlisted(subject, f)
        },
        (ProbingView::ListType(f), EventView::Reply(reply)) => rating(
            f,
            Basis::Collections,
            match text_in(first_row(reply), "dt"@) {
                Some(dt) => column_type(dt),
                None => "iri"@,
            },
        ),
        (ProbingView::Datatype(f), EventView::Reply(reply)) => rating(
            f,
            if f.most <= 1 {
                Basis::SingleLiterals
            } else {
                Basis::ManyLiterals
            },
            column_type(
                match text_in(first_row(reply), "dt"@) {
                    Some(dt) => dt,
                    None => ""@,
                },
            ),
        ),
        (ProbingView::Rating(f, basis, target), EventView::Rated(n)) => ProgressView::Done(
            ClassView { basis, target_type: target, most: f.most, confidence: number_view(n) },
        ),
        _ => ProgressView::Stuck,
    }
}

/// Moves a classification on.
pub fn classify(subject: &Subject, p: Probing, event: Event) -> (r: Progress)
    ensures
        r@ == probed(subject@, p@, event@),
{
    match p {
        Probing::Cardinality => match event {
            Event::Reply(reply) => {
                let row = take_first_row(reply);
                let most: i64 = read_count(&row, "maxc");
                Progress::Ask(Probing::Mix(most), Action::Query(mix_query(&subject.predicate)))
            },
            _ => Progress::Stuck,
        },
        Probing::Mix(most) => match event {
            Event::Reply(reply) => {
                let row = take_first_row(reply);
                let f = Facts {
                    most,
                    iris: read_count(&row, "iris"),
                    lits: read_count(&row, "lits"),
                    bns: read_count(&row, "bns"),
                    literals: false,
                    names: false,
                };
                let all: i64 = count_all(&f);
                Progress::Ask(Probing::Weighing(f), Action::Weigh { iris: f.iris, lits: f.lits, total: all })
            },
            _ => Progress::Stuck,
        },
        Probing::Weighing(f) => match event {
            Event::Weighed { literals, names } => {
                let weighed = Facts { literals, names, ..f };
                if f.most <= 1 {
                    Progress::Ask(Probing::Listing(weighed), Action::Query(listing_query(&subject.predicate)))
                } else {
                    go_unlisted(subject, weighed)
                }
            },
            _ => Progress::Stuck,
        },
        Probing::Listing(f) => match event {
            Event::Reply(reply) => {
                let row = take_first_row(reply);
                if row.len() > 0 {
                    Progress::Ask(Probing::ListType(f), Action::Query(list_type_query(subject)))
                } else {
                    go_unlisted(subject, f)
                }
            },
            _ => Progress::Stuck,
        },
        Probing::ListType(f) => match event {
            Event::Reply(reply) => {
                let row = take_first_row(reply);
                let target = match binding_iri(&row, "dt") {
                    Some(dt) => xsd_to_column_type(&dt),
                    None => "iri".to_owned(),
                };
                rate(f, Basis::Collections, target)
            },
            _ => Progress::Stuck,
        },
        Probing::Datatype(f) => match event {
            Event::Reply(reply) => {
                let row = take_first_row(reply);
                let target = match binding_iri(&row, "dt") {
                    Some(dt) => xsd_to_column_type(&dt),
                    None => xsd_to_column_type(""),
                };
                let basis = if f.most <= 1 {
                    Basis::SingleLiterals
                } else {
                    Basis::ManyLiterals
                };
                rate(f, basis, target)
            },
            _ => Progress::Stuck,
        },
        Probing::Rating(f, basis, target) => match event {
            Event::Rated(n) => Progress::Done(Class { basis, target_type: target, most: f.most, confidence: n }),
            _ => Progress::Stuck,
        },
    }
}

/// What is reported of a predicate.
pub open spec fn entry_of(predicate: Seq<char>, c: ClassView, subjects: i64, triples: i64) -> JsonView {
    JsonView::Object(
        no_fields().with("predicate"@, JsonView::Text(predicate)).with(
            "shape"@,
            JsonView::Text(shape_of(c.basis)),
        ).with("cardinality"@, JsonView::Text(cardinality_of(c.most, subjects))).with(
            "target_type"@,
            JsonView::Text(c.target_type),
        ).with("subjects"@, integer(subjects)).with("triples"@, integer(triples)).with("confidence"@, c.confidence),
    )
}

pub fn build_entry(predicate: &str, c: Class, subjects: i64, triples: i64) -> (r: Json)
    ensures
        r@ == entry_of(predicate@, c@, subjects, triples),
        r@.wf(),
{
    broadcast use {no_fields_wf, put_wf, object_view};

    let mut fields: Vec<(String, Json)> = Vec::new();
    proof {
        assert(views(fields@) =~= no_fields());
    }
    put_field(&mut fields, "predicate", Json::text(predicate));
    put_field(&mut fields, "shape", Json::Text(shape_name(c.basis)));
    put_field(&mut fields, "cardinality", Json::Text(cardinality_name(c.most, subjects)));
    put_field(&mut fields, "target_type", Json::Text(c.target_type));
    put_field(&mut fields, "subjects", integer_json(subjects));
    put_field(&mut fields, "triples", integer_json(triples));
    put_field(&mut fields, "confidence", Json::from_number(c.confidence));
    Json::Object(fields)
}

// ---------------------------------------------------------------------------
// Laws
// ---------------------------------------------------------------------------

/// How the query for the elements of lists begins decides nothing else: two
/// classifications of one predicate that get the same answers go the same way.
pub proof fn classifications_agree(a: SubjectView, b: SubjectView, p: ProbingView, event: EventView)
    requires
        a.predicate == b.predicate,
    ensures
        match (probed(a, p, event), probed(b, p, event)) {
            (ProgressView::Ask(pa, x), ProgressView::Ask(pb, y)) => pa == pb && (x == y || pa is ListType),
            (ProgressView::Done(x), ProgressView::Done(y)) => x == y,
            (ProgressView::Stuck, ProgressView::Stuck) => true,
            _ => false,
        },
{
}

/// What a graph answers: to each query a row, to each weighing a verdict.
pub struct World {
    pub rows: spec_fn(Seq<char>) -> ReplyView,
    pub weigh: spec_fn(i64, i64, i64) -> (bool, bool),
}

/// What has been counted of a predicate in a graph.
pub open spec fn counted(w: World, predicate: Seq<char>) -> Facts {
    let row = first_row((w.rows)(mix_text(predicate)));
    let f = Facts {
        most: count_in(first_row((w.rows)(cardinality_text(predicate))), "maxc"@),
        iris: count_in(row, "iris"@),
        lits: count_in(row, "lits"@),
        bns: count_in(row, "bns"@),
        literals: false,
        names: false,
    };
    let (literals, names) = (w.weigh)(f.iris, f.lits, total(f));
    Facts { literals, names, ..f }
}

/// The basis of a predicate's classification in a graph.
pub open spec fn basis_in(w: World, predicate: Seq<char>) -> Basis {
    let f = counted(w, predicate);
    if f.most <= 1 && first_row((w.rows)(listing_text(predicate))).len() > 0 {
        Basis::Collections
    } else if f.literals {
        if f.most <= 1 {
            Basis::SingleLiterals
        } else {
            Basis::ManyLiterals
        }
    } else if f.names {
        if f.most <= 1 {
            Basis::SingleNames
        } else {
            Basis::ManyNames
        }
    } else if f.bns > 0 {
        Basis::BlankNodes
    } else {
        Basis::Mixture
    }
}

/// What a graph answers to an action; ratings are left to others.
pub open spec fn answer(w: World, a: ActionView) -> EventView {
    match a {
        ActionView::Query(text) => EventView::Reply((w.rows)(text)),
        ActionView::Weigh { iris, lits, total } => {
            let (literals, names) = (w.weigh)(iris, lits, total);
            EventView::Weighed { literals, names }
        },
        ActionView::Rate { .. } => EventView::Reply(ReplyView::Done),
    }
}

/// A classification after `n` answers; it stands still where a rating is asked.
pub open spec fn after(w: World, subject: SubjectView, p: ProgressView, n: nat) -> ProgressView
    decreases n,
{
    if n == 0 {
        p
    } else {
        match p {
            ProgressView::Ask(probing, action) => if action is Rate {
                p
            } else {
                after(w, subject, probed(subject, probing, answer(w, action)), (n - 1) as nat)
            },
            _ => p,
        }
    }
}

/// Five answers are enough: the classification of a predicate then rests on
/// the basis that the counts of the graph give.
pub proof fn counts_decide(w: World, subject: SubjectView)
    ensures
        ({
            let start = ProgressView::Ask(
                ProbingView::Cardinality,
                ActionView::Query(cardinality_text(subject.predicate)),
            );
            let basis = basis_in(w, subject.predicate);
            let f = counted(w, subject.predicate);
            exists|target: Seq<char>| after(w, subject, start, 5) == rating(f, basis, target)
        }),
{
    reveal_with_fuel(after, 6);
    let start = ProgressView::Ask(
        ProbingView::Cardinality,
        ActionView::Query(cardinality_text(subject.predicate)),
    );
    let end = after(w, subject, start, 5);
    assert(end is Ask);
    let target = end->Ask_0->Rating_2;
    assert(end == rating(counted(w, subject.predicate), basis_in(w, subject.predicate), target));
}

} // verus!

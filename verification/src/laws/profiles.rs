//! What a profile says of a predicate, from the counts of the graph to the
//! entry.

use vstd::prelude::*;
use crate::host::ReplyView;
use crate::json::{integer, json_text, lookup, number_view, Fields, JsonView};
use crate::laws::graph::{bound, column, column_is_read, first_binding_counts, regular, result_of, rows_are_told_apart};
use crate::laws::objects::{fields_are_found, filled, names_differ};
use crate::number::{int_text, parse_undoes_signed_decimal};
use crate::profile::classify::{answer, cardinality_of, cardinality_text, column_type, count_in, entry_of, first_row,
    list_type_text, listing_text, mix_text, probed, shape_of, total, ActionView, ClassView, EventView, Facts,
    ProbingView, ProgressView, SubjectView, World};
use crate::profile::single;
use crate::profile::survey;
use crate::rdf::{flattened, grouped, text_in, typed, value_in, BindingView, TermView, RDF_JSON};

verus! {

/// What the graph holds under a predicate.
pub struct Counts {
    /// How many values a subject has at most.
    pub most: i64,
    pub iris: i64,
    pub lits: i64,
    pub bns: i64,
    /// Values that are heads of collections.
    pub heads: Seq<TermView>,
    /// The datatypes of the literals in the collections, the most frequent first.
    pub item_types: Seq<Seq<char>>,
    /// The datatypes of the literals, the most frequent first.
    pub types: Seq<Seq<char>>,
}

/// Whether the numbers can be counts.
pub open spec fn plausible(c: Counts) -> bool {
    &&& c.iris >= 0 && c.lits >= 0 && c.bns >= 0
    &&& c.iris + c.lits + c.bns <= i64::MAX
}

/// How many values there are, but one at least.
pub open spec fn all_values(c: Counts) -> int {
    if c.iris + c.lits + c.bns < 1 {
        1
    } else {
        c.iris + c.lits + c.bns
    }
}

/// A number as a store gives it.
pub open spec fn number_term(n: i64) -> TermView {
    typed(int_text(n as int), "http://www.w3.org/2001/XMLSchema#integer"@)
}

/// IRIs as a store gives them.
pub open spec fn iri_terms(iris: Seq<Seq<char>>) -> Seq<TermView> {
    Seq::new(iris.len(), |i: int| TermView::NamedNode(iris[i]))
}

/// Whether a graph with these counts answers the questions about a predicate.
pub open spec fn gives_counts(
    rows: spec_fn(Seq<char>) -> ReplyView,
    list_head: Seq<char>,
    p: Seq<char>,
    c: Counts,
) -> bool {
    &&& rows(
        "SELECT (MAX(?c) AS ?maxc) WHERE { SELECT ?s (COUNT(?o) AS ?c) WHERE { ?s <"@ + p + "> ?o } GROUP BY ?s }"@,
    ) == ReplyView::Result(result_of(seq![seq![bound("maxc"@, number_term(c.most))]]))
    &&& rows(
        "SELECT (SUM(IF(isIRI(?o), 1, 0)) AS ?iris) (SUM(IF(isLiteral(?o), 1, 0)) AS ?lits) (SUM(IF(isBlank(?o), 1, 0)) AS ?bns) WHERE { ?s <"@
            + p + "> ?o }"@,
    ) == ReplyView::Result(
        result_of(
            seq![
                seq![
                    bound("iris"@, number_term(c.iris)),
                    bound("lits"@, number_term(c.lits)),
                    bound("bns"@, number_term(c.bns)),
                ],
            ],
        ),
    )
    &&& rows(
        "SELECT ?head WHERE { ?s <"@ + p
            + "> ?head . ?head <http://www.w3.org/1999/02/22-rdf-syntax-ns#first> ?_f ; <http://www.w3.org/1999/02/22-rdf-syntax-ns#rest>  ?_r . } LIMIT 1"@,
    ) == ReplyView::Result(result_of(column("head"@, c.heads)))
    &&& rows(
        list_head + "?s <"@ + p
            + "> ?head . ?head <http://www.w3.org/1999/02/22-rdf-syntax-ns#rest>*/<http://www.w3.org/1999/02/22-rdf-syntax-ns#first> ?item . FILTER(isLiteral(?item)) BIND(datatype(?item) AS ?dt) } GROUP BY ?dt ORDER BY DESC(?n) LIMIT 1"@,
    ) == ReplyView::Result(result_of(column("dt"@, iri_terms(c.item_types))))
    &&& rows(
        "SELECT ?dt (COUNT(*) AS ?n) WHERE { ?s <"@ + p
            + "> ?o . FILTER(isLiteral(?o)) BIND(datatype(?o) AS ?dt) } GROUP BY ?dt ORDER BY DESC(?n) LIMIT 1"@,
    ) == ReplyView::Result(result_of(column("dt"@, iri_terms(c.types))))
}

/// The shape that counts call for. Values that are heads of collections make a
/// list; mostly literals an attribute, or a child table where a subject has
/// more than one; mostly IRIs with at most one for each subject a foreign key;
/// everything else stays in the graph.
pub open spec fn shape_for(c: Counts, literals: bool, names: bool) -> Seq<char> {
    if c.most <= 1 && c.heads.len() > 0 {
        "list"@
    } else if literals && c.most <= 1 {
        "attribute"@
    } else if literals {
        "child_table"@
    } else if names && c.most <= 1 {
        "foreign_key"@
    } else {
        "graph"@
    }
}

/// The type of the values that counts call for.
pub open spec fn target_for(c: Counts, literals: bool, names: bool) -> Seq<char> {
    if c.most <= 1 && c.heads.len() > 0 {
        if c.item_types.len() > 0 {
            kind_of_values(c.item_types[0])
        } else {
            "iri"@
        }
    } else if literals {
        if c.types.len() > 0 {
            kind_of_values(c.types[0])
        } else {
            "string"@
        }
    } else if names {
        "iri"@
    } else if c.bns > 0 {
        "bnode"@
    } else {
        "mixed"@
    }
}

/// The name of the type of a datatype's values.
pub open spec fn kind_of_values(datatype: Seq<char>) -> Seq<char> {
    let integers = set![
        "http://www.w3.org/2001/XMLSchema#integer"@,
        "http://www.w3.org/2001/XMLSchema#int"@,
        "http://www.w3.org/2001/XMLSchema#long"@,
        "http://www.w3.org/2001/XMLSchema#short"@,
        "http://www.w3.org/2001/XMLSchema#byte"@,
        "http://www.w3.org/2001/XMLSchema#nonNegativeInteger"@,
        "http://www.w3.org/2001/XMLSchema#positiveInteger"@
    ];
    let decimals = set![
        "http://www.w3.org/2001/XMLSchema#decimal"@,
        "http://www.w3.org/2001/XMLSchema#double"@,
        "http://www.w3.org/2001/XMLSchema#float"@
    ];
    let dates = set![
        "http://www.w3.org/2001/XMLSchema#date"@,
        "http://www.w3.org/2001/XMLSchema#gYear"@,
        "http://www.w3.org/2001/XMLSchema#gYearMonth"@
    ];
    if integers.contains(datatype) {
        "integer"@
    } else if decimals.contains(datatype) {
        "decimal"@
    } else if dates.contains(datatype) {
        "date"@
    } else if datatype == "http://www.w3.org/2001/XMLSchema#boolean"@ {
        "boolean"@
    } else if datatype == "http://www.w3.org/2001/XMLSchema#dateTime"@ {
        "datetime"@
    } else {
        "string"@
    }
}

/// Whether an entry says what the counts call for.
pub open spec fn says(
    entry: JsonView,
    p: Seq<char>,
    c: Counts,
    literals: bool,
    names: bool,
    subjects: i64,
    triples: i64,
    confidence: JsonView,
) -> bool {
    entry matches JsonView::Object(fields) && {
        &&& lookup(fields, "predicate"@) == Some(JsonView::Text(p))
        &&& lookup(fields, "shape"@) == Some(JsonView::Text(shape_for(c, literals, names)))
        &&& lookup(fields, "cardinality"@) == Some(
            JsonView::Text(
                if c.most > 1 && subjects > 0 {
                    "0..n"@
                } else {
                    "0..1"@
                },
            ),
        )
        &&& lookup(fields, "target_type"@) == Some(JsonView::Text(target_for(c, literals, names)))
        &&& lookup(fields, "subjects"@) == Some(integer(subjects))
        &&& lookup(fields, "triples"@) == Some(integer(triples))
        &&& lookup(fields, "confidence"@) == Some(confidence)
    }
}

proof fn types_are_named(datatype: Seq<char>)
    ensures
        column_type(datatype) == kind_of_values(datatype),
{
    reveal_strlit("http://www.w3.org/2001/XMLSchema#boolean");
    reveal_strlit("http://www.w3.org/2001/XMLSchema#date");
    reveal_strlit("http://www.w3.org/2001/XMLSchema#gYear");
    reveal_strlit("http://www.w3.org/2001/XMLSchema#gYearMonth");
    let b = "http://www.w3.org/2001/XMLSchema#boolean"@;
    assert(b[33] == 'b');
    assert("http://www.w3.org/2001/XMLSchema#date"@[33] == 'd');
    assert("http://www.w3.org/2001/XMLSchema#gYear"@[33] == 'g');
    assert("http://www.w3.org/2001/XMLSchema#gYearMonth"@[33] == 'g');
}

proof fn one_row_is_read(row: Seq<BindingView>, variables: Seq<Seq<char>>)
    requires
        row.len() == variables.len(),
        row.len() > 0,
        variables.no_duplicates(),
        forall|j: int| 0 <= j < variables.len() ==> (#[trigger] row[j]).variable == variables[j],
    ensures
        first_row(ReplyView::Result(result_of(seq![row]))) == row,
{
    let rows = seq![row];
    assert(regular(rows, variables));
    rows_are_told_apart(rows, variables);
}

proof fn number_is_counted(row: Seq<BindingView>, i: int, n: i64)
    requires
        0 <= i < row.len(),
        row[i].value == number_term(n),
        forall|j: int| 0 <= j < i ==> (#[trigger] row[j]).variable != row[i].variable,
    ensures
        count_in(row, row[i].variable) == n,
{
    first_binding_counts(row, row[i].variable, i);
    parse_undoes_signed_decimal(n);
}

proof fn most_is_counted(n: i64)
    ensures
        count_in(
            first_row(ReplyView::Result(result_of(seq![seq![bound("maxc"@, number_term(n))]]))),
            "maxc"@,
        ) == n,
{
    let row = seq![bound("maxc"@, number_term(n))];
    one_row_is_read(row, seq!["maxc"@]);
    number_is_counted(row, 0, n);
}

proof fn mix_is_counted(c: Counts)
    ensures
        ({
            let row = first_row(
                ReplyView::Result(
                    result_of(
                        seq![
                            seq![
                                bound("iris"@, number_term(c.iris)),
                                bound("lits"@, number_term(c.lits)),
                                bound("bns"@, number_term(c.bns)),
                            ],
                        ],
                    ),
                ),
            );
            &&& count_in(row, "iris"@) == c.iris
            &&& count_in(row, "lits"@) == c.lits
            &&& count_in(row, "bns"@) == c.bns
        }),
{
    reveal_strlit("iris");
    reveal_strlit("lits");
    reveal_strlit("bns");
    assert("iris"@[0] != "lits"@[0] && "iris"@[0] != "bns"@[0] && "lits"@[0] != "bns"@[0]);
    let row = seq![
        bound("iris"@, number_term(c.iris)),
        bound("lits"@, number_term(c.lits)),
        bound("bns"@, number_term(c.bns)),
    ];
    let variables = seq!["iris"@, "lits"@, "bns"@];
    assert(variables.no_duplicates());
    one_row_is_read(row, variables);
    assert(row[0].variable == "iris"@ && row[1].variable == "lits"@ && row[2].variable == "bns"@);
    number_is_counted(row, 0, c.iris);
    number_is_counted(row, 1, c.lits);
    number_is_counted(row, 2, c.bns);
}

proof fn type_is_read(types: Seq<Seq<char>>)
    ensures
        text_in(first_row(ReplyView::Result(result_of(column("dt"@, iri_terms(types))))), "dt"@) == if types.len()
            > 0 {
            Some(types[0])
        } else {
            None
        },
{
    column_is_read("dt"@, iri_terms(types));
    let rows = column("dt"@, iri_terms(types));
    if types.len() > 0 {
        assert(value_in(rows[0], "dt"@) == Some(iri_terms(types)[0]));
    } else {
        assert(first_row(ReplyView::Result(result_of(rows))).len() == 0);
        assert(value_in(Seq::empty(), "dt"@) is None);
    }
}

/// The classification of a predicate as its questions are answered.
pub open spec fn answered(w: World, number: serde_json::Number, subject: SubjectView, p: ProgressView, n: nat)
    -> ProgressView
    decreases n,
{
    if n == 0 {
        p
    } else {
        match p {
            ProgressView::Ask(probing, action) => answered(
                w,
                number,
                subject,
                probed(subject, probing, reply_to(w, number, action)),
                (n - 1) as nat,
            ),
            _ => p,
        }
    }
}

/// What a graph, and those who weigh and rate, reply.
pub open spec fn reply_to(w: World, number: serde_json::Number, action: ActionView) -> EventView {
    match action {
        ActionView::Rate { .. } => EventView::Rated(number),
        _ => answer(w, action),
    }
}

proof fn counts_lead_to_class(
    w: World,
    number: serde_json::Number,
    subject: SubjectView,
    c: Counts,
) -> (class: ClassView)
    requires
        plausible(c),
        gives_counts(w.rows, subject.list_head, subject.predicate, c),
    ensures
        ({
            let (literals, names) = (w.weigh)(c.iris, c.lits, all_values(c) as i64);
            &&& answered(
                w,
                number,
                subject,
                ProgressView::Ask(
                    ProbingView::Cardinality,
                    ActionView::Query(cardinality_text(subject.predicate)),
                ),
                6,
            ) == ProgressView::Done(class)
            &&& shape_of(class.basis) == shape_for(c, literals, names)
            &&& class.target_type == target_for(c, literals, names)
            &&& class.most == c.most
            &&& class.confidence == number_view(number)
        }),
{
    let p = subject.predicate;
    let (literals, names) = (w.weigh)(c.iris, c.lits, all_values(c) as i64);
    most_is_counted(c.most);
    mix_is_counted(c);
    column_is_read("head"@, c.heads);
    type_is_read(c.item_types);
    type_is_read(c.types);
    if c.item_types.len() > 0 {
        types_are_named(c.item_types[0]);
    }
    if c.types.len() > 0 {
        types_are_named(c.types[0]);
    }
    types_are_named(""@);
    nothing_is_no_type();
    texts_of_lists(subject);
    let heads = column("head"@, c.heads);
    let found = first_row(ReplyView::Result(result_of(heads)));
    assert(found.len() > 0 <==> c.heads.len() > 0) by {
        if c.heads.len() > 0 {
            assert(found == heads[0]);
        }
    }
    let counted = Facts { most: c.most, iris: c.iris, lits: c.lits, bns: c.bns, literals: false, names: false };
    assert(total(counted) == all_values(c));
    let f = Facts { literals, names, ..counted };
    reveal_with_fuel(answered, 7);
    let start = ProgressView::Ask(ProbingView::Cardinality, ActionView::Query(cardinality_text(p)));
    let p1 = probed(subject, ProbingView::Cardinality, reply_to(w, number, ActionView::Query(cardinality_text(p))));
    assert(p1 == ProgressView::Ask(ProbingView::Mix(c.most), ActionView::Query(mix_text(p))));
    let p2 = probed(subject, ProbingView::Mix(c.most), reply_to(w, number, ActionView::Query(mix_text(p))));
    assert(p2 == ProgressView::Ask(
        ProbingView::Weighing(counted),
        ActionView::Weigh { iris: c.iris, lits: c.lits, total: all_values(c) as i64 },
    ));
    let end = answered(w, number, subject, start, 6);
    assert(end is Done);
    end->Done_0
}

proof fn nothing_is_no_type()
    ensures
        kind_of_values(""@) == "string"@,
{
    reveal_strlit("");
    reveal_strlit("http://www.w3.org/2001/XMLSchema#integer");
    reveal_strlit("http://www.w3.org/2001/XMLSchema#int");
    reveal_strlit("http://www.w3.org/2001/XMLSchema#long");
    reveal_strlit("http://www.w3.org/2001/XMLSchema#short");
    reveal_strlit("http://www.w3.org/2001/XMLSchema#byte");
    reveal_strlit("http://www.w3.org/2001/XMLSchema#nonNegativeInteger");
    reveal_strlit("http://www.w3.org/2001/XMLSchema#positiveInteger");
    reveal_strlit("http://www.w3.org/2001/XMLSchema#decimal");
    reveal_strlit("http://www.w3.org/2001/XMLSchema#double");
    reveal_strlit("http://www.w3.org/2001/XMLSchema#float");
    reveal_strlit("http://www.w3.org/2001/XMLSchema#date");
    reveal_strlit("http://www.w3.org/2001/XMLSchema#gYear");
    reveal_strlit("http://www.w3.org/2001/XMLSchema#gYearMonth");
    reveal_strlit("http://www.w3.org/2001/XMLSchema#boolean");
    reveal_strlit("http://www.w3.org/2001/XMLSchema#dateTime");
    assert(""@.len() == 0);
}

proof fn texts_of_lists(subject: SubjectView)
    ensures
        listing_text(subject.predicate) == "SELECT ?head WHERE { ?s <"@ + subject.predicate
            + "> ?head . ?head <http://www.w3.org/1999/02/22-rdf-syntax-ns#first> ?_f ; <http://www.w3.org/1999/02/22-rdf-syntax-ns#rest>  ?_r . } LIMIT 1"@,
        list_type_text(subject) == subject.list_head + "?s <"@ + subject.predicate
            + "> ?head . ?head <http://www.w3.org/1999/02/22-rdf-syntax-ns#rest>*/<http://www.w3.org/1999/02/22-rdf-syntax-ns#first> ?item . FILTER(isLiteral(?item)) BIND(datatype(?item) AS ?dt) } GROUP BY ?dt ORDER BY DESC(?n) LIMIT 1"@,
{
    reveal_strlit("> ?head . ?head <");
    reveal_strlit("http://www.w3.org/1999/02/22-rdf-syntax-ns#first");
    reveal_strlit("http://www.w3.org/1999/02/22-rdf-syntax-ns#rest");
    reveal_strlit("> ?_f ; <");
    reveal_strlit(">  ?_r . } LIMIT 1");
    reveal_strlit(
        "> ?head . ?head <http://www.w3.org/1999/02/22-rdf-syntax-ns#first> ?_f ; <http://www.w3.org/1999/02/22-rdf-syntax-ns#rest>  ?_r . } LIMIT 1",
    );
    reveal_strlit(">*/<");
    reveal_strlit(
        "> ?item . FILTER(isLiteral(?item)) BIND(datatype(?item) AS ?dt) } GROUP BY ?dt ORDER BY DESC(?n) LIMIT 1",
    );
    reveal_strlit(
        "> ?head . ?head <http://www.w3.org/1999/02/22-rdf-syntax-ns#rest>*/<http://www.w3.org/1999/02/22-rdf-syntax-ns#first> ?item . FILTER(isLiteral(?item)) BIND(datatype(?item) AS ?dt) } GROUP BY ?dt ORDER BY DESC(?n) LIMIT 1",
    );
    assert(listing_text(subject.predicate) =~= "SELECT ?head WHERE { ?s <"@ + subject.predicate
        + "> ?head . ?head <http://www.w3.org/1999/02/22-rdf-syntax-ns#first> ?_f ; <http://www.w3.org/1999/02/22-rdf-syntax-ns#rest>  ?_r . } LIMIT 1"@);
    assert(list_type_text(subject) =~= subject.list_head + "?s <"@ + subject.predicate
        + "> ?head . ?head <http://www.w3.org/1999/02/22-rdf-syntax-ns#rest>*/<http://www.w3.org/1999/02/22-rdf-syntax-ns#first> ?item . FILTER(isLiteral(?item)) BIND(datatype(?item) AS ?dt) } GROUP BY ?dt ORDER BY DESC(?n) LIMIT 1"@);
}

proof fn entry_says(
    p: Seq<char>,
    class: ClassView,
    c: Counts,
    literals: bool,
    names: bool,
    subjects: i64,
    triples: i64,
)
    requires
        shape_of(class.basis) == shape_for(c, literals, names),
        class.target_type == target_for(c, literals, names),
        class.most == c.most,
    ensures
        says(entry_of(p, class, subjects, triples), p, c, literals, names, subjects, triples, class.confidence),
{
    let pairs = seq![
        ("predicate"@, JsonView::Text(p)),
        ("shape"@, JsonView::Text(shape_of(class.basis))),
        ("cardinality"@, JsonView::Text(cardinality_of(class.most, subjects))),
        ("target_type"@, JsonView::Text(class.target_type)),
        ("subjects"@, integer(subjects)),
        ("triples"@, integer(triples)),
        ("confidence"@, class.confidence),
    ];
    reveal_strlit("predicate");
    reveal_strlit("shape");
    reveal_strlit("cardinality");
    reveal_strlit("target_type");
    reveal_strlit("subjects");
    reveal_strlit("triples");
    reveal_strlit("confidence");
    assert("cardinality"@[0] != "target_type"@[0]);
    let lengths: Seq<int> = seq![9, 5, 11, 11, 8, 7, 10];
    assert forall|i: int| 0 <= i < 7 implies (#[trigger] pairs[i]).0.len() == lengths[i] by {
        assert(i == 0 || i == 1 || i == 2 || i == 3 || i == 4 || i == 5 || i == 6);
    }
    assert forall|i: int, j: int| 0 <= i < j < 7 implies (#[trigger] pairs[i]).0 != (#[trigger] pairs[j]).0 by {
        assert(lengths[i] != lengths[j] || (i == 2 && j == 3)) by {
            assert(i == 0 || i == 1 || i == 2 || i == 3 || i == 4 || i == 5);
            assert(j == 1 || j == 2 || j == 3 || j == 4 || j == 5 || j == 6);
        }
        assert(pairs[2].0 != pairs[3].0);
    }
    assert(names_differ(pairs));
    fields_are_found(pairs);
    assert(JsonView::Object(filled(pairs)) == entry_of(p, class, subjects, triples)) by {
        reveal_with_fuel(filled, 8);
        let p6 = pairs.drop_last();
        let p5 = p6.drop_last();
        let p4 = p5.drop_last();
        let p3 = p4.drop_last();
        let p2 = p3.drop_last();
        let p1 = p2.drop_last();
        assert(p1.drop_last() =~= Seq::empty());
    }
    assert forall|i: int| 0 <= i < 7 implies lookup(filled(pairs), (#[trigger] pairs[i]).0) == Some(pairs[i].1) by {}
    assert(pairs[0].0 == "predicate"@ && pairs[1].0 == "shape"@ && pairs[2].0 == "cardinality"@);
    assert(pairs[3].0 == "target_type"@ && pairs[4].0 == "subjects"@ && pairs[5].0 == "triples"@);
    assert(pairs[6].0 == "confidence"@);
}

/// A call for one predicate, as its questions are answered.
pub open spec fn single_after(
    w: World,
    number: serde_json::Number,
    at: (single::StageView, single::SingleView),
    n: nat,
) -> (single::StageView, single::SingleView)
    decreases n,
{
    if n == 0 {
        at
    } else {
        match at.1 {
            single::SingleView::Probe(action) => single_after(
                w,
                number,
                single::next(at.0, reply_to(w, number, action)),
                (n - 1) as nat,
            ),
            _ => at,
        }
    }
}

proof fn single_follows(
    w: World,
    number: serde_json::Number,
    p: Seq<char>,
    subjects: i64,
    triples: i64,
    probing: ProbingView,
    action: ActionView,
    n: nat,
)
    ensures
        ({
            let end = answered(w, number, single::subject_of(p), ProgressView::Ask(probing, action), n);
            end matches ProgressView::Done(c) ==> single_after(
                w,
                number,
                (
                    single::StageView::Probing(p, subjects, triples, probing),
                    single::SingleView::Probe(action),
                ),
                n,
            ) == (
                single::StageView::Over,
                single::SingleView::Finish(Ok(typed(json_text(entry_of(p, c, subjects, triples)), RDF_JSON@))),
            )
        }),
    decreases n,
{
    if n > 0 {
        match probed(single::subject_of(p), probing, reply_to(w, number, action)) {
            ProgressView::Ask(probing2, action2) => single_follows(
                w,
                number,
                p,
                subjects,
                triples,
                probing2,
                action2,
                (n - 1) as nat,
            ),
            ProgressView::Done(c) => {
                reveal_with_fuel(answered, 2);
                reveal_with_fuel(single_after, 2);
            },
            ProgressView::Stuck => {
                reveal_with_fuel(answered, 2);
            },
        }
    }
}

/// The entry for a predicate, in the text that a call for it ends with, says what
/// the counts of the graph call for: above all the shape, by its name.
pub proof fn single_entry_says_what_is_counted(
    w: World,
    number: serde_json::Number,
    p: Seq<char>,
    c: Counts,
    subjects: i64,
    triples: i64,
)
    requires
        plausible(c),
        gives_counts(w.rows, "SELECT ?dt (COUNT(*) AS ?n) WHERE { "@, p, c),
        (w.rows)("SELECT (COUNT(*) AS ?triples) (COUNT(DISTINCT ?s) AS ?subjects) WHERE { ?s <"@ + p + "> ?o }"@)
            == ReplyView::Result(
            result_of(seq![seq![bound("triples"@, number_term(triples)), bound("subjects"@, number_term(subjects))]]),
        ),
    ensures
        ({
            let (literals, names) = (w.weigh)(c.iris, c.lits, all_values(c) as i64);
            exists|entry: JsonView|
                {
                    &&& single_after(w, number, single::begun(single::CallView::Classify(p)), 7) == (
                        single::StageView::Over,
                        single::SingleView::Finish(Ok(typed(#[trigger] json_text(entry), RDF_JSON@))),
                    )
                    &&& says(entry, p, c, literals, names, subjects, triples, number_view(number))
                }
        }),
{
    let (literals, names) = (w.weigh)(c.iris, c.lits, all_values(c) as i64);
    reveal_strlit("triples");
    reveal_strlit("subjects");
    assert("triples"@.len() != "subjects"@.len());
    let row = seq![bound("triples"@, number_term(triples)), bound("subjects"@, number_term(subjects))];
    let variables = seq!["triples"@, "subjects"@];
    assert(variables.no_duplicates());
    one_row_is_read(row, variables);
    assert(row[0].variable == "triples"@ && row[1].variable == "subjects"@);
    number_is_counted(row, 0, triples);
    number_is_counted(row, 1, subjects);
    let class = counts_lead_to_class(w, number, single::subject_of(p), c);
    single_follows(
        w,
        number,
        p,
        subjects,
        triples,
        ProbingView::Cardinality,
        ActionView::Query(cardinality_text(p)),
        6,
    );
    entry_says(p, class, c, literals, names, subjects, triples);
    let entry = entry_of(p, class, subjects, triples);
    let first = single::begun(single::CallView::Classify(p));
    let second = single::next(first.0, reply_to(w, number, first.1->Probe_0));
    assert(second == (
        single::StageView::Probing(p, subjects, triples, ProbingView::Cardinality),
        single::SingleView::Probe(ActionView::Query(cardinality_text(p))),
    ));
    assert(single_after(w, number, first, 7) == single_after(w, number, second, 6));
    assert(says(entry, p, c, literals, names, subjects, triples, number_view(number)));
    assert(single_after(w, number, first, 7).1 == single::SingleView::Finish(
        Ok(typed(json_text(entry), RDF_JSON@)),
    ));
}

/// A survey of all predicates, as its questions are answered.
pub open spec fn survey_after(
    w: World,
    number: serde_json::Number,
    at: (survey::StageView, survey::SurveyView),
    n: nat,
) -> (survey::StageView, survey::SurveyView)
    decreases n,
{
    if n == 0 {
        at
    } else {
        match at.1 {
            survey::SurveyView::Probe(action) => survey_after(
                w,
                number,
                survey::next(at.0, reply_to(w, number, action)),
                (n - 1) as nat,
            ),
            _ => at,
        }
    }
}

proof fn survey_adds(
    w: World,
    number: serde_json::Number,
    at: (survey::StageView, survey::SurveyView),
    n: nat,
    m: nat,
)
    ensures
        survey_after(w, number, at, n + m) == survey_after(w, number, survey_after(w, number, at, n), m),
    decreases n,
{
    if n > 0 {
        match at.1 {
            survey::SurveyView::Probe(action) => {
                survey_adds(w, number, survey::next(at.0, reply_to(w, number, action)), (n - 1) as nat, m);
            },
            _ => {
                if m > 0 {
                    assert(survey_after(w, number, at, m) == at);
                }
            },
        }
    }
}

proof fn survey_follows(
    w: World,
    number: serde_json::Number,
    s: survey::SurveyState,
    probing: ProbingView,
    action: ActionView,
    n: nat,
) -> (k: nat)
    requires
        answered(w, number, survey::subject_of(s.at_hand.predicate), ProgressView::Ask(probing, action), n) is Done,
    ensures
        ({
            let end = answered(
                w,
                number,
                survey::subject_of(s.at_hand.predicate),
                ProgressView::Ask(probing, action),
                n,
            );
            survey_after(w, number, (survey::StageView::Probing(s, probing), survey::SurveyView::Probe(action)), k)
                == survey::surveyed_on(
                s.ahead,
                s.done.push(
                    entry_of(s.at_hand.predicate, end->Done_0, s.at_hand.subjects, s.at_hand.triples),
                ),
            )
        }),
    decreases n,
{
    let subject = survey::subject_of(s.at_hand.predicate);
    match probed(subject, probing, reply_to(w, number, action)) {
        ProgressView::Ask(probing2, action2) => {
            let k = survey_follows(w, number, s, probing2, action2, (n - 1) as nat);
            k + 1
        },
        ProgressView::Done(c) => {
            reveal_with_fuel(answered, 2);
            reveal_with_fuel(survey_after, 2);
            1
        },
        ProgressView::Stuck => {
            reveal_with_fuel(answered, 2);
            0
        },
    }
}

/// Whether the entries say, predicate by predicate, what the counts call for.
pub open spec fn all_say(
    entries: Seq<JsonView>,
    w: World,
    number: serde_json::Number,
    all: Seq<survey::CountedView>,
    counts: spec_fn(Seq<char>) -> Counts,
) -> bool {
    &&& entries.len() == all.len()
    &&& forall|i: int|
        0 <= i < all.len() ==> says_of(#[trigger] entries[i], w, number, all[i], counts(all[i].predicate))
}

pub open spec fn says_of(
    entry: JsonView,
    w: World,
    number: serde_json::Number,
    found: survey::CountedView,
    c: Counts,
) -> bool {
    let (literals, names) = (w.weigh)(c.iris, c.lits, all_values(c) as i64);
    says(entry, found.predicate, c, literals, names, found.subjects, found.triples, number_view(number))
}

/// Whether a graph answers for every predicate.
pub open spec fn gives_all(w: World, all: Seq<survey::CountedView>, counts: spec_fn(Seq<char>) -> Counts) -> bool {
    forall|i: int|
        0 <= i < all.len() ==> {
            let p = (#[trigger] all[i]).predicate;
            &&& plausible(counts(p))
            &&& gives_counts(
                w.rows,
                "SELECT ?dt (COUNT(*) AS ?n) (COUNT(IF(isIRI(?item), 1, 1)) AS ?iri_n) WHERE { "@,
                p,
                counts(p),
            )
        }
}

proof fn survey_goes_on(
    w: World,
    number: serde_json::Number,
    all: Seq<survey::CountedView>,
    done: Seq<JsonView>,
    counts: spec_fn(Seq<char>) -> Counts,
) -> (r: (nat, Seq<JsonView>))
    requires
        done.len() <= all.len(),
        gives_all(w, all, counts),
        forall|i: int| 0 <= i < done.len() ==> says_of(#[trigger] done[i], w, number, all[i], counts(all[i].predicate)),
    ensures
        survey_after(w, number, survey::surveyed_on(all.skip(done.len() as int), done), r.0) == (
            survey::StageView::Over,
            survey::report(r.1),
        ),
        all_say(r.1, w, number, all, counts),
    decreases all.len() - done.len(),
{
    let n: int = done.len() as int;
    if n == all.len() {
        (0, done)
    } else {
        let found = all[n];
        let c = counts(found.predicate);
        let ahead = all.skip(n);
        assert(ahead[0] == found);
        assert(ahead.drop_first() =~= all.skip(n + 1));
        let class = counts_lead_to_class(w, number, survey::subject_of(found.predicate), c);
        let (literals, names) = (w.weigh)(c.iris, c.lits, all_values(c) as i64);
        entry_says(found.predicate, class, c, literals, names, found.subjects, found.triples);
        let s = survey::SurveyState { ahead: ahead.drop_first(), at_hand: found, done };
        let action = ActionView::Query(cardinality_text(found.predicate));
        let k = survey_follows(w, number, s, ProbingView::Cardinality, action, 6);
        let more = done.push(entry_of(found.predicate, class, found.subjects, found.triples));
        assert forall|i: int| 0 <= i < more.len() implies says_of(
            #[trigger] more[i],
            w,
            number,
            all[i],
            counts(all[i].predicate),
        ) by {
            if i < n {
                assert(more[i] == done[i]);
            }
        }
        let r = survey_goes_on(w, number, all, more, counts);
        survey_adds(w, number, survey::surveyed_on(ahead, done), k, r.0);
        (k + r.0, r.1)
    }
}

/// The rows of predicates with their counts.
pub open spec fn predicate_rows(all: Seq<survey::CountedView>) -> Seq<Seq<BindingView>> {
    Seq::new(
        all.len(),
        |i: int|
            seq![
                bound("p"@, TermView::NamedNode(all[i].predicate)),
                bound("triples"@, number_term(all[i].triples)),
                bound("subjects"@, number_term(all[i].subjects)),
            ],
    )
}

proof fn predicates_are_read(all: Seq<survey::CountedView>)
    ensures
        survey::predicates_in(predicate_rows(all)) == all,
        grouped(flattened(predicate_rows(all))) == predicate_rows(all),
    decreases all.len(),
{
    reveal_strlit("p");
    reveal_strlit("triples");
    reveal_strlit("subjects");
    assert("p"@.len() != "triples"@.len() && "p"@.len() != "subjects"@.len() && "triples"@.len() != "subjects"@.len());
    let rows = predicate_rows(all);
    let variables = seq!["p"@, "triples"@, "subjects"@];
    assert(variables.no_duplicates());
    assert(regular(rows, variables));
    rows_are_told_apart(rows, variables);
    if all.len() > 0 {
        predicates_are_read(all.drop_last());
        assert(rows.drop_last() =~= predicate_rows(all.drop_last()));
        let row = rows.last();
        assert(row[0].variable == "p"@ && row[1].variable == "triples"@ && row[2].variable == "subjects"@);
        first_binding_counts(row, "p"@, 0);
        number_is_counted(row, 1, all.last().triples);
        number_is_counted(row, 2, all.last().subjects);
        assert(all.drop_last().push(all.last()) =~= all);
    } else {
        assert(all =~= Seq::empty());
    }
}

/// A survey reports one entry for each predicate of the graph, in the order in
/// which the graph lists them, and each says what is counted of its predicate.
pub proof fn survey_says_what_is_counted(
    w: World,
    number: serde_json::Number,
    all: Seq<survey::CountedView>,
    counts: spec_fn(Seq<char>) -> Counts,
)
    requires
        gives_all(w, all, counts),
    ensures
        exists|n: nat, entries: Seq<JsonView>|
            {
                &&& #[trigger] survey_after(
                    w,
                    number,
                    survey::next(
                        survey::StageView::Predicates,
                        EventView::Reply(ReplyView::Result(result_of(predicate_rows(all)))),
                    ),
                    n,
                ) == (survey::StageView::Over, survey::report(entries))
                &&& #[trigger] all_say(entries, w, number, all, counts)
            },
{
    predicates_are_read(all);
    let r = survey_goes_on(w, number, all, Seq::empty(), counts);
    assert(all.skip(0) =~= all);
    let first = survey::next(
        survey::StageView::Predicates,
        EventView::Reply(ReplyView::Result(result_of(predicate_rows(all)))),
    );
    assert(first == survey::surveyed_on(all, Seq::empty()));
    assert(survey_after(w, number, first, r.0) == (survey::StageView::Over, survey::report(r.1)));
    assert(all_say(r.1, w, number, all, counts));
}

} // verus!

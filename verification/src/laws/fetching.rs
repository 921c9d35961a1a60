//! What is fetched from an address, and what of it reaches the sink.

use vstd::prelude::*;
use vstd::utf8::encode_utf8;
use crate::fetch::{first_piece, job_of, leads, media_of, nquads_read, ntriples_read, parses, quad_of, quads_of,
    syntax_in, taken, ActionView, Event, HeaderView, Job, NodeView, Response, Stage, StatementView, Syntax};
use crate::host::count_fields;
use crate::json::{json_text, no_fields, Fields, JsonView};
use crate::laws::objects::{nothing_is_found, with_is_found};
use crate::rdf::{LiteralView, QuadView, TermView};
use crate::text::{lower, lower_all, trimmed, views, white};

verus! {

// ---------------------------------------------------------------------------
// Statements
// ---------------------------------------------------------------------------

/// The node that a term tells of. A literal without a datatype is a string, and
/// one with a language has the datatype of such strings.
pub open spec fn told(t: TermView) -> Option<NodeView> {
    match t {
        TermView::NamedNode(iri) => Some(NodeView::Named(iri)),
        TermView::BlankNode(label) => Some(NodeView::Blank(label)),
        TermView::Literal(LiteralView { value, datatype: Some(datatype), language: None }) => Some(
            NodeView::Literal { value, datatype, language: None },
        ),
        TermView::Literal(LiteralView { value, datatype: None, language: None }) => Some(
            NodeView::Literal { value, datatype: "http://www.w3.org/2001/XMLSchema#string"@, language: None },
        ),
        TermView::Literal(LiteralView { value, datatype: None, language: Some(tag) }) => Some(
            NodeView::Literal {
                value,
                datatype: "http://www.w3.org/1999/02/22-rdf-syntax-ns#langString"@,
                language: Some(tag),
            },
        ),
        _ => None,
    }
}

/// Whether a node is one of RDF: a literal has a language just where its datatype
/// says so.
pub open spec fn is_node(n: NodeView) -> bool {
    n matches NodeView::Literal { value, datatype, language } ==> (language is Some <==> datatype
        == "http://www.w3.org/1999/02/22-rdf-syntax-ns#langString"@)
}

/// Whether what is handed over tells a statement: each of its terms tells the node
/// in its place, and the graph is the one it stands in.
pub open spec fn tells(q: QuadView, s: StatementView) -> bool {
    &&& told(q.subject) == Some(s.subject)
    &&& q.predicate == TermView::NamedNode(s.predicate)
    &&& told(q.object) == Some(s.object)
    &&& match s.graph {
        None => q.graph is None,
        Some(NodeView::Named(iri)) => q.graph == Some(iri),
        Some(NodeView::Blank(label)) => q.graph == Some(seq!['_', ':'] + label),
        Some(_) => true,
    }
}

/// Every statement is handed over with nothing lost: what is handed over tells it.
pub proof fn statements_are_told(s: StatementView)
    requires
        is_node(s.subject),
        is_node(s.object),
    ensures
        tells(quad_of(s), s),
{
    reveal_strlit("_:");
    assert("_:"@ =~= seq!['_', ':']);
}

/// Whether an action hands these statements to this sink, all of them and in their
/// order.
pub open spec fn hands_over(action: ActionView, sink: Seq<char>, statements: Seq<StatementView>) -> bool {
    action matches ActionView::Emit(name, quads) && name == sink && quads.len() == statements.len() && (forall|i: int|
        0 <= i < quads.len() ==> tells(#[trigger] quads[i], statements[i]))
}

/// Whether all the nodes of statements are ones of RDF.
pub open spec fn are_nodes(statements: Seq<StatementView>) -> bool {
    forall|i: int|
        0 <= i < statements.len() ==> is_node((#[trigger] statements[i]).subject) && is_node(statements[i].object)
}

// ---------------------------------------------------------------------------
// Syntax
// ---------------------------------------------------------------------------

/// Whether a text is a lower-case one but for the case of its letters.
pub open spec fn alike(text: Seq<char>, small: Seq<char>) -> bool {
    &&& text.len() == small.len()
    &&& forall|i: int|
        0 <= i < small.len() ==> (#[trigger] text[i]) == small[i] || ('A' <= text[i] <= 'Z' && text[i] as int + 32
            == small[i] as int)
}

/// Whether a content type names a media type, with parameters or without.
pub open spec fn names_media(value: Seq<char>, media: Seq<char>) -> bool {
    ||| alike(value, media)
    ||| exists|front: Seq<char>, parameters: Seq<char>|
        alike(front, media) && value == #[trigger] (front + seq![';'] + parameters)
}

/// Whether a text is one in lower case without blanks and semicolons.
pub open spec fn is_word(s: Seq<char>) -> bool {
    &&& s.len() > 0
    &&& forall|i: int| 0 <= i < s.len() ==> ('a' <= #[trigger] s[i] <= 'z') || s[i] == '/' || s[i] == '-'
}

proof fn alike_is_lowered(text: Seq<char>, small: Seq<char>)
    requires
        alike(text, small),
        is_word(small),
    ensures
        lower_all(text) == small,
        lower_all(small) == small,
        !lower_all(text).contains(';'),
{
    assert forall|i: int| 0 <= i < small.len() implies lower(#[trigger] text[i]) == small[i] && lower(small[i])
        == small[i] by {
        let c = text[i];
        assert('a' <= small[i] <= 'z' || small[i] == '/' || small[i] == '-');
        if 'A' <= c <= 'Z' {
            assert(c as u8 as int == c as int);
            assert(lower(c) as int == c as int + 32);
        }
    }
    assert(lower_all(text) =~= small);
    assert(lower_all(small) =~= small);
}

proof fn media_is_read(value: Seq<char>, media: Seq<char>)
    requires
        names_media(value, media),
        is_word(media),
    ensures
        media_of(value) == media,
{
    assert(trimmed(media) == media) by {
        assert(!white(media[0]));
        assert(!white(media[media.len() - 1]));
    }
    if alike(value, media) {
        alike_is_lowered(value, media);
        first_piece(media, Seq::empty());
    } else {
        let (front, parameters) = choose|front: Seq<char>, parameters: Seq<char>|
            alike(front, media) && value == #[trigger] (front + seq![';'] + parameters);
        alike_is_lowered(front, media);
        assert(lower_all(value) =~= media + seq![';'] + lower_all(parameters));
        first_piece(media, lower_all(parameters));
    }
}

proof fn words_are_told_apart()
    ensures
        is_word("application/n-triples"@),
        is_word("text/plain"@),
        is_word("application/n-quads"@),
        is_word("text/turtle"@),
        is_word("content-type"@),
        "application/n-quads"@ != "application/n-triples"@,
        "application/n-quads"@ != "text/plain"@,
        "text/turtle"@ != "application/n-triples"@,
        "text/turtle"@ != "text/plain"@,
        "text/turtle"@ != "application/n-quads"@,
{
    reveal_strlit("application/n-triples");
    reveal_strlit("text/plain");
    reveal_strlit("application/n-quads");
    reveal_strlit("text/turtle");
    reveal_strlit("content-type");
    assert("application/n-triples"@.len() == 21 && "application/n-quads"@.len() == 19);
    assert("text/plain"@.len() == 10 && "text/turtle"@.len() == 11);
}

/// The first content type decides in which syntax a document is read, whatever the
/// case of its letters and whatever its parameters. A document without one is read
/// as Turtle.
pub proof fn content_type_decides(before: Seq<HeaderView>, header: HeaderView, behind: Seq<HeaderView>)
    requires
        forall|i: int|
            0 <= i < before.len() ==> lower_all((#[trigger] before[i]).name) != lower_all("content-type"@),
        alike(header.name, "content-type"@),
    ensures
        syntax_in(before) == Syntax::Turtle,
        names_media(header.value, "application/n-triples"@) || names_media(header.value, "text/plain"@) ==> syntax_in(
            before + seq![header] + behind,
        ) == Syntax::NTriples,
        names_media(header.value, "application/n-quads"@) ==> syntax_in(before + seq![header] + behind)
            == Syntax::NQuads,
        names_media(header.value, "text/turtle"@) ==> syntax_in(before + seq![header] + behind) == Syntax::Turtle,
    decreases before.len(),
{
    words_are_told_apart();
    let all = before + seq![header] + behind;
    if before.len() > 0 {
        let rest = before.drop_first();
        assert forall|i: int| 0 <= i < rest.len() implies lower_all((#[trigger] rest[i]).name) != lower_all(
            "content-type"@,
        ) by {
            assert(rest[i] == before[i + 1]);
        }
        content_type_decides(rest, header, behind);
        assert(all.drop_first() =~= rest + seq![header] + behind);
        assert(all[0] == before[0]);
    } else {
        assert(all[0] == header);
        alike_is_lowered(header.name, "content-type"@);
        if names_media(header.value, "application/n-triples"@) {
            media_is_read(header.value, "application/n-triples"@);
        }
        if names_media(header.value, "text/plain"@) {
            media_is_read(header.value, "text/plain"@);
        }
        if names_media(header.value, "application/n-quads"@) {
            media_is_read(header.value, "application/n-quads"@);
        }
        if names_media(header.value, "text/turtle"@) {
            media_is_read(header.value, "text/turtle"@);
        }
    }
}

// ---------------------------------------------------------------------------
// The call
// ---------------------------------------------------------------------------

/// The first argument of a call is the address, the second the sink; each is a
/// name or a literal.
pub proof fn arguments_are_read(url: Seq<char>, sink: Seq<char>, literal: LiteralView, rest: Seq<TermView>)
    requires
        literal.value == sink,
    ensures
        job_of(seq![TermView::NamedNode(url), TermView::NamedNode(sink)] + rest) == Ok::<
            (Seq<char>, Seq<char>),
            Seq<char>,
        >((url, sink)),
        job_of(seq![TermView::NamedNode(url), TermView::Literal(literal)] + rest) == Ok::<
            (Seq<char>, Seq<char>),
            Seq<char>,
        >((url, sink)),
        job_of(seq![TermView::Literal(literal), TermView::NamedNode(url)] + rest) == Ok::<
            (Seq<char>, Seq<char>),
            Seq<char>,
        >((sink, url)),
        job_of(Seq::empty()) is Err,
        job_of(seq![TermView::NamedNode(url)]) is Err,
        job_of(seq![TermView::BlankNode(url), TermView::NamedNode(sink)]) is Err,
        job_of(seq![TermView::NamedNode(url), TermView::BlankNode(sink)]) is Err,
{
}

/// All the statements of a document that was fetched go to the sink of the call,
/// in their order; a document without statements ends it.
pub proof fn fetched_statements_go_to_the_sink(
    job: Job,
    response: Response,
    statements: Seq<StatementView>,
    to: (Stage, ActionView),
)
    requires
        200 <= response.status <= 299,
        leads(job, Stage::Getting, Event::Response(response), to),
        are_nodes(statements),
        ({
            ||| syntax_in(views(response.headers@)) is NTriples && ntriples_read(encode_utf8(response.body@)) == Ok::<
                Seq<StatementView>,
                Seq<char>,
            >(statements)
            ||| syntax_in(views(response.headers@)) is NQuads && nquads_read(encode_utf8(response.body@)) == Ok::<
                Seq<StatementView>,
                Seq<char>,
            >(statements)
        }),
    ensures
        statements.len() > 0 ==> hands_over(to.1, job.sink@, statements),
        statements.len() > 0 ==> to.0 == Stage::Emitting(encode_utf8(response.body@).len() as u64),
        statements.len() == 0 ==> to.1 is Finish && to.0 is Over,
{
    let read: Result<Seq<QuadView>, Seq<char>> = choose|read: Result<Seq<QuadView>, Seq<char>>| #[trigger]
        parses(syntax_in(views(response.headers@)), response.body@, read) && to == taken(
            job,
            encode_utf8(response.body@).len() as u64,
            read,
        );
    assert(read == Ok::<Seq<QuadView>, Seq<char>>(quads_of(statements)));
    assert forall|i: int| 0 <= i < statements.len() implies tells(#[trigger] quads_of(statements)[i], statements[i]) by {
        assert(is_node(statements[i].subject));
        statements_are_told(statements[i]);
    }
}

/// A document that was not served, or cannot be read, is told as an error, and
/// nothing goes to the sink.
pub proof fn nothing_is_handed_over_on_failure(job: Job, response: Response, to: (Stage, ActionView))
    requires
        leads(job, Stage::Getting, Event::Response(response), to),
        ({
            ||| response.status < 200
            ||| response.status > 299
            ||| syntax_in(views(response.headers@)) is NTriples && ntriples_read(encode_utf8(response.body@)) is Err
            ||| syntax_in(views(response.headers@)) is NQuads && nquads_read(encode_utf8(response.body@)) is Err
        }),
    ensures
        to.0 is Over,
        to.1 matches ActionView::Finish(Err(_)),
{
}

/// The result of a call tells how many bytes were fetched and how many statements
/// the sink took.
pub proof fn summary_tells_the_call(job: Job, fetched: u64, n: u64, to: (Stage, ActionView))
    requires
        leads(job, Stage::Emitting(fetched), Event::Accepted(n), to),
    ensures
        to.1 matches ActionView::Finish(Ok(TermView::Literal(l))) && l.datatype == Some(
            "http://www.w3.org/1999/02/22-rdf-syntax-ns#JSON"@,
        ) && l.language is None && (exists|tree: JsonView|
            l.value == #[trigger] json_text(tree) && tree.get("fetched"@) == Some(JsonView::Unsigned(fetched))
                && tree.get("emitted"@) == Some(JsonView::Unsigned(n))),
{
    reveal_strlit("fetched");
    reveal_strlit("emitted");
    assert("fetched"@[0] == 'f' && "emitted"@[0] == 'e');
    let pairs = seq![("fetched"@, fetched), ("emitted"@, n)];
    reveal_with_fuel(count_fields, 3);
    let f0 = no_fields();
    nothing_is_found();
    with_is_found(f0, "fetched"@, JsonView::Unsigned(fetched));
    let f1 = f0.with("fetched"@, JsonView::Unsigned(fetched));
    with_is_found(f1, "emitted"@, JsonView::Unsigned(n));
    let f2 = f1.with("emitted"@, JsonView::Unsigned(n));
    assert(pairs.drop_last().drop_last() =~= Seq::<(Seq<char>, u64)>::empty());
    assert(pairs.drop_last() =~= seq![("fetched"@, fetched)]);
    assert(count_fields(pairs) == f2);
    let tree = JsonView::Object(f2);
    assert(tree.get("fetched"@) == Some(JsonView::Unsigned(fetched)));
}

} // verus!

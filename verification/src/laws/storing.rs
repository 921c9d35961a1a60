//! What is asked of a document store, and what is read from its replies.

use vstd::prelude::*;
use vstd::utf8::encode_utf8;
use crate::document::sirix::{document_cell, fetch_sql, fetched, revisions_of, revisions_sql, row_revisions, DocIdView};
use crate::document::sirix_write::{delete_sql, insert_sql, update_sql, write_ack, AckView};
use crate::grid::{first_wanted, is_wanted, names_of};
use crate::json::JsonView;
use crate::number::decimal_of;
use crate::sql::{ident, quoted, table_ref};
use crate::text::{decoded, doubled, escaped, escaped_char, expand, lower_all};

verus! {

// ---------------------------------------------------------------------------
// Quotation
// ---------------------------------------------------------------------------

/// What a quoted text says: two marks stand for one.
pub open spec fn read_marks(s: Seq<char>, mark: char) -> Seq<char>
    decreases s.len(),
{
    if s.len() == 0 {
        Seq::empty()
    } else if s.last() == mark && s.len() >= 2 {
        read_marks(s.take(s.len() - 2), mark).push(mark)
    } else {
        read_marks(s.drop_last(), mark).push(s.last())
    }
}

/// What is quoted in a statement reads back as it was.
pub proof fn quoted_text_reads_back(s: Seq<char>, mark: char)
    ensures
        read_marks(expand(s, doubled(mark)), mark) == s,
    decreases s.len(),
{
    if s.len() > 0 {
        let rest = s.drop_last();
        quoted_text_reads_back(rest, mark);
        let head = expand(rest, doubled(mark));
        let all = expand(s, doubled(mark));
        if s.last() == mark {
            assert(all.take(all.len() - 2) =~= head);
        } else {
            assert(all.drop_last() =~= head);
        }
        assert(rest.push(s.last()) =~= s);
    } else {
        assert(s =~= Seq::empty());
    }
}

/// What the inside of a quoted SPARQL literal says.
pub open spec fn read_escapes(s: Seq<char>) -> Seq<char>
    decreases s.len(),
{
    if s.len() == 0 {
        Seq::empty()
    } else if s[0] == '\\' && s.len() >= 2 {
        let c = if s[1] == 'n' {
            '\n'
        } else if s[1] == 'r' {
            '\r'
        } else if s[1] == 't' {
            '\t'
        } else {
            s[1]
        };
        seq![c] + read_escapes(s.skip(2))
    } else {
        seq![s[0]] + read_escapes(s.skip(1))
    }
}

proof fn expand_front(c: char, rest: Seq<char>, image: spec_fn(char) -> Seq<char>)
    ensures
        expand(seq![c] + rest, image) == image(c) + expand(rest, image),
    decreases rest.len(),
{
    let all = seq![c] + rest;
    if rest.len() == 0 {
        reveal_with_fuel(expand, 2);
        assert(all.drop_last() =~= Seq::empty());
        assert(expand(all, image) =~= image(c) + expand(rest, image));
    } else {
        expand_front(c, rest.drop_last(), image);
        assert(all.drop_last() =~= seq![c] + rest.drop_last());
        assert(expand(all, image) =~= image(c) + expand(rest, image));
    }
}

/// What is written in a quoted SPARQL literal reads back as it was, and no quote
/// in it ends the literal.
pub proof fn written_literal_reads_back(s: Seq<char>)
    ensures
        read_escapes(escaped(s)) == s,
    decreases s.len(),
{
    let image = |c: char| escaped_char(c);
    if s.len() > 0 {
        let rest = s.skip(1);
        assert(seq![s[0]] + rest =~= s);
        expand_front(s[0], rest, image);
        written_literal_reads_back(rest);
        let own = image(s[0]);
        let all = escaped(s);
        assert(all == own + escaped(rest));
        if own.len() == 2 {
            assert(all[0] == own[0] && all[1] == own[1]);
            assert(all.skip(2) =~= escaped(rest));
        } else {
            assert(all[0] == own[0]);
            assert(all.skip(1) =~= escaped(rest));
        }
        assert(seq![s[0]] + rest =~= s);
    } else {
        assert(escaped(s) =~= Seq::empty());
        assert(s =~= Seq::empty());
    }
}

/// Whether a quote stands in a text without a backslash that belongs to it.
pub open spec fn has_bare_quote(s: Seq<char>) -> bool
    decreases s.len(),
{
    if s.len() == 0 {
        false
    } else if s[0] == '\\' && s.len() >= 2 {
        has_bare_quote(s.skip(2))
    } else {
        s[0] == '"' || s[0] == '\n' || has_bare_quote(s.skip(1))
    }
}

/// No quote and no line break inside a written literal ends it.
pub proof fn written_literal_is_closed(s: Seq<char>)
    ensures
        !has_bare_quote(escaped(s)),
    decreases s.len(),
{
    let image = |c: char| escaped_char(c);
    if s.len() > 0 {
        let rest = s.skip(1);
        assert(seq![s[0]] + rest =~= s);
        expand_front(s[0], rest, image);
        written_literal_is_closed(rest);
        let own = image(s[0]);
        let all = escaped(s);
        assert(all == own + escaped(rest));
        if own.len() == 2 {
            assert(all[0] == own[0] && all[1] == own[1]);
            assert(all.skip(2) =~= escaped(rest));
        } else {
            assert(all[0] == own[0]);
            assert(all.skip(1) =~= escaped(rest));
        }
    } else {
        assert(escaped(s) =~= Seq::empty());
    }
}

// ---------------------------------------------------------------------------
// Statements
// ---------------------------------------------------------------------------

/// Whether a text is a name or a value between marks.
pub open spec fn says(quoted: Seq<char>, mark: char, s: Seq<char>) -> bool {
    &&& quoted.len() >= 2
    &&& quoted[0] == mark && quoted.last() == mark
    &&& read_marks(quoted.subrange(1, quoted.len() - 1), mark) == s
}

/// Whether a statement is made of a verb, the table of a document, what is done,
/// and the condition that picks the document by its own key.
pub open spec fn speaks_of(sql: Seq<char>, verb: Seq<char>, what: Seq<char>, d: DocIdView, rest: Seq<char>) -> bool {
    exists|db: Seq<char>, res: Seq<char>, key: Seq<char>|
        {
            &&& #[trigger] says(db, '"', d.database)
            &&& #[trigger] says(res, '"', d.resource)
            &&& #[trigger] says(key, '\'', d.node_key)
            &&& sql == verb + db + "."@ + res + what + " WHERE JSON_VALUE(\"document\", '$._id') = "@ + key + rest
        }
}

proof fn ident_says(s: Seq<char>)
    ensures
        says("\""@ + ident(s) + "\""@, '"', s),
{
    reveal_strlit("\"");
    quoted_text_reads_back(s, '"');
    let q = "\""@ + ident(s) + "\""@;
    assert(q.subrange(1, q.len() - 1) =~= ident(s));
}

proof fn quoted_says(s: Seq<char>)
    ensures
        says(quoted(s), '\'', s),
{
    reveal_strlit("'");
    quoted_text_reads_back(s, '\'');
    let q = quoted(s);
    assert(q.subrange(1, q.len() - 1) =~= expand(s, doubled('\'')));
}

proof fn table_is_two_names(database: Seq<char>, resource: Seq<char>)
    ensures
        table_ref(database, resource) == ("\""@ + ident(database) + "\""@) + "."@ + ("\""@ + ident(resource) + "\""@),
{
    reveal_strlit("\"");
    reveal_strlit("\".\"");
    reveal_strlit(".");
    assert(table_ref(database, resource) =~= ("\""@ + ident(database) + "\""@) + "."@ + ("\""@ + ident(resource)
        + "\""@));
}

/// The condition on the revision, where one is given.
pub open spec fn at_revision(revision: Option<u64>) -> Seq<char> {
    match revision {
        Some(n) => " AND _revision = "@ + decimal_of(n as nat),
        None => ""@,
    }
}

/// The statements about a document name its database and its resource, and pick
/// it by its own key: all of it, its revisions in order, its deletion, or its new
/// body. A revision that is given must be the document's.
pub proof fn statements_pick_the_document(d: DocIdView, revision: Option<u64>, body: Seq<u8>)
    ensures
        speaks_of(
            fetch_sql(d, revision),
            "SELECT * FROM "@,
            ""@,
            d,
            at_revision(revision),
        ),
        speaks_of(revisions_sql(d), "SELECT _revision FROM "@, ""@, d, " ORDER BY _revision"@),
        speaks_of(delete_sql(d), "DELETE FROM "@, ""@, d, ""@),
        decoded(body) matches Ok(text) ==> (update_sql(d, body, revision) matches Ok(sql) && exists|value: Seq<char>|
            says(value, '\'', text) && #[trigger] speaks_of(
                sql,
                "UPDATE "@,
                " SET document = "@ + value,
                d,
                at_revision(revision),
            )),
        decoded(body) is Err ==> update_sql(d, body, revision) is Err,
{
    reveal_strlit("");
    ident_says(d.database);
    ident_says(d.resource);
    quoted_says(d.node_key);
    table_is_two_names(d.database, d.resource);
    let db = "\""@ + ident(d.database) + "\""@;
    let res = "\""@ + ident(d.resource) + "\""@;
    let key = quoted(d.node_key);
    let picked = " WHERE JSON_VALUE(\"document\", '$._id') = "@;
    assert(says(db, '"', d.database) && says(res, '"', d.resource) && says(key, '\'', d.node_key));
    let rest = at_revision(revision);
    assert(fetch_sql(d, revision) =~= "SELECT * FROM "@ + db + "."@ + res + ""@ + picked + key + rest);
    assert(revisions_sql(d) =~= "SELECT _revision FROM "@ + db + "."@ + res + ""@ + picked + key
        + " ORDER BY _revision"@);
    assert(delete_sql(d) =~= "DELETE FROM "@ + db + "."@ + res + ""@ + picked + key + ""@);
    match decoded(body) {
        Ok(text) => {
            quoted_says(text);
            let value = quoted(text);
            let sql = update_sql(d, body, revision)->Ok_0;
            assert(sql =~= "UPDATE "@ + db + "."@ + res + (" SET document = "@ + value) + picked + key + rest);
            assert(speaks_of(sql, "UPDATE "@, " SET document = "@ + value, d, rest));
        },
        Err(_) => {},
    }
}

/// An insertion names the database and the resource, and gives the body.
pub proof fn insertion_gives_the_body(database: Seq<char>, resource: Seq<char>, body: Seq<u8>)
    ensures
        decoded(body) is Err ==> insert_sql(database, resource, body) is Err,
        decoded(body) matches Ok(text) ==> (insert_sql(database, resource, body) matches Ok(sql) && exists|
            db: Seq<char>,
            res: Seq<char>,
            value: Seq<char>,
        |
            {
                &&& #[trigger] says(db, '"', database)
                &&& #[trigger] says(res, '"', resource)
                &&& #[trigger] says(value, '\'', text)
                &&& sql == "INSERT INTO "@ + db + "."@ + res + " (document) VALUES ("@ + value + ")"@
            }),
{
    ident_says(database);
    ident_says(resource);
    table_is_two_names(database, resource);
    match decoded(body) {
        Ok(text) => {
            quoted_says(text);
            let db = "\""@ + ident(database) + "\""@;
            let res = "\""@ + ident(resource) + "\""@;
            let value = quoted(text);
            let sql = insert_sql(database, resource, body)->Ok_0;
            assert(sql =~= "INSERT INTO "@ + db + "."@ + res + " (document) VALUES ("@ + value + ")"@);
            assert(says(db, '"', database) && says(res, '"', resource) && says(value, '\'', text));
        },
        Err(_) => {},
    }
}

// ---------------------------------------------------------------------------
// Replies
// ---------------------------------------------------------------------------

/// Whether a reply is a table without an error, with these columns and rows.
pub open spec fn is_table(root: JsonView, columns: Seq<JsonView>, rows: Seq<JsonView>) -> bool {
    &&& root.get("error"@) is None
    &&& root.get("columns"@) == Some(JsonView::Array(columns))
    &&& root.get("rows"@) == Some(JsonView::Array(rows))
}

proof fn wanted_is_first(names: Seq<Seq<char>>, wanted: Seq<Seq<char>>, i: int)
    requires
        0 <= i < names.len(),
        is_wanted(names[i], wanted),
        forall|j: int| 0 <= j < i ==> !is_wanted(#[trigger] names[j], wanted),
    ensures
        first_wanted(names, wanted) == Some(i as nat),
    decreases i,
{
    if i > 0 {
        let rest = names.drop_first();
        assert(rest[i - 1] == names[i]);
        assert forall|j: int| 0 <= j < i - 1 implies !is_wanted(#[trigger] rest[j], wanted) by {
            assert(rest[j] == names[j + 1]);
        }
        assert(!is_wanted(names[0], wanted));
        wanted_is_first(rest, wanted, i - 1);
    }
}

/// The body that a fetch gives is the first row's cell under the first column that
/// is called `document`, `body`, `content` or `json`; a content type that is
/// asked for counts. An error, and a reply without rows, give none.
pub proof fn fetched_body_is_the_document_cell(
    root: JsonView,
    columns: Seq<JsonView>,
    rows: Seq<JsonView>,
    content_type: Option<Seq<char>>,
    at: int,
)
    requires
        is_table(root, columns, rows),
    ensures
        rows.len() == 0 ==> fetched(root, content_type) is Err,
        rows.len() > 0 && (rows[0] matches JsonView::Array(cells) && cells.len() == columns.len()) && 0 <= at
            < columns.len() && is_document_name(names_of(columns)[at]) && (forall|j: int|
            0 <= j < at ==> !is_document_name(#[trigger] names_of(columns)[j])) ==> (fetched(
            root,
            content_type,
        ) matches Ok((body, ty)) && (rows[0]->Array_0[at] matches JsonView::Text(text) ==> body == encode_utf8(text))
            && (content_type matches Some(t) ==> ty == t)),
{
    let names = names_of(columns);
    let wanted = seq!["document"@, "body"@, "content"@, "json"@];
    if rows.len() > 0 && (rows[0] matches JsonView::Array(cells) && cells.len() == columns.len()) && 0 <= at
        < columns.len() && is_document_name(names[at]) && (forall|j: int|
        0 <= j < at ==> !is_document_name(#[trigger] names_of(columns)[j])) {
        assert forall|name: Seq<char>| #[trigger] is_wanted(name, wanted) <==> is_document_name(name) by {
            if is_document_name(name) {
                assert(wanted[0] == "document"@ && wanted[1] == "body"@ && wanted[2] == "content"@ && wanted[3]
                    == "json"@);
            }
        }
        assert forall|j: int| 0 <= j < at implies !is_wanted(#[trigger] names[j], wanted) by {
            assert(!is_document_name(names_of(columns)[j]));
        }
        wanted_is_first(names, wanted, at);
        let cells = rows[0]->Array_0;
        assert(document_cell(names, cells) == Some(cells[at]));
    }
}

/// Whether a column is called like a document, whatever the case.
pub open spec fn is_document_name(name: Seq<char>) -> bool {
    ||| lower_all(name) == lower_all("document"@)
    ||| lower_all(name) == lower_all("body"@)
    ||| lower_all(name) == lower_all("content"@)
    ||| lower_all(name) == lower_all("json"@)
}

/// A reply with an error is a failure, for reads, listings and writes alike.
pub proof fn errors_of_the_store_are_told(root: JsonView, e: Seq<char>, content_type: Option<Seq<char>>)
    requires
        root.get("error"@) == Some(JsonView::Text(e)),
    ensures
        fetched(root, content_type) == Err::<(Seq<u8>, Seq<char>), Seq<char>>("wf_document: sirix: "@ + e),
        revisions_of(root) == Err::<Seq<u64>, Seq<char>>("wf_document: sirix: "@ + e),
        write_ack(root) == Err::<AckView, Seq<char>>("wf_document: sirix: "@ + e),
{
}

/// The revisions of a document are the numbers in the column that lists them, row
/// by row.
pub proof fn revisions_are_listed_in_order(rows: Seq<JsonView>, at: nat, revisions: Seq<u64>)
    requires
        rows.len() == revisions.len(),
        forall|i: int|
            0 <= i < rows.len() ==> ((#[trigger] rows[i]) matches JsonView::Array(cells) && at < cells.len()
                && cells[at as int] == JsonView::Unsigned(revisions[i])),
    ensures
        row_revisions(rows, at) == Ok::<Seq<u64>, Seq<char>>(revisions),
    decreases rows.len(),
{
    if rows.len() > 0 {
        let rest = rows.drop_last();
        let before = revisions.drop_last();
        assert forall|i: int| 0 <= i < rest.len() implies ((#[trigger] rest[i]) matches JsonView::Array(cells) && at
            < cells.len() && cells[at as int] == JsonView::Unsigned(before[i])) by {
            assert(rest[i] == rows[i]);
        }
        revisions_are_listed_in_order(rest, at, before);
        assert(rows[rows.len() - 1] == rows.last());
        assert(before.push(revisions.last()) =~= revisions);
    } else {
        assert(revisions =~= Seq::empty());
    }
}

/// A write is acknowledged by the revision that it made and since when that is
/// valid, as fields of the reply.
pub proof fn acknowledgement_is_read(root: JsonView, revision: u64, valid_from: Seq<char>, key: Seq<char>)
    requires
        root.get("error"@) is None,
        root.get("revision"@) == Some(JsonView::Unsigned(revision)),
        root.get("valid_from"@) == Some(JsonView::Text(valid_from)),
        root.get("node_key"@) == Some(JsonView::Text(key)),
    ensures
        write_ack(root) == Ok::<AckView, Seq<char>>(AckView { revision, valid_from, node_key: Some(key) }),
{
    assert(seq!["revision"@, "rev"@, "_rev"@][0] == "revision"@);
    assert(seq!["valid_from"@, "_valid_from"@][0] == "valid_from"@);
    assert(seq!["node_key"@, "_nodekey"@][0] == "node_key"@);
}

} // verus!

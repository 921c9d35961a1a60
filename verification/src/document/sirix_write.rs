//! Writes to the document store: the statements that make them and the replies.

use vstd::prelude::*;
use vstd::string::*;

use crate::document::sirix::{pick, picks, DocId, DocIdView};
use crate::grid::{cell, cell_at, cell_to_unsigned, cell_unsigned, cells_are_found_by_name, column, column_names, column_of,
    labelled, names_differ, names_of};
use crate::json::{array_field, get_array, get_text, json_parse, json_text, text_field, Json, JsonView};
use crate::number::{decimal, decimal_of};
use crate::sql::{quote_text, quoted, table, table_ref};
use crate::text::{decode, decoded, opt_view, views};

verus! {

// ---------------------------------------------------------------------------
// Statements
// ---------------------------------------------------------------------------

/// The statement that inserts a document.
pub open spec fn insert_sql(database: Seq<char>, resource: Seq<char>, body: Seq<u8>) -> Result<Seq<char>, Seq<char>> {
    match decoded(body) {
        Ok(text) => Ok(
            "INSERT INTO "@ + table_ref(database, resource) + " (document) VALUES ("@ + quoted(text) + ")"@,
        ),
        Err(e) => Err("wf_document: insert body is not valid UTF-8: "@ + e),
    }
}

/// The view of a statement or an error message.
pub open spec fn sql_or_error(r: Result<String, String>) -> Result<Seq<char>, Seq<char>> {
    match r {
        Ok(s) => Ok(s@),
        Err(e) => Err(e@),
    }
}

pub fn build_insert_sql(database: &str, resource: &str, body: &[u8]) -> (r: Result<String, String>)
    ensures
        sql_or_error(r) == insert_sql(database@, resource@, body@),
{
    match decode(body) {
        Ok(text) => Ok(
            "INSERT INTO ".to_owned().concat(&table(database, resource)).concat(" (document) VALUES (").concat(
                &quote_text(&text),
            ).concat(")"),
        ),
        Err(e) => Err("wf_document: insert body is not valid UTF-8: ".to_owned().concat(&e)),
    }
}

/// The statement that updates a document, on top of a revision where one is
/// expected.
pub open spec fn update_sql(d: DocIdView, body: Seq<u8>, expected: Option<u64>) -> Result<Seq<char>, Seq<char>> {
    match decoded(body) {
        Ok(text) => {
            let base = "UPDATE "@ + table_ref(d.database, d.resource) + " SET document = "@ + quoted(text)
                + picks(d.node_key);
            Ok(
                match expected {
                    Some(rev) => base + " AND _revision = "@ + decimal_of(rev as nat),
                    None => base,
                },
            )
        },
        Err(e) => Err("wf_document: update body is not valid UTF-8: "@ + e),
    }
}

pub fn build_update_sql(doc: &DocId, body: &[u8], expected_revision: Option<u64>) -> (r: Result<String, String>)
    ensures
        sql_or_error(r) == update_sql(doc@, body@, expected_revision),
{
    match decode(body) {
        Ok(text) => {
            let base = "UPDATE ".to_owned().concat(&table(&doc.database, &doc.resource)).concat(
                " SET document = ",
            ).concat(&quote_text(&text)).concat(&pick(&doc.node_key));
            Ok(
                match expected_revision {
                    Some(rev) => base.concat(" AND _revision = ").concat(&decimal(rev)),
                    None => base,
                },
            )
        },
        Err(e) => Err("wf_document: update body is not valid UTF-8: ".to_owned().concat(&e)),
    }
}

/// The statement that deletes a document.
pub open spec fn delete_sql(d: DocIdView) -> Seq<char> {
    "DELETE FROM "@ + table_ref(d.database, d.resource) + picks(d.node_key)
}

pub fn build_delete_sql(doc: &DocId) -> (r: String)
    ensures
        r@ == delete_sql(doc@),
{
    "DELETE FROM ".to_owned().concat(&table(&doc.database, &doc.resource)).concat(&pick(&doc.node_key))
}

// ---------------------------------------------------------------------------
// Replies
// ---------------------------------------------------------------------------

/// A write that the store has committed.
#[derive(Debug, PartialEq, Eq)]
pub struct WriteAck {
    pub revision: u64,
    pub valid_from: String,
    /// The key that the store gave a new document.
    pub node_key: Option<String>,
}

pub struct AckView {
    pub revision: u64,
    pub valid_from: Seq<char>,
    pub node_key: Option<Seq<char>>,
}

impl View for WriteAck {
    type V = AckView;

    open spec fn view(&self) -> AckView {
        AckView { revision: self.revision, valid_from: self.valid_from@, node_key: opt_view(self.node_key) }
    }
}

/// The first of some fields that the reply has.
pub open spec fn first_field(root: JsonView, keys: Seq<Seq<char>>) -> Option<JsonView>
    decreases keys.len(),
{
    if keys.len() == 0 {
        None
    } else {
        match root.get(keys[0]) {
            Some(v) => Some(v),
            None => first_field(root, keys.drop_first()),
        }
    }
}

fn find_first<'a>(root: &'a Json, keys: &Vec<&str>) -> (r: Option<&'a Json>)
    ensures
        match r {
            Some(v) => first_field(root@, views(keys@)) == Some(v@),
            None => first_field(root@, views(keys@)) is None,
        },
{
    let ghost all = views(keys@);
    proof {
        assert(all.skip(0) =~= all);
    }
    for i in 0..keys.len()
        invariant
            all == views(keys@),
            first_field(root@, all) == first_field(root@, all.skip(i as int)),
    {
        proof {
            assert(all.skip(i as int).drop_first() =~= all.skip(i + 1));
            assert(all[i as int] == keys@[i as int]@);
        }
        match root.get(keys[i]) {
            Some(v) => {
                return Some(v);
            },
            None => {},
        }
    }
    None
}

/// The text that a value is.
pub open spec fn as_text(v: Option<JsonView>) -> Option<Seq<char>> {
    match v {
        Some(v) => v.as_text(),
        None => None,
    }
}

fn copy_text(v: Option<&Json>) -> (r: Option<String>)
    ensures
        opt_view(r) == as_text(
            match v {
                Some(j) => Some(j@),
                None => None,
            },
        ),
{
    match v {
        Some(j) => match j.as_text() {
            Some(s) => Some(s.clone()),
            None => None,
        },
        None => None,
    }
}

/// What a reply that is one object says, where it is one.
pub open spec fn flat_ack(root: JsonView) -> Option<AckView> {
    match (
        cell_unsigned(first_field(root, seq!["revision"@, "rev"@, "_rev"@])),
        as_text(first_field(root, seq!["valid_from"@, "_valid_from"@])),
    ) {
        (Some(revision), Some(valid_from)) => Some(
            AckView { revision, valid_from, node_key: as_text(first_field(root, seq!["node_key"@, "_nodekey"@])) },
        ),
        _ => None,
    }
}

/// The view of an acknowledgement that may be missing.
pub open spec fn ack_view(a: Option<WriteAck>) -> Option<AckView> {
    match a {
        Some(a) => Some(a@),
        None => None,
    }
}

fn read_flat(root: &Json) -> (r: Option<WriteAck>)
    ensures
        ack_view(r) == flat_ack(root@),
{
    let revisions = vec!["revision", "rev", "_rev"];
    let starts = vec!["valid_from", "_valid_from"];
    let keys = vec!["node_key", "_nodekey"];
    proof {
        assert(views(revisions@) =~= seq!["revision"@, "rev"@, "_rev"@]);
        assert(views(starts@) =~= seq!["valid_from"@, "_valid_from"@]);
        assert(views(keys@) =~= seq!["node_key"@, "_nodekey"@]);
    }
    let revision = cell_to_unsigned(find_first(root, &revisions));
    let valid_from = copy_text(find_first(root, &starts));
    match (revision, valid_from) {
        (Some(revision), Some(valid_from)) => {
            let node_key = copy_text(find_first(root, &keys));
            Some(WriteAck { revision, valid_from, node_key })
        },
        _ => None,
    }
}

/// What the first row of a table says.
pub open spec fn row_ack(names: Seq<Seq<char>>, cells: Seq<JsonView>) -> Result<AckView, Seq<char>> {
    match column_of(names, seq!["_rev"@, "rev"@, "revision"@]) {
        None => Err("wf_document: sirix write response has no `_rev` column"@),
        Some(rev_at) => match cell_at(cells, rev_at) {
            None => Err("wf_document: sirix write row missing _rev cell"@),
            Some(rev) => match cell_unsigned(Some(rev)) {
                None => Err("wf_document: _rev cell was not an integer: "@ + json_text(rev)),
                Some(revision) => match column_of(names, seq!["_valid_from"@, "valid_from"@]) {
                    None => Err("wf_document: sirix write response has no `_valid_from` column"@),
                    Some(from_at) => match cell_at(cells, from_at) {
                        None => Err("wf_document: sirix write row missing _valid_from cell"@),
                        Some(from) => match from.as_text() {
                            None => Err("wf_document: _valid_from cell was not a string: "@ + json_text(from)),
                            Some(valid_from) => Ok(
                                AckView {
                                    revision,
                                    valid_from,
                                    node_key: match column_of(names, seq!["_nodekey"@, "nodekey"@]) {
                                        Some(at) => as_text(cell_at(cells, at)),
                                        None => None,
                                    },
                                },
                            ),
                        },
                    },
                },
            },
        },
    }
}

/// What a reply to a write says: one object, or the first row of a table.
pub open spec fn write_ack(root: JsonView) -> Result<AckView, Seq<char>> {
    match text_field(root, "error"@) {
        Some(e) => Err("wf_document: sirix: "@ + e),
        None => match flat_ack(root) {
            Some(ack) => Ok(ack),
            None => match array_field(root, "columns"@) {
                None => Err("wf_document: sirix write response missing `columns` array"@),
                Some(columns) => match array_field(root, "rows"@) {
                    None => Err("wf_document: sirix write response missing `rows` array"@),
                    Some(rows) => if rows.len() == 0 {
                        Err("wf_document: sirix write returned zero rows"@)
                    } else {
                        match rows[0].as_array() {
                            None => Err(
                                "wf_document: sirix write row was not an array: "@ + json_text(rows[0]),
                            ),
                            Some(cells) => row_ack(names_of(columns), cells),
                        }
                    },
                },
            },
        },
    }
}

/// The view of an acknowledgement or an error message.
pub open spec fn ack_or_error(r: Result<WriteAck, String>) -> Result<AckView, Seq<char>> {
    match r {
        Ok(a) => Ok(a@),
        Err(e) => Err(e@),
    }
}

fn read_row(names: &Vec<String>, cells: &Vec<Json>) -> (r: Result<WriteAck, String>)
    requires
        crate::json::all_wf(views(cells@)),
    ensures
        ack_or_error(r) == row_ack(views(names@), views(cells@)),
{
    let revisions = vec!["_rev", "rev", "revision"];
    let starts = vec!["_valid_from", "valid_from"];
    let keys = vec!["_nodekey", "nodekey"];
    proof {
        assert(views(revisions@) =~= seq!["_rev"@, "rev"@, "revision"@]);
        assert(views(starts@) =~= seq!["_valid_from"@, "valid_from"@]);
        assert(views(keys@) =~= seq!["_nodekey"@, "nodekey"@]);
    }
    let rev_at = match column(names, &revisions) {
        Some(i) => i,
        None => {
            return Err("wf_document: sirix write response has no `_rev` column".to_owned());
        },
    };
    let rev = match cell(cells, rev_at) {
        Some(c) => c,
        None => {
            return Err("wf_document: sirix write row missing _rev cell".to_owned());
        },
    };
    proof {
        assert(views(cells@)[rev_at as int].wf());
    }
    let revision = match cell_to_unsigned(Some(rev)) {
        Some(n) => n,
        None => {
            let text = rev.render();
            return Err("wf_document: _rev cell was not an integer: ".to_owned().concat(&text));
        },
    };
    let from_at = match column(names, &starts) {
        Some(i) => i,
        None => {
            return Err("wf_document: sirix write response has no `_valid_from` column".to_owned());
        },
    };
    let from = match cell(cells, from_at) {
        Some(c) => c,
        None => {
            return Err("wf_document: sirix write row missing _valid_from cell".to_owned());
        },
    };
    proof {
        assert(views(cells@)[from_at as int].wf());
    }
    let valid_from = match from.as_text() {
        Some(s) => s.clone(),
        None => {
            let text = from.render();
            return Err("wf_document: _valid_from cell was not a string: ".to_owned().concat(&text));
        },
    };
    let node_key = match column(names, &keys) {
        Some(at) => copy_text(cell(cells, at)),
        None => None,
    };
    Ok(WriteAck { revision, valid_from, node_key })
}

/// Reads a reply to a write.
pub fn ack_from_json(root: &Json) -> (r: Result<WriteAck, String>)
    requires
        root@.wf(),
    ensures
        ack_or_error(r) == write_ack(root@),
{
    match get_text(root, "error") {
        Some(e) => {
            return Err("wf_document: sirix: ".to_owned().concat(e));
        },
        None => {},
    }
    match read_flat(root) {
        Some(ack) => {
            return Ok(ack);
        },
        None => {},
    }
    let columns = match get_array(root, "columns") {
        Some(c) => c,
        None => {
            return Err("wf_document: sirix write response missing `columns` array".to_owned());
        },
    };
    let rows = match get_array(root, "rows") {
        Some(v) => v,
        None => {
            return Err("wf_document: sirix write response missing `rows` array".to_owned());
        },
    };
    if rows.len() == 0 {
        return Err("wf_document: sirix write returned zero rows".to_owned());
    }
    proof {
        assert(views(rows@)[0] == rows@[0]@);
        assert(views(rows@)[0].wf());
    }
    match rows[0].as_array() {
        Some(cells) => read_row(&column_names(columns), cells),
        None => {
            let text = rows[0].render();
            Err("wf_document: sirix write row was not an array: ".to_owned().concat(&text))
        },
    }
}

/// What the text of a reply to a write says.
pub open spec fn write_text(text: Seq<char>) -> Result<AckView, Seq<char>> {
    match json_parse(text) {
        Err(message) => Err("wf_document: sirix write response is not JSON: "@ + message),
        Ok(root) => write_ack(root),
    }
}

/// Reads the text of a reply to a write.
pub fn parse_write_response(json_str: &str) -> (r: Result<WriteAck, String>)
    ensures
        ack_or_error(r) == write_text(json_str@),
{
    match Json::parse(json_str) {
        Ok(root) => ack_from_json(&root),
        Err(message) => Err("wf_document: sirix write response is not JSON: ".to_owned().concat(&message)),
    }
}

// ---------------------------------------------------------------------------
// Laws
// ---------------------------------------------------------------------------

/// A reply that is a table of one row, and nothing else.
pub open spec fn one_row(columns: Seq<JsonView>, cells: Seq<JsonView>) -> JsonView {
    JsonView::Object(
        seq![("columns"@, JsonView::Array(columns)), ("rows"@, JsonView::Array(seq![JsonView::Array(cells)]))],
    )
}

proof fn one_row_is_read_by_columns(columns: Seq<JsonView>, cells: Seq<JsonView>)
    ensures
        write_ack(one_row(columns, cells)) == row_ack(names_of(columns), cells),
{
    reveal_strlit("columns");
    reveal_strlit("rows");
    reveal_strlit("error");
    reveal_strlit("revision");
    reveal_strlit("rev");
    reveal_strlit("_rev");
    reveal_strlit("valid_from");
    reveal_strlit("_valid_from");
    reveal_with_fuel(crate::json::lookup, 3);
    reveal_with_fuel(first_field, 4);
    let root = one_row(columns, cells);
    assert(forall|key: Seq<char>|
        key.len() > 0 && key[0] != 'c' && !(key[0] == 'r' && key.len() == 4) ==> #[trigger] root.get(key) is None);
    let keys = seq!["revision"@, "rev"@, "_rev"@];
    assert(root.get(keys[0]) is None);
    assert(root.get(keys.drop_first()[0]) is None);
    assert(root.get(keys.drop_first().drop_first()[0]) is None);
    assert(first_field(root, keys) is None);
    assert(flat_ack(root) is None);
    assert(root.get("error"@) is None);
    assert(root.get("columns"@) == Some(JsonView::Array(columns)));
    assert(root.get("rows"@) == Some(JsonView::Array(seq![JsonView::Array(cells)])));
}

/// The reply to a write is read the same whatever the order of its columns and
/// the case of their labels.
pub proof fn column_order_does_not_matter(
    columns: Seq<JsonView>,
    cells: Seq<JsonView>,
    turned_columns: Seq<JsonView>,
    turned_cells: Seq<JsonView>,
)
    requires
        cells.len() == columns.len(),
        turned_cells.len() == turned_columns.len(),
        names_differ(names_of(columns)),
        labelled(names_of(columns), cells).to_multiset() == labelled(
            names_of(turned_columns),
            turned_cells,
        ).to_multiset(),
    ensures
        write_ack(one_row(columns, cells)) == write_ack(one_row(turned_columns, turned_cells)),
{
    let a = names_of(columns);
    let b = names_of(turned_columns);
    one_row_is_read_by_columns(columns, cells);
    one_row_is_read_by_columns(turned_columns, turned_cells);
    cells_are_found_by_name(a, cells, b, turned_cells, seq!["_rev"@, "rev"@, "revision"@]);
    cells_are_found_by_name(a, cells, b, turned_cells, seq!["_valid_from"@, "valid_from"@]);
    cells_are_found_by_name(a, cells, b, turned_cells, seq!["_nodekey"@, "nodekey"@]);
}

} // verus!

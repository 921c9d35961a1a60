//! Reconciliation of document indexes: the documents of the store mirrored in
//! the search backend.
//!
//! A tracker remembers the hash of every document that was mirrored. A sweep
//! reads the whole resource, sends the documents whose body changed and
//! deletes those that are gone.

use vstd::prelude::*;
use vstd::string::*;

pub use crate::canonicalize::fulltext_sweep::{sanitize_index_name, HttpBridge};

use crate::bulk::{
    all_framed, bulk_response_ok, command_lines, command_lines_push, delete_commands, delete_lines,
    push_command, replace_command, replace_json, replacing_is_plain, text_verdict,
};
use crate::canonicalize::fulltext_sweep::{counts_of, gone_keys, sanitized};
use crate::endpoint::{endpoint, endpoint_of};
use crate::grid::{
    cell, cell_at, cell_body, cell_body_and_ct, cell_to_unsigned, cell_unsigned, column, column_names, column_of,
    names_of,
};
use crate::hash::{fnv1a64_hex, fnv_hex};
use crate::json::{
    array_field, fields_plain, json_parse, json_text, no_fields, no_fields_wf, object1, object_of,
    object_view, put_field, put_plain, put_wf, reads_as, text_field, Fields, Json, JsonView,
};
use crate::number::{capped, decimal, decimal_of};
use crate::order::{has_key, sort_by_key, sorting_keeps_keys, stably_sorts, views_sorted, HasKey, Keyed};
use crate::sql::{table, table_ref};
use crate::table::{ascends, Table};
use crate::text::{opt_view, same, views, views_push};

verus! {

/// A document index to keep in step.
#[derive(Clone, Debug)]
pub struct DocumentIndexConfig {
    /// The name of the entry, which names its tracker.
    pub name: String,
    /// The base URL of the search backend.
    pub search_backend: String,
    /// The base URL of the document store.
    pub storage_backend: String,
    /// The name of the index at the search backend.
    pub search_index: String,
    pub sirix_database: String,
    pub sirix_resource: String,
    /// How often to sweep; left to the caller.
    pub sweep_interval_secs: Option<u32>,
    /// Which revisions to mirror; the latest one is mirrored whatever it says.
    pub revision_retention: String,
}

/// The retention where none is configured.
pub fn default_retention() -> (r: String)
    ensures
        r@ == "latest"@,
{
    "latest".to_owned()
}

/// What sweeps did.
#[derive(Debug, Clone, Copy, PartialEq, Eq)]
pub struct SweepResult {
    pub inserted: u64,
    pub deleted: u64,
    /// Documents whose hash the tracker already had.
    pub unchanged: u64,
    pub errors: u64,
}

impl SweepResult {
    /// No counts.
    pub fn zero() -> (r: SweepResult)
        ensures
            r == (SweepResult { inserted: 0, deleted: 0, unchanged: 0, errors: 0 }),
    {
        SweepResult { inserted: 0, deleted: 0, unchanged: 0, errors: 0 }
    }

    /// Adds up; a count that would overflow stays at its maximum.
    pub fn add(&mut self, other: SweepResult)
        ensures
            final(self).inserted == capped(old(self).inserted, other.inserted),
            final(self).deleted == capped(old(self).deleted, other.deleted),
            final(self).unchanged == capped(old(self).unchanged, other.unchanged),
            final(self).errors == capped(old(self).errors, other.errors),
    {
        self.inserted = self.inserted.saturating_add(other.inserted);
        self.deleted = self.deleted.saturating_add(other.deleted);
        self.unchanged = self.unchanged.saturating_add(other.unchanged);
        self.errors = self.errors.saturating_add(other.errors);
    }
}

/// A document as the store gives it.
#[derive(Debug, PartialEq, Eq)]
pub struct SirixDocRow {
    pub node_key: String,
    pub revision: u64,
    pub body: String,
    pub content_type: String,
}

pub struct DocRowView {
    pub node_key: Seq<char>,
    pub revision: u64,
    pub body: Seq<char>,
    pub content_type: Seq<char>,
}

impl View for SirixDocRow {
    type V = DocRowView;

    open spec fn view(&self) -> DocRowView {
        DocRowView {
            node_key: self.node_key@,
            revision: self.revision,
            body: self.body@,
            content_type: self.content_type@,
        }
    }
}

impl Clone for SirixDocRow {
    fn clone(&self) -> (r: Self)
        ensures
            r@ == self@,
    {
        SirixDocRow {
            node_key: self.node_key.clone(),
            revision: self.revision,
            body: self.body.clone(),
            content_type: self.content_type.clone(),
        }
    }
}

/// What the tracker knows of a document.
#[derive(Debug, PartialEq, Eq)]
pub struct KnownDoc {
    pub last_seen_rev: u64,
    pub doc_hash: String,
}

impl Clone for KnownDoc {
    fn clone(&self) -> (r: Self)
        ensures
            r == *self,
    {
        KnownDoc { last_seen_rev: self.last_seen_rev, doc_hash: self.doc_hash.clone() }
    }
}

/// Reads the documents of a resource.
pub trait SirixBridge {
    fn list_documents(
        &self,
        sirix_url: &str,
        database: &str,
        resource: &str,
        since_rev: Option<u64>,
    ) -> Result<Vec<SirixDocRow>, String>;
}

/// Keeps the tracker.
pub trait DocSinkBridge {
    fn ensure_doc_table(&self, table: &str) -> Result<(), String>;

    fn load_known_docs(&self, table: &str) -> Result<Table<KnownDoc>, String>;

    fn upsert_doc(&self, table: &str, doc_uri: &str, entry: &KnownDoc) -> Result<(), String>;

    fn delete_doc(&self, table: &str, doc_uri: &str) -> Result<(), String>;
}

/// A document to mirror.
#[derive(Debug, PartialEq, Eq)]
pub struct DocMirror {
    pub uri: String,
    pub revision: u64,
    pub body: String,
    pub content_type: String,
    pub hash: String,
}

pub struct MirrorView {
    pub uri: Seq<char>,
    pub revision: u64,
    pub body: Seq<char>,
    pub content_type: Seq<char>,
    pub hash: Seq<char>,
}

impl View for DocMirror {
    type V = MirrorView;

    open spec fn view(&self) -> MirrorView {
        MirrorView {
            uri: self.uri@,
            revision: self.revision,
            body: self.body@,
            content_type: self.content_type@,
            hash: self.hash@,
        }
    }
}

impl HasKey for MirrorView {
    open spec fn key(self) -> Seq<char> {
        self.uri
    }
}

impl HasKey for DocMirror {
    open spec fn key(self) -> Seq<char> {
        self.uri@
    }
}

impl Keyed for DocMirror {
    fn key_text(&self) -> (r: &str) {
        self.uri.as_str()
    }
}

// ---------------------------------------------------------------------------
// Names and URLs
// ---------------------------------------------------------------------------

/// The URI of a document: `sirix://<database>/<resource>/<node key>`.
pub open spec fn doc_uri(database: Seq<char>, resource: Seq<char>, node_key: Seq<char>) -> Seq<char> {
    "sirix://"@ + database + "/"@ + resource + "/"@ + node_key
}

pub fn build_doc_uri(database: &str, resource: &str, node_key: &str) -> (r: String)
    ensures
        r@ == doc_uri(database@, resource@, node_key@),
{
    "sirix://".to_owned().concat(database).concat("/").concat(resource).concat("/").concat(node_key)
}

/// The bulk endpoint of the search backend.
pub fn bulk_url(backend_url: &str) -> (r: String)
    ensures
        r@ == endpoint_of(backend_url@, "/bulk"@),
{
    endpoint(backend_url, "/bulk")
}

/// The query endpoint of the document store.
pub fn sirix_query_url(sirix_url: &str) -> (r: String)
    ensures
        r@ == endpoint_of(sirix_url@, "/query"@),
{
    endpoint(sirix_url, "/query")
}

// ---------------------------------------------------------------------------
// Difference
// ---------------------------------------------------------------------------

/// Whether the tracker already has the document with this body.
pub open spec fn unchanged(uri: Seq<char>, body: Seq<char>, known: Map<Seq<char>, KnownDoc>) -> bool {
    known.contains_key(uri) && known[uri].doc_hash@ == fnv_hex(body)
}

/// The mirror of a row.
pub open spec fn mirror_of(row: DocRowView, database: Seq<char>, resource: Seq<char>) -> MirrorView {
    MirrorView {
        uri: doc_uri(database, resource, row.node_key),
        revision: row.revision,
        body: row.body,
        content_type: row.content_type,
        hash: fnv_hex(row.body),
    }
}

/// The mirrors of the rows that are new or changed.
pub open spec fn changed(
    rows: Seq<DocRowView>,
    database: Seq<char>,
    resource: Seq<char>,
    known: Map<Seq<char>, KnownDoc>,
) -> Seq<MirrorView>
    decreases rows.len(),
{
    if rows.len() == 0 {
        Seq::empty()
    } else {
        let before = changed(rows.drop_last(), database, resource, known);
        let m = mirror_of(rows.last(), database, resource);
        if unchanged(m.uri, m.body, known) {
            before
        } else {
            before.push(m)
        }
    }
}

/// The URIs of the rows.
pub open spec fn uris_of(rows: Seq<DocRowView>, database: Seq<char>, resource: Seq<char>) -> Seq<Seq<char>> {
    Seq::new(rows.len(), |i: int| doc_uri(database, resource, rows[i].node_key))
}

/// The documents to mirror, sorted by URI, and how many rows are unchanged.
pub fn build_diff(
    entry: &DocumentIndexConfig,
    rows: &[SirixDocRow],
    known: &Table<KnownDoc>,
) -> (r: (Vec<DocMirror>, u64))
    ensures
        stably_sorts(
            views(r.0@),
            changed(views(rows@), entry.sirix_database@, entry.sirix_resource@, known@),
        ),
        r.1 == rows@.len() - r.0@.len(),
{
    broadcast use views_push;

    let ghost all = views(rows@);
    let ghost db = entry.sirix_database@;
    let ghost res = entry.sirix_resource@;
    let mut to_insert: Vec<DocMirror> = Vec::new();
    let mut same_count: u64 = 0;
    let n: usize = rows.len();
    proof {
        assert(views(to_insert@) =~= changed(all.take(0), db, res, known@));
    }
    for i in 0..n
        invariant
            n == rows@.len(),
            all == views(rows@),
            db == entry.sirix_database@,
            res == entry.sirix_resource@,
            views(to_insert@) == changed(all.take(i as int), db, res, known@),
            same_count + to_insert@.len() == i,
    {
        let row = &rows[i];
        let uri = build_doc_uri(&entry.sirix_database, &entry.sirix_resource, &row.node_key);
        let hash = fnv1a64_hex(&row.body);
        proof {
            assert(all.take(i + 1).drop_last() =~= all.take(i as int));
            assert(all[i as int] == row@);
        }
        let is_same = match known.get(&uri) {
            Some(prev) => same(&prev.doc_hash, &hash),
            None => false,
        };
        if is_same {
            same_count = same_count + 1;
        } else {
            to_insert.push(
                DocMirror {
                    uri,
                    revision: row.revision,
                    body: row.body.clone(),
                    content_type: row.content_type.clone(),
                    hash,
                },
            );
        }
    }
    proof {
        assert(all.take(n as int) =~= all);
    }
    let sorted = sort_by_key(to_insert);
    proof {
        views_sorted(sorted@, to_insert@);
    }
    (sorted, same_count)
}

/// The known URIs, in order, that no row has.
pub fn compute_deletes(
    rows: &[SirixDocRow],
    known: &Table<KnownDoc>,
    entry: &DocumentIndexConfig,
) -> (r: Vec<String>)
    ensures
        ascends(views(r@)),
        forall|k: Seq<char>|
            views(r@).contains(k) <==> known@.contains_key(k) && !uris_of(
                views(rows@),
                entry.sirix_database@,
                entry.sirix_resource@,
            ).contains(k),
{
    broadcast use views_push;

    let ghost uris = uris_of(views(rows@), entry.sirix_database@, entry.sirix_resource@);
    let mut seen: Vec<String> = Vec::new();
    let n: usize = rows.len();
    for i in 0..n
        invariant
            n == rows@.len(),
            uris == uris_of(views(rows@), entry.sirix_database@, entry.sirix_resource@),
            views(seen@) == uris.take(i as int),
    {
        seen.push(build_doc_uri(&entry.sirix_database, &entry.sirix_resource, &rows[i].node_key));
        proof {
            assert(uris.take(i + 1) =~= uris.take(i as int).push(uris[i as int]));
        }
    }
    proof {
        assert(uris.take(n as int) =~= uris);
    }
    gone_keys(known.keys(), &seen)
}

// ---------------------------------------------------------------------------
// Bodies
// ---------------------------------------------------------------------------

/// The tree that is stored for a document.
pub open spec fn mirror_tree(m: MirrorView) -> JsonView {
    JsonView::Object(
        no_fields().with("_uri"@, JsonView::Text(m.uri)).with(
            "_rev"@,
            JsonView::Unsigned(m.revision),
        ).with("body"@, JsonView::Text(m.body)).with("content_type"@, JsonView::Text(m.content_type)),
    )
}

/// The commands that mirror the documents.
pub open spec fn replace_commands(index: Seq<char>, docs: Seq<MirrorView>) -> Seq<JsonView> {
    Seq::new(docs.len(), |i: int| replace_command(index, docs[i].uri, mirror_tree(docs[i])))
}

proof fn mirror_is_plain(m: MirrorView)
    ensures
        fields_plain(mirror_tree(m)->Object_0, 0),
{
    let uri = no_fields().with("_uri"@, JsonView::Text(m.uri));
    let rev = uri.with("_rev"@, JsonView::Unsigned(m.revision));
    let body = rev.with("body"@, JsonView::Text(m.body));
    put_plain(no_fields(), "_uri"@, JsonView::Text(m.uri), 0);
    put_plain(uri, "_rev"@, JsonView::Unsigned(m.revision), 0);
    put_plain(rev, "body"@, JsonView::Text(m.body), 0);
    put_plain(body, "content_type"@, JsonView::Text(m.content_type), 0);
}

fn mirror_json(m: &DocMirror) -> (r: Json)
    ensures
        r@ == mirror_tree(m@),
        r@.wf(),
{
    broadcast use {no_fields_wf, put_wf, object_view};

    let mut fields: Vec<(String, Json)> = Vec::new();
    proof {
        assert(views(fields@) =~= no_fields());
    }
    put_field(&mut fields, "_uri", Json::text(&m.uri));
    put_field(&mut fields, "_rev", Json::Unsigned(m.revision));
    put_field(&mut fields, "body", Json::text(&m.body));
    put_field(&mut fields, "content_type", Json::text(&m.content_type));
    Json::Object(fields)
}

/// One line per document to mirror.
pub fn build_bulk_body(index: &str, docs: &[DocMirror]) -> (r: String)
    ensures
        r@ == command_lines(replace_commands(index@, views(docs@))),
        all_framed(replace_commands(index@, views(docs@))),
{
    let mut out = String::new();
    let ghost all = replace_commands(index@, views(docs@));
    let n: usize = docs.len();
    proof {
        assert(command_lines(all.take(0)) =~= Seq::<char>::empty());
    }
    for i in 0..n
        invariant
            n == docs@.len(),
            all == replace_commands(index@, views(docs@)),
            out@ == command_lines(all.take(i as int)),
            all_framed(all.take(i as int)),
    {
        let tree = mirror_json(&docs[i]);
        let command = replace_json(index, &docs[i].uri, tree);
        push_command(&mut out, &command);
        proof {
            mirror_is_plain(docs@[i as int]@);
            replacing_is_plain(index@, docs@[i as int].uri@, mirror_tree(docs@[i as int]@)->Object_0);
            assert(all[i as int] == command@);
            assert(all.take(i + 1) =~= all.take(i as int).push(command@));
            command_lines_push(all.take(i as int), command@);
        }
    }
    proof {
        assert(all.take(n as int) =~= all);
    }
    out
}

/// One line per URI to delete.
pub fn build_delete_body(index: &str, ids: &[String]) -> (r: String)
    ensures
        r@ == command_lines(delete_commands(index@, views(ids@))),
        all_framed(delete_commands(index@, views(ids@))),
{
    delete_lines(index, ids)
}

/// The query that reads a resource, or what is newer than a revision.
pub open spec fn scan_sql(database: Seq<char>, resource: Seq<char>, since_rev: Option<u64>) -> Seq<char> {
    let all = "SELECT _nodekey, _rev, document FROM "@ + table_ref(database, resource);
    match since_rev {
        Some(rev) => all + " WHERE _rev > "@ + decimal_of(rev as nat),
        None => all,
    }
}

pub fn build_scan_sql(database: &str, resource: &str, since_rev: Option<u64>) -> (r: String)
    ensures
        r@ == scan_sql(database@, resource@, since_rev),
{
    let name = table(database, resource);
    let all = "SELECT _nodekey, _rev, document FROM ".to_owned().concat(&name);
    match since_rev {
        Some(rev) => {
            let n = decimal(rev);
            all.concat(" WHERE _rev > ").concat(&n)
        },
        None => all,
    }
}

/// The tree that carries a query.
pub open spec fn query_tree(sql: Seq<char>) -> JsonView {
    object1("sql"@, JsonView::Text(sql))
}

/// The body that asks a query.
pub fn build_query_body(sql: &str) -> (r: String)
    ensures
        r@ == json_text(query_tree(sql@)),
        reads_as(r@, query_tree(sql@)),
{
    let tree = object_of("sql", Json::text(sql));
    proof {
        reveal_with_fuel(JsonView::plain, 3);
    }
    tree.render()
}

// ---------------------------------------------------------------------------
// Reply of the store
// ---------------------------------------------------------------------------

/// A cell as text: a string as it is, null refused, anything else as JSON.
pub open spec fn cell_string(c: Option<JsonView>) -> Result<Seq<char>, Seq<char>> {
    match c {
        Some(JsonView::Text(s)) => Ok(s),
        Some(JsonView::Null) => Err("sirix cell was null when a value was required"@),
        None => Err("sirix cell was null when a value was required"@),
        Some(other) => Ok(json_text(other)),
    }
}

/// The first cell from `from` on that is not null and not one of two others.
pub open spec fn other_cell(cells: Seq<JsonView>, from: nat, a: nat, b: nat) -> Option<JsonView>
    decreases cells.len() - from,
{
    if from >= cells.len() {
        None
    } else if from != a && from != b && !(cells[from as int] is Null) {
        Some(cells[from as int])
    } else {
        other_cell(cells, from + 1, a, b)
    }
}

/// Where the columns of a scan stand.
pub struct ScanColumns {
    pub node_key: usize,
    pub revision: usize,
    pub document: Option<usize>,
}

/// The cell that holds the document of a row.
pub open spec fn document_cell(cells: Seq<JsonView>, at: ScanColumns) -> Option<JsonView> {
    let named = match at.document {
        Some(i) => cell_at(cells, i as nat),
        None => None,
    };
    match named {
        Some(c) => Some(c),
        None => other_cell(cells, 0, at.node_key as nat, at.revision as nat),
    }
}

/// A row of a scan.
pub open spec fn scan_row(row: JsonView, at: ScanColumns) -> Result<DocRowView, Seq<char>> {
    match row.as_array() {
        None => Err("sirix row was not an array: "@ + json_text(row)),
        Some(cells) => match cell_string(cell_at(cells, at.node_key as nat)) {
            Err(e) => Err(e),
            Ok(node_key) => match cell_unsigned(cell_at(cells, at.revision as nat)) {
                None => Err("sirix _rev cell was not an integer"@),
                Some(revision) => {
                    let (body, content_type) = match document_cell(cells, at) {
                        Some(c) => cell_body(c),
                        None => (Seq::empty(), "application/octet-stream"@),
                    };
                    Ok(DocRowView { node_key, revision, body, content_type })
                },
            },
        },
    }
}

/// The rows of a scan; the first row that is refused refuses the scan.
pub open spec fn scan_rows(rows: Seq<JsonView>, at: ScanColumns) -> Result<Seq<DocRowView>, Seq<char>>
    decreases rows.len(),
{
    if rows.len() == 0 {
        Ok(Seq::empty())
    } else {
        match scan_rows(rows.drop_last(), at) {
            Err(e) => Err(e),
            Ok(done) => match scan_row(rows.last(), at) {
                Err(e) => Err(e),
                Ok(row) => Ok(done.push(row)),
            },
        }
    }
}

/// What a reply to a scan says.
pub open spec fn scan_of(root: JsonView) -> Result<Seq<DocRowView>, Seq<char>> {
    match text_field(root, "error"@) {
        Some(e) => Err("sirix: "@ + e),
        None => match array_field(root, "columns"@) {
            None => Err("sirix response missing `columns` array"@),
            Some(columns) => match array_field(root, "rows"@) {
                None => Err("sirix response missing `rows` array"@),
                Some(rows) => {
                    let names = names_of(columns);
                    match column_of(names, seq!["_nodekey"@, "nodekey"@, "_key"@]) {
                        None => Err("sirix response missing _nodekey column"@),
                        Some(node_key) => match column_of(
                            names,
                            seq!["_rev"@, "rev"@, "_revision"@, "revision"@],
                        ) {
                            None => Err("sirix response missing _rev column"@),
                            Some(revision) => {
                                let document = match column_of(
                                    names,
                                    seq!["document"@, "body"@, "content"@, "json"@],
                                ) {
                                    Some(n) => Some(n as usize),
                                    None => None,
                                };
                                scan_rows(
                                    rows,
                                    ScanColumns {
                                        node_key: node_key as usize,
                                        revision: revision as usize,
                                        document,
                                    },
                                )
                            },
                        },
                    }
                },
            },
        },
    }
}

/// What the text of a reply to a scan says.
pub open spec fn scan_text(text: Seq<char>) -> Result<Seq<DocRowView>, Seq<char>> {
    match json_parse(text) {
        Err(message) => Err("sirix response is not JSON: "@ + message),
        Ok(root) => scan_of(root),
    }
}

/// The view of a list of rows or an error message.
pub open spec fn rows_or_error(r: Result<Vec<SirixDocRow>, String>) -> Result<Seq<DocRowView>, Seq<char>> {
    match r {
        Ok(rows) => Ok(views(rows@)),
        Err(e) => Err(e@),
    }
}

fn cell_to_string(c: Option<&Json>) -> (r: Result<String, String>)
    requires
        c matches Some(j) ==> j@.wf(),
    ensures
        match r {
            Ok(s) => cell_string(match c {
                Some(j) => Some(j@),
                None => None,
            }) == Ok::<Seq<char>, Seq<char>>(s@),
            Err(e) => cell_string(match c {
                Some(j) => Some(j@),
                None => None,
            }) == Err::<Seq<char>, Seq<char>>(e@),
        },
{
    match c {
        Some(j) => match j {
            Json::Text(s) => Ok(s.clone()),
            Json::Null => Err("sirix cell was null when a value was required".to_owned()),
            _ => Ok(j.render()),
        },
        None => Err("sirix cell was null when a value was required".to_owned()),
    }
}

fn find_other_cell(cells: &Vec<Json>, a: usize, b: usize) -> (r: Option<&Json>)
    requires
        forall|i: int| 0 <= i < cells@.len() ==> (#[trigger] views(cells@)[i]).wf(),
    ensures
        match r {
            Some(c) => other_cell(views(cells@), 0, a as nat, b as nat) == Some(c@) && c@.wf(),
            None => other_cell(views(cells@), 0, a as nat, b as nat) is None,
        },
{
    let ghost all = views(cells@);
    for i in 0..cells.len()
        invariant
            all == views(cells@),
            other_cell(all, 0, a as nat, b as nat) == other_cell(all, i as nat, a as nat, b as nat),
    {
        proof {
            assert(all[i as int] == cells@[i as int]@);
        }
        if i != a && i != b && !cells[i].is_null() {
            return Some(&cells[i]);
        }
    }
    None
}

/// Reads one row of a scan.
fn read_row(row: &Json, at: &ScanColumns) -> (r: Result<SirixDocRow, String>)
    requires
        row@.wf(),
    ensures
        match r {
            Ok(d) => scan_row(row@, *at) == Ok::<DocRowView, Seq<char>>(d@),
            Err(e) => scan_row(row@, *at) == Err::<DocRowView, Seq<char>>(e@),
        },
{
    let cells = match row.as_array() {
        Some(cells) => cells,
        None => {
            let text = row.render();
            return Err("sirix row was not an array: ".to_owned().concat(&text));
        },
    };
    proof {
        assert forall|i: int| 0 <= i < cells@.len() implies (#[trigger] views(cells@)[i]).wf() by {}
        assert forall|i: int| 0 <= i < cells@.len() implies (#[trigger] cells@[i])@.wf() by {
            assert(views(cells@)[i].wf());
        }
    }
    let node_key = match cell_to_string(cell(cells, at.node_key)) {
        Ok(s) => s,
        Err(e) => {
            return Err(e);
        },
    };
    let revision = match cell_to_unsigned(cell(cells, at.revision)) {
        Some(n) => n,
        None => {
            return Err("sirix _rev cell was not an integer".to_owned());
        },
    };
    let named = match at.document {
        Some(i) => cell(cells, i),
        None => None,
    };
    let document = match named {
        Some(c) => Some(c),
        None => find_other_cell(cells, at.node_key, at.revision),
    };
    let (body, content_type) = match document {
        Some(c) => cell_body_and_ct(c),
        None => (String::new(), "application/octet-stream".to_owned()),
    };
    Ok(SirixDocRow { node_key, revision, body, content_type })
}

/// Reads the rows of a reply to a scan.
pub fn scan_from_json(root: &Json) -> (r: Result<Vec<SirixDocRow>, String>)
    requires
        root@.wf(),
    ensures
        rows_or_error(r) == scan_of(root@),
{
    broadcast use views_push;

    match root.get("error") {
        Some(e) => match e.as_text() {
            Some(text) => {
                return Err("sirix: ".to_owned().concat(text));
            },
            None => {},
        },
        None => {},
    }
    let columns = match root.get("columns") {
        Some(c) => c.as_array(),
        None => None,
    };
    let columns = match columns {
        Some(c) => c,
        None => {
            return Err("sirix response missing `columns` array".to_owned());
        },
    };
    let rows_value = match root.get("rows") {
        Some(v) => v,
        None => {
            return Err("sirix response missing `rows` array".to_owned());
        },
    };
    let rows = match rows_value.as_array() {
        Some(v) => v,
        None => {
            return Err("sirix response missing `rows` array".to_owned());
        },
    };
    let names = column_names(columns);
    let key_names = vec!["_nodekey", "nodekey", "_key"];
    let rev_names = vec!["_rev", "rev", "_revision", "revision"];
    let doc_names = vec!["document", "body", "content", "json"];
    proof {
        assert(views(key_names@) =~= seq!["_nodekey"@, "nodekey"@, "_key"@]);
        assert(views(rev_names@) =~= seq!["_rev"@, "rev"@, "_revision"@, "revision"@]);
        assert(views(doc_names@) =~= seq!["document"@, "body"@, "content"@, "json"@]);
    }
    let node_key = match column(&names, &key_names) {
        Some(i) => i,
        None => {
            return Err("sirix response missing _nodekey column".to_owned());
        },
    };
    let revision = match column(&names, &rev_names) {
        Some(i) => i,
        None => {
            return Err("sirix response missing _rev column".to_owned());
        },
    };
    let at = ScanColumns { node_key, revision, document: column(&names, &doc_names) };
    let ghost all = views(rows@);
    let mut out: Vec<SirixDocRow> = Vec::new();
    proof {
        assert(views(out@) =~= Seq::<DocRowView>::empty());
        assert(all.take(0) =~= Seq::<JsonView>::empty());
    }
    for i in 0..rows.len()
        invariant
            all == views(rows@),
            rows_value@ == JsonView::Array(all),
            rows_value@.wf(),
            scan_rows(all.take(i as int), at) == Ok::<Seq<DocRowView>, Seq<char>>(views(out@)),
    {
        proof {
            assert(all.take(i + 1).drop_last() =~= all.take(i as int));
            assert(all[i as int] == rows@[i as int]@);
            assert(all[i as int].wf());
        }
        match read_row(&rows[i], &at) {
            Ok(row) => out.push(row),
            Err(e) => {
                proof {
                    scan_error_stays(all, at, i + 1);
                }
                return Err(e);
            },
        }
    }
    proof {
        assert(all.take(all.len() as int) =~= all);
    }
    Ok(out)
}

/// A row that refuses the scan refuses it whatever follows.
proof fn scan_error_stays(rows: Seq<JsonView>, at: ScanColumns, k: int)
    requires
        0 <= k <= rows.len(),
        scan_rows(rows.take(k), at) is Err,
    ensures
        scan_rows(rows, at) == scan_rows(rows.take(k), at),
    decreases rows.len(),
{
    if k == rows.len() {
        assert(rows.take(k) =~= rows);
    } else {
        assert(rows.drop_last().take(k) =~= rows.take(k));
        scan_error_stays(rows.drop_last(), at, k);
    }
}

/// Reads the text of a reply to a scan.
pub fn parse_scan_response(json_str: &str) -> (r: Result<Vec<SirixDocRow>, String>)
    ensures
        rows_or_error(r) == scan_text(json_str@),
{
    match Json::parse(json_str) {
        Ok(root) => scan_from_json(&root),
        Err(message) => Err("sirix response is not JSON: ".to_owned().concat(&message)),
    }
}

// ---------------------------------------------------------------------------
// Sweep
// ---------------------------------------------------------------------------

/// The name of an entry's tracker.
pub open spec fn tracker_name(name: Seq<char>) -> Seq<char> {
    "wf_doc_keys_"@ + sanitized(name)
}

fn tracker(name: &str) -> (r: String)
    ensures
        r@ == tracker_name(name@),
{
    let clean = sanitize_index_name(name);
    "wf_doc_keys_".to_owned().concat(&clean)
}

/// What one sweep of an entry sends, given the store and the tracker.
pub struct Plan {
    pub url: String,
    /// The documents to mirror, with the body that sends them.
    pub inserts: Vec<DocMirror>,
    pub insert_body: String,
    /// The URIs to delete, with the body that deletes them.
    pub deletes: Vec<String>,
    pub delete_body: String,
    /// How many documents need not be sent.
    pub unchanged: u64,
}

/// Whether `gone` lists, in order, the known URIs that no document has.
pub open spec fn lists_gone(
    gone: Seq<Seq<char>>,
    uris: Seq<Seq<char>>,
    known: Map<Seq<char>, KnownDoc>,
) -> bool {
    &&& ascends(gone)
    &&& forall|k: Seq<char>| gone.contains(k) <==> known.contains_key(k) && !uris.contains(k)
}

/// Whether a plan is what the documents of the store and the tracker ask for.
pub open spec fn plans(
    p: Plan,
    entry: DocumentIndexConfig,
    rows: Seq<DocRowView>,
    known: Map<Seq<char>, KnownDoc>,
) -> bool {
    &&& p.url@ == endpoint_of(entry.search_backend@, "/bulk"@)
    &&& stably_sorts(
        views(p.inserts@),
        changed(rows, entry.sirix_database@, entry.sirix_resource@, known),
    )
    &&& lists_gone(views(p.deletes@), uris_of(rows, entry.sirix_database@, entry.sirix_resource@), known)
    &&& p.unchanged == rows.len() - p.inserts@.len()
    &&& p.insert_body@ == command_lines(replace_commands(entry.search_index@, views(p.inserts@)))
    &&& p.delete_body@ == command_lines(delete_commands(entry.search_index@, views(p.deletes@)))
}

/// Plans the sweep of an entry.
pub fn plan(entry: &DocumentIndexConfig, rows: &[SirixDocRow], known: &Table<KnownDoc>) -> (r: Plan)
    ensures
        plans(r, *entry, views(rows@), known@),
{
    let (inserts, unchanged) = build_diff(entry, rows, known);
    let deletes = compute_deletes(rows, known, entry);
    let insert_body = build_bulk_body(&entry.search_index, &inserts);
    let delete_body = build_delete_body(&entry.search_index, &deletes);
    Plan { url: bulk_url(&entry.search_backend), inserts, insert_body, deletes, delete_body, unchanged }
}

/// The counts of a sweep of `plan` by what became of its two batches; a batch
/// without commands is not posted.
pub fn tally(plan: &Plan, insert_accepted: bool, delete_accepted: bool) -> (r: SweepResult)
    ensures
        (r.inserted as nat, r.deleted as nat, r.errors as nat) == counts_of(
            plan.inserts@.len(),
            insert_accepted,
            plan.deletes@.len(),
            delete_accepted,
        ),
        r.unchanged == plan.unchanged,
{
    let mut counts = SweepResult::zero();
    counts.unchanged = plan.unchanged;
    if plan.inserts.len() > 0 {
        if insert_accepted {
            counts.inserted = plan.inserts.len() as u64;
        } else {
            counts.errors = counts.errors + 1;
        }
    }
    if plan.deletes.len() > 0 {
        if delete_accepted {
            counts.deleted = plan.deletes.len() as u64;
        } else {
            counts.errors = counts.errors + 1;
        }
    }
    counts
}

/// What the tracker is to know of a mirrored document.
pub fn known_doc(m: &DocMirror) -> (r: KnownDoc)
    ensures
        r.last_seen_rev == m.revision,
        r.doc_hash@ == m.hash@,
{
    KnownDoc { last_seen_rev: m.revision, doc_hash: m.hash.clone() }
}

// ---------------------------------------------------------------------------
// One entry
// ---------------------------------------------------------------------------

/// What the sweep of an entry asks for.
pub enum Ask {
    /// To have the tracker.
    EnsureTable(String),
    /// What the tracker knows.
    LoadKnown(String),
    /// The documents of the entry's resource.
    List,
    /// A batch for the backend.
    Post(String, String),
    /// The tracker, to record a URI with what is known of its document.
    Upsert(String, String, KnownDoc),
    /// The tracker, to forget a URI.
    Delete(String, String),
    Finish(Result<SweepResult, String>),
}

/// What came of it.
pub enum Told {
    Done,
    Failed(String),
    Known(Table<KnownDoc>),
    Rows(Vec<SirixDocRow>),
    Reply(String),
}

/// How far the sweep of an entry has come: what it waits for.
pub enum Stage {
    Ensuring,
    Loading,
    Listing(Table<KnownDoc>),
    Inserting(Plan),
    /// The tracker, to record the document at a position.
    Recording(Plan, usize),
    /// The backend, to delete; whether it took the documents.
    Deleting(Plan, bool),
    /// The tracker, to forget the URI at a position.
    Forgetting(Plan, bool, usize),
    Over,
}

pub open spec fn fails(next: Stage, ask: Ask, e: Seq<char>) -> bool {
    next is Over && (ask matches Ask::Finish(Err(text)) && text@ == e)
}

/// The sweep is over: a batch that was not accepted counts as one error.
pub open spec fn finishes(p: Plan, inserted: bool, deleted: bool, next: Stage, ask: Ask) -> bool {
    &&& next is Over
    &&& ask matches Ask::Finish(Ok(c)) && (c.inserted as nat, c.deleted as nat, c.errors as nat) == counts_of(
        p.inserts@.len(),
        inserted,
        p.deletes@.len(),
        deleted,
    ) && c.unchanged == p.unchanged
}

/// The URI at a position is to be forgotten, where there is one.
pub open spec fn goes_to_forget(
    entry: DocumentIndexConfig,
    p: Plan,
    inserted: bool,
    at: int,
    next: Stage,
    ask: Ask,
) -> bool {
    if 0 <= at < p.deletes@.len() {
        &&& next matches Stage::Forgetting(q, b, i) && q == p && b == inserted && i == at
        &&& ask matches Ask::Delete(table, id) && table@ == tracker_name(entry.name@) && id@ == p.deletes@[at]@
    } else {
        finishes(p, inserted, true, next, ask)
    }
}

/// What is gone is to be deleted, where there is any.
pub open spec fn goes_to_delete(p: Plan, inserted: bool, next: Stage, ask: Ask) -> bool {
    if p.deletes@.len() > 0 {
        &&& next == Stage::Deleting(p, inserted)
        &&& ask matches Ask::Post(url, body) && url@ == p.url@ && body@ == p.delete_body@
    } else {
        finishes(p, inserted, false, next, ask)
    }
}

/// The document at a position is to be recorded, where there is one.
pub open spec fn goes_to_record(
    entry: DocumentIndexConfig,
    p: Plan,
    at: int,
    next: Stage,
    ask: Ask,
) -> bool {
    if 0 <= at < p.inserts@.len() {
        &&& next matches Stage::Recording(q, i) && q == p && i == at
        &&& ask matches Ask::Upsert(table, uri, doc) && table@ == tracker_name(entry.name@) && uri@
            == p.inserts@[at].uri@ && doc.last_seen_rev == p.inserts@[at].revision && doc.doc_hash@
            == p.inserts@[at].hash@
    } else {
        goes_to_delete(p, true, next, ask)
    }
}

/// What is new is to be sent, where there is any.
pub open spec fn goes_to_insert(p: Plan, next: Stage, ask: Ask) -> bool {
    if p.inserts@.len() > 0 {
        &&& next == Stage::Inserting(p)
        &&& ask matches Ask::Post(url, body) && url@ == p.url@ && body@ == p.insert_body@
    } else {
        goes_to_delete(p, false, next, ask)
    }
}

/// Whether what came of a request leads from one stage to the next. A batch
/// that the backend refuses is counted; any other failure ends the sweep.
pub open spec fn leads(entry: DocumentIndexConfig, stage: Stage, told: Told, next: Stage, ask: Ask) -> bool {
    match (stage, told) {
        (Stage::Ensuring, Told::Done) => {
            &&& next is Loading
            &&& ask matches Ask::LoadKnown(table) && table@ == tracker_name(entry.name@)
        },
        (Stage::Loading, Told::Known(known)) => next == Stage::Listing(known) && ask is List,
        (Stage::Listing(known), Told::Rows(rows)) => exists|p: Plan| #[trigger]
            plans(p, entry, views(rows@), known@) && goes_to_insert(p, next, ask),
        (Stage::Listing(_), Told::Failed(e)) => fails(next, ask, "sirix list_documents: "@ + e@),
        (Stage::Inserting(p), Told::Reply(body)) => if text_verdict(body@) is Ok {
            goes_to_record(entry, p, 0, next, ask)
        } else {
            goes_to_delete(p, false, next, ask)
        },
        (Stage::Inserting(p), Told::Failed(_)) => goes_to_delete(p, false, next, ask),
        (Stage::Recording(p, at), Told::Done) => goes_to_record(entry, p, at + 1, next, ask),
        (Stage::Deleting(p, inserted), Told::Reply(body)) => if text_verdict(body@) is Ok {
            goes_to_forget(entry, p, inserted, 0, next, ask)
        } else {
            finishes(p, inserted, false, next, ask)
        },
        (Stage::Deleting(p, inserted), Told::Failed(_)) => finishes(p, inserted, false, next, ask),
        (Stage::Forgetting(p, inserted, at), Told::Done) => goes_to_forget(
            entry,
            p,
            inserted,
            at + 1,
            next,
            ask,
        ),
        (_, Told::Failed(e)) => fails(next, ask, e@),
        _ => fails(next, ask, "reply out of turn"@),
    }
}

/// How far from its end a stage is.
pub open spec fn ahead(stage: Stage) -> (nat, nat) {
    match stage {
        Stage::Ensuring => (7, 0),
        Stage::Loading => (6, 0),
        Stage::Listing(_) => (5, 0),
        Stage::Inserting(_) => (4, 0),
        Stage::Recording(p, at) => (3, (if at < p.inserts@.len() { p.inserts@.len() - at } else { 0 }) as nat),
        Stage::Deleting(_, _) => (2, 0),
        Stage::Forgetting(p, _, at) => (1, (if at < p.deletes@.len() { p.deletes@.len() - at } else { 0 }) as nat),
        Stage::Over => (0, 0),
    }
}

/// Whether a stage is nearer to its end than another.
pub open spec fn nearer(next: Stage, stage: Stage) -> bool {
    ||| ahead(next).0 < ahead(stage).0
    ||| ahead(next).0 == ahead(stage).0 && ahead(next).1 < ahead(stage).1
}

fn fail(e: String) -> (r: (Stage, Ask))
    ensures
        fails(r.0, r.1, e@),
{
    (Stage::Over, Ask::Finish(Err(e)))
}

fn finish(p: &Plan, inserted: bool, deleted: bool) -> (r: (Stage, Ask))
    ensures
        finishes(*p, inserted, deleted, r.0, r.1),
{
    (Stage::Over, Ask::Finish(Ok(tally(p, inserted, deleted))))
}

fn to_forget(entry: &DocumentIndexConfig, p: Plan, inserted: bool, at: usize) -> (r: (Stage, Ask))
    ensures
        goes_to_forget(*entry, p, inserted, at as int, r.0, r.1),
{
    if at < p.deletes.len() {
        let id = p.deletes[at].clone();
        (Stage::Forgetting(p, inserted, at), Ask::Delete(tracker(&entry.name), id))
    } else {
        finish(&p, inserted, true)
    }
}

fn to_delete(p: Plan, inserted: bool) -> (r: (Stage, Ask))
    ensures
        goes_to_delete(p, inserted, r.0, r.1),
{
    if p.deletes.len() > 0 {
        let url = p.url.clone();
        let body = p.delete_body.clone();
        (Stage::Deleting(p, inserted), Ask::Post(url, body))
    } else {
        finish(&p, inserted, false)
    }
}

fn to_record(entry: &DocumentIndexConfig, p: Plan, at: usize) -> (r: (Stage, Ask))
    ensures
        goes_to_record(*entry, p, at as int, r.0, r.1),
{
    if at < p.inserts.len() {
        let uri = p.inserts[at].uri.clone();
        let doc = known_doc(&p.inserts[at]);
        (Stage::Recording(p, at), Ask::Upsert(tracker(&entry.name), uri, doc))
    } else {
        to_delete(p, true)
    }
}

fn to_insert(p: Plan) -> (r: (Stage, Ask))
    ensures
        goes_to_insert(p, r.0, r.1),
{
    if p.inserts.len() > 0 {
        let url = p.url.clone();
        let body = p.insert_body.clone();
        (Stage::Inserting(p), Ask::Post(url, body))
    } else {
        to_delete(p, false)
    }
}

/// The first request of an entry's sweep.
pub fn begin(entry: &DocumentIndexConfig) -> (r: (Stage, Ask))
    ensures
        r.0 is Ensuring,
        r.1 matches Ask::EnsureTable(table) && table@ == tracker_name(entry.name@),
{
    (Stage::Ensuring, Ask::EnsureTable(tracker(&entry.name)))
}

/// Moves an entry's sweep on.
pub fn step(entry: &DocumentIndexConfig, stage: Stage, told: Told) -> (r: (Stage, Ask))
    ensures
        leads(*entry, stage, told, r.0, r.1),
        stage is Over ==> r.0 is Over,
        r.0 is Over <==> r.1 is Finish,
        !(stage is Over) ==> nearer(r.0, stage),
        r.1 matches Ask::Finish(Ok(c)) ==> c.errors <= 2,
{
    match stage {
        Stage::Ensuring => match told {
            Told::Done => (Stage::Loading, Ask::LoadKnown(tracker(&entry.name))),
            Told::Failed(e) => fail(e),
            _ => fail("reply out of turn".to_owned()),
        },
        Stage::Loading => match told {
            Told::Known(known) => (Stage::Listing(known), Ask::List),
            Told::Failed(e) => fail(e),
            _ => fail("reply out of turn".to_owned()),
        },
        Stage::Listing(known) => match told {
            Told::Rows(rows) => {
                let p = plan(entry, rows.as_slice(), &known);
                to_insert(p)
            },
            Told::Failed(e) => fail("sirix list_documents: ".to_owned().concat(&e)),
            _ => fail("reply out of turn".to_owned()),
        },
        Stage::Inserting(p) => match told {
            Told::Reply(body) => if bulk_response_ok(&body).is_ok() {
                to_record(entry, p, 0)
            } else {
                to_delete(p, false)
            },
            Told::Failed(_) => to_delete(p, false),
            _ => fail("reply out of turn".to_owned()),
        },
        Stage::Recording(p, at) => match told {
            Told::Done => if at < p.inserts.len() {
                to_record(entry, p, at + 1)
            } else {
                to_delete(p, true)
            },
            Told::Failed(e) => fail(e),
            _ => fail("reply out of turn".to_owned()),
        },
        Stage::Deleting(p, inserted) => match told {
            Told::Reply(body) => if bulk_response_ok(&body).is_ok() {
                to_forget(entry, p, inserted, 0)
            } else {
                finish(&p, inserted, false)
            },
            Told::Failed(_) => finish(&p, inserted, false),
            _ => fail("reply out of turn".to_owned()),
        },
        Stage::Forgetting(p, inserted, at) => match told {
            Told::Done => if at < p.deletes.len() {
                to_forget(entry, p, inserted, at + 1)
            } else {
                finish(&p, inserted, true)
            },
            Told::Failed(e) => fail(e),
            _ => fail("reply out of turn".to_owned()),
        },
        Stage::Over => match told {
            Told::Failed(e) => fail(e),
            _ => fail("reply out of turn".to_owned()),
        },
    }
}

fn told_done(r: Result<(), String>) -> (t: Told)
    ensures
        match r {
            Ok(_) => t is Done,
            Err(e) => t == Told::Failed(e),
        },
{
    match r {
        Ok(_) => Told::Done,
        Err(e) => Told::Failed(e),
    }
}

/// What came of a request that is done or fails.
pub open spec fn tells(r: Result<(), String>, told: Told) -> bool {
    match r {
        Ok(_) => told is Done,
        Err(e) => told == Told::Failed(e),
    }
}

/// Whether an answer is what the bridges give to a request of an entry's sweep:
/// which method is called, with which arguments, and what it returns. The end of
/// a sweep asks for nothing.
pub open spec fn given<H: HttpBridge, R: SirixBridge, S: DocSinkBridge>(
    entry: DocumentIndexConfig,
    ask: Ask,
    told: Told,
    http: &H,
    sirix: &R,
    sink: &S,
) -> bool {
    match ask {
        Ask::EnsureTable(table) => exists|t: &str, r: Result<(), String>|
            t@ == table@ && #[trigger] call_ensures(S::ensure_doc_table, (sink, t), r) && tells(r, told),
        Ask::LoadKnown(table) => exists|t: &str, r: Result<Table<KnownDoc>, String>|
            t@ == table@ && #[trigger] call_ensures(S::load_known_docs, (sink, t), r) && told == (match r {
                Ok(known) => Told::Known(known),
                Err(e) => Told::Failed(e),
            }),
        Ask::List => exists|url: &str, database: &str, resource: &str, r: Result<Vec<SirixDocRow>, String>|
            url@ == entry.storage_backend@ && database@ == entry.sirix_database@ && resource@
                == entry.sirix_resource@ && #[trigger] call_ensures(
                R::list_documents,
                (sirix, url, database, resource, None::<u64>),
                r,
            ) && told == (match r {
                Ok(rows) => Told::Rows(rows),
                Err(e) => Told::Failed(e),
            }),
        Ask::Post(url, body) => exists|u: &str, b: &str, r: Result<String, String>|
            u@ == url@ && b@ == body@ && #[trigger] call_ensures(H::post_json, (http, u, b), r) && told == (match r {
                Ok(reply) => Told::Reply(reply),
                Err(e) => Told::Failed(e),
            }),
        Ask::Upsert(table, uri, doc) => exists|t: &str, u: &str, d: &KnownDoc, r: Result<(), String>|
            t@ == table@ && u@ == uri@ && *d == doc && #[trigger] call_ensures(S::upsert_doc, (sink, t, u, d), r)
                && tells(r, told),
        Ask::Delete(table, uri) => exists|t: &str, u: &str, r: Result<(), String>|
            t@ == table@ && u@ == uri@ && #[trigger] call_ensures(S::delete_doc, (sink, t, u), r) && tells(r, told),
        Ask::Finish(_) => false,
    }
}

/// A request of a sweep, and what came of it.
pub struct Turn {
    pub stage: Stage,
    pub ask: Ask,
    pub told: Told,
}

/// Whether an entry's sweep comes to a stage and a request by these turns, with
/// these bridges.
pub open spec fn comes_to<H: HttpBridge, R: SirixBridge, S: DocSinkBridge>(
    entry: DocumentIndexConfig,
    turns: Seq<Turn>,
    stage: Stage,
    ask: Ask,
    http: &H,
    sirix: &R,
    sink: &S,
) -> bool
    decreases turns.len(),
{
    if turns.len() == 0 {
        &&& stage is Ensuring
        &&& ask matches Ask::EnsureTable(table) && table@ == tracker_name(entry.name@)
    } else {
        let t = turns.last();
        &&& comes_to(entry, turns.drop_last(), t.stage, t.ask, http, sirix, sink)
        &&& given(entry, t.ask, t.told, http, sirix, sink)
        &&& leads(entry, t.stage, t.told, stage, ask)
    }
}

/// Does what an entry's sweep asks for.
fn perform<H: HttpBridge, R: SirixBridge, S: DocSinkBridge>(
    entry: &DocumentIndexConfig,
    ask: &Ask,
    http: &H,
    sirix: &R,
    sink: &S,
) -> (r: Told)
    requires
        !(ask is Finish),
    ensures
        given(*entry, *ask, r, http, sirix, sink),
{
    match ask {
        Ask::EnsureTable(table) => told_done(sink.ensure_doc_table(table)),
        Ask::LoadKnown(table) => match sink.load_known_docs(table) {
            Ok(known) => Told::Known(known),
            Err(e) => Told::Failed(e),
        },
        Ask::List => match sirix.list_documents(
            &entry.storage_backend,
            &entry.sirix_database,
            &entry.sirix_resource,
            None,
        ) {
            Ok(rows) => Told::Rows(rows),
            Err(e) => Told::Failed(e),
        },
        Ask::Post(url, body) => match http.post_json(url, body) {
            Ok(reply) => Told::Reply(reply),
            Err(e) => Told::Failed(e),
        },
        Ask::Upsert(table, uri, doc) => told_done(sink.upsert_doc(table, uri, doc)),
        Ask::Delete(table, uri) => told_done(sink.delete_doc(table, uri)),
        Ask::Finish(_) => Told::Done,
    }
}

/// A message about an entry.
pub open spec fn remark(name: Seq<char>, text: Seq<char>) -> Seq<char> {
    "wf_canonicalize.document_sweep: entry `"@ + name + "`: "@ + text
}

fn make_remark(name: &str, text: &str) -> (r: String)
    ensures
        r@ == remark(name@, text@),
{
    "wf_canonicalize.document_sweep: entry `".to_owned().concat(name).concat("`: ").concat(text)
}

/// What is to be said of the answer to a batch: why it did not go through.
pub open spec fn batch_complaint(name: Seq<char>, verb: Seq<char>, told: Told) -> Option<Seq<char>> {
    match told {
        Told::Failed(e) => Some(remark(name, verb + " POST: "@ + e@)),
        Told::Reply(body) => match text_verdict(body@) {
            Ok(_) => None,
            Err(message) => Some(remark(name, verb + " response: "@ + message)),
        },
        _ => None,
    }
}

/// What is to be said of an answer: only a batch that did not go through is
/// passed over otherwise.
pub open spec fn complaint(name: Seq<char>, stage: Stage, told: Told) -> Option<Seq<char>> {
    match stage {
        Stage::Inserting(_) => batch_complaint(name, "insert"@, told),
        Stage::Deleting(_, _) => batch_complaint(name, "delete"@, told),
        _ => None,
    }
}

fn batch_remark(name: &str, verb: &str, told: &Told) -> (r: Option<String>)
    ensures
        opt_view(r) == batch_complaint(name@, verb@, *told),
{
    match told {
        Told::Failed(e) => Some(make_remark(name, &verb.to_owned().concat(" POST: ").concat(e))),
        Told::Reply(body) => match bulk_response_ok(body) {
            Ok(_) => None,
            Err(message) => Some(make_remark(name, &verb.to_owned().concat(" response: ").concat(&message))),
        },
        _ => None,
    }
}

fn remark_on(name: &str, stage: &Stage, told: &Told) -> (r: Option<String>)
    ensures
        opt_view(r) == complaint(name@, *stage, *told),
{
    match stage {
        Stage::Inserting(_) => batch_remark(name, "insert", told),
        Stage::Deleting(_, _) => batch_remark(name, "delete", told),
        _ => None,
    }
}

/// What is to be said of the turns of an entry's sweep.
pub open spec fn complaints(name: Seq<char>, turns: Seq<Turn>) -> Seq<Seq<char>>
    decreases turns.len(),
{
    if turns.len() == 0 {
        Seq::empty()
    } else {
        let before = complaints(name, turns.drop_last());
        match complaint(name, turns.last().stage, turns.last().told) {
            Some(text) => before.push(text),
            None => before,
        }
    }
}

/// Sweeps one entry: does what [`step`] asks for until the sweep is over, and
/// notes what did not go through. What comes back rests on the bridges.
fn run_one<H: HttpBridge, R: SirixBridge, S: DocSinkBridge>(
    entry: &DocumentIndexConfig,
    http: &H,
    sirix: &R,
    sink: &S,
) -> (r: (Result<SweepResult, String>, Vec<String>))
    ensures
        exists|turns: Seq<Turn>| #[trigger]
            comes_to(*entry, turns, Stage::Over, Ask::Finish(r.0), http, sirix, sink) && views(r.1@) == complaints(
                entry.name@,
                turns,
            ),
        r.0 matches Ok(c) ==> c.errors <= 2,
{
    broadcast use views_push;

    let (mut stage, mut ask) = begin(entry);
    let mut notes: Vec<String> = Vec::new();
    let ghost mut turns: Seq<Turn> = Seq::empty();
    proof {
        assert(views(notes@) =~= complaints(entry.name@, turns));
    }
    loop
        invariant
            comes_to(*entry, turns, stage, ask, http, sirix, sink),
            views(notes@) == complaints(entry.name@, turns),
            stage is Over <==> ask is Finish,
            ask matches Ask::Finish(Ok(c)) ==> c.errors <= 2,
        decreases ahead(stage).0, ahead(stage).1,
    {
        match ask {
            Ask::Finish(r) => {
                return (r, notes);
            },
            request => {
                let told = perform(entry, &request, http, sirix, sink);
                match remark_on(&entry.name, &stage, &told) {
                    Some(text) => {
                        notes.push(text);
                    },
                    None => {},
                }
                let ghost turn = Turn { stage, ask: request, told };
                let (next, more) = step(entry, stage, told);
                proof {
                    assert(turns.push(turn).drop_last() =~= turns);
                    turns = turns.push(turn);
                }
                stage = next;
                ask = more;
            },
        }
    }
}

/// The sweep of an entry: what it asked and was told, and what it came to.
pub struct History {
    pub turns: Seq<Turn>,
    pub result: Result<SweepResult, String>,
}

/// Whether the sweep of an entry went so, with these bridges.
pub open spec fn swept<H: HttpBridge, R: SirixBridge, S: DocSinkBridge>(
    entry: DocumentIndexConfig,
    h: History,
    http: &H,
    sirix: &R,
    sink: &S,
) -> bool {
    comes_to(entry, h.turns, Stage::Over, Ask::Finish(h.result), http, sirix, sink)
}

/// Whether the sweeps of the entries went so, one for each.
pub open spec fn all_swept<H: HttpBridge, R: SirixBridge, S: DocSinkBridge>(
    entries: Seq<DocumentIndexConfig>,
    histories: Seq<History>,
    http: &H,
    sirix: &R,
    sink: &S,
) -> bool {
    histories.len() == entries.len() && forall|i: int|
        0 <= i < histories.len() ==> swept(entries[i], #[trigger] histories[i], http, sirix, sink)
}

/// The counts of all sweeps; one that failed counts as one error.
pub open spec fn summed(histories: Seq<History>) -> SweepResult
    decreases histories.len(),
{
    if histories.len() == 0 {
        SweepResult { inserted: 0, deleted: 0, unchanged: 0, errors: 0 }
    } else {
        let before = summed(histories.drop_last());
        match histories.last().result {
            Ok(c) => SweepResult {
                inserted: capped(before.inserted, c.inserted),
                deleted: capped(before.deleted, c.deleted),
                unchanged: capped(before.unchanged, c.unchanged),
                errors: capped(before.errors, c.errors),
            },
            Err(_) => SweepResult { errors: capped(before.errors, 1), ..before },
        }
    }
}

/// The messages about one sweep: what did not go through, and why it failed.
pub open spec fn messages_of(name: Seq<char>, h: History) -> Seq<Seq<char>> {
    match h.result {
        Ok(_) => complaints(name, h.turns),
        Err(e) => complaints(name, h.turns).push(remark(name, e@)),
    }
}

/// The messages about all sweeps, entry by entry.
pub open spec fn messages(entries: Seq<DocumentIndexConfig>, histories: Seq<History>) -> Seq<Seq<char>>
    decreases histories.len(),
{
    if histories.len() == 0 {
        Seq::empty()
    } else {
        messages(entries, histories.drop_last()) + messages_of(
            entries[histories.len() - 1].name@,
            histories.last(),
        )
    }
}

/// Sweeps all entries and adds up; an entry that fails counts as one error.
pub fn run<H: HttpBridge, R: SirixBridge, S: DocSinkBridge>(
    entries: &[DocumentIndexConfig],
    http: &H,
    sirix: &R,
    sink: &S,
) -> (r: SweepResult)
    ensures
        exists|histories: Seq<History>| #[trigger]
            all_swept(entries@, histories, http, sirix, sink) && r == summed(histories),
        r.errors <= 2 * entries@.len(),
{
    run_with_messages(entries, http, sirix, sink).0
}

/// Sweeps all entries and adds up, as [`run`] does, and hands out the messages
/// about what went wrong.
pub fn run_with_messages<H: HttpBridge, R: SirixBridge, S: DocSinkBridge>(
    entries: &[DocumentIndexConfig],
    http: &H,
    sirix: &R,
    sink: &S,
) -> (r: (SweepResult, Vec<String>))
    ensures
        exists|histories: Seq<History>| #[trigger]
            all_swept(entries@, histories, http, sirix, sink) && r.0 == summed(histories) && views(r.1@)
                == messages(entries@, histories),
        r.0.errors <= 2 * entries@.len(),
{
    broadcast use views_push;

    let mut total = SweepResult::zero();
    let mut notes: Vec<String> = Vec::new();
    let n: usize = entries.len();
    let ghost mut histories: Seq<History> = Seq::empty();
    proof {
        assert(views(notes@) =~= messages(entries@, histories));
    }
    for i in 0..n
        invariant
            n == entries@.len(),
            histories.len() == i,
            forall|k: int| 0 <= k < i ==> swept(entries@[k], #[trigger] histories[k], http, sirix, sink),
            total == summed(histories),
            views(notes@) == messages(entries@, histories),
            total.errors <= 2 * i,
    {
        let (result, mut more) = run_one(&entries[i], http, sirix, sink);
        let ghost had = views(notes@);
        let ghost turns = choose|turns: Seq<Turn>| #[trigger]
            comes_to(entries@[i as int], turns, Stage::Over, Ask::Finish(result), http, sirix, sink) && views(more@)
                == complaints(entries@[i as int].name@, turns);
        let ghost h = History { turns, result };
        let ghost said = views(more@);
        notes.append(&mut more);
        match result {
            Ok(counts) => total.add(counts),
            Err(e) => {
                notes.push(make_remark(&entries[i].name, &e));
                total.errors = total.errors.saturating_add(1);
            },
        }
        proof {
            assert(histories.push(h).drop_last() =~= histories);
            assert(swept(entries@[i as int], h, http, sirix, sink));
            histories = histories.push(h);
            assert(views(notes@) =~= had + messages_of(entries@[i as int].name@, h));
        }
    }
    proof {
        assert(all_swept(entries@, histories, http, sirix, sink));
    }
    (total, notes)
}

// ---------------------------------------------------------------------------
// Laws
// ---------------------------------------------------------------------------

/// Whether `after` is the tracker that a sweep of accepted batches leaves: the
/// URIs that are gone removed, each URI that was sent recorded with the hash
/// of a document sent under it, the others as they were.
pub open spec fn tracker_after(
    after: Map<Seq<char>, KnownDoc>,
    known: Map<Seq<char>, KnownDoc>,
    sent: Seq<MirrorView>,
    gone: Seq<Seq<char>>,
) -> bool {
    &&& forall|k: Seq<char>| #[trigger]
        after.contains_key(k) <==> (known.contains_key(k) || has_key(sent, k)) && !gone.contains(k)
    &&& forall|k: Seq<char>|
        after.contains_key(k) && has_key(sent, k) ==> exists|i: int|
            0 <= i < sent.len() && (#[trigger] sent[i]).uri == k && (#[trigger] after[k]).doc_hash@ == sent[i].hash
    &&& forall|k: Seq<char>|
        after.contains_key(k) && !has_key(sent, k) ==> (#[trigger] after[k]) == known[k]
}

proof fn changed_member(
    rows: Seq<DocRowView>,
    database: Seq<char>,
    resource: Seq<char>,
    known: Map<Seq<char>, KnownDoc>,
    m: MirrorView,
)
    ensures
        changed(rows, database, resource, known).contains(m) <==> exists|i: int|
            0 <= i < rows.len() && m == mirror_of(#[trigger] rows[i], database, resource) && !unchanged(
                m.uri,
                m.body,
                known,
            ),
    decreases rows.len(),
{
    if rows.len() > 0 {
        let rest = rows.drop_last();
        let last = mirror_of(rows.last(), database, resource);
        let before = changed(rest, database, resource, known);
        let all = changed(rows, database, resource, known);
        changed_member(rest, database, resource, known, m);
        if all.contains(m) {
            let j = choose|j: int| 0 <= j < all.len() && all[j] == m;
            if j < before.len() {
                assert(before[j] == m);
                let i = choose|i: int|
                    0 <= i < rest.len() && m == mirror_of(#[trigger] rest[i], database, resource);
                assert(rows[i] == rest[i]);
            } else {
                assert(m == mirror_of(rows[rows.len() - 1], database, resource));
            }
        }
        if exists|i: int|
            0 <= i < rows.len() && m == mirror_of(#[trigger] rows[i], database, resource) && !unchanged(
                m.uri,
                m.body,
                known,
            ) {
            let i = choose|i: int|
                0 <= i < rows.len() && m == mirror_of(#[trigger] rows[i], database, resource) && !unchanged(
                    m.uri,
                    m.body,
                    known,
                );
            if i < rest.len() {
                assert(rest[i] == rows[i]);
                assert(before.contains(m));
                let j = choose|j: int| 0 <= j < before.len() && before[j] == m;
                assert(all[j] == m);
            } else {
                assert(all[all.len() - 1] == m);
            }
        }
    }
}

/// A document is sent if and only if the store has it and the tracker does not
/// know it with the hash of its present body.
pub proof fn sends_exactly_the_changed(
    rows: Seq<DocRowView>,
    database: Seq<char>,
    resource: Seq<char>,
    known: Map<Seq<char>, KnownDoc>,
    m: MirrorView,
)
    ensures
        changed(rows, database, resource, known).contains(m) <==> exists|i: int|
            0 <= i < rows.len() && m == mirror_of(#[trigger] rows[i], database, resource) && !unchanged(
                m.uri,
                m.body,
                known,
            ),
{
    changed_member(rows, database, resource, known, m);
}

/// After a sweep whose batches were accepted, a second sweep of the same rows
/// has nothing to send and nothing to delete, where no two rows have one key.
pub proof fn second_sweep_is_idle(
    rows: Seq<DocRowView>,
    database: Seq<char>,
    resource: Seq<char>,
    known: Map<Seq<char>, KnownDoc>,
    sent: Seq<MirrorView>,
    gone: Seq<Seq<char>>,
    after: Map<Seq<char>, KnownDoc>,
    gone_later: Seq<Seq<char>>,
)
    requires
        uris_of(rows, database, resource).no_duplicates(),
        stably_sorts(sent, changed(rows, database, resource, known)),
        lists_gone(gone, uris_of(rows, database, resource), known),
        tracker_after(after, known, sent, gone),
        lists_gone(gone_later, uris_of(rows, database, resource), after),
    ensures
        changed(rows, database, resource, after) == Seq::<MirrorView>::empty(),
        gone_later.len() == 0,
{
    let uris = uris_of(rows, database, resource);
    let fresh = changed(rows, database, resource, known);
    assert forall|i: int| 0 <= i < rows.len() implies unchanged(
        doc_uri(database, resource, (#[trigger] rows[i]).node_key),
        rows[i].body,
        after,
    ) by {
        let m = mirror_of(rows[i], database, resource);
        assert(uris[i] == m.uri);
        assert(uris.contains(m.uri));
        assert(!gone.contains(m.uri));
        sorting_keeps_keys(sent, fresh, m.uri);
        changed_member(rows, database, resource, known, m);
        if has_key(sent, m.uri) {
            let j = choose|j: int|
                0 <= j < sent.len() && (#[trigger] sent[j]).uri == m.uri && after[m.uri].doc_hash@ == sent[j].hash;
            crate::order::sorted_member(sent, fresh, j);
            changed_member(rows, database, resource, known, sent[j]);
            let k = choose|k: int|
                0 <= k < rows.len() && sent[j] == mirror_of(#[trigger] rows[k], database, resource);
            assert(uris[k] == m.uri);
            assert(k == i);
        } else {
            if !unchanged(m.uri, m.body, known) {
                assert(fresh.contains(m));
                let j = choose|j: int| 0 <= j < fresh.len() && fresh[j] == m;
                assert(fresh[j].key() == m.uri);
            }
            assert(after.contains_key(m.uri));
        }
    }
    nothing_changed(rows, database, resource, after);
    if gone_later.len() > 0 {
        let k = gone_later[0];
        assert(gone_later.contains(k));
        assert(after.contains_key(k) && !uris.contains(k));
        if has_key(sent, k) {
            sorting_keeps_keys(sent, fresh, k);
            let j = choose|j: int| 0 <= j < fresh.len() && (#[trigger] fresh[j]).key() == k;
            assert(fresh.contains(fresh[j]));
            changed_member(rows, database, resource, known, fresh[j]);
            let i = choose|i: int|
                0 <= i < rows.len() && fresh[j] == mirror_of(#[trigger] rows[i], database, resource);
            assert(uris[i] == k);
        }
        assert(gone.contains(k));
    }
}

proof fn nothing_changed(
    rows: Seq<DocRowView>,
    database: Seq<char>,
    resource: Seq<char>,
    known: Map<Seq<char>, KnownDoc>,
)
    requires
        forall|i: int|
            0 <= i < rows.len() ==> unchanged(
                doc_uri(database, resource, (#[trigger] rows[i]).node_key),
                rows[i].body,
                known,
            ),
    ensures
        changed(rows, database, resource, known) == Seq::<MirrorView>::empty(),
    decreases rows.len(),
{
    if rows.len() > 0 {
        let rest = rows.drop_last();
        assert forall|i: int| 0 <= i < rest.len() implies unchanged(
            doc_uri(database, resource, (#[trigger] rest[i]).node_key),
            rest[i].body,
            known,
        ) by {
            assert(rows[i] == rest[i]);
        }
        nothing_changed(rest, database, resource, known);
        assert(rows[rows.len() - 1] == rows.last());
    }
}

// ---------------------------------------------------------------------------
// Laws of whole sweeps
// ---------------------------------------------------------------------------

/// What a tracker holds that does as it is told: what it was loaded with, and
/// the changes that went through since.
pub open spec fn tracker_of(turns: Seq<Turn>) -> Map<Seq<char>, KnownDoc>
    decreases turns.len(),
{
    if turns.len() == 0 {
        Map::empty()
    } else {
        let before = tracker_of(turns.drop_last());
        match (turns.last().ask, turns.last().told) {
            (Ask::LoadKnown(_), Told::Known(known)) => known@,
            (Ask::Upsert(_, uri, doc), Told::Done) => before.insert(uri@, doc),
            (Ask::Delete(_, uri), Told::Done) => before.remove(uri@),
            _ => before,
        }
    }
}

/// What the tracker knew when it was loaded.
pub open spec fn known_in(turns: Seq<Turn>) -> Option<Map<Seq<char>, KnownDoc>>
    decreases turns.len(),
{
    if turns.len() == 0 {
        None
    } else {
        match turns.last().told {
            Told::Known(known) => Some(known@),
            _ => known_in(turns.drop_last()),
        }
    }
}

/// The documents that the store listed.
pub open spec fn rows_in(turns: Seq<Turn>) -> Option<Seq<DocRowView>>
    decreases turns.len(),
{
    if turns.len() == 0 {
        None
    } else {
        match turns.last().told {
            Told::Rows(rows) => Some(views(rows@)),
            _ => rows_in(turns.drop_last()),
        }
    }
}

/// Whether a request changes the index or the tracker's contents.
pub open spec fn changes(ask: Ask) -> bool {
    ask is Post || ask is Upsert || ask is Delete
}

/// Whether none of the turns changes the index or the tracker's contents.
pub open spec fn changes_nothing(turns: Seq<Turn>) -> bool {
    forall|i: int| 0 <= i < turns.len() ==> !changes((#[trigger] turns[i]).ask)
}

/// Whether the tracker has been changed by the first documents and the first
/// URIs of a plan, and by no more.
spec fn carried_out(p: Plan, entry: DocumentIndexConfig, turns: Seq<Turn>, inserts: int, deletes: int) -> bool {
    &&& known_in(turns) is Some && rows_in(turns) is Some
    &&& plans(p, entry, rows_in(turns)->0, known_in(turns)->0)
    &&& 0 <= inserts <= p.inserts@.len() && 0 <= deletes <= p.deletes@.len()
    &&& tracker_after(
        tracker_of(turns),
        known_in(turns)->0,
        views(p.inserts@).take(inserts),
        views(p.deletes@).take(deletes),
    )
}

/// How many of the documents have been recorded: all, or none where the batch
/// was not accepted.
spec fn recorded(p: Plan, inserted: bool) -> int {
    if inserted {
        p.inserts@.len() as int
    } else {
        0
    }
}

/// What the turns of a sweep have come to at a stage.
spec fn stands(entry: DocumentIndexConfig, turns: Seq<Turn>, stage: Stage, ask: Ask) -> bool {
    match stage {
        Stage::Ensuring => ask is EnsureTable && known_in(turns) is None && rows_in(turns) is None && changes_nothing(
            turns,
        ),
        Stage::Loading => ask is LoadKnown && known_in(turns) is None && rows_in(turns) is None && changes_nothing(
            turns,
        ),
        Stage::Listing(known) => ask is List && known_in(turns) == Some(known@) && rows_in(turns) is None
            && tracker_of(turns) == known@ && changes_nothing(turns),
        Stage::Inserting(p) => ask is Post && p.inserts@.len() > 0 && carried_out(p, entry, turns, 0, 0),
        Stage::Recording(p, at) => at < p.inserts@.len() && carried_out(p, entry, turns, at as int, 0) && (
        ask matches Ask::Upsert(_, uri, doc) && uri@ == p.inserts@[at as int].uri@ && doc.doc_hash@
            == p.inserts@[at as int].hash@),
        Stage::Deleting(p, inserted) => ask is Post && p.deletes@.len() > 0 && carried_out(
            p,
            entry,
            turns,
            recorded(p, inserted),
            0,
        ),
        Stage::Forgetting(p, inserted, at) => at < p.deletes@.len() && carried_out(
            p,
            entry,
            turns,
            recorded(p, inserted),
            at as int,
        ) && (ask matches Ask::Delete(_, uri) && uri@ == p.deletes@[at as int]@),
        Stage::Over => ask matches Ask::Finish(result) && (result matches Ok(c) ==> exists|p: Plan| #[trigger]
            ended(p, entry, turns, c)),
    }
}

spec fn ended(p: Plan, entry: DocumentIndexConfig, turns: Seq<Turn>, c: SweepResult) -> bool {
    &&& known_in(turns) is Some && rows_in(turns) is Some
    &&& plans(p, entry, rows_in(turns)->0, known_in(turns)->0)
    &&& c.unchanged == p.unchanged
    &&& c.errors == 0 ==> carried_out(p, entry, turns, p.inserts@.len() as int, p.deletes@.len() as int)
    &&& c.errors == 0 ==> c.inserted == p.inserts@.len() && c.deleted == p.deletes@.len()
}

proof fn nothing_carried_out(known: Map<Seq<char>, KnownDoc>, sent: Seq<MirrorView>, gone: Seq<Seq<char>>)
    ensures
        tracker_after(known, known, sent.take(0), gone.take(0)),
{
}

/// Recording one more document.
proof fn record_one(
    after: Map<Seq<char>, KnownDoc>,
    known: Map<Seq<char>, KnownDoc>,
    sent: Seq<MirrorView>,
    gone: Seq<Seq<char>>,
    at: int,
    doc: KnownDoc,
)
    requires
        0 <= at < sent.len(),
        tracker_after(after, known, sent.take(at), gone.take(0)),
        doc.doc_hash@ == sent[at].hash,
    ensures
        tracker_after(after.insert(sent[at].uri, doc), known, sent.take(at + 1), gone.take(0)),
{
    let had = sent.take(at);
    let has = sent.take(at + 1);
    let next = after.insert(sent[at].uri, doc);
    assert(has =~= had.push(sent[at]));
    assert forall|k: Seq<char>| has_key(has, k) <==> has_key(had, k) || k == sent[at].uri by {
        if has_key(had, k) {
            let i = choose|i: int| 0 <= i < had.len() && (#[trigger] had[i]).key() == k;
            assert(has[i].key() == k);
        }
        assert(has[at].key() == sent[at].uri);
        if has_key(has, k) {
            let i = choose|i: int| 0 <= i < has.len() && (#[trigger] has[i]).key() == k;
            if i < at {
                assert(had[i].key() == k);
            }
        }
    }
    assert forall|k: Seq<char>| next.contains_key(k) && has_key(has, k) implies exists|i: int|
        0 <= i < has.len() && (#[trigger] has[i]).uri == k && (#[trigger] next[k]).doc_hash@ == has[i].hash by {
        if k == sent[at].uri {
            assert(has[at].uri == k && next[k].doc_hash@ == has[at].hash);
        } else {
            let i = choose|i: int|
                0 <= i < had.len() && (#[trigger] had[i]).uri == k && (#[trigger] after[k]).doc_hash@ == had[i].hash;
            assert(has[i] == had[i] && next[k] == after[k]);
        }
    }
}

/// Forgetting one more URI.
proof fn forget_one(
    after: Map<Seq<char>, KnownDoc>,
    known: Map<Seq<char>, KnownDoc>,
    sent: Seq<MirrorView>,
    gone: Seq<Seq<char>>,
    at: int,
)
    requires
        0 <= at < gone.len(),
        tracker_after(after, known, sent, gone.take(at)),
    ensures
        tracker_after(after.remove(gone[at]), known, sent, gone.take(at + 1)),
{
    let had = gone.take(at);
    let has = gone.take(at + 1);
    let next = after.remove(gone[at]);
    assert forall|k: Seq<char>| has.contains(k) <==> had.contains(k) || k == gone[at] by {
        if had.contains(k) {
            let i = choose|i: int| 0 <= i < had.len() && had[i] == k;
            assert(has[i] == k);
        }
        assert(has[at] == gone[at]);
        if has.contains(k) {
            let i = choose|i: int| 0 <= i < has.len() && has[i] == k;
            if i < at {
                assert(had[i] == k);
            }
        }
    }
    assert forall|k: Seq<char>| next.contains_key(k) && has_key(sent, k) implies exists|i: int|
        0 <= i < sent.len() && (#[trigger] sent[i]).uri == k && (#[trigger] next[k]).doc_hash@ == sent[i].hash by {
        assert(next[k] == after[k]);
    }
}

proof fn stands_at_forget(
    entry: DocumentIndexConfig,
    turns: Seq<Turn>,
    p: Plan,
    inserted: bool,
    at: int,
    next: Stage,
    ask: Ask,
)
    requires
        carried_out(p, entry, turns, recorded(p, inserted), at),
        goes_to_forget(entry, p, inserted, at, next, ask),
    ensures
        stands(entry, turns, next, ask),
{
    if at >= p.deletes@.len() {
        let c = ask->Finish_0->Ok_0;
        assert(ended(p, entry, turns, c));
    }
}

proof fn stands_at_delete(
    entry: DocumentIndexConfig,
    turns: Seq<Turn>,
    p: Plan,
    inserted: bool,
    next: Stage,
    ask: Ask,
)
    requires
        carried_out(p, entry, turns, recorded(p, inserted), 0),
        goes_to_delete(p, inserted, next, ask),
    ensures
        stands(entry, turns, next, ask),
{
    if p.deletes@.len() == 0 {
        let c = ask->Finish_0->Ok_0;
        assert(ended(p, entry, turns, c));
    }
}

proof fn stands_at_record(
    entry: DocumentIndexConfig,
    turns: Seq<Turn>,
    p: Plan,
    at: int,
    next: Stage,
    ask: Ask,
)
    requires
        carried_out(p, entry, turns, at, 0),
        goes_to_record(entry, p, at, next, ask),
    ensures
        stands(entry, turns, next, ask),
{
    if at >= p.inserts@.len() {
        stands_at_delete(entry, turns, p, true, next, ask);
    }
}

proof fn stands_on(
    entry: DocumentIndexConfig,
    turns: Seq<Turn>,
    stage: Stage,
    ask: Ask,
    told: Told,
    next: Stage,
    more: Ask,
)
    requires
        stands(entry, turns, stage, ask),
        leads(entry, stage, told, next, more),
    ensures
        stands(entry, turns.push(Turn { stage, ask, told }), next, more),
{
    let all = turns.push(Turn { stage, ask, told });
    assert(all.drop_last() =~= turns);
    assert(all.last() == Turn { stage, ask, told });
    if !(more matches Ask::Finish(Err(_))) {
        match (stage, told) {
            (Stage::Listing(known), Told::Rows(rows)) => {
                let p = choose|p: Plan| #[trigger]
                    plans(p, entry, views(rows@), known@) && goes_to_insert(p, next, more);
                nothing_carried_out(known@, views(p.inserts@), views(p.deletes@));
                assert(carried_out(p, entry, all, 0, 0));
                if p.inserts@.len() == 0 {
                    stands_at_delete(entry, all, p, false, next, more);
                }
            },
            (Stage::Inserting(p), Told::Reply(body)) => {
                assert(carried_out(p, entry, all, 0, 0));
                if text_verdict(body@) is Ok {
                    stands_at_record(entry, all, p, 0, next, more);
                } else {
                    stands_at_delete(entry, all, p, false, next, more);
                }
            },
            (Stage::Inserting(p), Told::Failed(_)) => {
                assert(carried_out(p, entry, all, 0, 0));
                stands_at_delete(entry, all, p, false, next, more);
            },
            (Stage::Recording(p, at), Told::Done) => {
                record_one(
                    tracker_of(turns),
                    known_in(turns)->0,
                    views(p.inserts@),
                    views(p.deletes@),
                    at as int,
                    ask->Upsert_2,
                );
                stands_at_record(entry, all, p, at + 1, next, more);
            },
            (Stage::Deleting(p, inserted), Told::Reply(body)) => {
                assert(carried_out(p, entry, all, recorded(p, inserted), 0));
                if text_verdict(body@) is Ok {
                    stands_at_forget(entry, all, p, inserted, 0, next, more);
                } else {
                    assert(ended(p, entry, all, more->Finish_0->Ok_0));
                }
            },
            (Stage::Deleting(p, inserted), Told::Failed(_)) => {
                assert(carried_out(p, entry, all, recorded(p, inserted), 0));
                assert(ended(p, entry, all, more->Finish_0->Ok_0));
            },
            (Stage::Forgetting(p, inserted, at), Told::Done) => {
                forget_one(
                    tracker_of(turns),
                    known_in(turns)->0,
                    views(p.inserts@).take(recorded(p, inserted)),
                    views(p.deletes@),
                    at as int,
                );
                stands_at_forget(entry, all, p, inserted, at + 1, next, more);
            },
            _ => {},
        }
    }
}

proof fn stands_throughout<H: HttpBridge, R: SirixBridge, S: DocSinkBridge>(
    entry: DocumentIndexConfig,
    turns: Seq<Turn>,
    stage: Stage,
    ask: Ask,
    http: &H,
    sirix: &R,
    sink: &S,
)
    requires
        comes_to(entry, turns, stage, ask, http, sirix, sink),
    ensures
        stands(entry, turns, stage, ask),
    decreases turns.len(),
{
    if turns.len() > 0 {
        let t = turns.last();
        stands_throughout(entry, turns.drop_last(), t.stage, t.ask, http, sirix, sink);
        stands_on(entry, turns.drop_last(), t.stage, t.ask, t.told, stage, ask);
        assert(turns.drop_last().push(Turn { stage: t.stage, ask: t.ask, told: t.told }) =~= turns);
    }
}

/// A sweep without errors leaves the tracker that its plan asks for: what was
/// sent is recorded, what is gone forgotten, and the rest is as it was.
pub proof fn sweep_leaves_its_tracker<H: HttpBridge, R: SirixBridge, S: DocSinkBridge>(
    entry: DocumentIndexConfig,
    h: History,
    c: SweepResult,
    http: &H,
    sirix: &R,
    sink: &S,
) -> (p: Plan)
    requires
        swept(entry, h, http, sirix, sink),
        h.result == Ok::<SweepResult, String>(c),
        c.errors == 0,
    ensures
        known_in(h.turns) is Some,
        rows_in(h.turns) is Some,
        plans(p, entry, rows_in(h.turns)->0, known_in(h.turns)->0),
        tracker_after(tracker_of(h.turns), known_in(h.turns)->0, views(p.inserts@), views(p.deletes@)),
        c.inserted == p.inserts@.len(),
        c.deleted == p.deletes@.len(),
        c.unchanged == p.unchanged,
{
    stands_throughout(entry, h.turns, Stage::Over, Ask::Finish(h.result), http, sirix, sink);
    let p = choose|p: Plan| #[trigger] ended(p, entry, h.turns, c);
    assert(views(p.inserts@).take(p.inserts@.len() as int) =~= views(p.inserts@));
    assert(views(p.deletes@).take(p.deletes@.len() as int) =~= views(p.deletes@));
    p
}

/// Whether no two documents have one key.
pub open spec fn keys_differ(rows: Seq<DocRowView>) -> bool {
    forall|i: int, j: int|
        0 <= i < j < rows.len() ==> (#[trigger] rows[i]).node_key != (#[trigger] rows[j]).node_key
}

proof fn uris_differ(rows: Seq<DocRowView>, database: Seq<char>, resource: Seq<char>)
    requires
        keys_differ(rows),
    ensures
        uris_of(rows, database, resource).no_duplicates(),
{
    let uris = uris_of(rows, database, resource);
    assert forall|i: int, j: int| 0 <= i < uris.len() && 0 <= j < uris.len() && i != j implies uris[i] != uris[j] by {
        let a = rows[i].node_key;
        let b = rows[j].node_key;
        let head = doc_uri(database, resource, Seq::empty());
        assert(uris[i] =~= head + a);
        assert(uris[j] =~= head + b);
        if uris[i] == uris[j] {
            assert(a =~= uris[i].skip(head.len() as int));
            assert(b =~= uris[j].skip(head.len() as int));
            assert(i < j || j < i);
        }
    }
}

/// Whether the answers of a sweep go by a tracker and by the documents of the
/// store.
pub open spec fn told_by(turns: Seq<Turn>, known: Map<Seq<char>, KnownDoc>, rows: Seq<DocRowView>) -> bool {
    forall|i: int|
        0 <= i < turns.len() ==> match (#[trigger] turns[i]).told {
            Told::Known(k) => k@ == known,
            Told::Rows(v) => views(v@) == rows,
            _ => true,
        }
}

/// Whether no call of the bridges failed.
pub open spec fn none_failed(turns: Seq<Turn>) -> bool {
    forall|i: int| 0 <= i < turns.len() ==> !((#[trigger] turns[i]).told is Failed)
}

/// A sweep without errors is followed by one that does nothing, where the store
/// has not changed and no two documents have one key: the index gets no post,
/// the tracker no change, and every document counts as unchanged.
pub proof fn sweeping_again_is_idle<H: HttpBridge, R: SirixBridge, S: DocSinkBridge>(
    entry: DocumentIndexConfig,
    first: History,
    c: SweepResult,
    second: History,
    http: &H,
    sirix: &R,
    sink: &S,
)
    requires
        swept(entry, first, http, sirix, sink),
        first.result == Ok::<SweepResult, String>(c),
        c.errors == 0,
        keys_differ(rows_in(first.turns)->0),
        swept(entry, second, http, sirix, sink),
        told_by(second.turns, tracker_of(first.turns), rows_in(first.turns)->0),
    ensures
        changes_nothing(second.turns),
        none_failed(second.turns) ==> second.result is Ok,
        second.result matches Ok(d) ==> d == (SweepResult {
            inserted: 0,
            deleted: 0,
            unchanged: rows_in(first.turns)->0.len() as u64,
            errors: 0,
        }),
{
    let p = sweep_leaves_its_tracker(entry, first, c, http, sirix, sink);
    idles(
        entry,
        rows_in(first.turns)->0,
        known_in(first.turns)->0,
        tracker_of(first.turns),
        p,
        second.turns,
        Stage::Over,
        Ask::Finish(second.result),
        http,
        sirix,
        sink,
    );
}

proof fn idles<H: HttpBridge, R: SirixBridge, S: DocSinkBridge>(
    entry: DocumentIndexConfig,
    rows: Seq<DocRowView>,
    known: Map<Seq<char>, KnownDoc>,
    after: Map<Seq<char>, KnownDoc>,
    done: Plan,
    turns: Seq<Turn>,
    stage: Stage,
    ask: Ask,
    http: &H,
    sirix: &R,
    sink: &S,
)
    requires
        keys_differ(rows),
        plans(done, entry, rows, known),
        tracker_after(after, known, views(done.inserts@), views(done.deletes@)),
        comes_to(entry, turns, stage, ask, http, sirix, sink),
        told_by(turns, after, rows),
    ensures
        changes_nothing(turns),
        none_failed(turns) ==> !(ask matches Ask::Finish(Err(_))),
        match stage {
            Stage::Ensuring => ask is EnsureTable,
            Stage::Loading => ask is LoadKnown,
            Stage::Listing(k) => ask is List && k@ == after,
            Stage::Over => ask matches Ask::Finish(r) && (r matches Ok(d) ==> d == (SweepResult {
                inserted: 0,
                deleted: 0,
                unchanged: rows.len() as u64,
                errors: 0,
            })),
            _ => false,
        },
    decreases turns.len(),
{
    if turns.len() > 0 {
        let before = turns.drop_last();
        let t = turns.last();
        assert forall|i: int| 0 <= i < before.len() implies match (#[trigger] before[i]).told {
            Told::Known(k) => k@ == after,
            Told::Rows(v) => views(v@) == rows,
            _ => true,
        } by {
            assert(before[i] == turns[i]);
        }
        idles(entry, rows, known, after, done, before, t.stage, t.ask, http, sirix, sink);
        assert forall|i: int| 0 <= i < turns.len() implies !changes((#[trigger] turns[i]).ask) by {
            if i < before.len() {
                assert(turns[i] == before[i]);
            }
        }
        assert(turns[turns.len() - 1] == t);
        if none_failed(turns) {
            assert forall|i: int| 0 <= i < before.len() implies !((#[trigger] before[i]).told is Failed) by {
                assert(before[i] == turns[i]);
            }
        }
        match (t.stage, t.told) {
            (Stage::Listing(k), Told::Rows(v)) => {
                let p = choose|p: Plan| #[trigger]
                    plans(p, entry, views(v@), k@) && goes_to_insert(p, stage, ask);
                uris_differ(rows, entry.sirix_database@, entry.sirix_resource@);
                second_sweep_is_idle(
                    rows,
                    entry.sirix_database@,
                    entry.sirix_resource@,
                    known,
                    views(done.inserts@),
                    views(done.deletes@),
                    after,
                    views(p.deletes@),
                );
                assert(p.inserts@.len() == 0);
                assert(p.deletes@.len() == 0);
            },
            _ => {},
        }
    }
}

/// A run over one entry without errors is followed by one that reports every
/// document as unchanged and changes nothing, where the store has not changed,
/// no two documents have one key and no call fails.
pub proof fn running_again_is_idle<H: HttpBridge, R: SirixBridge, S: DocSinkBridge>(
    entry: DocumentIndexConfig,
    first: Seq<History>,
    second: Seq<History>,
    http: &H,
    sirix: &R,
    sink: &S,
)
    requires
        all_swept(seq![entry], first, http, sirix, sink),
        summed(first).errors == 0,
        keys_differ(rows_in(first[0].turns)->0),
        all_swept(seq![entry], second, http, sirix, sink),
        told_by(second[0].turns, tracker_of(first[0].turns), rows_in(first[0].turns)->0),
        none_failed(second[0].turns),
    ensures
        changes_nothing(second[0].turns),
        summed(second) == (SweepResult {
            inserted: 0,
            deleted: 0,
            unchanged: rows_in(first[0].turns)->0.len() as u64,
            errors: 0,
        }),
{
    reveal_with_fuel(summed, 2);
    assert(first.last() == first[0]);
    assert(second.last() == second[0]);
    assert(swept(entry, first[0], http, sirix, sink));
    assert(swept(entry, second[0], http, sirix, sink));
    sweeping_again_is_idle(entry, first[0], first[0].result->Ok_0, second[0], http, sirix, sink);
}

/// Where the tracker cannot be had or loaded, or the documents not be listed,
/// the sweep of the entry fails, and neither the index nor the tracker is
/// changed.
pub proof fn failed_call_stops_the_sweep<H: HttpBridge, R: SirixBridge, S: DocSinkBridge>(
    entry: DocumentIndexConfig,
    h: History,
    i: int,
    http: &H,
    sirix: &R,
    sink: &S,
)
    requires
        swept(entry, h, http, sirix, sink),
        0 <= i < h.turns.len(),
        h.turns[i].ask is EnsureTable || h.turns[i].ask is LoadKnown || h.turns[i].ask is List,
        h.turns[i].told is Failed,
    ensures
        h.result is Err,
        changes_nothing(h.turns),
{
    stops(entry, h.turns, Stage::Over, Ask::Finish(h.result), i, http, sirix, sink);
}

proof fn stops<H: HttpBridge, R: SirixBridge, S: DocSinkBridge>(
    entry: DocumentIndexConfig,
    turns: Seq<Turn>,
    stage: Stage,
    ask: Ask,
    i: int,
    http: &H,
    sirix: &R,
    sink: &S,
)
    requires
        comes_to(entry, turns, stage, ask, http, sirix, sink),
        0 <= i < turns.len(),
        turns[i].ask is EnsureTable || turns[i].ask is LoadKnown || turns[i].ask is List,
        turns[i].told is Failed,
    ensures
        stage is Over,
        ask matches Ask::Finish(Err(_)),
        changes_nothing(turns),
    decreases turns.len(),
{
    let before = turns.drop_last();
    let t = turns.last();
    stands_throughout(entry, before, t.stage, t.ask, http, sirix, sink);
    if i < before.len() {
        assert(before[i] == turns[i]);
        stops(entry, before, t.stage, t.ask, i, http, sirix, sink);
    }
    assert forall|j: int| 0 <= j < turns.len() implies !changes((#[trigger] turns[j]).ask) by {
        if j < before.len() {
            assert(turns[j] == before[j]);
        }
    }
}

} // verus!

//! The document store: the addresses of documents, the queries that read them
//! and the replies.

use vstd::prelude::*;
use vstd::string::*;
use vstd::utf8::encode_utf8;

use crate::canonicalize::document_sweep::doc_uri;
use crate::endpoint::{endpoint, endpoint_of};
use crate::grid::{cell, cell_at, cell_body, cell_body_and_ct, cell_to_unsigned, cell_unsigned, column_names,
    first_wanted, names_of, pos_view, position_of_any};
use crate::json::{all_wf, array_field, get_array, get_text, json_parse, json_text, object1, object_of, reads_as,
    text_field, Json, JsonView};
use crate::number::{decimal, decimal_of};
use crate::sql::{quote_text, quoted, table, table_ref};
use crate::text::{bytes_of, find_char, from_chars, opt_view, strip_prefix, to_chars, views};

verus! {

/// The address of a document.
#[derive(Debug, PartialEq, Eq)]
pub struct DocId {
    pub database: String,
    pub resource: String,
    pub node_key: String,
}

pub struct DocIdView {
    pub database: Seq<char>,
    pub resource: Seq<char>,
    pub node_key: Seq<char>,
}

impl View for DocId {
    type V = DocIdView;

    open spec fn view(&self) -> DocIdView {
        DocIdView { database: self.database@, resource: self.resource@, node_key: self.node_key@ }
    }
}

// ---------------------------------------------------------------------------
// Addresses
// ---------------------------------------------------------------------------

/// Whether `uri` is the address `sirix://<db>/<resource>/<node-key>` of `d`.
/// No part is empty, and none holds a slash.
pub open spec fn addresses(uri: Seq<char>, d: DocIdView) -> bool {
    &&& uri == doc_uri(d.database, d.resource, d.node_key)
    &&& d.database.len() > 0 && !d.database.contains('/')
    &&& d.resource.len() > 0 && !d.resource.contains('/')
    &&& d.node_key.len() > 0 && !d.node_key.contains('/')
}

/// The refusal of what is no address.
pub open spec fn address_error(uri: Seq<char>) -> Seq<char> {
    if "sirix://"@.is_prefix_of(uri) {
        "wf_document: doc-id `"@ + uri + "` must be sirix://<db>/<resource>/<node-key>"@
    } else {
        "wf_document: doc-id `"@ + uri + "` must start with sirix://"@
    }
}

/// What follows the scheme in an address.
spec fn after_scheme(d: DocIdView) -> Seq<char> {
    d.database + seq!['/'] + d.resource + seq!['/'] + d.node_key
}

proof fn scheme_then_rest(uri: Seq<char>, rest: Seq<char>, d: DocIdView)
    requires
        uri == "sirix://"@ + rest,
    ensures
        uri == doc_uri(d.database, d.resource, d.node_key) <==> rest == after_scheme(d),
{
    reveal_strlit("/");
    assert("/"@ =~= seq!['/']);
    let whole = doc_uri(d.database, d.resource, d.node_key);
    assert(whole =~= "sirix://"@ + after_scheme(d));
    if uri == whole {
        assert(rest =~= uri.skip("sirix://"@.len() as int));
        assert(after_scheme(d) =~= whole.skip("sirix://"@.len() as int));
    }
}

/// The slashes of an address stand where its parts end.
proof fn slashes(d: DocIdView)
    requires
        !d.database.contains('/'),
        !d.resource.contains('/'),
    ensures
        ({
            let rest = after_scheme(d);
            let i = d.database.len() as int;
            let j = i + 1 + d.resource.len();
            &&& rest.len() == j + 1 + d.node_key.len()
            &&& rest[i] == '/' && rest[j] == '/'
            &&& forall|k: int| 0 <= k < j && k != i ==> rest[k] != '/'
            &&& rest.take(i) == d.database
            &&& rest.subrange(i + 1, j) == d.resource
            &&& rest.skip(j + 1) == d.node_key
        }),
{
    let rest = after_scheme(d);
    let i = d.database.len() as int;
    let j = i + 1 + d.resource.len();
    assert forall|k: int| 0 <= k < j && k != i implies rest[k] != '/' by {
        if k < i {
            assert(rest[k] == d.database[k]);
        } else {
            assert(rest[k] == d.resource[k - i - 1]);
        }
    }
    assert(rest.take(i) =~= d.database);
    assert(rest.subrange(i + 1, j) =~= d.resource);
    assert(rest.skip(j + 1) =~= d.node_key);
}

/// Reads an address.
pub fn parse_sirix_uri(uri: &str) -> (r: Result<DocId, String>)
    ensures
        match r {
            Ok(d) => addresses(uri@, d@),
            Err(e) => e@ == address_error(uri@) && forall|d: DocIdView| !addresses(uri@, d),
        },
{
    let rest = match strip_prefix(uri, "sirix://") {
        Some(rest) => rest,
        None => {
            proof {
                assert forall|d: DocIdView| !addresses(uri@, d) by {
                    if addresses(uri@, d) {
                        assert(uri@.take("sirix://"@.len() as int) =~= "sirix://"@);
                    }
                }
            }
            return Err("wf_document: doc-id `".to_owned().concat(uri).concat("` must start with sirix://"));
        },
    };
    let chars = to_chars(&rest);
    let n: usize = chars.len();
    let first = find_char(&chars, '/', 0);
    let second = match first {
        Some(i) => find_char(&chars, '/', i + 1),
        None => None,
    };
    let third = match second {
        Some(j) => find_char(&chars, '/', j + 1),
        None => None,
    };
    let parts = match (first, second) {
        (Some(i), Some(j)) => if i > 0 && j > i + 1 && n - j > 1 && third.is_none() {
            Some((i, j))
        } else {
            None
        },
        _ => None,
    };
    match parts {
        Some((i, j)) => {
            let d = DocId {
                database: from_chars(&chars, 0, i),
                resource: from_chars(&chars, i + 1, j),
                node_key: from_chars(&chars, j + 1, n),
            };
            proof {
                assert(chars@ == rest@);
                assert(rest@ =~= after_scheme(d@));
                scheme_then_rest(uri@, rest@, d@);
                assert forall|k: int| 0 <= k < d@.node_key.len() implies d@.node_key[k] != '/' by {
                    assert(chars@[j + 1 + k] != '/');
                }
            }
            Ok(d)
        },
        None => {
            proof {
                assert forall|d: DocIdView| !addresses(uri@, d) by {
                    if addresses(uri@, d) {
                        scheme_then_rest(uri@, rest@, d);
                        slashes(d);
                        let i = d.database.len() as int;
                        let j = i + 1 + d.resource.len();
                        assert(rest@[i] == '/');
                        assert(rest@[j] == '/');
                        assert(first == Some(i as usize));
                        assert(second == Some(j as usize));
                        if let Some(k) = third {
                            assert(d.node_key[k - j - 1] == rest@[k as int]);
                        }
                    }
                }
            }
            Err(
                "wf_document: doc-id `".to_owned().concat(uri).concat(
                    "` must be sirix://<db>/<resource>/<node-key>",
                ),
            )
        },
    }
}

/// An address is the address of one document only.
pub proof fn address_is_unique(uri: Seq<char>, a: DocIdView, b: DocIdView)
    requires
        addresses(uri, a),
        addresses(uri, b),
    ensures
        a == b,
{
    let rest = uri.skip("sirix://"@.len() as int);
    reveal_strlit("/");
    assert("/"@ =~= seq!['/']);
    assert(uri =~= "sirix://"@ + rest) by {
        assert(uri =~= "sirix://"@ + after_scheme(a));
    }
    scheme_then_rest(uri, rest, a);
    scheme_then_rest(uri, rest, b);
    slashes(a);
    slashes(b);
    let i = a.database.len() as int;
    let k = b.database.len() as int;
    assert(rest[i] == '/' && rest[k] == '/');
    if i < k {
        assert(rest[i] != '/');
    }
    if k < i {
        assert(rest[k] != '/');
    }
    let j = i + 1 + a.resource.len();
    let l = k + 1 + b.resource.len();
    assert(rest[j] == '/' && rest[l] == '/');
    if j < l {
        assert(rest[j] != '/');
    }
    if l < j {
        assert(rest[l] != '/');
    }
}

/// The endpoint that takes queries.
pub fn query_url(sirix_url: &str) -> (r: String)
    ensures
        r@ == endpoint_of(sirix_url@, "/query"@),
{
    endpoint(sirix_url, "/query")
}

// ---------------------------------------------------------------------------
// Queries
// ---------------------------------------------------------------------------

/// The condition that picks a document: its own `_id` is the node key.
pub open spec fn picks(node_key: Seq<char>) -> Seq<char> {
    " WHERE JSON_VALUE(\"document\", '$._id') = "@ + quoted(node_key)
}

/// The query for a document, at a revision or at the latest.
pub open spec fn fetch_sql(d: DocIdView, revision: Option<u64>) -> Seq<char> {
    let latest = "SELECT * FROM "@ + table_ref(d.database, d.resource) + picks(d.node_key);
    match revision {
        Some(rev) => latest + " AND _revision = "@ + decimal_of(rev as nat),
        None => latest,
    }
}

pub fn pick(node_key: &str) -> (r: String)
    ensures
        r@ == picks(node_key@),
{
    " WHERE JSON_VALUE(\"document\", '$._id') = ".to_owned().concat(&quote_text(node_key))
}

pub fn build_fetch_sql(doc: &DocId, revision: Option<u64>) -> (r: String)
    ensures
        r@ == fetch_sql(doc@, revision),
{
    let latest = "SELECT * FROM ".to_owned().concat(&table(&doc.database, &doc.resource)).concat(
        &pick(&doc.node_key),
    );
    match revision {
        Some(rev) => latest.concat(" AND _revision = ").concat(&decimal(rev)),
        None => latest,
    }
}

/// The query for the revisions of a document, in order.
pub open spec fn revisions_sql(d: DocIdView) -> Seq<char> {
    "SELECT _revision FROM "@ + table_ref(d.database, d.resource) + picks(d.node_key) + " ORDER BY _revision"@
}

pub fn build_revisions_sql(doc: &DocId) -> (r: String)
    ensures
        r@ == revisions_sql(doc@),
{
    "SELECT _revision FROM ".to_owned().concat(&table(&doc.database, &doc.resource)).concat(
        &pick(&doc.node_key),
    ).concat(" ORDER BY _revision")
}

/// The body that asks a query.
pub fn build_fetch_body(sql: &str) -> (r: String)
    ensures
        r@ == json_text(object1("sql"@, JsonView::Text(sql@))),
        reads_as(r@, object1("sql"@, JsonView::Text(sql@))),
{
    let tree = object_of("sql", Json::text(sql));
    proof {
        reveal_with_fuel(JsonView::plain, 3);
    }
    tree.render()
}

// ---------------------------------------------------------------------------
// A fetched document
// ---------------------------------------------------------------------------

/// A document's body, with its content type.
#[derive(Debug, PartialEq, Eq)]
pub struct FetchedDoc {
    pub body: Vec<u8>,
    pub content_type: String,
}

/// The first position of a cell that is not null.
pub open spec fn first_present(cells: Seq<JsonView>) -> Option<nat>
    decreases cells.len(),
{
    if cells.len() == 0 {
        None
    } else if !(cells[0] is Null) {
        Some(0)
    } else {
        match first_present(cells.drop_first()) {
            Some(n) => Some(n + 1),
            None => None,
        }
    }
}

fn find_present(cells: &Vec<Json>) -> (r: Option<usize>)
    ensures
        pos_view(r) == first_present(views(cells@)),
{
    let ghost all = views(cells@);
    proof {
        assert(all.skip(0) =~= all);
    }
    for i in 0..cells.len()
        invariant
            all == views(cells@),
            first_present(all) == match first_present(all.skip(i as int)) {
                Some(n) => Some(n + i as nat),
                None => None,
            },
    {
        proof {
            assert(all.skip(i as int).drop_first() =~= all.skip(i + 1));
            assert(all[i as int] == cells@[i as int]@);
        }
        if !cells[i].is_null() {
            return Some(i);
        }
    }
    None
}

/// The cell that holds the document: under the first column that is named like
/// one, or the first cell that is not null.
pub open spec fn document_cell(names: Seq<Seq<char>>, cells: Seq<JsonView>) -> Option<JsonView> {
    let at = match first_wanted(names, seq!["document"@, "body"@, "content"@, "json"@]) {
        Some(n) => Some(n),
        None => first_present(cells),
    };
    match at {
        Some(n) => cell_at(cells, n),
        None => None,
    }
}

/// What a reply to a fetch says: the bytes of the body and their content type.
pub open spec fn fetched(root: JsonView, content_type: Option<Seq<char>>) -> Result<(Seq<u8>, Seq<char>), Seq<char>> {
    match text_field(root, "error"@) {
        Some(e) => Err("wf_document: sirix: "@ + e),
        None => match array_field(root, "columns"@) {
            None => Err("wf_document: sirix response missing `columns` array"@),
            Some(columns) => match array_field(root, "rows"@) {
                None => Err("wf_document: sirix response missing `rows` array"@),
                Some(rows) => if rows.len() == 0 {
                    Err("wf_document: sirix returned zero rows — document not found"@)
                } else {
                    match rows[0].as_array() {
                        None => Err("wf_document: sirix row was not an array: "@ + json_text(rows[0])),
                        Some(cells) => match document_cell(names_of(columns), cells) {
                            None => Err("wf_document: sirix row had no usable columns"@),
                            Some(c) => {
                                let (body, own) = cell_body(c);
                                Ok(
                                    (
                                        encode_utf8(body),
                                        match content_type {
                                            Some(t) => t,
                                            None => own,
                                        },
                                    ),
                                )
                            },
                        },
                    }
                },
            },
        },
    }
}

/// The view of a fetched document or an error message.
pub open spec fn doc_or_error(r: Result<FetchedDoc, String>) -> Result<(Seq<u8>, Seq<char>), Seq<char>> {
    match r {
        Ok(d) => Ok((d.body@, d.content_type@)),
        Err(e) => Err(e@),
    }
}

/// Reads a reply to a fetch.
pub fn fetch_from_json(root: &Json, content_type_override: Option<&str>) -> (r: Result<FetchedDoc, String>)
    requires
        root@.wf(),
    ensures
        doc_or_error(r) == fetched(root@, opt_view(content_type_override)),
{
    match get_text(root, "error") {
        Some(e) => {
            return Err("wf_document: sirix: ".to_owned().concat(e));
        },
        None => {},
    }
    let columns = match get_array(root, "columns") {
        Some(c) => c,
        None => {
            return Err("wf_document: sirix response missing `columns` array".to_owned());
        },
    };
    let rows = match get_array(root, "rows") {
        Some(v) => v,
        None => {
            return Err("wf_document: sirix response missing `rows` array".to_owned());
        },
    };
    if rows.len() == 0 {
        return Err("wf_document: sirix returned zero rows — document not found".to_owned());
    }
    proof {
        assert(views(rows@)[0] == rows@[0]@);
        assert(views(rows@)[0].wf());
    }
    let cells = match rows[0].as_array() {
        Some(cells) => cells,
        None => {
            let text = rows[0].render();
            return Err("wf_document: sirix row was not an array: ".to_owned().concat(&text));
        },
    };
    let likely = vec!["document", "body", "content", "json"];
    proof {
        assert(views(likely@) =~= seq!["document"@, "body"@, "content"@, "json"@]);
    }
    let names = column_names(columns);
    let at = match position_of_any(&names, &likely) {
        Some(i) => Some(i),
        None => find_present(cells),
    };
    let found = match at {
        Some(i) => cell(cells, i),
        None => None,
    };
    let c = match found {
        Some(c) => c,
        None => {
            return Err("wf_document: sirix row had no usable columns".to_owned());
        },
    };
    proof {
        let n = pos_view(at)->0;
        assert(views(cells@)[n as int].wf());
    }
    let (body, own) = cell_body_and_ct(c);
    let content_type = match content_type_override {
        Some(t) => t.to_owned(),
        None => own,
    };
    Ok(FetchedDoc { body: bytes_of(&body), content_type })
}

/// What the text of a reply to a fetch says.
pub open spec fn fetched_text(text: Seq<char>, content_type: Option<Seq<char>>) -> Result<
    (Seq<u8>, Seq<char>),
    Seq<char>,
> {
    match json_parse(text) {
        Err(message) => Err("wf_document: sirix response is not JSON: "@ + message),
        Ok(root) => fetched(root, content_type),
    }
}

/// Reads the text of a reply to a fetch.
pub fn parse_fetch_response(json_str: &str, content_type_override: Option<&str>) -> (r: Result<FetchedDoc, String>)
    ensures
        doc_or_error(r) == fetched_text(json_str@, opt_view(content_type_override)),
{
    match Json::parse(json_str) {
        Ok(root) => fetch_from_json(&root, content_type_override),
        Err(message) => Err("wf_document: sirix response is not JSON: ".to_owned().concat(&message)),
    }
}

// ---------------------------------------------------------------------------
// Revisions
// ---------------------------------------------------------------------------

/// The revision that a row gives.
pub open spec fn row_revision(row: JsonView, at: nat) -> Result<u64, Seq<char>> {
    match row.as_array() {
        None => Err("wf_document: sirix row was not an array: "@ + json_text(row)),
        Some(cells) => match cell_at(cells, at) {
            None => Err("wf_document: sirix row missing _revision cell"@),
            Some(c) => match cell_unsigned(Some(c)) {
                None => Err("wf_document: _revision cell was not an integer: "@ + json_text(c)),
                Some(n) => Ok(n),
            },
        },
    }
}

/// The revisions of the rows; the first row that is refused refuses all.
pub open spec fn row_revisions(rows: Seq<JsonView>, at: nat) -> Result<Seq<u64>, Seq<char>>
    decreases rows.len(),
{
    if rows.len() == 0 {
        Ok(Seq::empty())
    } else {
        match row_revisions(rows.drop_last(), at) {
            Err(e) => Err(e),
            Ok(done) => match row_revision(rows.last(), at) {
                Err(e) => Err(e),
                Ok(n) => Ok(done.push(n)),
            },
        }
    }
}

proof fn revision_error_stays(rows: Seq<JsonView>, at: nat, k: int)
    requires
        0 <= k <= rows.len(),
        row_revisions(rows.take(k), at) is Err,
    ensures
        row_revisions(rows, at) == row_revisions(rows.take(k), at),
    decreases rows.len(),
{
    if k == rows.len() {
        assert(rows.take(k) =~= rows);
    } else {
        assert(rows.drop_last().take(k) =~= rows.take(k));
        revision_error_stays(rows.drop_last(), at, k);
    }
}

/// What a reply to a listing of revisions says.
pub open spec fn revisions_of(root: JsonView) -> Result<Seq<u64>, Seq<char>> {
    match text_field(root, "error"@) {
        Some(e) => Err("wf_document: sirix: "@ + e),
        None => match array_field(root, "columns"@) {
            None => Err("wf_document: sirix response missing `columns` array"@),
            Some(columns) => match array_field(root, "rows"@) {
                None => Err("wf_document: sirix response missing `rows` array"@),
                Some(rows) => match first_wanted(names_of(columns), seq!["_revision"@, "_rev"@]) {
                    None => Err("wf_document: sirix revisions response has no `_revision` column"@),
                    Some(at) => row_revisions(rows, at),
                },
            },
        },
    }
}

/// The view of revisions or an error message.
pub open spec fn revisions_or_error(r: Result<Vec<u64>, String>) -> Result<Seq<u64>, Seq<char>> {
    match r {
        Ok(revs) => Ok(revs@),
        Err(e) => Err(e@),
    }
}

fn read_revision(row: &Json, at: usize) -> (r: Result<u64, String>)
    requires
        row@.wf(),
    ensures
        match r {
            Ok(n) => row_revision(row@, at as nat) == Ok::<u64, Seq<char>>(n),
            Err(e) => row_revision(row@, at as nat) == Err::<u64, Seq<char>>(e@),
        },
{
    let cells = match row.as_array() {
        Some(cells) => cells,
        None => {
            let text = row.render();
            return Err("wf_document: sirix row was not an array: ".to_owned().concat(&text));
        },
    };
    let c = match cell(cells, at) {
        Some(c) => c,
        None => {
            return Err("wf_document: sirix row missing _revision cell".to_owned());
        },
    };
    proof {
        assert(views(cells@)[at as int].wf());
    }
    match cell_to_unsigned(Some(c)) {
        Some(n) => Ok(n),
        None => {
            let text = c.render();
            Err("wf_document: _revision cell was not an integer: ".to_owned().concat(&text))
        },
    }
}

/// Reads a reply to a listing of revisions.
pub fn revisions_from_json(root: &Json) -> (r: Result<Vec<u64>, String>)
    requires
        root@.wf(),
    ensures
        revisions_or_error(r) == revisions_of(root@),
{
    match get_text(root, "error") {
        Some(e) => {
            return Err("wf_document: sirix: ".to_owned().concat(e));
        },
        None => {},
    }
    let columns = match get_array(root, "columns") {
        Some(c) => c,
        None => {
            return Err("wf_document: sirix response missing `columns` array".to_owned());
        },
    };
    let rows = match get_array(root, "rows") {
        Some(v) => v,
        None => {
            return Err("wf_document: sirix response missing `rows` array".to_owned());
        },
    };
    let revisions = vec!["_revision", "_rev"];
    proof {
        assert(views(revisions@) =~= seq!["_revision"@, "_rev"@]);
    }
    let at = match position_of_any(&column_names(columns), &revisions) {
        Some(i) => i,
        None => {
            return Err("wf_document: sirix revisions response has no `_revision` column".to_owned());
        },
    };
    let ghost all = views(rows@);
    let mut revs: Vec<u64> = Vec::new();
    proof {
        assert(row_revisions(all.take(0), at as nat) == Ok::<Seq<u64>, Seq<char>>(revs@));
    }
    for i in 0..rows.len()
        invariant
            all == views(rows@),
            all_wf(all),
            row_revisions(all.take(i as int), at as nat) == Ok::<Seq<u64>, Seq<char>>(revs@),
    {
        proof {
            assert(all.take(i + 1).drop_last() =~= all.take(i as int));
            assert(all[i as int] == rows@[i as int]@);
            assert(all[i as int].wf());
        }
        match read_revision(&rows[i], at) {
            Ok(n) => revs.push(n),
            Err(e) => {
                proof {
                    revision_error_stays(all, at as nat, i + 1);
                }
                return Err(e);
            },
        }
    }
    proof {
        assert(all.take(all.len() as int) =~= all);
    }
    Ok(revs)
}

/// What the text of a reply to a listing of revisions says.
pub open spec fn revisions_text(text: Seq<char>) -> Result<Seq<u64>, Seq<char>> {
    match json_parse(text) {
        Err(message) => Err("wf_document: sirix revisions response is not JSON: "@ + message),
        Ok(root) => revisions_of(root),
    }
}

/// Reads the text of a reply to a listing of revisions.
pub fn parse_revisions_response(json_str: &str) -> (r: Result<Vec<u64>, String>)
    ensures
        revisions_or_error(r) == revisions_text(json_str@),
{
    match Json::parse(json_str) {
        Ok(root) => revisions_from_json(&root),
        Err(message) => Err("wf_document: sirix revisions response is not JSON: ".to_owned().concat(&message)),
    }
}

} // verus!

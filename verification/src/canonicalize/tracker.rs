//! The tables in which the sweeps and the merge remember what they have done.

use vstd::prelude::*;
use vstd::string::*;

use crate::canonicalize::document_sweep::KnownDoc;
use crate::canonicalize::fulltext_sweep::texts;
use crate::canonicalize::merge::{integer_column, text_column, tracker_int, tracker_text, TrackerValue};
use crate::table::Table;
use crate::text::views;

verus! {

/// What a column holds.
#[derive(Debug, Clone, Copy, PartialEq, Eq)]
pub enum ColumnType {
    Text,
    Integer,
}

/// A column; none may be null.
#[derive(Debug)]
pub struct TrackerColumn {
    pub name: String,
    pub column_type: ColumnType,
    pub primary_key: bool,
}

pub struct ColumnView {
    pub name: Seq<char>,
    pub column_type: ColumnType,
    pub primary_key: bool,
}

impl View for TrackerColumn {
    type V = ColumnView;

    open spec fn view(&self) -> ColumnView {
        ColumnView { name: self.name@, column_type: self.column_type, primary_key: self.primary_key }
    }
}

pub open spec fn key_column(name: Seq<char>) -> ColumnView {
    ColumnView { name, column_type: ColumnType::Text, primary_key: true }
}

pub open spec fn value_column(name: Seq<char>, column_type: ColumnType) -> ColumnView {
    ColumnView { name, column_type, primary_key: false }
}

fn key(name: &str) -> (r: TrackerColumn)
    ensures
        r@ == key_column(name@),
{
    TrackerColumn { name: name.to_owned(), column_type: ColumnType::Text, primary_key: true }
}

fn value(name: &str, column_type: ColumnType) -> (r: TrackerColumn)
    ensures
        r@ == value_column(name@, column_type),
{
    TrackerColumn { name: name.to_owned(), column_type, primary_key: false }
}

/// The columns of the alias table.
pub fn alias_columns() -> (r: Vec<TrackerColumn>)
    ensures
        views(r@) == seq![key_column("alias"@), value_column("canonical"@, ColumnType::Text)],
{
    let mut r: Vec<TrackerColumn> = Vec::new();
    r.push(key("alias"));
    r.push(value("canonical", ColumnType::Text));
    proof {
        assert(views(r@) =~= seq![key_column("alias"@), value_column("canonical"@, ColumnType::Text)]);
    }
    r
}

/// The columns of a literal index's tracker.
pub fn known_columns() -> (r: Vec<TrackerColumn>)
    ensures
        views(r@) == seq![
            key_column("subject_iri"@),
            value_column("doc_hash"@, ColumnType::Text),
            value_column("updated_at"@, ColumnType::Integer),
        ],
{
    let mut r: Vec<TrackerColumn> = Vec::new();
    r.push(key("subject_iri"));
    r.push(value("doc_hash", ColumnType::Text));
    r.push(value("updated_at", ColumnType::Integer));
    proof {
        assert(views(r@) =~= seq![
            key_column("subject_iri"@),
            value_column("doc_hash"@, ColumnType::Text),
            value_column("updated_at"@, ColumnType::Integer),
        ]);
    }
    r
}

/// The columns of a document mirror's tracker.
pub fn known_doc_columns() -> (r: Vec<TrackerColumn>)
    ensures
        views(r@) == seq![
            key_column("doc_uri"@),
            value_column("last_seen_rev"@, ColumnType::Integer),
            value_column("doc_hash"@, ColumnType::Text),
            value_column("updated_at"@, ColumnType::Integer),
        ],
{
    let mut r: Vec<TrackerColumn> = Vec::new();
    r.push(key("doc_uri"));
    r.push(value("last_seen_rev", ColumnType::Integer));
    r.push(value("doc_hash", ColumnType::Text));
    r.push(value("updated_at", ColumnType::Integer));
    proof {
        assert(views(r@) =~= seq![
            key_column("doc_uri"@),
            value_column("last_seen_rev"@, ColumnType::Integer),
            value_column("doc_hash"@, ColumnType::Text),
            value_column("updated_at"@, ColumnType::Integer),
        ]);
    }
    r
}

// ---------------------------------------------------------------------------
// Rows
// ---------------------------------------------------------------------------

/// What a literal index's tracker knows; the first row that is refused refuses
/// all, and of two rows on one subject the later counts.
pub open spec fn known_rows(rows: Seq<Seq<TrackerValue>>) -> Result<Map<Seq<char>, Seq<char>>, Seq<char>>
    decreases rows.len(),
{
    if rows.len() == 0 {
        Ok(Map::empty())
    } else {
        match known_rows(rows.drop_last()) {
            Err(e) => Err(e),
            Ok(done) => match text_column(rows.last(), 0) {
                Err(e) => Err(e),
                Ok(subject) => match text_column(rows.last(), 1) {
                    Err(e) => Err(e),
                    Ok(hash) => Ok(done.insert(subject, hash)),
                },
            },
        }
    }
}

proof fn known_error_stays(rows: Seq<Seq<TrackerValue>>, k: int)
    requires
        0 <= k <= rows.len(),
        known_rows(rows.take(k)) is Err,
    ensures
        known_rows(rows) == known_rows(rows.take(k)),
    decreases rows.len(),
{
    if k == rows.len() {
        assert(rows.take(k) =~= rows);
    } else {
        assert(rows.drop_last().take(k) =~= rows.take(k));
        known_error_stays(rows.drop_last(), k);
    }
}

/// Reads a literal index's tracker.
pub fn read_known(rows: &Vec<Vec<TrackerValue>>) -> (r: Result<Table<String>, String>)
    ensures
        match r {
            Ok(known) => known_rows(views(rows@)) == Ok::<Map<Seq<char>, Seq<char>>, Seq<char>>(
                texts(known@),
            ),
            Err(e) => known_rows(views(rows@)) == Err::<Map<Seq<char>, Seq<char>>, Seq<char>>(e@),
        },
{
    let ghost all = views(rows@);
    let mut known: Table<String> = Table::new();
    proof {
        assert(texts(known@) =~= Map::<Seq<char>, Seq<char>>::empty());
    }
    for i in 0..rows.len()
        invariant
            all == views(rows@),
            known_rows(all.take(i as int)) == Ok::<Map<Seq<char>, Seq<char>>, Seq<char>>(texts(known@)),
    {
        let ghost was = texts(known@);
        proof {
            assert(all.take(i + 1).drop_last() =~= all.take(i as int));
            assert(all[i as int] == rows@[i as int]@);
        }
        let subject = match tracker_text(&rows[i], 0) {
            Ok(s) => s,
            Err(e) => {
                proof {
                    known_error_stays(all, i + 1);
                }
                return Err(e);
            },
        };
        let hash = match tracker_text(&rows[i], 1) {
            Ok(s) => s,
            Err(e) => {
                proof {
                    known_error_stays(all, i + 1);
                }
                return Err(e);
            },
        };
        let ghost k = subject@;
        let ghost v = hash@;
        known.insert(subject, hash);
        proof {
            assert(texts(known@) =~= was.insert(k, v));
        }
    }
    proof {
        assert(all.take(all.len() as int) =~= all);
    }
    Ok(known)
}

/// What a tracker knows of a document.
pub open spec fn doc_views(m: Map<Seq<char>, KnownDoc>) -> Map<Seq<char>, (u64, Seq<char>)> {
    m.map_values(|d: KnownDoc| (d.last_seen_rev, d.doc_hash@))
}

/// What a document mirror's tracker knows; the first row that is refused
/// refuses all, and of two rows on one document the later counts.
pub open spec fn known_doc_rows(rows: Seq<Seq<TrackerValue>>) -> Result<
    Map<Seq<char>, (u64, Seq<char>)>,
    Seq<char>,
>
    decreases rows.len(),
{
    if rows.len() == 0 {
        Ok(Map::empty())
    } else {
        match known_doc_rows(rows.drop_last()) {
            Err(e) => Err(e),
            Ok(done) => match text_column(rows.last(), 0) {
                Err(e) => Err(e),
                Ok(uri) => match integer_column(rows.last(), 1) {
                    Err(e) => Err(e),
                    Ok(rev) => match text_column(rows.last(), 2) {
                        Err(e) => Err(e),
                        Ok(hash) => Ok(done.insert(uri, (rev as u64, hash))),
                    },
                },
            },
        }
    }
}

proof fn known_doc_error_stays(rows: Seq<Seq<TrackerValue>>, k: int)
    requires
        0 <= k <= rows.len(),
        known_doc_rows(rows.take(k)) is Err,
    ensures
        known_doc_rows(rows) == known_doc_rows(rows.take(k)),
    decreases rows.len(),
{
    if k == rows.len() {
        assert(rows.take(k) =~= rows);
    } else {
        assert(rows.drop_last().take(k) =~= rows.take(k));
        known_doc_error_stays(rows.drop_last(), k);
    }
}

/// Reads a document mirror's tracker.
pub fn read_known_docs(rows: &Vec<Vec<TrackerValue>>) -> (r: Result<Table<KnownDoc>, String>)
    ensures
        match r {
            Ok(known) => known_doc_rows(views(rows@)) == Ok::<
                Map<Seq<char>, (u64, Seq<char>)>,
                Seq<char>,
            >(doc_views(known@)),
            Err(e) => known_doc_rows(views(rows@)) == Err::<Map<Seq<char>, (u64, Seq<char>)>, Seq<char>>(
                e@,
            ),
        },
{
    let ghost all = views(rows@);
    let mut known: Table<KnownDoc> = Table::new();
    proof {
        assert(doc_views(known@) =~= Map::<Seq<char>, (u64, Seq<char>)>::empty());
    }
    for i in 0..rows.len()
        invariant
            all == views(rows@),
            known_doc_rows(all.take(i as int)) == Ok::<Map<Seq<char>, (u64, Seq<char>)>, Seq<char>>(
                doc_views(known@),
            ),
    {
        let ghost was = doc_views(known@);
        proof {
            assert(all.take(i + 1).drop_last() =~= all.take(i as int));
            assert(all[i as int] == rows@[i as int]@);
        }
        let uri = match tracker_text(&rows[i], 0) {
            Ok(s) => s,
            Err(e) => {
                proof {
                    known_doc_error_stays(all, i + 1);
                }
                return Err(e);
            },
        };
        let rev = match tracker_int(&rows[i], 1) {
            Ok(n) => n,
            Err(e) => {
                proof {
                    known_doc_error_stays(all, i + 1);
                }
                return Err(e);
            },
        };
        let hash = match tracker_text(&rows[i], 2) {
            Ok(s) => s,
            Err(e) => {
                proof {
                    known_doc_error_stays(all, i + 1);
                }
                return Err(e);
            },
        };
        let ghost k = uri@;
        let doc = KnownDoc { last_seen_rev: rev as u64, doc_hash: hash };
        let ghost v = (doc.last_seen_rev, doc.doc_hash@);
        known.insert(uri, doc);
        proof {
            assert(doc_views(known@) =~= was.insert(k, v));
        }
    }
    proof {
        assert(all.take(all.len() as int) =~= all);
    }
    Ok(known)
}

} // verus!

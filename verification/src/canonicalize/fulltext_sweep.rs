//! Reconciliation of literal indexes: the literals of the graph, one document
//! per subject, kept in step with the search backend.
//!
//! A tracker remembers the hash of every document that was sent. A sweep sends
//! the documents whose hash is new and deletes those whose subject is gone.

use vstd::prelude::*;
use vstd::string::*;

use crate::bulk::{
    all_framed, bulk_response_ok, command_lines, command_lines_push, delete_commands, delete_lines,
    doc_json, doc_tree, push_command, replace_command, replace_json, replacing_texts_is_plain,
    text_verdict,
};
use crate::endpoint::{endpoint, endpoint_of};
use crate::fulltext::manticore_admin::PlainDocWrite;
use crate::hash::{fnv1a64_hex, fnv_hex};
use crate::json::JsonView;
use crate::names::{lists, lists_unique};
use crate::number::capped;
use crate::order::{has_key, sort_by_key, sorting_keeps_keys, stably_sorts, views_sorted, HasKey, Keyed};
use crate::table::{ascends, Table};
use crate::text::{copy_opt, has_text, opt_view, same, starts_with, to_chars, views, views_push};

verus! {

/// A literal index to keep in step.
#[derive(Clone, Debug)]
pub struct FulltextIndexConfig {
    /// The name of the entry, which names its tracker.
    pub name: String,
    /// The base URL of the search backend.
    pub backend_url: String,
    /// The name of the index at the backend.
    pub index: String,
    /// The predicates whose literals are indexed.
    pub predicates: Vec<String>,
    /// The language that literals must have; any where absent.
    pub lang_filter: Option<String>,
    /// How often to sweep; left to the caller.
    pub sweep_interval_secs: Option<u32>,
}

/// What sweeps did.
#[derive(Debug, Clone, Copy, PartialEq, Eq)]
pub struct SweepCounts {
    pub inserted: u64,
    pub deleted: u64,
    pub errors: u64,
}

impl SweepCounts {
    /// No counts.
    pub fn zero() -> (r: SweepCounts)
        ensures
            r == (SweepCounts { inserted: 0, deleted: 0, errors: 0 }),
    {
        SweepCounts { inserted: 0, deleted: 0, errors: 0 }
    }

    /// Adds up; a count that would overflow stays at its maximum.
    pub fn add(&mut self, other: SweepCounts)
        ensures
            final(self).inserted == capped(old(self).inserted, other.inserted),
            final(self).deleted == capped(old(self).deleted, other.deleted),
            final(self).errors == capped(old(self).errors, other.errors),
    {
        self.inserted = self.inserted.saturating_add(other.inserted);
        self.deleted = self.deleted.saturating_add(other.deleted);
        self.errors = self.errors.saturating_add(other.errors);
    }
}

/// The object of a statement: a literal with its language, or an IRI.
#[derive(Debug, PartialEq, Eq)]
pub enum LiteralOrIri {
    Literal { lex: String, lang: Option<String> },
    Iri(String),
}

impl Clone for LiteralOrIri {
    fn clone(&self) -> (r: Self)
        ensures
            match (*self, r) {
                (LiteralOrIri::Literal { lex, lang }, LiteralOrIri::Literal { lex: l, lang: t }) => l@ == lex@
                    && opt_view(t) == opt_view(lang),
                (LiteralOrIri::Iri(iri), LiteralOrIri::Iri(i)) => i@ == iri@,
                _ => false,
            },
    {
        match self {
            LiteralOrIri::Literal { lex, lang } => LiteralOrIri::Literal {
                lex: lex.clone(),
                lang: copy_opt(lang),
            },
            LiteralOrIri::Iri(iri) => LiteralOrIri::Iri(iri.clone()),
        }
    }
}

/// Reads the statements of the graph.
pub trait GraphBridge {
    fn select_subject_predicate_object(&self, predicates: &[String]) -> Result<
        Vec<(String, String, LiteralOrIri)>,
        String,
    >;
}

/// Posts a JSON body and hands back the reply's body.
pub trait HttpBridge {
    fn post_json(&self, url: &str, body: &str) -> Result<String, String>;
}

/// Keeps the tracker.
pub trait SinkBridge {
    fn ensure_table(&self, table: &str) -> Result<(), String>;

    fn load_known(&self, table: &str) -> Result<Table<String>, String>;

    fn upsert(&self, table: &str, subject: &str, hash: &str) -> Result<(), String>;

    fn delete(&self, table: &str, subject: &str) -> Result<(), String>;
}

/// A document of a literal index.
#[derive(Debug, PartialEq, Eq)]
pub struct DocWrite {
    pub id: String,
    pub fields: Vec<(String, String)>,
    pub lang: Option<String>,
}

pub struct DocView {
    pub id: Seq<char>,
    pub fields: Seq<(Seq<char>, Seq<char>)>,
    pub lang: Option<Seq<char>>,
}

impl View for DocWrite {
    type V = DocView;

    open spec fn view(&self) -> DocView {
        DocView { id: self.id@, fields: views(self.fields@), lang: opt_view(self.lang) }
    }
}

impl HasKey for DocView {
    open spec fn key(self) -> Seq<char> {
        self.id
    }
}

impl HasKey for DocWrite {
    open spec fn key(self) -> Seq<char> {
        self.id@
    }
}

impl Keyed for DocWrite {
    fn key_text(&self) -> (r: &str) {
        self.id.as_str()
    }
}

impl Clone for DocWrite {
    fn clone(&self) -> (r: Self)
        ensures
            r@ == self@,
    {
        let mut fields: Vec<(String, String)> = Vec::new();
        for i in 0..self.fields.len()
            invariant
                fields@.len() == i,
                forall|j: int| 0 <= j < i ==> (#[trigger] fields@[j])@ == self.fields@[j]@,
        {
            fields.push((self.fields[i].0.clone(), self.fields[i].1.clone()));
        }
        proof {
            assert(views(fields@) =~= views(self.fields@));
        }
        DocWrite { id: self.id.clone(), fields, lang: copy_opt(&self.lang) }
    }
}

// ---------------------------------------------------------------------------
// Names and URLs
// ---------------------------------------------------------------------------

/// Whether a character may stand in a tracker's name.
pub open spec fn name_char(c: char) -> bool {
    ('a' <= c <= 'z') || ('A' <= c <= 'Z') || ('0' <= c <= '9') || c == '_'
}

/// `name` with an underscore for every other character.
pub open spec fn sanitized(name: Seq<char>) -> Seq<char> {
    if name.len() == 0 {
        "unnamed"@
    } else {
        Seq::new(
            name.len(),
            |i: int|
                if name_char(name[i]) {
                    name[i]
                } else {
                    '_'
                },
        )
    }
}

pub fn sanitize_index_name(name: &str) -> (r: String)
    ensures
        r@ == sanitized(name@),
{
    let a = to_chars(name);
    let mut out = String::new();
    for i in 0..a.len()
        invariant
            a@ == name@,
            out@.len() == i,
            forall|j: int|
                0 <= j < i ==> (#[trigger] out@[j]) == if name_char(name@[j]) {
                    name@[j]
                } else {
                    '_'
                },
    {
        let c = a[i];
        if ('a' <= c && c <= 'z') || ('A' <= c && c <= 'Z') || ('0' <= c && c <= '9') || c == '_' {
            out.push(c);
        } else {
            out.push('_');
        }
    }
    if out.as_str().is_empty() {
        "unnamed".to_owned()
    } else {
        proof {
            assert(out@ =~= sanitized(name@));
        }
        out
    }
}

/// A sanitized name is not empty and holds letters, digits and underscores of
/// ASCII alone; sanitizing it again changes nothing.
pub proof fn sanitized_is_a_name(name: Seq<char>)
    ensures
        sanitized(name).len() > 0,
        forall|i: int| 0 <= i < sanitized(name).len() ==> name_char(#[trigger] sanitized(name)[i]),
        sanitized(sanitized(name)) == sanitized(name),
{
    reveal_strlit("unnamed");
    assert(sanitized(sanitized(name)) =~= sanitized(name));
}

fn bulk_url(backend_url: &str) -> (r: String)
    ensures
        r@ == endpoint_of(backend_url@, "/bulk"@),
{
    endpoint(backend_url, "/bulk")
}

// ---------------------------------------------------------------------------
// Documents of the graph
// ---------------------------------------------------------------------------

/// A literal as it stands in a document: its text and its language.
pub struct FieldView {
    pub lex: Seq<char>,
    pub lang: Option<Seq<char>>,
}

/// A statement with a literal object.
pub struct RowView {
    pub subject: Seq<char>,
    pub predicate: Seq<char>,
    pub field: Option<FieldView>,
}

/// What a row says: the literal, where its object is one.
pub open spec fn row_view(row: (String, String, LiteralOrIri)) -> RowView {
    RowView {
        subject: row.0@,
        predicate: row.1@,
        field: match row.2 {
            LiteralOrIri::Literal { lex, lang } => Some(
                FieldView { lex: lex@, lang: opt_view(lang) },
            ),
            LiteralOrIri::Iri(_) => None,
        },
    }
}

pub open spec fn row_views(rows: Seq<(String, String, LiteralOrIri)>) -> Seq<RowView> {
    Seq::new(rows.len(), |i: int| row_view(rows[i]))
}

/// Whether a literal's language passes the filter: the language itself, or a
/// narrower one.
pub open spec fn passes(lang: Option<Seq<char>>, filter: Option<Seq<char>>) -> bool {
    match filter {
        None => true,
        Some(target) => match lang {
            Some(l) => l == target || (target + "-"@).is_prefix_of(l),
            None => false,
        },
    }
}

/// Whether a subject is a blank node, which has no key that lasts.
pub open spec fn is_blank(subject: Seq<char>) -> bool {
    "_:"@.is_prefix_of(subject)
}

/// Whether the row feeds the index: a literal that passes the filter, of a
/// subject that is no blank node.
pub open spec fn indexed(row: RowView, filter: Option<Seq<char>>) -> bool {
    match row.field {
        Some(field) => !is_blank(row.subject) && passes(field.lang, filter),
        None => false,
    }
}

/// The fields of one subject: per predicate the last indexed literal.
pub open spec fn subject_fields(
    rows: Seq<RowView>,
    filter: Option<Seq<char>>,
    subject: Seq<char>,
) -> Map<Seq<char>, FieldView>
    decreases rows.len(),
{
    if rows.len() == 0 {
        Map::empty()
    } else {
        let before = subject_fields(rows.drop_last(), filter, subject);
        let row = rows.last();
        if row.subject == subject && indexed(row, filter) {
            before.insert(row.predicate, row.field->0)
        } else {
            before
        }
    }
}

/// Whether the graph has an indexed literal for the subject.
pub open spec fn has_document(rows: Seq<RowView>, filter: Option<Seq<char>>, subject: Seq<char>) -> bool {
    exists|i: int|
        0 <= i < rows.len() && (#[trigger] rows[i]).subject == subject && indexed(rows[i], filter)
}

/// The first language among the fields, in the order of their names.
pub open spec fn first_lang(names: Seq<Seq<char>>, fields: Map<Seq<char>, FieldView>) -> Option<Seq<char>>
    decreases names.len(),
{
    if names.len() == 0 {
        None
    } else {
        match first_lang(names.drop_last(), fields) {
            Some(tag) => Some(tag),
            None => fields[names.last()].lang,
        }
    }
}

/// The names of a document's fields.
pub open spec fn field_names(doc: DocView) -> Seq<Seq<char>> {
    Seq::new(doc.fields.len(), |i: int| doc.fields[i].0)
}

/// Whether `doc` holds exactly `fields`, in the order of their names, with the
/// first language among them.
pub open spec fn documents(doc: DocView, fields: Map<Seq<char>, FieldView>) -> bool {
    &&& ascends(field_names(doc))
    &&& forall|k: Seq<char>| field_names(doc).contains(k) <==> fields.contains_key(k)
    &&& forall|i: int|
        0 <= i < doc.fields.len() ==> (#[trigger] doc.fields[i]).1 == fields[doc.fields[i].0].lex
    &&& doc.lang == first_lang(field_names(doc), fields)
}

/// The text that a document's hash is taken of.
pub open spec fn hash_input(fields: Seq<(Seq<char>, Seq<char>)>) -> Seq<char>
    decreases fields.len(),
{
    if fields.len() == 0 {
        Seq::empty()
    } else {
        hash_input(fields.drop_last()) + fields.last().0 + seq!['\x1f'] + fields.last().1 + seq!['\x1e']
    }
}

/// The texts of a table of strings.
pub open spec fn texts(m: Map<Seq<char>, String>) -> Map<Seq<char>, Seq<char>> {
    m.map_values(|s: String| s@)
}

type Field = (String, Option<String>);

spec fn field_view(f: Field) -> FieldView {
    FieldView { lex: f.0@, lang: opt_view(f.1) }
}

spec fn field_views(m: Map<Seq<char>, Field>) -> Map<Seq<char>, FieldView> {
    m.map_values(|f: Field| field_view(f))
}

fn lang_passes(lang: &Option<String>, filter: Option<&str>) -> (r: bool)
    ensures
        r == passes(opt_view(*lang), match filter {
            Some(t) => Some(t@),
            None => None,
        }),
{
    match filter {
        None => true,
        Some(target) => match lang {
            Some(l) => {
                let narrower = target.to_owned().concat("-");
                same(l, target) || starts_with(l, &narrower)
            },
            None => false,
        },
    }
}

/// The view of the filter argument.
pub open spec fn filter_view(filter: Option<&str>) -> Option<Seq<char>> {
    match filter {
        Some(t) => Some(t@),
        None => None,
    }
}

spec fn head_of(rows: Seq<RowView>, n: int) -> Seq<RowView> {
    rows.take(n)
}

/// The document of one subject and the text its hash is taken of.
fn build_doc(subject: &str, fields: &Table<Field>) -> (r: (DocWrite, String))
    ensures
        r.0@.id == subject@,
        documents(r.0@, field_views(fields@)),
        r.1@ == hash_input(r.0@.fields),
{
    broadcast use views_push;

    let n: usize = fields.len();
    let ghost keys = fields.key_seq();
    let ghost m = field_views(fields@);
    let mut out: Vec<(String, String)> = Vec::new();
    let mut input = String::new();
    let mut lang: Option<String> = None;
    for i in 0..n
        invariant
            n == keys.len(),
            keys == fields.key_seq(),
            m == field_views(fields@),
            forall|j: int|
                0 <= j < n ==> fields@.contains_key(#[trigger] keys[j]) && fields@[keys[j]]
                    == fields.value_seq()[j],
            views(out@).len() == i,
            forall|j: int|
                0 <= j < i ==> (#[trigger] views(out@)[j]).0 == keys[j] && views(out@)[j].1
                    == m[keys[j]].lex,
            input@ == hash_input(views(out@)),
            opt_view(lang) == first_lang(keys.take(i as int), m),
    {
        let name = fields.key_at(i);
        let field = fields.value_at(i);
        let ghost was = views(out@);
        proof {
            assert(fields@.contains_key(keys[i as int]));
            assert(m[keys[i as int]] == field_view(*field));
            assert(keys.take(i + 1).drop_last() =~= keys.take(i as int));
        }
        input.append(name);
        input.push('\x1f');
        input.append(&field.0);
        input.push('\x1e');
        out.push((name.clone(), field.0.clone()));
        proof {
            assert(views(out@) =~= was.push((name@, field.0@)));
            assert(views(out@).drop_last() =~= was);
            assert(input@ =~= hash_input(views(out@)));
        }
        if lang.is_none() {
            lang = copy_opt(&field.1);
        }
    }
    let doc = DocWrite { id: subject.to_owned(), fields: out, lang };
    proof {
        assert(field_names(doc@) =~= keys);
        assert(keys.take(n as int) =~= keys);
        assert forall|k: Seq<char>| keys.contains(k) <==> m.contains_key(k) by {}
        assert forall|i: int| 0 <= i < doc@.fields.len() implies (#[trigger] doc@.fields[i]).1
            == m[doc@.fields[i].0].lex by {
            assert(views(out@)[i].1 == m[keys[i]].lex);
        }
    }
    (doc, input)
}

/// Groups the statements into one document per subject, in the order of the
/// subjects, and the hash of each document. Blank nodes get none.
pub fn build_docs_and_hashes(
    rows: &[(String, String, LiteralOrIri)],
    lang_filter: Option<&str>,
) -> (r: (Vec<DocWrite>, Table<String>))
    ensures
        ascends(ids_of(views(r.0@))),
        forall|s: Seq<char>|
            ids_of(views(r.0@)).contains(s) <==> has_document(row_views(rows@), filter_view(lang_filter), s),
        forall|i: int|
            0 <= i < r.0@.len() ==> documents(
                (#[trigger] r.0@[i])@,
                subject_fields(row_views(rows@), filter_view(lang_filter), r.0@[i].id@),
            ),
        texts(r.1@) == hashes_of(views(r.0@)),
{
    broadcast use views_push;

    let ghost all = row_views(rows@);
    let ghost filter = filter_view(lang_filter);
    let mut by_subject: Table<Table<Field>> = Table::new();
    let n: usize = rows.len();
    proof {
        assert(head_of(all, 0) =~= Seq::<RowView>::empty());
    }
    for i in 0..n
        invariant
            n == rows@.len(),
            all == row_views(rows@),
            filter == filter_view(lang_filter),
            forall|s: Seq<char>|
                #![trigger by_subject@.contains_key(s)]
                #![trigger has_document(head_of(all, i as int), filter, s)]
                by_subject@.contains_key(s) <==> has_document(head_of(all, i as int), filter, s),
            forall|s: Seq<char>|
                by_subject@.contains_key(s) ==> field_views((#[trigger] by_subject@[s])@) == subject_fields(
                    head_of(all, i as int),
                    filter,
                    s,
                ),
    {
        let ghost was = by_subject@;
        let ghost head = head_of(all, i as int);
        let ghost next = head_of(all, i + 1);
        let row = &rows[i];
        proof {
            assert(next.drop_last() =~= head);
            assert(next.last() == row_view(*row));
            assert forall|s: Seq<char>| #[trigger] has_document(next, filter, s) <==> (has_document(
                head,
                filter,
                s,
            ) || (row.0@ == s && indexed(row_view(*row), filter))) by {
                has_document_push(head, row_view(*row), filter, s);
                assert(next =~= head.push(row_view(*row)));
            }
            assert forall|s: Seq<char>| !has_document(head, filter, s) implies #[trigger] subject_fields(
                head,
                filter,
                s,
            ) == Map::<Seq<char>, FieldView>::empty() by {
                no_document_no_fields(head, filter, s);
            }
        }
        if let LiteralOrIri::Literal { lex, lang } = &row.2 {
            if !starts_with(&row.0, "_:") && lang_passes(lang, lang_filter) {
                let mut fields = match by_subject.remove(&row.0) {
                    Some(fields) => fields,
                    None => Table::new(),
                };
                let ghost had = field_views(fields@);
                proof {
                    assert(was.contains_key(row.0@) ==> had == subject_fields(head, filter, row.0@));
                    if !was.contains_key(row.0@) {
                        assert(had =~= Map::<Seq<char>, FieldView>::empty());
                        assert(!has_document(head, filter, row.0@));
                    }
                    assert(had == subject_fields(head, filter, row.0@));
                }
                let field: Field = (lex.clone(), copy_opt(lang));
                let ghost fv = field_view(field);
                fields.insert(row.1.clone(), field);
                proof {
                    assert(field_views(fields@) =~= had.insert(row.1@, fv));
                    assert(row_view(*row).field == Some(fv));
                }
                by_subject.insert(row.0.clone(), fields);
            }
        }
    }
    proof {
        assert(head_of(all, n as int) =~= all);
    }
    let m: usize = by_subject.len();
    let ghost subjects = by_subject.key_seq();
    let mut docs: Vec<DocWrite> = Vec::new();
    let mut hashes: Table<String> = Table::new();
    proof {
        assert(texts(hashes@) =~= hashes_of(views(docs@)));
    }
    for i in 0..m
        invariant
            m == subjects.len(),
            subjects == by_subject.key_seq(),
            forall|j: int|
                0 <= j < m ==> by_subject@.contains_key(#[trigger] subjects[j]) && by_subject@[subjects[j]]
                    == by_subject.value_seq()[j],
            forall|s: Seq<char>|
                by_subject@.contains_key(s) ==> field_views((#[trigger] by_subject@[s])@) == subject_fields(
                    all,
                    filter,
                    s,
                ),
            docs@.len() == i,
            forall|j: int|
                0 <= j < i ==> (#[trigger] docs@[j]).id@ == subjects[j] && documents(
                    docs@[j]@,
                    subject_fields(all, filter, subjects[j]),
                ),
            texts(hashes@) == hashes_of(views(docs@)),
    {
        let subject = by_subject.key_at(i);
        let (doc, input) = build_doc(subject, by_subject.value_at(i));
        let hash = fnv1a64_hex(&input);
        let ghost was = texts(hashes@);
        let ghost had = views(docs@);
        let ghost h = hash@;
        proof {
            assert(by_subject@.contains_key(subjects[i as int]));
        }
        hashes.insert(subject.clone(), hash);
        proof {
            assert(texts(hashes@) =~= was.insert(subject@, h));
            hashes_of_push(had, doc@);
        }
        docs.push(doc);
    }
    proof {
        let ids = ids_of(views(docs@));
        assert(ids =~= subjects);
        assert forall|s: Seq<char>| ids.contains(s) <==> has_document(all, filter, s) by {
            assert(subjects.contains(s) <==> by_subject@.contains_key(s));
        }
    }
    (docs, hashes)
}

/// The ids of the documents.
pub open spec fn ids_of(docs: Seq<DocView>) -> Seq<Seq<char>> {
    Seq::new(docs.len(), |i: int| docs[i].id)
}

/// The hash of each document by its id.
pub open spec fn hashes_of(docs: Seq<DocView>) -> Map<Seq<char>, Seq<char>>
    decreases docs.len(),
{
    if docs.len() == 0 {
        Map::empty()
    } else {
        hashes_of(docs.drop_last()).insert(docs.last().id, fnv_hex(hash_input(docs.last().fields)))
    }
}

proof fn hashes_of_push(docs: Seq<DocView>, doc: DocView)
    ensures
        hashes_of(docs.push(doc)) == hashes_of(docs).insert(doc.id, fnv_hex(hash_input(doc.fields))),
{
    assert(docs.push(doc).drop_last() =~= docs);
}

proof fn has_document_push(rows: Seq<RowView>, row: RowView, filter: Option<Seq<char>>, s: Seq<char>)
    ensures
        has_document(rows.push(row), filter, s) <==> (has_document(rows, filter, s) || (row.subject == s
            && indexed(row, filter))),
{
    let all = rows.push(row);
    if has_document(rows, filter, s) {
        let i = choose|i: int|
            0 <= i < rows.len() && (#[trigger] rows[i]).subject == s && indexed(rows[i], filter);
        assert(all[i] == rows[i]);
    }
    if has_document(all, filter, s) {
        let i = choose|i: int|
            0 <= i < all.len() && (#[trigger] all[i]).subject == s && indexed(all[i], filter);
        if i < rows.len() {
            assert(rows[i] == all[i]);
        }
    }
    assert(all[rows.len() as int] == row);
}

proof fn no_document_no_fields(rows: Seq<RowView>, filter: Option<Seq<char>>, s: Seq<char>)
    requires
        !has_document(rows, filter, s),
    ensures
        subject_fields(rows, filter, s) == Map::<Seq<char>, FieldView>::empty(),
    decreases rows.len(),
{
    if rows.len() > 0 {
        has_document_push(rows.drop_last(), rows.last(), filter, s);
        assert(rows.drop_last().push(rows.last()) =~= rows);
        no_document_no_fields(rows.drop_last(), filter, s);
    }
}

// ---------------------------------------------------------------------------
// Difference
// ---------------------------------------------------------------------------

/// The text under a key; empty where there is none.
pub open spec fn text_at(m: Map<Seq<char>, Seq<char>>, key: Seq<char>) -> Seq<char> {
    if m.contains_key(key) {
        m[key]
    } else {
        Seq::empty()
    }
}

/// Whether the tracker already knows the document with this hash.
pub open spec fn up_to_date(
    id: Seq<char>,
    hashes: Map<Seq<char>, Seq<char>>,
    known: Map<Seq<char>, Seq<char>>,
) -> bool {
    known.contains_key(id) && known[id] == text_at(hashes, id)
}

/// The documents that are new or changed.
pub open spec fn changed(
    docs: Seq<DocView>,
    hashes: Map<Seq<char>, Seq<char>>,
    known: Map<Seq<char>, Seq<char>>,
) -> Seq<DocView>
    decreases docs.len(),
{
    if docs.len() == 0 {
        Seq::empty()
    } else {
        let before = changed(docs.drop_last(), hashes, known);
        if up_to_date(docs.last().id, hashes, known) {
            before
        } else {
            before.push(docs.last())
        }
    }
}

/// Whether `gone` lists, in order, the known ids that no document has.
pub open spec fn lists_gone(
    gone: Seq<Seq<char>>,
    ids: Seq<Seq<char>>,
    known: Map<Seq<char>, Seq<char>>,
) -> bool {
    &&& ascends(gone)
    &&& forall|k: Seq<char>| gone.contains(k) <==> known.contains_key(k) && !ids.contains(k)
}

/// The known keys that no longer occur.
pub(crate) fn gone_keys(known: Vec<String>, current: &Vec<String>) -> (r: Vec<String>)
    requires
        ascends(views(known@)),
    ensures
        ascends(views(r@)),
        forall|k: Seq<char>|
            views(r@).contains(k) <==> views(known@).contains(k) && !views(current@).contains(k),
{
    broadcast use views_push;

    let ghost all = views(known@);
    let mut r: Vec<String> = Vec::new();
    let ghost mut from: Seq<int> = Seq::empty();
    for key in iter: known
        invariant
            views(iter.seq()) == all,
            ascends(all),
            from.len() == r@.len(),
            forall|i: int|
                0 <= i < from.len() ==> 0 <= #[trigger] from[i] < iter.index() && views(r@)[i] == all[from[i]]
                    && !views(current@).contains(all[from[i]]),
            forall|i: int, j: int| 0 <= i < j < from.len() ==> #[trigger] from[i] < #[trigger] from[j],
            forall|k: int|
                0 <= k < iter.index() && !views(current@).contains(#[trigger] all[k]) ==> exists|i: int|
                    0 <= i < from.len() && from[i] == k,
    {
        let ghost at = iter.index() as int;
        let ghost was = from;
        proof {
            assert(all[at] == key@);
        }
        if !has_text(current, &key) {
            r.push(key);
            proof {
                from = from.push(at);
                assert(from[was.len() as int] == at);
                assert forall|k: int| 0 <= k < at + 1 && !views(current@).contains(#[trigger] all[k]) implies exists|
                    i: int,
                |
                    0 <= i < from.len() && from[i] == k by {
                    if k < at {
                        let i = choose|i: int| 0 <= i < was.len() && was[i] == k;
                        assert(from[i] == k);
                    }
                }
            }
        }
    }
    proof {
        let out = views(r@);
        assert forall|i: int, j: int| 0 <= i < j < out.len() implies crate::order::before(
            #[trigger] out[i],
            #[trigger] out[j],
        ) by {
            assert(from[i] < from[j]);
            assert(crate::order::before(all[from[i]], all[from[j]]));
        }
        assert forall|k: Seq<char>| out.contains(k) <==> all.contains(k) && !views(current@).contains(k) by {
            if out.contains(k) {
                let i = choose|i: int| 0 <= i < out.len() && out[i] == k;
                assert(0 <= from[i]);
                assert(all[from[i]] == k);
            }
            if all.contains(k) && !views(current@).contains(k) {
                let p = choose|p: int| 0 <= p < all.len() && all[p] == k;
                let i = choose|i: int| 0 <= i < from.len() && from[i] == p;
                assert(0 <= from[i]);
                assert(out[i] == k);
            }
        }
    }
    r
}

/// What to send and what to delete, given the documents of the graph, their
/// hashes and the tracker; both sorted.
pub fn diff(docs: &[DocWrite], hashes: &Table<String>, known: &Table<String>) -> (r: (
    Vec<DocWrite>,
    Vec<String>,
))
    ensures
        stably_sorts(views(r.0@), changed(views(docs@), texts(hashes@), texts(known@))),
        lists_gone(views(r.1@), ids_of(views(docs@)), texts(known@)),
{
    broadcast use views_push;

    let ghost all = views(docs@);
    let ghost hs = texts(hashes@);
    let ghost ks = texts(known@);
    let mut to_insert: Vec<DocWrite> = Vec::new();
    let mut ids: Vec<String> = Vec::new();
    let n: usize = docs.len();
    proof {
        assert(views(to_insert@) =~= changed(all.take(0), hs, ks));
        assert(views(ids@) =~= ids_of(all.take(0)));
    }
    for i in 0..n
        invariant
            n == docs@.len(),
            all == views(docs@),
            hs == texts(hashes@),
            ks == texts(known@),
            views(to_insert@) == changed(all.take(i as int), hs, ks),
            views(ids@) == ids_of(all.take(i as int)),
    {
        let doc = &docs[i];
        proof {
            assert(all.take(i + 1).drop_last() =~= all.take(i as int));
            assert(all[i as int] == doc@);
            assert(ids_of(all.take(i + 1)) =~= ids_of(all.take(i as int)).push(doc.id@));
        }
        let hash = match hashes.get(&doc.id) {
            Some(h) => h.clone(),
            None => String::new(),
        };
        proof {
            assert(hash@ =~= text_at(hs, doc.id@));
        }
        let unchanged = match known.get(&doc.id) {
            Some(prev) => same(prev, &hash),
            None => false,
        };
        if !unchanged {
            to_insert.push(doc.clone());
        }
        ids.push(doc.id.clone());
    }
    proof {
        assert(all.take(n as int) =~= all);
    }
    let sorted = sort_by_key(to_insert);
    proof {
        views_sorted(sorted@, to_insert@);
    }
    let known_keys = known.keys();
    let ghost key_views = views(known_keys@);
    let to_delete = gone_keys(known_keys, &ids);
    proof {
        assert forall|k: Seq<char>| views(to_delete@).contains(k) <==> ks.contains_key(k) && !ids_of(all).contains(
            k,
        ) by {
            assert(key_views.contains(k) <==> known@.contains_key(k));
        }
    }
    (sorted, to_delete)
}

// ---------------------------------------------------------------------------
// Bodies
// ---------------------------------------------------------------------------

/// The commands that send the documents.
pub open spec fn replace_commands(index: Seq<char>, docs: Seq<DocView>) -> Seq<JsonView> {
    Seq::new(docs.len(), |i: int| replace_command(index, docs[i].id, doc_tree(docs[i].fields, docs[i].lang)))
}

/// One line per document to send.
pub fn build_bulk_body(index: &str, docs: &[DocWrite]) -> (r: String)
    ensures
        r@ == command_lines(replace_commands(index@, views(docs@))),
        all_framed(replace_commands(index@, views(docs@))),
{
    let mut out = String::new();
    let ghost all = replace_commands(index@, views(docs@));
    let n: usize = docs.len();
    proof {
        assert(command_lines(all.take(0)) =~= Seq::<char>::empty());
    }
    for i in 0..n
        invariant
            n == docs@.len(),
            all == replace_commands(index@, views(docs@)),
            out@ == command_lines(all.take(i as int)),
            all_framed(all.take(i as int)),
    {
        let tree = doc_json(&docs[i].fields, &docs[i].lang);
        let command = replace_json(index, &docs[i].id, tree);
        push_command(&mut out, &command);
        proof {
            replacing_texts_is_plain(index@, docs@[i as int].id@, views(docs@[i as int].fields@), opt_view(docs@[i as int].lang));
            assert(all[i as int] == command@);
            assert(all.take(i + 1) =~= all.take(i as int).push(command@));
            command_lines_push(all.take(i as int), command@);
        }
    }
    proof {
        assert(all.take(n as int) =~= all);
    }
    out
}

/// One line per id to delete.
pub fn build_delete_body(index: &str, ids: &[String]) -> (r: String)
    ensures
        r@ == command_lines(delete_commands(index@, views(ids@))),
        all_framed(delete_commands(index@, views(ids@))),
{
    delete_lines(index, ids)
}

// ---------------------------------------------------------------------------
// Sweep
// ---------------------------------------------------------------------------

/// The name of an entry's tracker.
pub open spec fn tracker_name(name: Seq<char>) -> Seq<char> {
    "wf_ft_keys_"@ + sanitized(name)
}

fn tracker(name: &str) -> (r: String)
    ensures
        r@ == tracker_name(name@),
{
    let clean = sanitize_index_name(name);
    "wf_ft_keys_".to_owned().concat(&clean)
}

/// What one sweep of an entry sends, given the graph and the tracker.
pub struct Plan {
    pub url: String,
    /// The documents to send, with the body that sends them.
    pub inserts: Vec<DocWrite>,
    pub insert_body: String,
    /// The ids to delete, with the body that deletes them.
    pub deletes: Vec<String>,
    pub delete_body: String,
    /// The hash of every document of the graph.
    pub hashes: Table<String>,
}

/// Whether `docs` are the documents of the graph's rows.
pub open spec fn graph_documents(docs: Seq<DocView>, rows: Seq<RowView>, filter: Option<Seq<char>>) -> bool {
    &&& ascends(ids_of(docs))
    &&& forall|s: Seq<char>| ids_of(docs).contains(s) <==> has_document(rows, filter, s)
    &&& forall|i: int|
        0 <= i < docs.len() ==> documents(#[trigger] docs[i], subject_fields(rows, filter, docs[i].id))
}

/// Whether a plan is what the rows of the graph and the tracker ask for.
pub open spec fn plans(
    p: Plan,
    entry: FulltextIndexConfig,
    rows: Seq<RowView>,
    known: Map<Seq<char>, Seq<char>>,
) -> bool {
    &&& p.url@ == endpoint_of(entry.backend_url@, "/bulk"@)
    &&& exists|docs: Seq<DocView>| #[trigger]
        graph_documents(docs, rows, opt_view(entry.lang_filter)) && texts(p.hashes@) == hashes_of(docs)
            && stably_sorts(views(p.inserts@), changed(docs, hashes_of(docs), known)) && lists_gone(
            views(p.deletes@),
            ids_of(docs),
            known,
        )
    &&& p.insert_body@ == command_lines(replace_commands(entry.index@, views(p.inserts@)))
    &&& p.delete_body@ == command_lines(delete_commands(entry.index@, views(p.deletes@)))
}

/// Plans the sweep of an entry.
pub fn plan(
    entry: &FulltextIndexConfig,
    rows: &[(String, String, LiteralOrIri)],
    known: &Table<String>,
) -> (r: Plan)
    ensures
        plans(r, *entry, row_views(rows@), texts(known@)),
{
    let filter = match &entry.lang_filter {
        Some(l) => Some(l.as_str()),
        None => None,
    };
    let (docs, hashes) = build_docs_and_hashes(rows, filter);
    let (inserts, deletes) = diff(&docs, &hashes, known);
    proof {
        assert(graph_documents(views(docs@), row_views(rows@), opt_view(entry.lang_filter)));
    }
    let insert_body = build_bulk_body(&entry.index, &inserts);
    let delete_body = build_delete_body(&entry.index, &deletes);
    Plan { url: bulk_url(&entry.backend_url), inserts, insert_body, deletes, delete_body, hashes }
}

/// The counts of a sweep by the replies to its two batches; a batch without
/// commands is not posted.
pub open spec fn counts_of(
    inserts: nat,
    insert_accepted: bool,
    deletes: nat,
    delete_accepted: bool,
) -> (nat, nat, nat) {
    (
        if inserts > 0 && insert_accepted { inserts } else { 0 },
        if deletes > 0 && delete_accepted { deletes } else { 0 },
        (if inserts > 0 && !insert_accepted { 1nat } else { 0 }) + (if deletes > 0 && !delete_accepted {
            1nat
        } else {
            0
        }),
    )
}

/// The counts of a sweep of `plan` by what became of its two batches.
pub fn tally(plan: &Plan, insert_accepted: bool, delete_accepted: bool) -> (r: SweepCounts)
    ensures
        (r.inserted as nat, r.deleted as nat, r.errors as nat) == counts_of(
            plan.inserts@.len(),
            insert_accepted,
            plan.deletes@.len(),
            delete_accepted,
        ),
{
    let mut counts = SweepCounts::zero();
    if plan.inserts.len() > 0 {
        if insert_accepted {
            counts.inserted = plan.inserts.len() as u64;
        } else {
            counts.errors = counts.errors + 1;
        }
    }
    if plan.deletes.len() > 0 {
        if delete_accepted {
            counts.deleted = plan.deletes.len() as u64;
        } else {
            counts.errors = counts.errors + 1;
        }
    }
    counts
}

// ---------------------------------------------------------------------------
// One entry
// ---------------------------------------------------------------------------

/// What the sweep of an entry asks for.
pub enum Ask {
    /// To have the tracker.
    EnsureTable(String),
    /// The statements with the entry's predicates.
    Select,
    /// What the tracker knows.
    LoadKnown(String),
    /// A batch for the backend.
    Post(String, String),
    /// The tracker, to record an id with its hash.
    Upsert(String, String, String),
    /// The tracker, to forget an id.
    Delete(String, String),
    Finish(Result<SweepCounts, String>),
}

/// What came of it.
pub enum Told {
    Done,
    Failed(String),
    Rows(Vec<(String, String, LiteralOrIri)>),
    Known(Table<String>),
    Reply(String),
}

/// How far the sweep of an entry has come: what it waits for.
pub enum Stage {
    Ensuring,
    Selecting,
    Loading(Vec<(String, String, LiteralOrIri)>),
    Inserting(Plan),
    /// The tracker, to record the document at a position.
    Recording(Plan, usize),
    /// The backend, to delete; whether it took the documents.
    Deleting(Plan, bool),
    /// The tracker, to forget the id at a position.
    Forgetting(Plan, bool, usize),
    Over,
}

pub open spec fn fails(next: Stage, ask: Ask, e: Seq<char>) -> bool {
    next is Over && (ask matches Ask::Finish(Err(text)) && text@ == e)
}

/// The sweep is over: a batch that was not accepted counts as one error.
pub open spec fn finishes(p: Plan, inserted: bool, deleted: bool, next: Stage, ask: Ask) -> bool {
    &&& next is Over
    &&& ask matches Ask::Finish(Ok(c)) && (c.inserted as nat, c.deleted as nat, c.errors as nat) == counts_of(
        p.inserts@.len(),
        inserted,
        p.deletes@.len(),
        deleted,
    )
}

/// The id at a position is to be forgotten, where there is one.
pub open spec fn goes_to_forget(
    entry: FulltextIndexConfig,
    p: Plan,
    inserted: bool,
    at: int,
    next: Stage,
    ask: Ask,
) -> bool {
    if 0 <= at < p.deletes@.len() {
        &&& next matches Stage::Forgetting(q, b, i) && q == p && b == inserted && i == at
        &&& ask matches Ask::Delete(table, id) && table@ == tracker_name(entry.name@) && id@ == p.deletes@[at]@
    } else {
        finishes(p, inserted, true, next, ask)
    }
}

/// What is gone is to be deleted, where there is any.
pub open spec fn goes_to_delete(p: Plan, inserted: bool, next: Stage, ask: Ask) -> bool {
    if p.deletes@.len() > 0 {
        &&& next == Stage::Deleting(p, inserted)
        &&& ask matches Ask::Post(url, body) && url@ == p.url@ && body@ == p.delete_body@
    } else {
        finishes(p, inserted, false, next, ask)
    }
}

/// The hash that is recorded for an id.
pub open spec fn hash_for(p: Plan, id: Seq<char>) -> Seq<char> {
    if p.hashes@.contains_key(id) {
        p.hashes@[id]@
    } else {
        ""@
    }
}

/// The document at a position is to be recorded, where there is one.
pub open spec fn goes_to_record(
    entry: FulltextIndexConfig,
    p: Plan,
    at: int,
    next: Stage,
    ask: Ask,
) -> bool {
    if 0 <= at < p.inserts@.len() {
        &&& next matches Stage::Recording(q, i) && q == p && i == at
        &&& ask matches Ask::Upsert(table, id, hash) && table@ == tracker_name(entry.name@) && id@
            == p.inserts@[at].id@ && hash@ == hash_for(p, p.inserts@[at].id@)
    } else {
        goes_to_delete(p, true, next, ask)
    }
}

/// What is new is to be sent, where there is any.
pub open spec fn goes_to_insert(p: Plan, next: Stage, ask: Ask) -> bool {
    if p.inserts@.len() > 0 {
        &&& next == Stage::Inserting(p)
        &&& ask matches Ask::Post(url, body) && url@ == p.url@ && body@ == p.insert_body@
    } else {
        goes_to_delete(p, false, next, ask)
    }
}

/// Whether what came of a request leads from one stage to the next. A batch
/// that the backend refuses is counted; any other failure ends the sweep.
pub open spec fn leads(entry: FulltextIndexConfig, stage: Stage, told: Told, next: Stage, ask: Ask) -> bool {
    match (stage, told) {
        (Stage::Ensuring, Told::Done) => next is Selecting && ask is Select,
        (Stage::Selecting, Told::Rows(rows)) => {
            &&& next == Stage::Loading(rows)
            &&& ask matches Ask::LoadKnown(table) && table@ == tracker_name(entry.name@)
        },
        (Stage::Loading(rows), Told::Known(known)) => exists|p: Plan| #[trigger]
            plans(p, entry, row_views(rows@), texts(known@)) && goes_to_insert(p, next, ask),
        (Stage::Inserting(p), Told::Reply(body)) => if text_verdict(body@) is Ok {
            goes_to_record(entry, p, 0, next, ask)
        } else {
            goes_to_delete(p, false, next, ask)
        },
        (Stage::Inserting(p), Told::Failed(_)) => goes_to_delete(p, false, next, ask),
        (Stage::Recording(p, at), Told::Done) => goes_to_record(entry, p, at + 1, next, ask),
        (Stage::Deleting(p, inserted), Told::Reply(body)) => if text_verdict(body@) is Ok {
            goes_to_forget(entry, p, inserted, 0, next, ask)
        } else {
            finishes(p, inserted, false, next, ask)
        },
        (Stage::Deleting(p, inserted), Told::Failed(_)) => finishes(p, inserted, false, next, ask),
        (Stage::Forgetting(p, inserted, at), Told::Done) => goes_to_forget(
            entry,
            p,
            inserted,
            at + 1,
            next,
            ask,
        ),
        (_, Told::Failed(e)) => fails(next, ask, e@),
        _ => fails(next, ask, "reply out of turn"@),
    }
}

/// How far from its end a stage is.
pub open spec fn ahead(stage: Stage) -> (nat, nat) {
    match stage {
        Stage::Ensuring => (7, 0),
        Stage::Selecting => (6, 0),
        Stage::Loading(_) => (5, 0),
        Stage::Inserting(_) => (4, 0),
        Stage::Recording(p, at) => (3, (if at < p.inserts@.len() { p.inserts@.len() - at } else { 0 }) as nat),
        Stage::Deleting(_, _) => (2, 0),
        Stage::Forgetting(p, _, at) => (1, (if at < p.deletes@.len() { p.deletes@.len() - at } else { 0 }) as nat),
        Stage::Over => (0, 0),
    }
}

/// Whether a stage is nearer to its end than another.
pub open spec fn nearer(next: Stage, stage: Stage) -> bool {
    ||| ahead(next).0 < ahead(stage).0
    ||| ahead(next).0 == ahead(stage).0 && ahead(next).1 < ahead(stage).1
}

fn fail(e: String) -> (r: (Stage, Ask))
    ensures
        fails(r.0, r.1, e@),
{
    (Stage::Over, Ask::Finish(Err(e)))
}

fn finish(p: &Plan, inserted: bool, deleted: bool) -> (r: (Stage, Ask))
    ensures
        finishes(*p, inserted, deleted, r.0, r.1),
{
    (Stage::Over, Ask::Finish(Ok(tally(p, inserted, deleted))))
}

fn to_forget(entry: &FulltextIndexConfig, p: Plan, inserted: bool, at: usize) -> (r: (Stage, Ask))
    ensures
        goes_to_forget(*entry, p, inserted, at as int, r.0, r.1),
{
    if at < p.deletes.len() {
        let id = p.deletes[at].clone();
        (Stage::Forgetting(p, inserted, at), Ask::Delete(tracker(&entry.name), id))
    } else {
        finish(&p, inserted, true)
    }
}

fn to_delete(p: Plan, inserted: bool) -> (r: (Stage, Ask))
    ensures
        goes_to_delete(p, inserted, r.0, r.1),
{
    if p.deletes.len() > 0 {
        let url = p.url.clone();
        let body = p.delete_body.clone();
        (Stage::Deleting(p, inserted), Ask::Post(url, body))
    } else {
        finish(&p, inserted, false)
    }
}

fn to_record(entry: &FulltextIndexConfig, p: Plan, at: usize) -> (r: (Stage, Ask))
    ensures
        goes_to_record(*entry, p, at as int, r.0, r.1),
{
    if at < p.inserts.len() {
        let id = p.inserts[at].id.clone();
        let hash = match p.hashes.get(&id) {
            Some(h) => h.clone(),
            None => "".to_owned(),
        };
        (Stage::Recording(p, at), Ask::Upsert(tracker(&entry.name), id, hash))
    } else {
        to_delete(p, true)
    }
}

fn to_insert(p: Plan) -> (r: (Stage, Ask))
    ensures
        goes_to_insert(p, r.0, r.1),
{
    if p.inserts.len() > 0 {
        let url = p.url.clone();
        let body = p.insert_body.clone();
        (Stage::Inserting(p), Ask::Post(url, body))
    } else {
        to_delete(p, false)
    }
}

/// The first request of an entry's sweep.
pub fn begin(entry: &FulltextIndexConfig) -> (r: (Stage, Ask))
    ensures
        r.0 is Ensuring,
        r.1 matches Ask::EnsureTable(table) && table@ == tracker_name(entry.name@),
{
    (Stage::Ensuring, Ask::EnsureTable(tracker(&entry.name)))
}

/// Moves an entry's sweep on.
pub fn step(entry: &FulltextIndexConfig, stage: Stage, told: Told) -> (r: (Stage, Ask))
    ensures
        leads(*entry, stage, told, r.0, r.1),
        stage is Over ==> r.0 is Over,
        r.0 is Over <==> r.1 is Finish,
        !(stage is Over) ==> nearer(r.0, stage),
        r.1 matches Ask::Finish(Ok(c)) ==> c.errors <= 2,
{
    match stage {
        Stage::Ensuring => match told {
            Told::Done => (Stage::Selecting, Ask::Select),
            Told::Failed(e) => fail(e),
            _ => fail("reply out of turn".to_owned()),
        },
        Stage::Selecting => match told {
            Told::Rows(rows) => (Stage::Loading(rows), Ask::LoadKnown(tracker(&entry.name))),
            Told::Failed(e) => fail(e),
            _ => fail("reply out of turn".to_owned()),
        },
        Stage::Loading(rows) => match told {
            Told::Known(known) => {
                let p = plan(entry, rows.as_slice(), &known);
                to_insert(p)
            },
            Told::Failed(e) => fail(e),
            _ => fail("reply out of turn".to_owned()),
        },
        Stage::Inserting(p) => match told {
            Told::Reply(body) => if bulk_response_ok(&body).is_ok() {
                to_record(entry, p, 0)
            } else {
                to_delete(p, false)
            },
            Told::Failed(_) => to_delete(p, false),
            _ => fail("reply out of turn".to_owned()),
        },
        Stage::Recording(p, at) => match told {
            Told::Done => if at < p.inserts.len() {
                to_record(entry, p, at + 1)
            } else {
                to_delete(p, true)
            },
            Told::Failed(e) => fail(e),
            _ => fail("reply out of turn".to_owned()),
        },
        Stage::Deleting(p, inserted) => match told {
            Told::Reply(body) => if bulk_response_ok(&body).is_ok() {
                to_forget(entry, p, inserted, 0)
            } else {
                finish(&p, inserted, false)
            },
            Told::Failed(_) => finish(&p, inserted, false),
            _ => fail("reply out of turn".to_owned()),
        },
        Stage::Forgetting(p, inserted, at) => match told {
            Told::Done => if at < p.deletes.len() {
                to_forget(entry, p, inserted, at + 1)
            } else {
                finish(&p, inserted, true)
            },
            Told::Failed(e) => fail(e),
            _ => fail("reply out of turn".to_owned()),
        },
        Stage::Over => match told {
            Told::Failed(e) => fail(e),
            _ => fail("reply out of turn".to_owned()),
        },
    }
}

fn told_done(r: Result<(), String>) -> (t: Told)
    ensures
        match r {
            Ok(_) => t is Done,
            Err(e) => t == Told::Failed(e),
        },
{
    match r {
        Ok(_) => Told::Done,
        Err(e) => Told::Failed(e),
    }
}

/// What came of a request that is done or fails.
pub open spec fn tells(r: Result<(), String>, told: Told) -> bool {
    match r {
        Ok(_) => told is Done,
        Err(e) => told == Told::Failed(e),
    }
}

/// Whether an answer is what the bridges give to a request of an entry's sweep:
/// which method is called, with which arguments, and what it returns. The end of
/// a sweep asks for nothing.
pub open spec fn given<H: HttpBridge, G: GraphBridge, S: SinkBridge>(
    entry: FulltextIndexConfig,
    ask: Ask,
    told: Told,
    http: &H,
    graph: &G,
    sink: &S,
) -> bool {
    match ask {
        Ask::EnsureTable(table) => exists|t: &str, r: Result<(), String>|
            t@ == table@ && #[trigger] call_ensures(S::ensure_table, (sink, t), r) && tells(r, told),
        Ask::Select => exists|p: &[String], r: Result<Vec<(String, String, LiteralOrIri)>, String>|
            p@ == entry.predicates@ && #[trigger] call_ensures(G::select_subject_predicate_object, (graph, p), r)
                && told == (match r {
                Ok(rows) => Told::Rows(rows),
                Err(e) => Told::Failed(e),
            }),
        Ask::LoadKnown(table) => exists|t: &str, r: Result<Table<String>, String>|
            t@ == table@ && #[trigger] call_ensures(S::load_known, (sink, t), r) && told == (match r {
                Ok(known) => Told::Known(known),
                Err(e) => Told::Failed(e),
            }),
        Ask::Post(url, body) => exists|u: &str, b: &str, r: Result<String, String>|
            u@ == url@ && b@ == body@ && #[trigger] call_ensures(H::post_json, (http, u, b), r) && told == (match r {
                Ok(reply) => Told::Reply(reply),
                Err(e) => Told::Failed(e),
            }),
        Ask::Upsert(table, id, hash) => exists|t: &str, u: &str, h: &str, r: Result<(), String>|
            t@ == table@ && u@ == id@ && h@ == hash@ && #[trigger] call_ensures(S::upsert, (sink, t, u, h), r)
                && tells(r, told),
        Ask::Delete(table, id) => exists|t: &str, u: &str, r: Result<(), String>|
            t@ == table@ && u@ == id@ && #[trigger] call_ensures(S::delete, (sink, t, u), r) && tells(r, told),
        Ask::Finish(_) => false,
    }
}

/// A request of a sweep, and what came of it.
pub struct Turn {
    pub stage: Stage,
    pub ask: Ask,
    pub told: Told,
}

/// Whether an entry's sweep comes to a stage and a request by these turns, with
/// these bridges.
pub open spec fn comes_to<H: HttpBridge, G: GraphBridge, S: SinkBridge>(
    entry: FulltextIndexConfig,
    turns: Seq<Turn>,
    stage: Stage,
    ask: Ask,
    http: &H,
    graph: &G,
    sink: &S,
) -> bool
    decreases turns.len(),
{
    if turns.len() == 0 {
        &&& stage is Ensuring
        &&& ask matches Ask::EnsureTable(table) && table@ == tracker_name(entry.name@)
    } else {
        let t = turns.last();
        &&& comes_to(entry, turns.drop_last(), t.stage, t.ask, http, graph, sink)
        &&& given(entry, t.ask, t.told, http, graph, sink)
        &&& leads(entry, t.stage, t.told, stage, ask)
    }
}

/// Does what an entry's sweep asks for.
fn perform<H: HttpBridge, G: GraphBridge, S: SinkBridge>(
    entry: &FulltextIndexConfig,
    ask: &Ask,
    http: &H,
    graph: &G,
    sink: &S,
) -> (r: Told)
    requires
        !(ask is Finish),
    ensures
        given(*entry, *ask, r, http, graph, sink),
{
    match ask {
        Ask::EnsureTable(table) => told_done(sink.ensure_table(table)),
        Ask::Select => match graph.select_subject_predicate_object(&entry.predicates) {
            Ok(rows) => Told::Rows(rows),
            Err(e) => Told::Failed(e),
        },
        Ask::LoadKnown(table) => match sink.load_known(table) {
            Ok(known) => Told::Known(known),
            Err(e) => Told::Failed(e),
        },
        Ask::Post(url, body) => match http.post_json(url, body) {
            Ok(reply) => Told::Reply(reply),
            Err(e) => Told::Failed(e),
        },
        Ask::Upsert(table, id, hash) => told_done(sink.upsert(table, id, hash)),
        Ask::Delete(table, id) => told_done(sink.delete(table, id)),
        Ask::Finish(_) => Told::Done,
    }
}

/// A message about an entry.
pub open spec fn remark(name: Seq<char>, text: Seq<char>) -> Seq<char> {
    "wf_canonicalize.fulltext_sweep: entry `"@ + name + "`: "@ + text
}

fn make_remark(name: &str, text: &str) -> (r: String)
    ensures
        r@ == remark(name@, text@),
{
    "wf_canonicalize.fulltext_sweep: entry `".to_owned().concat(name).concat("`: ").concat(text)
}

/// What is to be said of the answer to a batch: why it did not go through.
pub open spec fn batch_complaint(name: Seq<char>, verb: Seq<char>, told: Told) -> Option<Seq<char>> {
    match told {
        Told::Failed(e) => Some(remark(name, verb + " POST: "@ + e@)),
        Told::Reply(body) => match text_verdict(body@) {
            Ok(_) => None,
            Err(message) => Some(remark(name, verb + " response: "@ + message)),
        },
        _ => None,
    }
}

/// What is to be said of an answer: only a batch that did not go through is
/// passed over otherwise.
pub open spec fn complaint(name: Seq<char>, stage: Stage, told: Told) -> Option<Seq<char>> {
    match stage {
        Stage::Inserting(_) => batch_complaint(name, "insert"@, told),
        Stage::Deleting(_, _) => batch_complaint(name, "delete"@, told),
        _ => None,
    }
}

fn batch_remark(name: &str, verb: &str, told: &Told) -> (r: Option<String>)
    ensures
        opt_view(r) == batch_complaint(name@, verb@, *told),
{
    match told {
        Told::Failed(e) => Some(make_remark(name, &verb.to_owned().concat(" POST: ").concat(e))),
        Told::Reply(body) => match bulk_response_ok(body) {
            Ok(_) => None,
            Err(message) => Some(make_remark(name, &verb.to_owned().concat(" response: ").concat(&message))),
        },
        _ => None,
    }
}

fn remark_on(name: &str, stage: &Stage, told: &Told) -> (r: Option<String>)
    ensures
        opt_view(r) == complaint(name@, *stage, *told),
{
    match stage {
        Stage::Inserting(_) => batch_remark(name, "insert", told),
        Stage::Deleting(_, _) => batch_remark(name, "delete", told),
        _ => None,
    }
}

/// What is to be said of the turns of an entry's sweep.
pub open spec fn complaints(name: Seq<char>, turns: Seq<Turn>) -> Seq<Seq<char>>
    decreases turns.len(),
{
    if turns.len() == 0 {
        Seq::empty()
    } else {
        let before = complaints(name, turns.drop_last());
        match complaint(name, turns.last().stage, turns.last().told) {
            Some(text) => before.push(text),
            None => before,
        }
    }
}

/// Sweeps one entry: does what [`step`] asks for until the sweep is over, and
/// notes what did not go through. What comes back rests on the bridges.
fn run_one<H: HttpBridge, G: GraphBridge, S: SinkBridge>(
    entry: &FulltextIndexConfig,
    http: &H,
    graph: &G,
    sink: &S,
) -> (r: (Result<SweepCounts, String>, Vec<String>))
    ensures
        exists|turns: Seq<Turn>| #[trigger]
            comes_to(*entry, turns, Stage::Over, Ask::Finish(r.0), http, graph, sink) && views(r.1@) == complaints(
                entry.name@,
                turns,
            ),
        r.0 matches Ok(c) ==> c.errors <= 2,
{
    broadcast use views_push;

    let (mut stage, mut ask) = begin(entry);
    let mut notes: Vec<String> = Vec::new();
    let ghost mut turns: Seq<Turn> = Seq::empty();
    proof {
        assert(views(notes@) =~= complaints(entry.name@, turns));
    }
    loop
        invariant
            comes_to(*entry, turns, stage, ask, http, graph, sink),
            views(notes@) == complaints(entry.name@, turns),
            stage is Over <==> ask is Finish,
            ask matches Ask::Finish(Ok(c)) ==> c.errors <= 2,
        decreases ahead(stage).0, ahead(stage).1,
    {
        match ask {
            Ask::Finish(r) => {
                return (r, notes);
            },
            request => {
                let told = perform(entry, &request, http, graph, sink);
                match remark_on(&entry.name, &stage, &told) {
                    Some(text) => {
                        notes.push(text);
                    },
                    None => {},
                }
                let ghost turn = Turn { stage, ask: request, told };
                let (next, more) = step(entry, stage, told);
                proof {
                    assert(turns.push(turn).drop_last() =~= turns);
                    turns = turns.push(turn);
                }
                stage = next;
                ask = more;
            },
        }
    }
}

/// The sweep of an entry: what it asked and was told, and what it came to.
pub struct History {
    pub turns: Seq<Turn>,
    pub result: Result<SweepCounts, String>,
}

/// Whether the sweep of an entry went so, with these bridges.
pub open spec fn swept<H: HttpBridge, G: GraphBridge, S: SinkBridge>(
    entry: FulltextIndexConfig,
    h: History,
    http: &H,
    graph: &G,
    sink: &S,
) -> bool {
    comes_to(entry, h.turns, Stage::Over, Ask::Finish(h.result), http, graph, sink)
}

/// Whether the sweeps of the entries went so, one for each.
pub open spec fn all_swept<H: HttpBridge, G: GraphBridge, S: SinkBridge>(
    entries: Seq<FulltextIndexConfig>,
    histories: Seq<History>,
    http: &H,
    graph: &G,
    sink: &S,
) -> bool {
    histories.len() == entries.len() && forall|i: int|
        0 <= i < histories.len() ==> swept(entries[i], #[trigger] histories[i], http, graph, sink)
}

/// The counts of all sweeps; one that failed counts as one error.
pub open spec fn summed(histories: Seq<History>) -> SweepCounts
    decreases histories.len(),
{
    if histories.len() == 0 {
        SweepCounts { inserted: 0, deleted: 0, errors: 0 }
    } else {
        let before = summed(histories.drop_last());
        match histories.last().result {
            Ok(c) => SweepCounts {
                inserted: capped(before.inserted, c.inserted),
                deleted: capped(before.deleted, c.deleted),
                errors: capped(before.errors, c.errors),
            },
            Err(_) => SweepCounts { errors: capped(before.errors, 1), ..before },
        }
    }
}

/// The messages about one sweep: what did not go through, and why it failed.
pub open spec fn messages_of(name: Seq<char>, h: History) -> Seq<Seq<char>> {
    match h.result {
        Ok(_) => complaints(name, h.turns),
        Err(e) => complaints(name, h.turns).push(remark(name, e@)),
    }
}

/// The messages about all sweeps, entry by entry.
pub open spec fn messages(entries: Seq<FulltextIndexConfig>, histories: Seq<History>) -> Seq<Seq<char>>
    decreases histories.len(),
{
    if histories.len() == 0 {
        Seq::empty()
    } else {
        messages(entries, histories.drop_last()) + messages_of(
            entries[histories.len() - 1].name@,
            histories.last(),
        )
    }
}

/// Sweeps all entries and adds up; an entry that fails counts as one error.
pub fn run<H: HttpBridge, G: GraphBridge, S: SinkBridge>(
    entries: &[FulltextIndexConfig],
    http: &H,
    graph: &G,
    sink: &S,
) -> (r: SweepCounts)
    ensures
        exists|histories: Seq<History>| #[trigger]
            all_swept(entries@, histories, http, graph, sink) && r == summed(histories),
        r.errors <= 2 * entries@.len(),
{
    run_with_messages(entries, http, graph, sink).0
}

/// Sweeps all entries and adds up, as [`run`] does, and hands out the messages
/// about what went wrong.
pub fn run_with_messages<H: HttpBridge, G: GraphBridge, S: SinkBridge>(
    entries: &[FulltextIndexConfig],
    http: &H,
    graph: &G,
    sink: &S,
) -> (r: (SweepCounts, Vec<String>))
    ensures
        exists|histories: Seq<History>| #[trigger]
            all_swept(entries@, histories, http, graph, sink) && r.0 == summed(histories) && views(r.1@)
                == messages(entries@, histories),
        r.0.errors <= 2 * entries@.len(),
{
    broadcast use views_push;

    let mut total = SweepCounts::zero();
    let mut notes: Vec<String> = Vec::new();
    let n: usize = entries.len();
    let ghost mut histories: Seq<History> = Seq::empty();
    proof {
        assert(views(notes@) =~= messages(entries@, histories));
    }
    for i in 0..n
        invariant
            n == entries@.len(),
            histories.len() == i,
            forall|k: int| 0 <= k < i ==> swept(entries@[k], #[trigger] histories[k], http, graph, sink),
            total == summed(histories),
            views(notes@) == messages(entries@, histories),
            total.errors <= 2 * i,
    {
        let (result, mut more) = run_one(&entries[i], http, graph, sink);
        let ghost had = views(notes@);
        let ghost turns = choose|turns: Seq<Turn>| #[trigger]
            comes_to(entries@[i as int], turns, Stage::Over, Ask::Finish(result), http, graph, sink) && views(more@)
                == complaints(entries@[i as int].name@, turns);
        let ghost h = History { turns, result };
        let ghost said = views(more@);
        notes.append(&mut more);
        match result {
            Ok(counts) => total.add(counts),
            Err(e) => {
                notes.push(make_remark(&entries[i].name, &e));
                total.errors = total.errors.saturating_add(1);
            },
        }
        proof {
            assert(histories.push(h).drop_last() =~= histories);
            assert(swept(entries@[i as int], h, http, graph, sink));
            histories = histories.push(h);
            assert(views(notes@) =~= had + messages_of(entries@[i as int].name@, h));
        }
    }
    proof {
        assert(all_swept(entries@, histories, http, graph, sink));
    }
    (total, notes)
}

// ---------------------------------------------------------------------------
// Laws
// ---------------------------------------------------------------------------

/// The tracker after a sweep whose two batches were accepted: the hashes of
/// the documents that were sent are recorded, the ids that are gone removed.
pub open spec fn tracker_after(
    known: Map<Seq<char>, Seq<char>>,
    hashes: Map<Seq<char>, Seq<char>>,
    sent: Seq<DocView>,
    gone: Seq<Seq<char>>,
) -> Map<Seq<char>, Seq<char>> {
    Map::new(
        |k: Seq<char>| (known.contains_key(k) || has_key(sent, k)) && !gone.contains(k),
        |k: Seq<char>|
            if has_key(sent, k) {
                text_at(hashes, k)
            } else {
                known[k]
            },
    )
}

proof fn changed_contains(
    docs: Seq<DocView>,
    hashes: Map<Seq<char>, Seq<char>>,
    known: Map<Seq<char>, Seq<char>>,
)
    ensures
        forall|d: DocView| #[trigger]
            changed(docs, hashes, known).contains(d) <==> docs.contains(d) && !up_to_date(d.id, hashes, known),
    decreases docs.len(),
{
    if docs.len() > 0 {
        let rest = docs.drop_last();
        let last = docs.last();
        changed_contains(rest, hashes, known);
        let before = changed(rest, hashes, known);
        assert forall|d: DocView| #[trigger]
            changed(docs, hashes, known).contains(d) <==> docs.contains(d) && !up_to_date(d.id, hashes, known) by {
            assert(docs.contains(d) <==> rest.contains(d) || d == last) by {
                if docs.contains(d) {
                    let i = choose|i: int| 0 <= i < docs.len() && docs[i] == d;
                    if i < rest.len() {
                        assert(rest[i] == d);
                    }
                }
                if rest.contains(d) {
                    let i = choose|i: int| 0 <= i < rest.len() && rest[i] == d;
                    assert(docs[i] == d);
                }
                assert(docs[docs.len() - 1] == last);
            }
            if !up_to_date(last.id, hashes, known) {
                let all = before.push(last);
                if all.contains(d) {
                    let i = choose|i: int| 0 <= i < all.len() && all[i] == d;
                    if i < before.len() {
                        assert(before[i] == d);
                    }
                }
                if before.contains(d) {
                    let i = choose|i: int| 0 <= i < before.len() && before[i] == d;
                    assert(all[i] == d);
                }
                assert(all[before.len() as int] == last);
            }
        }
    }
}

/// A document is sent if and only if the tracker does not know it with its
/// present hash.
pub proof fn sends_exactly_the_changed(
    docs: Seq<DocView>,
    hashes: Map<Seq<char>, Seq<char>>,
    known: Map<Seq<char>, Seq<char>>,
    doc: DocView,
)
    ensures
        changed(docs, hashes, known).contains(doc) <==> docs.contains(doc) && !up_to_date(
            doc.id,
            hashes,
            known,
        ),
{
    changed_contains(docs, hashes, known);
}

/// After a sweep whose batches were accepted, the tracker holds exactly the
/// documents of the graph with their present hashes, and a second sweep of the
/// same graph has nothing to send and nothing to delete.
pub proof fn second_sweep_is_idle(
    docs: Seq<DocView>,
    hashes: Map<Seq<char>, Seq<char>>,
    known: Map<Seq<char>, Seq<char>>,
    sent: Seq<DocView>,
    gone: Seq<Seq<char>>,
    gone_later: Seq<Seq<char>>,
)
    requires
        stably_sorts(sent, changed(docs, hashes, known)),
        lists_gone(gone, ids_of(docs), known),
        lists_gone(gone_later, ids_of(docs), tracker_after(known, hashes, sent, gone)),
    ensures
        changed(docs, hashes, tracker_after(known, hashes, sent, gone)) == Seq::<DocView>::empty(),
        gone_later.len() == 0,
        forall|k: Seq<char>| #[trigger]
            tracker_after(known, hashes, sent, gone).contains_key(k) <==> ids_of(docs).contains(k),
        forall|k: Seq<char>|
            ids_of(docs).contains(k) ==> #[trigger] tracker_after(known, hashes, sent, gone)[k] == text_at(
                hashes,
                k,
            ),
{
    let after = tracker_after(known, hashes, sent, gone);
    let fresh = changed(docs, hashes, known);
    assert forall|k: Seq<char>| has_key(sent, k) <==> ids_of(docs).contains(k) && !up_to_date(k, hashes, known) by {
        sorting_keeps_keys(sent, fresh, k);
        changed_contains(docs, hashes, known);
        if has_key(fresh, k) {
            let i = choose|i: int| 0 <= i < fresh.len() && (#[trigger] fresh[i]).key() == k;
            assert(fresh.contains(fresh[i]));
            let j = choose|j: int| 0 <= j < docs.len() && docs[j] == fresh[i];
            assert(ids_of(docs)[j] == k);
        }
        if ids_of(docs).contains(k) && !up_to_date(k, hashes, known) {
            let j = choose|j: int| 0 <= j < ids_of(docs).len() && ids_of(docs)[j] == k;
            assert(docs.contains(docs[j]));
            assert(fresh.contains(docs[j]));
            let i = choose|i: int| 0 <= i < fresh.len() && fresh[i] == docs[j];
            assert(fresh[i].key() == k);
        }
    }
    assert forall|k: Seq<char>| #[trigger] after.contains_key(k) <==> ids_of(docs).contains(k) by {
        assert(gone.contains(k) <==> known.contains_key(k) && !ids_of(docs).contains(k));
    }
    assert forall|k: Seq<char>| #[trigger] ids_of(docs).contains(k) implies up_to_date(k, hashes, after) && after[k]
        == text_at(hashes, k) by {
        assert(after.contains_key(k));
    }
    nothing_changed(docs, hashes, after);
    if gone_later.len() > 0 {
        assert(gone_later.contains(gone_later[0]));
        assert(after.contains_key(gone_later[0]));
    }
}

proof fn nothing_changed(
    docs: Seq<DocView>,
    hashes: Map<Seq<char>, Seq<char>>,
    known: Map<Seq<char>, Seq<char>>,
)
    requires
        forall|k: Seq<char>| #[trigger] ids_of(docs).contains(k) ==> up_to_date(k, hashes, known),
    ensures
        changed(docs, hashes, known) == Seq::<DocView>::empty(),
    decreases docs.len(),
{
    if docs.len() > 0 {
        let rest = docs.drop_last();
        assert forall|k: Seq<char>| #[trigger] ids_of(rest).contains(k) implies up_to_date(k, hashes, known) by {
            let i = choose|i: int| 0 <= i < ids_of(rest).len() && ids_of(rest)[i] == k;
            assert(ids_of(docs)[i] == k);
            assert(ids_of(docs).contains(k));
        }
        nothing_changed(rest, hashes, known);
        assert(ids_of(docs)[docs.len() - 1] == docs.last().id);
        assert(ids_of(docs).contains(docs.last().id));
    }
}

/// The fields determine a document.
proof fn documents_unique(a: DocView, b: DocView, fields: Map<Seq<char>, FieldView>)
    requires
        documents(a, fields),
        documents(b, fields),
        a.id == b.id,
    ensures
        a == b,
{
    lists_unique(field_names(a), field_names(b), fields.dom());
    assert(a.fields.len() == field_names(a).len() == field_names(b).len() == b.fields.len());
    assert forall|i: int| 0 <= i < a.fields.len() implies a.fields[i] == b.fields[i] by {
        assert(field_names(a)[i] == a.fields[i].0);
        assert(field_names(b)[i] == b.fields[i].0);
    }
    assert(a.fields =~= b.fields);
}

/// What the graph says of the subjects determines its documents.
proof fn graph_documents_unique(
    a: Seq<DocView>,
    b: Seq<DocView>,
    rows: Seq<RowView>,
    others: Seq<RowView>,
    filter: Option<Seq<char>>,
)
    requires
        graph_documents(a, rows, filter),
        graph_documents(b, others, filter),
        forall|s: Seq<char>| #[trigger] has_document(rows, filter, s) == has_document(others, filter, s),
        forall|s: Seq<char>| #[trigger] subject_fields(rows, filter, s) == subject_fields(others, filter, s),
    ensures
        a == b,
{
    let subjects = Set::new(|s: Seq<char>| has_document(rows, filter, s));
    assert(lists(ids_of(a), subjects));
    assert(lists(ids_of(b), subjects));
    lists_unique(ids_of(a), ids_of(b), subjects);
    assert forall|i: int| 0 <= i < a.len() implies a[i] == b[i] by {
        assert(ids_of(a)[i] == a[i].id);
        assert(ids_of(b)[i] == b[i].id);
        assert(subject_fields(rows, filter, a[i].id) == subject_fields(others, filter, a[i].id));
        documents_unique(a[i], b[i], subject_fields(rows, filter, a[i].id));
    }
    assert(a =~= b);
}

/// A field of a subject comes from an indexed row, and every indexed row gives a
/// field.
proof fn field_has_row(rows: Seq<RowView>, filter: Option<Seq<char>>, subject: Seq<char>, predicate: Seq<char>)
    ensures
        subject_fields(rows, filter, subject).contains_key(predicate) <==> exists|i: int|
            0 <= i < rows.len() && feeds(#[trigger] rows[i], filter, subject, predicate),
        subject_fields(rows, filter, subject).contains_key(predicate) ==> exists|i: int|
            0 <= i < rows.len() && feeds(#[trigger] rows[i], filter, subject, predicate) && rows[i].field == Some(
                subject_fields(rows, filter, subject)[predicate],
            ),
    decreases rows.len(),
{
    if rows.len() > 0 {
        let rest = rows.drop_last();
        field_has_row(rest, filter, subject, predicate);
        assert(rows[rows.len() - 1] == rows.last());
        if exists|i: int| 0 <= i < rows.len() && feeds(#[trigger] rows[i], filter, subject, predicate) {
            let i = choose|i: int| 0 <= i < rows.len() && feeds(#[trigger] rows[i], filter, subject, predicate);
            if i < rest.len() {
                assert(rest[i] == rows[i]);
            }
        }
        if subject_fields(rest, filter, subject).contains_key(predicate) {
            let i = choose|i: int|
                0 <= i < rest.len() && feeds(#[trigger] rest[i], filter, subject, predicate) && rest[i].field == Some(
                    subject_fields(rest, filter, subject)[predicate],
                );
            assert(rows[i] == rest[i]);
        }
    }
}

/// Whether the row gives the subject its field of this predicate.
pub open spec fn feeds(row: RowView, filter: Option<Seq<char>>, subject: Seq<char>, predicate: Seq<char>) -> bool {
    row.subject == subject && row.predicate == predicate && indexed(row, filter)
}

/// Whether no two indexed rows speak of one subject and one predicate.
pub open spec fn pairs_differ(rows: Seq<RowView>, filter: Option<Seq<char>>) -> bool {
    forall|i: int, j: int|
        0 <= i < j < rows.len() && indexed(#[trigger] rows[i], filter) && indexed(#[trigger] rows[j], filter)
            ==> rows[i].subject != rows[j].subject || rows[i].predicate != rows[j].predicate
}

/// The order of the rows does not matter to the documents, nor to their hashes,
/// where no two indexed rows speak of one subject and one predicate.
pub proof fn row_order_does_not_matter(
    rows: Seq<RowView>,
    turned: Seq<RowView>,
    filter: Option<Seq<char>>,
    docs: Seq<DocView>,
    docs_turned: Seq<DocView>,
)
    requires
        rows.to_multiset() == turned.to_multiset(),
        pairs_differ(rows, filter),
        graph_documents(docs, rows, filter),
        graph_documents(docs_turned, turned, filter),
    ensures
        docs == docs_turned,
        hashes_of(docs) == hashes_of(docs_turned),
{
    assert forall|row: RowView| rows.contains(row) <==> turned.contains(row) by {
        rows.to_multiset_ensures();
        turned.to_multiset_ensures();
        assert(rows.contains(row) <==> rows.to_multiset().count(row) > 0);
        assert(turned.contains(row) <==> turned.to_multiset().count(row) > 0);
    }
    assert forall|s: Seq<char>| #[trigger] has_document(rows, filter, s) == has_document(turned, filter, s) by {
        if has_document(rows, filter, s) {
            let i = choose|i: int|
                0 <= i < rows.len() && (#[trigger] rows[i]).subject == s && indexed(rows[i], filter);
            assert(rows.contains(rows[i]));
            let j = choose|j: int| 0 <= j < turned.len() && turned[j] == rows[i];
            assert(turned[j].subject == s);
        }
        if has_document(turned, filter, s) {
            let i = choose|i: int|
                0 <= i < turned.len() && (#[trigger] turned[i]).subject == s && indexed(turned[i], filter);
            assert(turned.contains(turned[i]));
            let j = choose|j: int| 0 <= j < rows.len() && rows[j] == turned[i];
            assert(rows[j].subject == s);
        }
    }
    assert forall|s: Seq<char>| #[trigger]
        subject_fields(rows, filter, s) == subject_fields(turned, filter, s) by {
        let a = subject_fields(rows, filter, s);
        let b = subject_fields(turned, filter, s);
        assert forall|p: Seq<char>| a.contains_key(p) <==> b.contains_key(p) by {
            field_has_row(rows, filter, s, p);
            field_has_row(turned, filter, s, p);
            if a.contains_key(p) {
                let i = choose|i: int| 0 <= i < rows.len() && feeds(#[trigger] rows[i], filter, s, p);
                assert(rows.contains(rows[i]));
                let j = choose|j: int| 0 <= j < turned.len() && turned[j] == rows[i];
                assert(feeds(turned[j], filter, s, p));
            }
            if b.contains_key(p) {
                let i = choose|i: int| 0 <= i < turned.len() && feeds(#[trigger] turned[i], filter, s, p);
                assert(turned.contains(turned[i]));
                let j = choose|j: int| 0 <= j < rows.len() && rows[j] == turned[i];
                assert(feeds(rows[j], filter, s, p));
            }
        }
        assert forall|p: Seq<char>| a.contains_key(p) implies a[p] == b[p] by {
            field_has_row(rows, filter, s, p);
            field_has_row(turned, filter, s, p);
            let i = choose|i: int|
                0 <= i < rows.len() && feeds(#[trigger] rows[i], filter, s, p) && rows[i].field == Some(a[p]);
            let k = choose|k: int|
                0 <= k < turned.len() && feeds(#[trigger] turned[k], filter, s, p) && turned[k].field == Some(b[p]);
            assert(turned.contains(turned[k]));
            let j = choose|j: int| 0 <= j < rows.len() && rows[j] == turned[k];
            assert(indexed(rows[i], filter) && indexed(rows[j], filter));
            assert(i == j);
        }
        assert(a =~= b);
    }
    graph_documents_unique(docs, docs_turned, rows, turned, filter);
}

/// The sweep sends documents as the component for literal indexes does: the same
/// documents make the same batch.
pub proof fn batches_agree(index: Seq<char>, docs: Seq<DocWrite>, plain: Seq<PlainDocWrite>)
    requires
        docs.len() == plain.len(),
        forall|i: int|
            0 <= i < docs.len() ==> (#[trigger] docs[i])@ == (DocView {
                id: plain[i].id@,
                fields: views(plain[i].fields@),
                lang: opt_view(plain[i].lang),
            }),
    ensures
        replace_commands(index, views(docs)) == crate::fulltext::manticore_admin::replace_commands(index, plain),
        command_lines(replace_commands(index, views(docs))) == command_lines(
            crate::fulltext::manticore_admin::replace_commands(index, plain),
        ),
{
    let a = replace_commands(index, views(docs));
    let b = crate::fulltext::manticore_admin::replace_commands(index, plain);
    assert forall|i: int| 0 <= i < a.len() implies a[i] == b[i] by {
        assert(docs[i]@.id == plain[i].id@);
    }
    assert(a =~= b);
}

// ---------------------------------------------------------------------------
// Laws of whole sweeps
// ---------------------------------------------------------------------------

/// What a tracker holds that does as it is told: what it was loaded with, and
/// the changes that went through since.
pub open spec fn tracker_of(turns: Seq<Turn>) -> Map<Seq<char>, Seq<char>>
    decreases turns.len(),
{
    if turns.len() == 0 {
        Map::empty()
    } else {
        let before = tracker_of(turns.drop_last());
        match (turns.last().ask, turns.last().told) {
            (Ask::LoadKnown(_), Told::Known(known)) => texts(known@),
            (Ask::Upsert(_, id, hash), Told::Done) => before.insert(id@, hash@),
            (Ask::Delete(_, id), Told::Done) => before.remove(id@),
            _ => before,
        }
    }
}

/// What the tracker knew when it was loaded.
pub open spec fn known_in(turns: Seq<Turn>) -> Option<Map<Seq<char>, Seq<char>>>
    decreases turns.len(),
{
    if turns.len() == 0 {
        None
    } else {
        match turns.last().told {
            Told::Known(known) => Some(texts(known@)),
            _ => known_in(turns.drop_last()),
        }
    }
}

/// The statements that the graph gave.
pub open spec fn rows_in(turns: Seq<Turn>) -> Option<Seq<RowView>>
    decreases turns.len(),
{
    if turns.len() == 0 {
        None
    } else {
        match turns.last().told {
            Told::Rows(rows) => Some(row_views(rows@)),
            _ => rows_in(turns.drop_last()),
        }
    }
}

/// Whether a request changes the index or the tracker's contents.
pub open spec fn changes(ask: Ask) -> bool {
    ask is Post || ask is Upsert || ask is Delete
}

/// Whether none of the turns changes the index or the tracker's contents.
pub open spec fn changes_nothing(turns: Seq<Turn>) -> bool {
    forall|i: int| 0 <= i < turns.len() ==> !changes((#[trigger] turns[i]).ask)
}

/// Whether the tracker has been changed by the first documents and the first
/// ids of a plan, and by no more.
spec fn carried_out(p: Plan, entry: FulltextIndexConfig, turns: Seq<Turn>, inserts: int, deletes: int) -> bool {
    &&& known_in(turns) is Some && rows_in(turns) is Some
    &&& plans(p, entry, rows_in(turns)->0, known_in(turns)->0)
    &&& 0 <= inserts <= p.inserts@.len() && 0 <= deletes <= p.deletes@.len()
    &&& tracker_of(turns) == tracker_after(
        known_in(turns)->0,
        texts(p.hashes@),
        views(p.inserts@).take(inserts),
        views(p.deletes@).take(deletes),
    )
}

/// How many of the documents have been recorded: all, or none where the batch
/// was not accepted.
spec fn recorded(p: Plan, inserted: bool) -> int {
    if inserted {
        p.inserts@.len() as int
    } else {
        0
    }
}

/// What the turns of a sweep have come to at a stage.
spec fn stands(entry: FulltextIndexConfig, turns: Seq<Turn>, stage: Stage, ask: Ask) -> bool {
    match stage {
        Stage::Ensuring => ask is EnsureTable && known_in(turns) is None && rows_in(turns) is None && changes_nothing(
            turns,
        ),
        Stage::Selecting => ask is Select && known_in(turns) is None && rows_in(turns) is None && changes_nothing(
            turns,
        ),
        Stage::Loading(rows) => ask is LoadKnown && known_in(turns) is None && rows_in(turns) == Some(
            row_views(rows@),
        ) && changes_nothing(turns),
        Stage::Inserting(p) => ask is Post && p.inserts@.len() > 0 && carried_out(p, entry, turns, 0, 0),
        Stage::Recording(p, at) => at < p.inserts@.len() && carried_out(p, entry, turns, at as int, 0) && (
        ask matches Ask::Upsert(_, id, hash) && id@ == p.inserts@[at as int].id@ && hash@ == hash_for(p, id@)),
        Stage::Deleting(p, inserted) => ask is Post && p.deletes@.len() > 0 && carried_out(
            p,
            entry,
            turns,
            recorded(p, inserted),
            0,
        ),
        Stage::Forgetting(p, inserted, at) => at < p.deletes@.len() && carried_out(
            p,
            entry,
            turns,
            recorded(p, inserted),
            at as int,
        ) && (ask matches Ask::Delete(_, id) && id@ == p.deletes@[at as int]@),
        Stage::Over => ask matches Ask::Finish(result) && (result matches Ok(c) ==> exists|p: Plan| #[trigger]
            ended(p, entry, turns, c)),
    }
}

spec fn ended(p: Plan, entry: FulltextIndexConfig, turns: Seq<Turn>, c: SweepCounts) -> bool {
    &&& known_in(turns) is Some && rows_in(turns) is Some
    &&& plans(p, entry, rows_in(turns)->0, known_in(turns)->0)
    &&& c.errors == 0 ==> carried_out(p, entry, turns, p.inserts@.len() as int, p.deletes@.len() as int)
    &&& c.errors == 0 ==> c.inserted == p.inserts@.len() && c.deleted == p.deletes@.len()
}

proof fn nothing_carried_out(
    known: Map<Seq<char>, Seq<char>>,
    hashes: Map<Seq<char>, Seq<char>>,
    sent: Seq<DocView>,
    gone: Seq<Seq<char>>,
)
    ensures
        tracker_after(known, hashes, sent.take(0), gone.take(0)) == known,
{
    assert(tracker_after(known, hashes, sent.take(0), gone.take(0)) =~= known);
}

/// Recording one more document.
proof fn record_one(
    known: Map<Seq<char>, Seq<char>>,
    hashes: Map<Seq<char>, Seq<char>>,
    sent: Seq<DocView>,
    gone: Seq<Seq<char>>,
    at: int,
)
    requires
        0 <= at < sent.len(),
    ensures
        tracker_after(known, hashes, sent.take(at), gone.take(0)).insert(sent[at].id, text_at(hashes, sent[at].id))
            == tracker_after(known, hashes, sent.take(at + 1), gone.take(0)),
{
    let had = sent.take(at);
    let has = sent.take(at + 1);
    assert forall|k: Seq<char>| has_key(has, k) <==> has_key(had, k) || k == sent[at].id by {
        if has_key(had, k) {
            let i = choose|i: int| 0 <= i < had.len() && (#[trigger] had[i]).key() == k;
            assert(has[i].key() == k);
        }
        assert(has[at].key() == sent[at].id);
        if has_key(has, k) {
            let i = choose|i: int| 0 <= i < has.len() && (#[trigger] has[i]).key() == k;
            if i < at {
                assert(had[i].key() == k);
            }
        }
    }
    assert(tracker_after(known, hashes, had, gone.take(0)).insert(sent[at].id, text_at(hashes, sent[at].id))
        =~= tracker_after(known, hashes, has, gone.take(0)));
}

/// Forgetting one more id.
proof fn forget_one(
    known: Map<Seq<char>, Seq<char>>,
    hashes: Map<Seq<char>, Seq<char>>,
    sent: Seq<DocView>,
    gone: Seq<Seq<char>>,
    at: int,
)
    requires
        0 <= at < gone.len(),
    ensures
        tracker_after(known, hashes, sent, gone.take(at)).remove(gone[at]) == tracker_after(
            known,
            hashes,
            sent,
            gone.take(at + 1),
        ),
{
    let had = gone.take(at);
    let has = gone.take(at + 1);
    assert forall|k: Seq<char>| has.contains(k) <==> had.contains(k) || k == gone[at] by {
        if had.contains(k) {
            let i = choose|i: int| 0 <= i < had.len() && had[i] == k;
            assert(has[i] == k);
        }
        assert(has[at] == gone[at]);
        if has.contains(k) {
            let i = choose|i: int| 0 <= i < has.len() && has[i] == k;
            if i < at {
                assert(had[i] == k);
            }
        }
    }
    assert(tracker_after(known, hashes, sent, had).remove(gone[at]) =~= tracker_after(known, hashes, sent, has));
}

proof fn hash_is_planned(p: Plan, id: Seq<char>)
    ensures
        hash_for(p, id) == text_at(texts(p.hashes@), id),
{
    reveal_strlit("");
    assert(""@ =~= Seq::<char>::empty());
}

proof fn stands_at_forget(
    entry: FulltextIndexConfig,
    turns: Seq<Turn>,
    p: Plan,
    inserted: bool,
    at: int,
    next: Stage,
    ask: Ask,
)
    requires
        carried_out(p, entry, turns, recorded(p, inserted), at),
        goes_to_forget(entry, p, inserted, at, next, ask),
    ensures
        stands(entry, turns, next, ask),
{
    if at >= p.deletes@.len() {
        let c = ask->Finish_0->Ok_0;
        assert(ended(p, entry, turns, c));
    }
}

proof fn stands_at_delete(
    entry: FulltextIndexConfig,
    turns: Seq<Turn>,
    p: Plan,
    inserted: bool,
    next: Stage,
    ask: Ask,
)
    requires
        carried_out(p, entry, turns, recorded(p, inserted), 0),
        goes_to_delete(p, inserted, next, ask),
    ensures
        stands(entry, turns, next, ask),
{
    if p.deletes@.len() == 0 {
        let c = ask->Finish_0->Ok_0;
        assert(ended(p, entry, turns, c));
    }
}

proof fn stands_at_record(
    entry: FulltextIndexConfig,
    turns: Seq<Turn>,
    p: Plan,
    at: int,
    next: Stage,
    ask: Ask,
)
    requires
        carried_out(p, entry, turns, at, 0),
        goes_to_record(entry, p, at, next, ask),
    ensures
        stands(entry, turns, next, ask),
{
    if at >= p.inserts@.len() {
        stands_at_delete(entry, turns, p, true, next, ask);
    }
}

proof fn stands_on(
    entry: FulltextIndexConfig,
    turns: Seq<Turn>,
    stage: Stage,
    ask: Ask,
    told: Told,
    next: Stage,
    more: Ask,
)
    requires
        stands(entry, turns, stage, ask),
        leads(entry, stage, told, next, more),
    ensures
        stands(entry, turns.push(Turn { stage, ask, told }), next, more),
{
    let all = turns.push(Turn { stage, ask, told });
    assert(all.drop_last() =~= turns);
    assert(all.last() == Turn { stage, ask, told });
    if !(more matches Ask::Finish(Err(_))) {
        match (stage, told) {
            (Stage::Loading(rows), Told::Known(known)) => {
                let p = choose|p: Plan| #[trigger]
                    plans(p, entry, row_views(rows@), texts(known@)) && goes_to_insert(p, next, more);
                nothing_carried_out(texts(known@), texts(p.hashes@), views(p.inserts@), views(p.deletes@));
                assert(carried_out(p, entry, all, 0, 0));
                if p.inserts@.len() == 0 {
                    stands_at_delete(entry, all, p, false, next, more);
                }
            },
            (Stage::Inserting(p), Told::Reply(body)) => {
                assert(carried_out(p, entry, all, 0, 0));
                if text_verdict(body@) is Ok {
                    stands_at_record(entry, all, p, 0, next, more);
                } else {
                    stands_at_delete(entry, all, p, false, next, more);
                }
            },
            (Stage::Inserting(p), Told::Failed(_)) => {
                assert(carried_out(p, entry, all, 0, 0));
                stands_at_delete(entry, all, p, false, next, more);
            },
            (Stage::Recording(p, at), Told::Done) => {
                hash_is_planned(p, p.inserts@[at as int].id@);
                record_one(
                    known_in(turns)->0,
                    texts(p.hashes@),
                    views(p.inserts@),
                    views(p.deletes@),
                    at as int,
                );
                stands_at_record(entry, all, p, at + 1, next, more);
            },
            (Stage::Deleting(p, inserted), Told::Reply(body)) => {
                assert(carried_out(p, entry, all, recorded(p, inserted), 0));
                if text_verdict(body@) is Ok {
                    stands_at_forget(entry, all, p, inserted, 0, next, more);
                } else {
                    assert(ended(p, entry, all, more->Finish_0->Ok_0));
                }
            },
            (Stage::Deleting(p, inserted), Told::Failed(_)) => {
                assert(carried_out(p, entry, all, recorded(p, inserted), 0));
                assert(ended(p, entry, all, more->Finish_0->Ok_0));
            },
            (Stage::Forgetting(p, inserted, at), Told::Done) => {
                forget_one(
                    known_in(turns)->0,
                    texts(p.hashes@),
                    views(p.inserts@).take(recorded(p, inserted)),
                    views(p.deletes@),
                    at as int,
                );
                stands_at_forget(entry, all, p, inserted, at + 1, next, more);
            },
            _ => {},
        }
    }
}

proof fn stands_throughout<H: HttpBridge, G: GraphBridge, S: SinkBridge>(
    entry: FulltextIndexConfig,
    turns: Seq<Turn>,
    stage: Stage,
    ask: Ask,
    http: &H,
    graph: &G,
    sink: &S,
)
    requires
        comes_to(entry, turns, stage, ask, http, graph, sink),
    ensures
        stands(entry, turns, stage, ask),
    decreases turns.len(),
{
    if turns.len() > 0 {
        let t = turns.last();
        stands_throughout(entry, turns.drop_last(), t.stage, t.ask, http, graph, sink);
        stands_on(entry, turns.drop_last(), t.stage, t.ask, t.told, stage, ask);
        assert(turns.drop_last().push(Turn { stage: t.stage, ask: t.ask, told: t.told }) =~= turns);
    }
}

/// A sweep without errors leaves the tracker that its plan asks for: what was
/// sent is recorded, what is gone forgotten, and the rest is as it was.
pub proof fn sweep_leaves_its_tracker<H: HttpBridge, G: GraphBridge, S: SinkBridge>(
    entry: FulltextIndexConfig,
    h: History,
    c: SweepCounts,
    http: &H,
    graph: &G,
    sink: &S,
) -> (p: Plan)
    requires
        swept(entry, h, http, graph, sink),
        h.result == Ok::<SweepCounts, String>(c),
        c.errors == 0,
    ensures
        known_in(h.turns) is Some,
        rows_in(h.turns) is Some,
        plans(p, entry, rows_in(h.turns)->0, known_in(h.turns)->0),
        tracker_of(h.turns) == tracker_after(
            known_in(h.turns)->0,
            texts(p.hashes@),
            views(p.inserts@),
            views(p.deletes@),
        ),
        c.inserted == p.inserts@.len(),
        c.deleted == p.deletes@.len(),
{
    stands_throughout(entry, h.turns, Stage::Over, Ask::Finish(h.result), http, graph, sink);
    let p = choose|p: Plan| #[trigger] ended(p, entry, h.turns, c);
    assert(views(p.inserts@).take(p.inserts@.len() as int) =~= views(p.inserts@));
    assert(views(p.deletes@).take(p.deletes@.len() as int) =~= views(p.deletes@));
    p
}

/// Whether the answers of a sweep go by a tracker and by the statements of the
/// graph.
pub open spec fn told_by(turns: Seq<Turn>, known: Map<Seq<char>, Seq<char>>, rows: Seq<RowView>) -> bool {
    forall|i: int|
        0 <= i < turns.len() ==> match (#[trigger] turns[i]).told {
            Told::Known(k) => texts(k@) == known,
            Told::Rows(v) => row_views(v@) == rows,
            _ => true,
        }
}

/// Whether no call of the bridges failed.
pub open spec fn none_failed(turns: Seq<Turn>) -> bool {
    forall|i: int| 0 <= i < turns.len() ==> !((#[trigger] turns[i]).told is Failed)
}

/// A sweep without errors is followed by one that does nothing, where the graph
/// has not changed: the index gets no post, and the tracker no change.
pub proof fn sweeping_again_is_idle<H: HttpBridge, G: GraphBridge, S: SinkBridge>(
    entry: FulltextIndexConfig,
    first: History,
    c: SweepCounts,
    second: History,
    http: &H,
    graph: &G,
    sink: &S,
)
    requires
        swept(entry, first, http, graph, sink),
        first.result == Ok::<SweepCounts, String>(c),
        c.errors == 0,
        swept(entry, second, http, graph, sink),
        told_by(second.turns, tracker_of(first.turns), rows_in(first.turns)->0),
    ensures
        changes_nothing(second.turns),
        none_failed(second.turns) ==> second.result is Ok,
        second.result matches Ok(d) ==> d == (SweepCounts { inserted: 0, deleted: 0, errors: 0 }),
{
    let p = sweep_leaves_its_tracker(entry, first, c, http, graph, sink);
    idles(
        entry,
        rows_in(first.turns)->0,
        known_in(first.turns)->0,
        tracker_of(first.turns),
        p,
        second.turns,
        Stage::Over,
        Ask::Finish(second.result),
        http,
        graph,
        sink,
    );
}

proof fn idles<H: HttpBridge, G: GraphBridge, S: SinkBridge>(
    entry: FulltextIndexConfig,
    rows: Seq<RowView>,
    known: Map<Seq<char>, Seq<char>>,
    after: Map<Seq<char>, Seq<char>>,
    done: Plan,
    turns: Seq<Turn>,
    stage: Stage,
    ask: Ask,
    http: &H,
    graph: &G,
    sink: &S,
)
    requires
        plans(done, entry, rows, known),
        after == tracker_after(known, texts(done.hashes@), views(done.inserts@), views(done.deletes@)),
        comes_to(entry, turns, stage, ask, http, graph, sink),
        told_by(turns, after, rows),
    ensures
        changes_nothing(turns),
        none_failed(turns) ==> !(ask matches Ask::Finish(Err(_))),
        match stage {
            Stage::Ensuring => ask is EnsureTable,
            Stage::Selecting => ask is Select,
            Stage::Loading(v) => ask is LoadKnown && row_views(v@) == rows,
            Stage::Over => ask matches Ask::Finish(r) && (r matches Ok(d) ==> d == (SweepCounts { inserted: 0, deleted: 0, errors: 0 })),
            _ => false,
        },
    decreases turns.len(),
{
    if turns.len() > 0 {
        let before = turns.drop_last();
        let t = turns.last();
        assert forall|i: int| 0 <= i < before.len() implies match (#[trigger] before[i]).told {
            Told::Known(k) => texts(k@) == after,
            Told::Rows(v) => row_views(v@) == rows,
            _ => true,
        } by {
            assert(before[i] == turns[i]);
        }
        idles(entry, rows, known, after, done, before, t.stage, t.ask, http, graph, sink);
        assert forall|i: int| 0 <= i < turns.len() implies !changes((#[trigger] turns[i]).ask) by {
            if i < before.len() {
                assert(turns[i] == before[i]);
            }
        }
        assert(turns[turns.len() - 1] == t);
        if none_failed(turns) {
            assert forall|i: int| 0 <= i < before.len() implies !((#[trigger] before[i]).told is Failed) by {
                assert(before[i] == turns[i]);
            }
        }
        match (t.stage, t.told) {
            (Stage::Loading(v), Told::Known(k)) => {
                let filter = opt_view(entry.lang_filter);
                let p = choose|p: Plan| #[trigger]
                    plans(p, entry, row_views(v@), texts(k@)) && goes_to_insert(p, stage, ask);
                let docs = choose|docs: Seq<DocView>| #[trigger]
                    graph_documents(docs, rows, filter) && texts(done.hashes@) == hashes_of(docs) && stably_sorts(
                        views(done.inserts@),
                        changed(docs, hashes_of(docs), known),
                    ) && lists_gone(views(done.deletes@), ids_of(docs), known);
                let again = choose|docs: Seq<DocView>| #[trigger]
                    graph_documents(docs, rows, filter) && texts(p.hashes@) == hashes_of(docs) && stably_sorts(
                        views(p.inserts@),
                        changed(docs, hashes_of(docs), after),
                    ) && lists_gone(views(p.deletes@), ids_of(docs), after);
                graph_documents_unique(docs, again, rows, rows, filter);
                second_sweep_is_idle(
                    docs,
                    hashes_of(docs),
                    known,
                    views(done.inserts@),
                    views(done.deletes@),
                    views(p.deletes@),
                );
                assert(p.inserts@.len() == 0);
                assert(p.deletes@.len() == 0);
            },
            _ => {},
        }
    }
}

/// A run over one entry without errors is followed by one that reports nothing
/// and changes nothing, where the graph has not changed and no call fails.
pub proof fn running_again_is_idle<H: HttpBridge, G: GraphBridge, S: SinkBridge>(
    entry: FulltextIndexConfig,
    first: Seq<History>,
    second: Seq<History>,
    http: &H,
    graph: &G,
    sink: &S,
)
    requires
        all_swept(seq![entry], first, http, graph, sink),
        summed(first).errors == 0,
        all_swept(seq![entry], second, http, graph, sink),
        told_by(second[0].turns, tracker_of(first[0].turns), rows_in(first[0].turns)->0),
        none_failed(second[0].turns),
    ensures
        changes_nothing(second[0].turns),
        summed(second) == (SweepCounts { inserted: 0, deleted: 0, errors: 0 }),
{
    reveal_with_fuel(summed, 2);
    assert(first.last() == first[0]);
    assert(second.last() == second[0]);
    assert(swept(entry, first[0], http, graph, sink));
    assert(swept(entry, second[0], http, graph, sink));
    sweeping_again_is_idle(entry, first[0], first[0].result->Ok_0, second[0], http, graph, sink);
}

/// Where the tracker cannot be had or loaded, or the graph not be queried,
/// the sweep of the entry fails, and neither the index nor the tracker is
/// changed.
pub proof fn failed_call_stops_the_sweep<H: HttpBridge, G: GraphBridge, S: SinkBridge>(
    entry: FulltextIndexConfig,
    h: History,
    i: int,
    http: &H,
    graph: &G,
    sink: &S,
)
    requires
        swept(entry, h, http, graph, sink),
        0 <= i < h.turns.len(),
        h.turns[i].ask is EnsureTable || h.turns[i].ask is LoadKnown || h.turns[i].ask is Select,
        h.turns[i].told is Failed,
    ensures
        h.result is Err,
        changes_nothing(h.turns),
{
    stops(entry, h.turns, Stage::Over, Ask::Finish(h.result), i, http, graph, sink);
}

proof fn stops<H: HttpBridge, G: GraphBridge, S: SinkBridge>(
    entry: FulltextIndexConfig,
    turns: Seq<Turn>,
    stage: Stage,
    ask: Ask,
    i: int,
    http: &H,
    graph: &G,
    sink: &S,
)
    requires
        comes_to(entry, turns, stage, ask, http, graph, sink),
        0 <= i < turns.len(),
        turns[i].ask is EnsureTable || turns[i].ask is LoadKnown || turns[i].ask is Select,
        turns[i].told is Failed,
    ensures
        stage is Over,
        ask matches Ask::Finish(Err(_)),
        changes_nothing(turns),
    decreases turns.len(),
{
    let before = turns.drop_last();
    let t = turns.last();
    stands_throughout(entry, before, t.stage, t.ask, http, graph, sink);
    if i < before.len() {
        assert(before[i] == turns[i]);
        stops(entry, before, t.stage, t.ask, i, http, graph, sink);
    }
    assert forall|j: int| 0 <= j < turns.len() implies !changes((#[trigger] turns[j]).ask) by {
        if j < before.len() {
            assert(turns[j] == before[j]);
        }
    }
}

} // verus!

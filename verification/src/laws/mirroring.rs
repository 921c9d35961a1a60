//! What a sweep leaves in an index.

use vstd::prelude::*;
use crate::bulk::{command_line, command_lines, delete_command, delete_commands, doc_tree, replace_command, text_fields};
use crate::canonicalize::document_sweep;
use crate::canonicalize::fulltext_sweep;
use crate::canonicalize::fulltext_sweep::{changed, documents, field_names, graph_documents, has_document, hashes_of,
    ids_of, indexed, lists_gone, plans, replace_commands, subject_fields, up_to_date, DocView, Plan, RowView};
use crate::json::{ascending, json_text, lookup, no_fields, object1, put_names, Fields, JsonView};
use crate::laws::objects::{nothing_is_found, with_is_found};
use crate::order::{has_key, sorted_member, sorting_keeps_keys, stably_sorts, HasKey};
use crate::table::ascends_distinct;
use crate::text::{opt_view, views};

verus! {

// ---------------------------------------------------------------------------
// Commands
// ---------------------------------------------------------------------------

/// The text of commands, each on a line of its own.
pub open spec fn lines_text(commands: Seq<JsonView>) -> Seq<char>
    decreases commands.len(),
{
    if commands.len() == 0 {
        Seq::empty()
    } else {
        lines_text(commands.drop_last()) + json_text(commands.last()) + "\n"@
    }
}

/// What an index holds once a command has been carried out.
pub open spec fn carried(index: Map<Seq<char>, JsonView>, command: JsonView) -> Map<Seq<char>, JsonView> {
    match (command.get("replace"@), command.get("delete"@)) {
        (Some(inner), None) => match (inner.get("id"@), inner.get("doc"@)) {
            (Some(JsonView::Text(id)), Some(doc)) => index.insert(id, doc),
            _ => index,
        },
        (None, Some(inner)) => match inner.get("id"@) {
            Some(JsonView::Text(id)) => index.remove(id),
            _ => index,
        },
        _ => index,
    }
}

/// What an index holds once commands have been carried out, one after the other.
pub open spec fn all_carried(index: Map<Seq<char>, JsonView>, commands: Seq<JsonView>) -> Map<Seq<char>, JsonView>
    decreases commands.len(),
{
    if commands.len() == 0 {
        index
    } else {
        carried(all_carried(index, commands.drop_last()), commands.last())
    }
}

/// Whether a command is for an index.
pub open spec fn is_for(command: JsonView, name: Seq<char>) -> bool {
    ||| command.get("replace"@) matches Some(inner) && inner.get("index"@) == Some(JsonView::Text(name))
    ||| command.get("delete"@) matches Some(inner) && inner.get("index"@) == Some(JsonView::Text(name))
}

pub open spec fn all_for(commands: Seq<JsonView>, name: Seq<char>) -> bool {
    forall|i: int| 0 <= i < commands.len() ==> is_for(#[trigger] commands[i], name)
}

proof fn lines_are_written(commands: Seq<JsonView>)
    ensures
        command_lines(commands) == lines_text(commands),
    decreases commands.len(),
{
    let parts = Seq::new(commands.len(), |i: int| command_line(commands[i]));
    if commands.len() > 0 {
        let rest = commands.drop_last();
        lines_are_written(rest);
        assert(parts.drop_last() =~= Seq::new(rest.len(), |i: int| command_line(rest[i])));
        assert(parts.last() == command_line(commands.last()));
        assert(command_lines(commands) =~= lines_text(commands));
    } else {
        assert(command_lines(commands) =~= Seq::empty());
    }
}

proof fn command_names_differ()
    ensures
        "replace"@ != "delete"@,
        "index"@ != "id"@ && "index"@ != "doc"@ && "id"@ != "doc"@,
{
    reveal_strlit("replace");
    reveal_strlit("delete");
    reveal_strlit("index");
    reveal_strlit("id");
    reveal_strlit("doc");
    assert("replace"@.len() == 7 && "delete"@.len() == 6 && "index"@.len() == 5 && "id"@.len() == 2 && "doc"@.len() == 3);
}

proof fn one_field(key: Seq<char>, value: JsonView)
    ensures
        object1(key, value).get(key) == Some(value),
        forall|name: Seq<char>| name != key ==> (#[trigger] object1(key, value).get(name)) is None,
{
    reveal_with_fuel(lookup, 2);
    let fields = seq![(key, value)];
    assert(fields.drop_first() =~= Seq::empty());
}

/// A command to replace stores the document under its id in the named index, and
/// one to delete removes what is stored under the id.
pub proof fn commands_store_and_remove(
    index: Map<Seq<char>, JsonView>,
    name: Seq<char>,
    id: Seq<char>,
    doc: JsonView,
)
    ensures
        carried(index, replace_command(name, id, doc)) == index.insert(id, doc),
        carried(index, delete_command(name, id)) == index.remove(id),
        is_for(replace_command(name, id, doc), name),
        is_for(delete_command(name, id), name),
{
    command_names_differ();
    nothing_is_found();
    with_is_found(no_fields(), "index"@, JsonView::Text(name));
    let f1 = no_fields().with("index"@, JsonView::Text(name));
    with_is_found(f1, "id"@, JsonView::Text(id));
    let f2 = f1.with("id"@, JsonView::Text(id));
    with_is_found(f2, "doc"@, doc);
    one_field("replace"@, JsonView::Object(f2.with("doc"@, doc)));
    one_field("delete"@, JsonView::Object(f2));
    assert(replace_command(name, id, doc).get("delete"@) is None);
    assert(delete_command(name, id).get("replace"@) is None);
}

proof fn deletions_remove(index: Map<Seq<char>, JsonView>, name: Seq<char>, ids: Seq<Seq<char>>)
    ensures
        ({
            let after = all_carried(index, delete_commands(name, ids));
            &&& forall|k: Seq<char>| #[trigger]
                after.contains_key(k) <==> index.contains_key(k) && !ids.contains(k)
            &&& forall|k: Seq<char>| after.contains_key(k) ==> #[trigger] after[k] == index[k]
        }),
        all_for(delete_commands(name, ids), name),
    decreases ids.len(),
{
    let commands = delete_commands(name, ids);
    assert forall|i: int| 0 <= i < commands.len() implies is_for(#[trigger] commands[i], name) by {
        commands_store_and_remove(index, name, ids[i], JsonView::Null);
    }
    if ids.len() > 0 {
        let rest = ids.drop_last();
        deletions_remove(index, name, rest);
        assert(commands.drop_last() =~= delete_commands(name, rest));
        let before = all_carried(index, delete_commands(name, rest));
        commands_store_and_remove(before, name, ids.last(), JsonView::Null);
        let after = all_carried(index, commands);
        assert(after == before.remove(ids.last()));
        assert forall|k: Seq<char>| #[trigger] after.contains_key(k) <==> index.contains_key(k) && !ids.contains(k) by {
            assert(ids.contains(k) <==> rest.contains(k) || k == ids.last()) by {
                if ids.contains(k) {
                    let i = choose|i: int| 0 <= i < ids.len() && ids[i] == k;
                    if i < rest.len() {
                        assert(rest[i] == k);
                    }
                }
                if rest.contains(k) {
                    let i = choose|i: int| 0 <= i < rest.len() && rest[i] == k;
                    assert(ids[i] == k);
                }
                assert(ids[ids.len() - 1] == ids.last());
            }
        }
    } else {
        assert forall|k: Seq<char>| !ids.contains(k) by {}
    }
}

// ---------------------------------------------------------------------------
// Literals
// ---------------------------------------------------------------------------

/// A literal feeds an index unless its subject is a blank node or its language
/// is not the wanted one or a narrower one; what is no literal feeds nothing.
pub proof fn language_decides_what_is_indexed(row: RowView, filter: Option<Seq<char>>)
    ensures
        indexed(row, filter) <==> {
            &&& row.field is Some
            &&& !"_:"@.is_prefix_of(row.subject)
            &&& filter matches Some(wanted) ==> (row.field->0.lang matches Some(tag) && (tag == wanted || (wanted
                + "-"@).is_prefix_of(tag)))
        },
{
}

/// Whether a row is the last that gives a subject its literal under a predicate.
pub open spec fn gives(
    rows: Seq<RowView>,
    filter: Option<Seq<char>>,
    i: int,
    subject: Seq<char>,
    predicate: Seq<char>,
) -> bool {
    &&& 0 <= i < rows.len()
    &&& rows[i].subject == subject && rows[i].predicate == predicate && indexed(rows[i], filter)
    &&& forall|j: int|
        i < j < rows.len() && (#[trigger] rows[j]).subject == subject && rows[j].predicate == predicate ==> !indexed(
            rows[j],
            filter,
        )
}

proof fn last_literal_counts(
    rows: Seq<RowView>,
    filter: Option<Seq<char>>,
    i: int,
    subject: Seq<char>,
    predicate: Seq<char>,
)
    requires
        gives(rows, filter, i, subject, predicate),
    ensures
        subject_fields(rows, filter, subject).contains_key(predicate),
        subject_fields(rows, filter, subject)[predicate] == rows[i].field->0,
    decreases rows.len(),
{
    let rest = rows.drop_last();
    if i < rest.len() {
        assert(rest[i] == rows[i]);
        assert forall|j: int|
            i < j < rest.len() && (#[trigger] rest[j]).subject == subject && rest[j].predicate
                == predicate implies !indexed(rest[j], filter) by {
            assert(rest[j] == rows[j]);
        }
        last_literal_counts(rest, filter, i, subject, predicate);
        assert(rows.last() == rows[rows.len() - 1]);
    }
}

proof fn text_field_is_found(fields: Seq<(Seq<char>, Seq<char>)>, i: int)
    requires
        0 <= i < fields.len(),
        forall|a: int, b: int| 0 <= a < b < fields.len() ==> (#[trigger] fields[a]).0 != (#[trigger] fields[b]).0,
    ensures
        lookup(text_fields(fields), fields[i].0) == Some(JsonView::Text(fields[i].1)),
    decreases fields.len(),
{
    let rest = fields.drop_last();
    text_fields_are_ordered(rest);
    with_is_found(text_fields(rest), fields.last().0, JsonView::Text(fields.last().1));
    if i < rest.len() {
        assert forall|a: int, b: int| 0 <= a < b < rest.len() implies (#[trigger] rest[a]).0 != (
        #[trigger] rest[b]).0 by {
            assert(fields[a].0 != fields[b].0);
        }
        text_field_is_found(rest, i);
        assert(rest[i] == fields[i]);
        assert(fields[i].0 != fields[fields.len() - 1].0);
    }
}

proof fn text_fields_are_ordered(fields: Seq<(Seq<char>, Seq<char>)>)
    ensures
        ascending(text_fields(fields)),
    decreases fields.len(),
{
    if fields.len() > 0 {
        text_fields_are_ordered(fields.drop_last());
        put_names(
            text_fields(fields.drop_last()),
            fields.last().0,
            JsonView::Text(fields.last().1),
        );
    }
}

proof fn document_shows(doc: DocView, rows: Seq<RowView>, filter: Option<Seq<char>>, i: int, predicate: Seq<char>)
    requires
        documents(doc, subject_fields(rows, filter, doc.id)),
        gives(rows, filter, i, doc.id, predicate),
        predicate != "lang"@,
    ensures
        doc_tree(doc.fields, doc.lang).get(predicate) == Some(JsonView::Text((rows[i].field->0).lex)),
{
    last_literal_counts(rows, filter, i, doc.id, predicate);
    let names = field_names(doc);
    assert(names.contains(predicate));
    let k = choose|k: int| 0 <= k < names.len() && names[k] == predicate;
    assert(doc.fields[k].0 == predicate);
    assert forall|a: int, b: int| 0 <= a < b < doc.fields.len() implies (#[trigger] doc.fields[a]).0 != (
    #[trigger] doc.fields[b]).0 by {
        if names[a] == names[b] {
            ascends_distinct(names, a, b);
        }
    }
    text_field_is_found(doc.fields, k);
    text_fields_are_ordered(doc.fields);
    match doc.lang {
        Some(tag) => with_is_found(text_fields(doc.fields), "lang"@, JsonView::Text(tag)),
        None => {},
    }
}

/// Whether a value is the tree of one of the documents with an id.
pub open spec fn is_tree_of(docs: Seq<DocView>, id: Seq<char>, v: JsonView) -> bool {
    exists|i: int| 0 <= i < docs.len() && (#[trigger] docs[i]).id == id && v == doc_tree(docs[i].fields, docs[i].lang)
}

proof fn documents_are_stored(index: Map<Seq<char>, JsonView>, name: Seq<char>, docs: Seq<DocView>)
    ensures
        ({
            let after = all_carried(index, replace_commands(name, docs));
            &&& forall|k: Seq<char>| #[trigger]
                after.contains_key(k) <==> index.contains_key(k) || has_key(docs, k)
            &&& forall|k: Seq<char>| has_key(docs, k) ==> is_tree_of(docs, k, #[trigger] after[k])
            &&& forall|k: Seq<char>| !has_key(docs, k) ==> #[trigger] after[k] == index[k]
        }),
        all_for(replace_commands(name, docs), name),
    decreases docs.len(),
{
    let commands = replace_commands(name, docs);
    assert forall|i: int| 0 <= i < commands.len() implies is_for(#[trigger] commands[i], name) by {
        commands_store_and_remove(index, name, docs[i].id, doc_tree(docs[i].fields, docs[i].lang));
    }
    if docs.len() > 0 {
        let rest = docs.drop_last();
        let last = docs.last();
        documents_are_stored(index, name, rest);
        assert(commands.drop_last() =~= replace_commands(name, rest));
        let before = all_carried(index, replace_commands(name, rest));
        let tree = doc_tree(last.fields, last.lang);
        commands_store_and_remove(before, name, last.id, tree);
        let after = all_carried(index, commands);
        assert(after == before.insert(last.id, tree));
        assert(docs[docs.len() - 1] == last);
        assert forall|k: Seq<char>| #[trigger] has_key(docs, k) <==> has_key(rest, k) || k == last.id by {
            if has_key(docs, k) {
                let i = choose|i: int| 0 <= i < docs.len() && (#[trigger] docs[i]).key() == k;
                if i < rest.len() {
                    assert(rest[i].key() == k);
                }
            }
            if has_key(rest, k) {
                let i = choose|i: int| 0 <= i < rest.len() && (#[trigger] rest[i]).key() == k;
                assert(docs[i].key() == k);
            }
            assert(docs[docs.len() - 1].key() == last.id);
        }
        assert forall|k: Seq<char>| has_key(docs, k) implies is_tree_of(docs, k, #[trigger] after[k]) by {
            if k != last.id {
                assert(is_tree_of(rest, k, before[k]));
                let i = choose|i: int|
                    0 <= i < rest.len() && (#[trigger] rest[i]).id == k && before[k] == doc_tree(
                        rest[i].fields,
                        rest[i].lang,
                    );
                assert(docs[i] == rest[i]);
            }
        }
        assert forall|k: Seq<char>| !has_key(docs, k) implies #[trigger] after[k] == index[k] by {
            assert(!has_key(rest, k));
        }
    } else {
        assert forall|k: Seq<char>| !has_key(docs, k) by {}
    }
}

/// Whether an index is where its tracker says: it has a document for each id that
/// is known, and where the hash is that of the present document, that document.
pub open spec fn in_step(
    index: Map<Seq<char>, JsonView>,
    known: Map<Seq<char>, Seq<char>>,
    docs: Seq<DocView>,
) -> bool {
    &&& forall|k: Seq<char>| #[trigger] index.contains_key(k) <==> known.contains_key(k)
    &&& forall|i: int|
        0 <= i < docs.len() && up_to_date((#[trigger] docs[i]).id, hashes_of(docs), known) ==> index[docs[i].id]
            == doc_tree(docs[i].fields, docs[i].lang)
}

/// The two batches of a sweep bring an index that is in step with its tracker to
/// what the graph says: it then has a document for each subject with a literal
/// that feeds it and for no other, and each document shows the subject's
/// literals under their predicates.
pub proof fn sweep_brings_the_index_to_the_graph(
    p: Plan,
    entry: fulltext_sweep::FulltextIndexConfig,
    rows: Seq<RowView>,
    known: Map<Seq<char>, Seq<char>>,
    index: Map<Seq<char>, JsonView>,
)
    requires
        plans(p, entry, rows, known),
        forall|docs: Seq<DocView>| #[trigger]
            graph_documents(docs, rows, opt_view(entry.lang_filter)) ==> in_step(index, known, docs),
    ensures
        exists|sent: Seq<JsonView>, gone: Seq<JsonView>|
            {
                let filter = opt_view(entry.lang_filter);
                &&& p.insert_body@ == #[trigger] lines_text(sent)
                &&& p.delete_body@ == #[trigger] lines_text(gone)
                &&& all_for(sent, entry.index@) && all_for(gone, entry.index@)
                &&& forall|s: Seq<char>| #[trigger]
                    all_carried(all_carried(index, sent), gone).contains_key(s) <==> exists|i: int|
                        0 <= i < rows.len() && (#[trigger] rows[i]).subject == s && indexed(rows[i], filter)
                &&& forall|i: int, s: Seq<char>, predicate: Seq<char>| #[trigger]
                    gives(rows, filter, i, s, predicate) && predicate != "lang"@ ==> all_carried(
                        all_carried(index, sent),
                        gone,
                    )[s].get(predicate) == Some(JsonView::Text((rows[i].field->0).lex))
            },
{
    let filter = opt_view(entry.lang_filter);
    let docs = choose|docs: Seq<DocView>| #[trigger]
        graph_documents(docs, rows, filter) && fulltext_sweep::texts(p.hashes@) == hashes_of(docs) && stably_sorts(
            views(p.inserts@),
            changed(docs, hashes_of(docs), known),
        ) && lists_gone(views(p.deletes@), ids_of(docs), known);
    let hashes = hashes_of(docs);
    let inserts = views(p.inserts@);
    let deletes = views(p.deletes@);
    let sent = replace_commands(entry.index@, inserts);
    let gone = delete_commands(entry.index@, deletes);
    lines_are_written(sent);
    lines_are_written(gone);
    let fresh = changed(docs, hashes, known);
    assert forall|k: Seq<char>| #[trigger] has_key(inserts, k) <==> ids_of(docs).contains(k) && !up_to_date(
        k,
        hashes,
        known,
    ) by {
        keys_are_the_changed(docs, hashes, known, inserts, k);
    }
    documents_are_stored(index, entry.index@, inserts);
    let middle = all_carried(index, sent);
    deletions_remove(middle, entry.index@, deletes);
    let after = all_carried(middle, gone);
    assert forall|s: Seq<char>| #[trigger] after.contains_key(s) <==> exists|i: int|
        0 <= i < rows.len() && (#[trigger] rows[i]).subject == s && indexed(rows[i], filter) by {
        assert(ids_of(docs).contains(s) <==> has_document(rows, filter, s));
        assert(deletes.contains(s) <==> known.contains_key(s) && !ids_of(docs).contains(s));
        assert(index.contains_key(s) <==> known.contains_key(s));
        if ids_of(docs).contains(s) && !has_key(inserts, s) {
            assert(up_to_date(s, hashes, known));
        }
    }
    assert forall|i: int, s: Seq<char>, predicate: Seq<char>| #[trigger]
        gives(rows, filter, i, s, predicate) && predicate != "lang"@ implies after[s].get(predicate) == Some(
        JsonView::Text((rows[i].field->0).lex),
    ) by {
        assert(has_document(rows, filter, s));
        assert(ids_of(docs).contains(s));
        let d = choose|d: int| 0 <= d < ids_of(docs).len() && ids_of(docs)[d] == s;
        let doc = docs[d];
        assert(documents(doc, subject_fields(rows, filter, doc.id)));
        document_shows(doc, rows, filter, i, predicate);
        assert(after.contains_key(s));
        if has_key(inserts, s) {
            assert(is_tree_of(inserts, s, middle[s]));
            let j = choose|j: int|
                0 <= j < inserts.len() && (#[trigger] inserts[j]).id == s && middle[s] == doc_tree(
                    inserts[j].fields,
                    inserts[j].lang,
                );
            sorted_member(inserts, fresh, j);
            fulltext_sweep::sends_exactly_the_changed(docs, hashes, known, inserts[j]);
            let e = choose|e: int| 0 <= e < docs.len() && docs[e] == inserts[j];
            assert(ids_of(docs)[e] == s);
            if e != d {
                ascends_distinct(ids_of(docs), d, e);
            }
        } else {
            assert(up_to_date(doc.id, hashes, known));
            assert(middle[s] == index[s]);
        }
    }
    assert(p.insert_body@ == lines_text(sent) && p.delete_body@ == lines_text(gone));
}

proof fn keys_are_the_changed(
    docs: Seq<DocView>,
    hashes: Map<Seq<char>, Seq<char>>,
    known: Map<Seq<char>, Seq<char>>,
    inserts: Seq<DocView>,
    k: Seq<char>,
)
    requires
        stably_sorts(inserts, changed(docs, hashes, known)),
    ensures
        has_key(inserts, k) <==> ids_of(docs).contains(k) && !up_to_date(k, hashes, known),
{
    let fresh = changed(docs, hashes, known);
    sorting_keeps_keys(inserts, fresh, k);
    if has_key(fresh, k) {
        let i = choose|i: int| 0 <= i < fresh.len() && (#[trigger] fresh[i]).key() == k;
        fulltext_sweep::sends_exactly_the_changed(docs, hashes, known, fresh[i]);
        assert(fresh.contains(fresh[i]));
        let j = choose|j: int| 0 <= j < docs.len() && docs[j] == fresh[i];
        assert(ids_of(docs)[j] == k);
    }
    if ids_of(docs).contains(k) && !up_to_date(k, hashes, known) {
        let j = choose|j: int| 0 <= j < ids_of(docs).len() && ids_of(docs)[j] == k;
        assert(docs.contains(docs[j]));
        fulltext_sweep::sends_exactly_the_changed(docs, hashes, known, docs[j]);
        let i = choose|i: int| 0 <= i < fresh.len() && fresh[i] == docs[j];
        assert(fresh[i].key() == k);
    }
}

// ---------------------------------------------------------------------------
// Documents
// ---------------------------------------------------------------------------

/// The address of a document of a store.
pub open spec fn address(database: Seq<char>, resource: Seq<char>, key: Seq<char>) -> Seq<char> {
    "sirix://"@ + database + "/"@ + resource + "/"@ + key
}

/// Whether a value of an index mirrors a document.
pub open spec fn mirrors(v: JsonView, uri: Seq<char>, row: document_sweep::DocRowView) -> bool {
    &&& v.get("_uri"@) == Some(JsonView::Text(uri))
    &&& v.get("_rev"@) == Some(JsonView::Unsigned(row.revision))
    &&& v.get("body"@) == Some(JsonView::Text(row.body))
    &&& v.get("content_type"@) == Some(JsonView::Text(row.content_type))
}

/// Whether one of the documents to be sent is mirrored by a value.
pub open spec fn mirrors_sent(docs: Seq<document_sweep::MirrorView>, uri: Seq<char>, v: JsonView) -> bool {
    exists|i: int|
        0 <= i < docs.len() && (#[trigger] docs[i]).uri == uri && mirrors(
            v,
            uri,
            document_sweep::DocRowView {
                node_key: Seq::empty(),
                revision: docs[i].revision,
                body: docs[i].body,
                content_type: docs[i].content_type,
            },
        )
}

proof fn mirror_is_found(m: document_sweep::MirrorView)
    ensures
        mirrors(
            document_sweep::mirror_tree(m),
            m.uri,
            document_sweep::DocRowView {
                node_key: Seq::empty(),
                revision: m.revision,
                body: m.body,
                content_type: m.content_type,
            },
        ),
{
    reveal_strlit("_uri");
    reveal_strlit("_rev");
    reveal_strlit("body");
    reveal_strlit("content_type");
    assert("_uri"@[1] != "_rev"@[1] && "_uri"@[0] != "body"@[0] && "_rev"@[0] != "body"@[0]);
    assert("content_type"@.len() == 12 && "_uri"@.len() == 4 && "_rev"@.len() == 4 && "body"@.len() == 4);
    nothing_is_found();
    with_is_found(no_fields(), "_uri"@, JsonView::Text(m.uri));
    let f1 = no_fields().with("_uri"@, JsonView::Text(m.uri));
    with_is_found(f1, "_rev"@, JsonView::Unsigned(m.revision));
    let f2 = f1.with("_rev"@, JsonView::Unsigned(m.revision));
    with_is_found(f2, "body"@, JsonView::Text(m.body));
    let f3 = f2.with("body"@, JsonView::Text(m.body));
    with_is_found(f3, "content_type"@, JsonView::Text(m.content_type));
}

proof fn mirrors_are_stored(index: Map<Seq<char>, JsonView>, name: Seq<char>, docs: Seq<document_sweep::MirrorView>)
    ensures
        ({
            let after = all_carried(index, document_sweep::replace_commands(name, docs));
            &&& forall|k: Seq<char>| #[trigger]
                after.contains_key(k) <==> index.contains_key(k) || has_key(docs, k)
            &&& forall|k: Seq<char>| has_key(docs, k) ==> mirrors_sent(docs, k, #[trigger] after[k])
            &&& forall|k: Seq<char>| !has_key(docs, k) ==> #[trigger] after[k] == index[k]
        }),
        all_for(document_sweep::replace_commands(name, docs), name),
    decreases docs.len(),
{
    let commands = document_sweep::replace_commands(name, docs);
    assert forall|i: int| 0 <= i < commands.len() implies is_for(#[trigger] commands[i], name) by {
        commands_store_and_remove(index, name, docs[i].uri, document_sweep::mirror_tree(docs[i]));
    }
    if docs.len() > 0 {
        let rest = docs.drop_last();
        let last = docs.last();
        mirrors_are_stored(index, name, rest);
        assert(commands.drop_last() =~= document_sweep::replace_commands(name, rest));
        let before = all_carried(index, document_sweep::replace_commands(name, rest));
        let tree = document_sweep::mirror_tree(last);
        mirror_is_found(last);
        commands_store_and_remove(before, name, last.uri, tree);
        let after = all_carried(index, commands);
        assert(after == before.insert(last.uri, tree));
        assert(docs[docs.len() - 1] == last);
        assert forall|k: Seq<char>| #[trigger] has_key(docs, k) <==> has_key(rest, k) || k == last.uri by {
            if has_key(docs, k) {
                let i = choose|i: int| 0 <= i < docs.len() && (#[trigger] docs[i]).key() == k;
                if i < rest.len() {
                    assert(rest[i].key() == k);
                }
            }
            if has_key(rest, k) {
                let i = choose|i: int| 0 <= i < rest.len() && (#[trigger] rest[i]).key() == k;
                assert(docs[i].key() == k);
            }
            assert(docs[docs.len() - 1].key() == last.uri);
        }
        assert forall|k: Seq<char>| has_key(docs, k) implies mirrors_sent(docs, k, #[trigger] after[k]) by {
            if k != last.uri {
                assert(mirrors_sent(rest, k, before[k]));
                let i = choose|i: int|
                    0 <= i < rest.len() && (#[trigger] rest[i]).uri == k && mirrors(
                        before[k],
                        k,
                        document_sweep::DocRowView {
                            node_key: Seq::empty(),
                            revision: rest[i].revision,
                            body: rest[i].body,
                            content_type: rest[i].content_type,
                        },
                    );
                assert(docs[i] == rest[i]);
            } else {
                assert(docs[docs.len() - 1].uri == k);
            }
        }
        assert forall|k: Seq<char>| !has_key(docs, k) implies #[trigger] after[k] == index[k] by {
            assert(!has_key(rest, k));
        }
    } else {
        assert forall|k: Seq<char>| !has_key(docs, k) by {}
    }
}

proof fn addresses_differ(database: Seq<char>, resource: Seq<char>, a: Seq<char>, b: Seq<char>)
    requires
        address(database, resource, a) == address(database, resource, b),
    ensures
        a == b,
{
    let front = "sirix://"@ + database + "/"@ + resource + "/"@;
    assert(address(database, resource, a).skip(front.len() as int) =~= a);
    assert(address(database, resource, b).skip(front.len() as int) =~= b);
}

/// Whether an index has what the store has: a value for each document's address
/// and for no other, and in each the document's body.
pub open spec fn has_bodies(
    index: Map<Seq<char>, JsonView>,
    entry: document_sweep::DocumentIndexConfig,
    rows: Seq<document_sweep::DocRowView>,
) -> bool {
    &&& forall|k: Seq<char>| #[trigger]
        index.contains_key(k) <==> exists|i: int|
            0 <= i < rows.len() && k == address(
                entry.sirix_database@,
                entry.sirix_resource@,
                (#[trigger] rows[i]).node_key,
            )
    &&& forall|i: int|
        0 <= i < rows.len() ==> index[address(
            entry.sirix_database@,
            entry.sirix_resource@,
            (#[trigger] rows[i]).node_key,
        )].get("body"@) == Some(JsonView::Text(rows[i].body))
}

/// The two batches of a mirror's sweep bring an index that is in step with its
/// tracker to what the store has: a value under each document's address and
/// under no other, with the document's body. What is sent mirrors the document's
/// address, revision, body and content type.
pub proof fn sweep_brings_the_mirror_to_the_store(
    p: document_sweep::Plan,
    entry: document_sweep::DocumentIndexConfig,
    rows: Seq<document_sweep::DocRowView>,
    known: Map<Seq<char>, document_sweep::KnownDoc>,
    index: Map<Seq<char>, JsonView>,
)
    requires
        document_sweep::plans(p, entry, rows, known),
        document_sweep::keys_differ(rows),
        forall|k: Seq<char>| #[trigger] index.contains_key(k) <==> known.contains_key(k),
        forall|i: int|
            0 <= i < rows.len() && document_sweep::unchanged(
                address(entry.sirix_database@, entry.sirix_resource@, (#[trigger] rows[i]).node_key),
                rows[i].body,
                known,
            ) ==> index[address(entry.sirix_database@, entry.sirix_resource@, rows[i].node_key)].get("body"@) == Some(
                JsonView::Text(rows[i].body),
            ),
    ensures
        exists|sent: Seq<JsonView>, gone: Seq<JsonView>|
            {
                &&& p.insert_body@ == #[trigger] lines_text(sent)
                &&& p.delete_body@ == #[trigger] lines_text(gone)
                &&& all_for(sent, entry.search_index@) && all_for(gone, entry.search_index@)
                &&& has_bodies(all_carried(all_carried(index, sent), gone), entry, rows)
                &&& forall|i: int|
                    0 <= i < rows.len() && !document_sweep::unchanged(
                        address(entry.sirix_database@, entry.sirix_resource@, (#[trigger] rows[i]).node_key),
                        rows[i].body,
                        known,
                    ) ==> mirrors(
                        all_carried(all_carried(index, sent), gone)[address(
                            entry.sirix_database@,
                            entry.sirix_resource@,
                            rows[i].node_key,
                        )],
                        address(entry.sirix_database@, entry.sirix_resource@, rows[i].node_key),
                        rows[i],
                    )
            },
{
    let (db, res) = (entry.sirix_database@, entry.sirix_resource@);
    let inserts = views(p.inserts@);
    let deletes = views(p.deletes@);
    let fresh = document_sweep::changed(rows, db, res, known);
    let uris = document_sweep::uris_of(rows, db, res);
    let sent = document_sweep::replace_commands(entry.search_index@, inserts);
    let gone = delete_commands(entry.search_index@, deletes);
    lines_are_written(sent);
    lines_are_written(gone);
    mirrors_are_stored(index, entry.search_index@, inserts);
    let middle = all_carried(index, sent);
    deletions_remove(middle, entry.search_index@, deletes);
    let after = all_carried(middle, gone);
    assert forall|k: Seq<char>| #[trigger] uris.contains(k) <==> exists|i: int|
        0 <= i < rows.len() && k == address(db, res, (#[trigger] rows[i]).node_key) by {
        if uris.contains(k) {
            let i = choose|i: int| 0 <= i < uris.len() && uris[i] == k;
            assert(k == address(db, res, rows[i].node_key));
        }
        if exists|i: int| 0 <= i < rows.len() && k == address(db, res, (#[trigger] rows[i]).node_key) {
            let i = choose|i: int| 0 <= i < rows.len() && k == address(db, res, (#[trigger] rows[i]).node_key);
            assert(uris[i] == k);
        }
    }
    assert forall|i: int| 0 <= i < rows.len() implies {
        let uri = address(db, res, (#[trigger] rows[i]).node_key);
        &&& after.contains_key(uri)
        &&& after[uri].get("body"@) == Some(JsonView::Text(rows[i].body))
        &&& !document_sweep::unchanged(uri, rows[i].body, known) ==> mirrors(after[uri], uri, rows[i])
    } by {
        mirror_is_brought(p, entry, rows, known, index, i);
    }
    assert forall|k: Seq<char>| #[trigger] after.contains_key(k) <==> exists|i: int|
        0 <= i < rows.len() && k == address(db, res, (#[trigger] rows[i]).node_key) by {
        if after.contains_key(k) && !uris.contains(k) {
            assert(!deletes.contains(k));
            assert(!known.contains_key(k));
            assert(has_key(inserts, k));
            sorting_keeps_keys(inserts, fresh, k);
            let j = choose|j: int| 0 <= j < fresh.len() && (#[trigger] fresh[j]).key() == k;
            assert(fresh.contains(fresh[j]));
            document_sweep::sends_exactly_the_changed(rows, db, res, known, fresh[j]);
            let i = choose|i: int|
                0 <= i < rows.len() && fresh[j] == document_sweep::mirror_of(#[trigger] rows[i], db, res);
            assert(k == address(db, res, rows[i].node_key));
        }
    }
    assert(has_bodies(after, entry, rows));
    assert(p.insert_body@ == lines_text(sent) && p.delete_body@ == lines_text(gone));
}

proof fn mirror_is_brought(
    p: document_sweep::Plan,
    entry: document_sweep::DocumentIndexConfig,
    rows: Seq<document_sweep::DocRowView>,
    known: Map<Seq<char>, document_sweep::KnownDoc>,
    index: Map<Seq<char>, JsonView>,
    i: int,
)
    requires
        document_sweep::plans(p, entry, rows, known),
        document_sweep::keys_differ(rows),
        forall|k: Seq<char>| #[trigger] index.contains_key(k) <==> known.contains_key(k),
        0 <= i < rows.len(),
        document_sweep::unchanged(
            address(entry.sirix_database@, entry.sirix_resource@, rows[i].node_key),
            rows[i].body,
            known,
        ) ==> index[address(entry.sirix_database@, entry.sirix_resource@, rows[i].node_key)].get("body"@) == Some(
            JsonView::Text(rows[i].body),
        ),
    ensures
        ({
            let uri = address(entry.sirix_database@, entry.sirix_resource@, rows[i].node_key);
            let after = all_carried(
                all_carried(index, document_sweep::replace_commands(entry.search_index@, views(p.inserts@))),
                delete_commands(entry.search_index@, views(p.deletes@)),
            );
            &&& after.contains_key(uri)
            &&& after[uri].get("body"@) == Some(JsonView::Text(rows[i].body))
            &&& !document_sweep::unchanged(uri, rows[i].body, known) ==> mirrors(after[uri], uri, rows[i])
        }),
{
    let (db, res) = (entry.sirix_database@, entry.sirix_resource@);
    let inserts = views(p.inserts@);
    let deletes = views(p.deletes@);
    let fresh = document_sweep::changed(rows, db, res, known);
    let uris = document_sweep::uris_of(rows, db, res);
    let uri = address(db, res, rows[i].node_key);
    mirrors_are_stored(index, entry.search_index@, inserts);
    let middle = all_carried(index, document_sweep::replace_commands(entry.search_index@, inserts));
    deletions_remove(middle, entry.search_index@, deletes);
    let m = document_sweep::mirror_of(rows[i], db, res);
    assert(uris[i] == uri);
    assert(uris.contains(uri));
    assert(!deletes.contains(uri));
    document_sweep::sends_exactly_the_changed(rows, db, res, known, m);
    sorting_keeps_keys(inserts, fresh, uri);
    if has_key(inserts, uri) {
        assert(mirrors_sent(inserts, uri, middle[uri]));
        let j = choose|j: int|
            0 <= j < inserts.len() && (#[trigger] inserts[j]).uri == uri && mirrors(
                middle[uri],
                uri,
                document_sweep::DocRowView {
                    node_key: Seq::empty(),
                    revision: inserts[j].revision,
                    body: inserts[j].body,
                    content_type: inserts[j].content_type,
                },
            );
        sorted_member(inserts, fresh, j);
        document_sweep::sends_exactly_the_changed(rows, db, res, known, inserts[j]);
        let k = choose|k: int|
            0 <= k < rows.len() && inserts[j] == document_sweep::mirror_of(#[trigger] rows[k], db, res);
        addresses_differ(db, res, rows[k].node_key, rows[i].node_key);
        if k < i {
            assert(rows[k].node_key != rows[i].node_key);
        } else if i < k {
            assert(rows[i].node_key != rows[k].node_key);
        }
        assert(k == i);
    } else {
        if !document_sweep::unchanged(uri, rows[i].body, known) {
            assert(fresh.contains(m));
            let j = choose|j: int| 0 <= j < fresh.len() && fresh[j] == m;
            assert(fresh[j].key() == uri);
            assert(false);
        }
        assert(middle[uri] == index[uri]);
    }
}

} // verus!

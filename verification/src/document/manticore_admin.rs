//! Changes of the search backend's index of documents.

use vstd::prelude::*;
use vstd::string::*;

use crate::bulk::{
    all_framed, command_lines, command_lines_push, count_or_error, delete_commands, delete_lines,
    doc_json, doc_tree, done_text, push_command, read_done, replace_command, replace_json,
    replacing_texts_is_plain,
};
use crate::json::JsonView;
use crate::text::{opt_view, views};

verus! {

/// A document for the index.
#[derive(Debug, PartialEq, Eq)]
pub struct PlainDocWrite {
    pub id: String,
    pub fields: Vec<(String, String)>,
    pub lang: Option<String>,
}

/// The commands that store documents, in order.
pub open spec fn replace_commands(index: Seq<char>, docs: Seq<PlainDocWrite>) -> Seq<JsonView> {
    Seq::new(
        docs.len(),
        |i: int|
            replace_command(index, docs[i].id@, doc_tree(views(docs[i].fields@), opt_view(docs[i].lang))),
    )
}

/// One line per document. A document that is sent again replaces itself.
pub fn build_bulk_body(index: &str, docs: &[PlainDocWrite]) -> (r: String)
    ensures
        r@ == command_lines(replace_commands(index@, docs@)),
        all_framed(replace_commands(index@, docs@)),
{
    let mut out = String::new();
    let ghost all = replace_commands(index@, docs@);
    let n: usize = docs.len();
    proof {
        assert(command_lines(all.take(0)) =~= Seq::<char>::empty());
    }
    for i in 0..n
        invariant
            n == docs@.len(),
            all == replace_commands(index@, docs@),
            out@ == command_lines(all.take(i as int)),
            all_framed(all.take(i as int)),
    {
        let command = replace_json(index, &docs[i].id, doc_json(&docs[i].fields, &docs[i].lang));
        push_command(&mut out, &command);
        proof {
            replacing_texts_is_plain(index@, docs@[i as int].id@, views(docs@[i as int].fields@), opt_view(docs@[i as int].lang));
            assert(all[i as int] == command@);
            assert(all.take(i + 1) =~= all.take(i as int).push(command@));
            command_lines_push(all.take(i as int), command@);
        }
    }
    proof {
        assert(all.take(n as int) =~= all);
    }
    out
}

/// One line per id to delete.
pub fn build_delete_body(index: &str, ids: &[String]) -> (r: String)
    ensures
        r@ == command_lines(delete_commands(index@, views(ids@))),
        all_framed(delete_commands(index@, views(ids@))),
{
    delete_lines(index, ids)
}

/// How many commands the reply reports as done.
pub fn parse_bulk_response(json_str: &str) -> (r: Result<u32, String>)
    ensures
        count_or_error(r) == done_text("wf_document"@, json_str@),
{
    read_done("wf_document", json_str)
}

} // verus!

//! The bulk protocol of the search backend: one JSON command per line, and
//! the reply.

use vstd::prelude::*;
use vstd::string::*;

use crate::json::{
    all_wf, array_field, fields_plain, fields_wf, get_array, json_parse, json_text, no_fields,
    no_fields_wf, object1, object1_wf, object_of, object_view, put, put_field, put_plain, put_wf,
    reads_as, Fields, Json, JsonView,
};
use crate::text::{concatenated, concatenated_push, count_of, count_of_absent, count_of_sum, views};

verus! {

// ---------------------------------------------------------------------------
// Commands
// ---------------------------------------------------------------------------

/// The command that stores `doc` under `id`.
pub open spec fn replace_command(index: Seq<char>, id: Seq<char>, doc: JsonView) -> JsonView {
    object1(
        "replace"@,
        JsonView::Object(
            no_fields().with("index"@, JsonView::Text(index)).with("id"@, JsonView::Text(id)).with(
                "doc"@,
                doc,
            ),
        ),
    )
}

/// The command that deletes what is stored under `id`.
pub open spec fn delete_command(index: Seq<char>, id: Seq<char>) -> JsonView {
    object1(
        "delete"@,
        JsonView::Object(
            no_fields().with("index"@, JsonView::Text(index)).with("id"@, JsonView::Text(id)),
        ),
    )
}

/// The fields of a document, later ones of a name replacing earlier ones, and
/// its language where that is not empty.
pub open spec fn text_fields(fields: Seq<(Seq<char>, Seq<char>)>) -> Seq<(Seq<char>, JsonView)>
    decreases fields.len(),
{
    if fields.len() == 0 {
        no_fields()
    } else {
        put(
            text_fields(fields.drop_last()),
            fields.last().0,
            JsonView::Text(fields.last().1),
        )
    }
}

pub open spec fn doc_tree(fields: Seq<(Seq<char>, Seq<char>)>, lang: Option<Seq<char>>) -> JsonView {
    match lang {
        Some(tag) => if tag.len() > 0 {
            JsonView::Object(text_fields(fields).with("lang"@, JsonView::Text(tag)))
        } else {
            JsonView::Object(text_fields(fields))
        },
        None => JsonView::Object(text_fields(fields)),
    }
}

/// The text of one command: its JSON on a line.
pub open spec fn command_line(command: JsonView) -> Seq<char> {
    json_text(command) + "\n"@
}

/// The text of a list of commands.
pub open spec fn command_lines(commands: Seq<JsonView>) -> Seq<char> {
    concatenated(Seq::new(commands.len(), |i: int| command_line(commands[i])))
}

pub proof fn command_lines_push(commands: Seq<JsonView>, command: JsonView)
    ensures
        command_lines(commands.push(command)) == command_lines(commands) + command_line(command),
{
    let lines = Seq::new(commands.len(), |i: int| command_line(commands[i]));
    let all = commands.push(command);
    assert(Seq::new(all.len(), |i: int| command_line(all[i])) =~= lines.push(command_line(command)));
    concatenated_push(lines, command_line(command));
}

/// Whether a command's text is one line that reads as the command.
pub open spec fn framed(command: JsonView) -> bool {
    !json_text(command).contains('\n') && reads_as(json_text(command), command)
}

pub open spec fn all_framed(commands: Seq<JsonView>) -> bool {
    forall|i: int| 0 <= i < commands.len() ==> framed(#[trigger] commands[i])
}

/// A list of commands has as many lines as commands.
pub proof fn one_line_each(commands: Seq<JsonView>)
    requires
        all_framed(commands),
    ensures
        count_of(command_lines(commands), '\n') == commands.len(),
    decreases commands.len(),
{
    if commands.len() == 0 {
        assert(command_lines(commands) =~= Seq::<char>::empty());
    } else {
        let rest = commands.drop_last();
        let last = commands.last();
        assert(framed(commands[commands.len() - 1]));
        assert forall|i: int| 0 <= i < rest.len() implies framed(#[trigger] rest[i]) by {
            assert(framed(commands[i]));
        }
        one_line_each(rest);
        assert(commands =~= rest.push(last));
        command_lines_push(rest, last);
        count_of_sum(command_lines(rest), command_line(last), '\n');
        count_of_sum(json_text(last), "\n"@, '\n');
        count_of_absent(json_text(last), '\n');
        reveal_strlit("\n");
        assert("\n"@.drop_last() =~= Seq::<char>::empty());
        reveal_with_fuel(count_of, 2);
    }
}

/// A command that replaces a document of scalar fields is plain.
pub proof fn replacing_is_plain(index: Seq<char>, id: Seq<char>, fields: Seq<(Seq<char>, JsonView)>)
    requires
        fields_plain(fields, 0),
    ensures
        replace_command(index, id, JsonView::Object(fields)).plain(127),
{
    let doc = JsonView::Object(fields);
    assert(doc.plain(125)) by {
        assert forall|i: int| 0 <= i < fields.len() implies (#[trigger] fields[i]).1.plain(124) by {
            assert(fields[i].1.plain(0));
        }
    }
    let one = no_fields().with("index"@, JsonView::Text(index));
    let two = one.with("id"@, JsonView::Text(id));
    put_plain(no_fields(), "index"@, JsonView::Text(index), 125);
    put_plain(one, "id"@, JsonView::Text(id), 125);
    put_plain(two, "doc"@, doc, 125);
    assert(JsonView::Object(two.with("doc"@, doc)).plain(126));
}

proof fn deleting_is_plain(index: Seq<char>, id: Seq<char>)
    ensures
        delete_command(index, id).plain(127),
{
    let one = no_fields().with("index"@, JsonView::Text(index));
    put_plain(no_fields(), "index"@, JsonView::Text(index), 125);
    put_plain(one, "id"@, JsonView::Text(id), 125);
    assert(JsonView::Object(one.with("id"@, JsonView::Text(id))).plain(126));
}

proof fn text_fields_plain(fields: Seq<(Seq<char>, Seq<char>)>)
    ensures
        fields_plain(text_fields(fields), 0),
    decreases fields.len(),
{
    if fields.len() > 0 {
        text_fields_plain(fields.drop_last());
        put_plain(text_fields(fields.drop_last()), fields.last().0, JsonView::Text(fields.last().1), 0);
    }
}

/// A command that replaces a document of text fields is plain.
pub proof fn replacing_texts_is_plain(
    index: Seq<char>,
    id: Seq<char>,
    fields: Seq<(Seq<char>, Seq<char>)>,
    lang: Option<Seq<char>>,
)
    ensures
        replace_command(index, id, doc_tree(fields, lang)).plain(127),
{
    text_fields_plain(fields);
    if let Some(tag) = lang {
        put_plain(text_fields(fields), "lang"@, JsonView::Text(tag), 0);
    }
    replacing_is_plain(index, id, doc_tree(fields, lang)->Object_0);
}

pub fn replace_json(index: &str, id: &str, doc: Json) -> (r: Json)
    ensures
        r@ == replace_command(index@, id@, doc@),
        doc@.wf() ==> r@.wf(),
{
    broadcast use {no_fields_wf, object1_wf, put_wf, object_view};

    let mut fields: Vec<(String, Json)> = Vec::new();
    proof {
        assert(views(fields@) =~= no_fields());
    }
    put_field(&mut fields, "index", Json::text(index));
    put_field(&mut fields, "id", Json::text(id));
    put_field(&mut fields, "doc", doc);
    object_of("replace", Json::Object(fields))
}

pub fn delete_json(index: &str, id: &str) -> (r: Json)
    ensures
        r@ == delete_command(index@, id@),
        r@.wf(),
{
    broadcast use {no_fields_wf, object1_wf, put_wf, object_view};

    let mut fields: Vec<(String, Json)> = Vec::new();
    proof {
        assert(views(fields@) =~= no_fields());
    }
    put_field(&mut fields, "index", Json::text(index));
    put_field(&mut fields, "id", Json::text(id));
    object_of("delete", Json::Object(fields))
}

/// The tree of a document with text fields.
pub fn doc_json(fields: &Vec<(String, String)>, lang: &Option<String>) -> (r: Json)
    ensures
        r@ == doc_tree(views(fields@), crate::text::opt_view(*lang)),
        r@.wf(),
{
    broadcast use {no_fields_wf, put_wf, object_view};

    let ghost all = views(fields@);
    let mut out: Vec<(String, Json)> = Vec::new();
    proof {
        assert(views(out@) =~= no_fields());
        assert(all.take(0) =~= Seq::<(Seq<char>, Seq<char>)>::empty());
    }
    for i in 0..fields.len()
        invariant
            all == views(fields@),
            views(out@) == text_fields(all.take(i as int)),
            fields_wf(views(out@)),
    {
        proof {
            assert(all[i as int] == (fields@[i as int].0@, fields@[i as int].1@));
            assert(all.take(i + 1).drop_last() =~= all.take(i as int));
        }
        put_field(&mut out, &fields[i].0, Json::text(&fields[i].1));
    }
    proof {
        assert(all.take(all.len() as int) =~= all);
    }
    match lang {
        Some(tag) => {
            if !tag.as_str().is_empty() {
                put_field(&mut out, "lang", Json::text(tag));
            }
        },
        None => {},
    }
    Json::Object(out)
}

/// Appends a command to the lines.
pub fn push_command(out: &mut String, command: &Json)
    requires
        command@.wf(),
    ensures
        final(out)@ == old(out)@ + command_line(command@),
        command@.plain(127) ==> framed(command@),
{
    let line = command.render();
    let ghost start = out@;
    out.append(&line);
    out.append("\n");
    proof {
        assert(start + line@ + "\n"@ =~= start + command_line(command@));
    }
}

/// The commands that delete the documents with the given ids.
pub open spec fn delete_commands(index: Seq<char>, ids: Seq<Seq<char>>) -> Seq<JsonView> {
    Seq::new(ids.len(), |i: int| delete_command(index, ids[i]))
}

/// One delete command per id, in order.
pub fn delete_lines(index: &str, ids: &[String]) -> (r: String)
    ensures
        r@ == command_lines(delete_commands(index@, views(ids@))),
        all_framed(delete_commands(index@, views(ids@))),
{
    let mut out = String::new();
    let ghost all = delete_commands(index@, views(ids@));
    let n: usize = ids.len();
    proof {
        assert(command_lines(all.take(0)) =~= Seq::<char>::empty());
    }
    for i in 0..n
        invariant
            n == ids@.len(),
            all == delete_commands(index@, views(ids@)),
            out@ == command_lines(all.take(i as int)),
            all_framed(all.take(i as int)),
    {
        let command = delete_json(index, &ids[i]);
        push_command(&mut out, &command);
        proof {
            deleting_is_plain(index@, ids@[i as int]@);
            assert(all[i as int] == command@);
            assert(all.take(i + 1) =~= all.take(i as int).push(command@));
            command_lines_push(all.take(i as int), command@);
        }
    }
    proof {
        assert(all.take(n as int) =~= all);
    }
    out
}

// ---------------------------------------------------------------------------
// Reply
// ---------------------------------------------------------------------------

/// What a reply says of its batch: it landed where the reply says that there were
/// no errors, and nowhere else.
pub open spec fn verdict(reply: JsonView) -> Result<(), Seq<char>> {
    let clear = match reply.get("errors"@) {
        Some(flag) => flag.as_bool() == Some(false),
        None => false,
    };
    if !clear {
        Err(
            "backend reported errors: "@ + match reply.get("items"@) {
                Some(items) => json_text(items),
                None => "<no items>"@,
            },
        )
    } else {
        Ok(())
    }
}

/// What the text of a reply says of its batch.
pub open spec fn text_verdict(text: Seq<char>) -> Result<(), Seq<char>> {
    match json_parse(text) {
        Ok(reply) => verdict(reply),
        Err(message) => Err("bulk response not JSON: "@ + message),
    }
}

/// Whether a reply accepts its batch.
pub fn judge(reply: &Json) -> (r: Result<(), String>)
    requires
        reply@.wf(),
    ensures
        match r {
            Ok(_) => verdict(reply@) is Ok,
            Err(message) => verdict(reply@) == Err::<(), Seq<char>>(message@),
        },
{
    let clear = match reply.get("errors") {
        Some(flag) => match flag.as_bool() {
            Some(b) => !b,
            None => false,
        },
        None => false,
    };
    if !clear {
        let items = match reply.get("items") {
            Some(items) => items.render(),
            None => "<no items>".to_owned(),
        };
        return Err("backend reported errors: ".to_owned().concat(&items));
    }
    Ok(())
}

/// Whether the text of a reply accepts its batch.
pub fn bulk_response_ok(body: &str) -> (r: Result<(), String>)
    ensures
        match r {
            Ok(_) => text_verdict(body@) is Ok,
            Err(message) => text_verdict(body@) == Err::<(), Seq<char>>(message@),
        },
{
    match Json::parse(body) {
        Ok(reply) => judge(&reply),
        Err(message) => Err("bulk response not JSON: ".to_owned().concat(&message)),
    }
}

// ---------------------------------------------------------------------------
// Reply, item by item
// ---------------------------------------------------------------------------

/// What an item of a reply reports: the command and what the backend says of
/// it.
pub open spec fn item_report(item: JsonView) -> Option<(Seq<char>, JsonView)> {
    match item {
        JsonView::Object(fields) => if fields.len() > 0 {
            Some(fields[0])
        } else {
            None
        },
        _ => None,
    }
}

/// The error that an item reports.
pub open spec fn item_error(component: Seq<char>, item: JsonView) -> Option<Seq<char>> {
    match item_report(item) {
        Some((op, payload)) => match payload.get("error"@) {
            Some(error) => Some(
                component + ": bulk item `"@ + op + "` id="@ + (match payload.get("_id"@) {
                    Some(id) => json_text(id),
                    None => "<unknown>"@,
                }) + " error: "@ + json_text(error),
            ),
            None => None,
        },
        None => None,
    }
}

/// How many items report no error.
pub open spec fn good_items(items: Seq<JsonView>) -> nat
    decreases items.len(),
{
    if items.len() == 0 {
        0
    } else {
        let before = good_items(items.drop_last());
        match item_report(items.last()) {
            Some((_, payload)) => if payload.get("error"@) is None {
                before + 1
            } else {
                before
            },
            None => before,
        }
    }
}

/// The first error that an item reports.
pub open spec fn first_error(component: Seq<char>, items: Seq<JsonView>) -> Option<Seq<char>>
    decreases items.len(),
{
    if items.len() == 0 {
        None
    } else {
        match first_error(component, items.drop_last()) {
            Some(e) => Some(e),
            None => item_error(component, items.last()),
        }
    }
}

/// How many commands a reply reports as done, or the first error where it flags
/// one.
pub open spec fn done_of(component: Seq<char>, root: JsonView) -> Result<u32, Seq<char>> {
    match array_field(root, "items"@) {
        None => Err(component + ": bulk response missing `items` array"@),
        Some(items) => {
            let flagged = match root.get("errors"@) {
                Some(flag) => flag.as_bool() == Some(true),
                None => false,
            };
            if flagged {
                Err(
                    match first_error(component, items) {
                        Some(e) => e,
                        None => component
                            + ": bulk response signalled errors but items contained none"@,
                    },
                )
            } else {
                Ok(good_items(items) as u32)
            }
        },
    }
}

/// The view of a count or an error message.
pub open spec fn count_or_error(r: Result<u32, String>) -> Result<u32, Seq<char>> {
    match r {
        Ok(n) => Ok(n),
        Err(e) => Err(e@),
    }
}

fn report<'a>(item: &'a Json) -> (r: Option<(&'a String, &'a Json)>)
    ensures
        match r {
            Some((op, payload)) => item_report(item@) == Some((op@, payload@)),
            None => item_report(item@) is None,
        },
        r matches Some((_, payload)) ==> item@.wf() ==> payload@.wf(),
{
    match item.as_object() {
        Some(fields) => if fields.len() > 0 {
            proof {
                assert(views(fields@)[0] == (fields@[0].0@, fields@[0].1@));
                if item@.wf() {
                    assert(views(fields@)[0].1.wf());
                }
            }
            Some((&fields[0].0, &fields[0].1))
        } else {
            None
        },
        None => None,
    }
}

fn error_of(component: &str, item: &Json) -> (r: Option<String>)
    requires
        item@.wf(),
    ensures
        crate::text::opt_view(r) == item_error(component@, item@),
{
    match report(item) {
        Some((op, payload)) => match payload.get("error") {
            Some(error) => {
                let id = match payload.get("_id") {
                    Some(id) => id.render(),
                    None => "<unknown>".to_owned(),
                };
                Some(
                    component.to_owned().concat(": bulk item `").concat(op).concat("` id=").concat(&id).concat(
                        " error: ",
                    ).concat(&error.render()),
                )
            },
            None => None,
        },
        None => None,
    }
}

/// Counts what a reply reports as done.
pub fn count_done(component: &str, root: &Json) -> (r: Result<u32, String>)
    requires
        root@.wf(),
    ensures
        count_or_error(r) == done_of(component@, root@),
{
    let items = match get_array(root, "items") {
        Some(items) => items,
        None => {
            return Err(component.to_owned().concat(": bulk response missing `items` array"));
        },
    };
    let flagged = match root.get("errors") {
        Some(flag) => match flag.as_bool() {
            Some(b) => b,
            None => false,
        },
        None => false,
    };
    let ghost all = views(items@);
    let mut done: usize = 0;
    let mut failed: Option<String> = None;
    for i in 0..items.len()
        invariant
            all == views(items@),
            all_wf(all),
            done <= i,
            done == good_items(all.take(i as int)),
            crate::text::opt_view(failed) == first_error(component@, all.take(i as int)),
    {
        proof {
            assert(all.take(i + 1).drop_last() =~= all.take(i as int));
            assert(all[i as int] == items@[i as int]@);
            assert(all[i as int].wf());
        }
        match report(&items[i]) {
            Some((_, payload)) => {
                if payload.get("error").is_none() {
                    done = done + 1;
                }
            },
            None => {},
        }
        if failed.is_none() {
            failed = error_of(component, &items[i]);
        }
    }
    proof {
        assert(all.take(all.len() as int) =~= all);
    }
    if flagged {
        Err(
            match failed {
                Some(e) => e,
                None => component.to_owned().concat(": bulk response signalled errors but items contained none"),
            },
        )
    } else {
        Ok(done as u32)
    }
}

/// What the text of a reply reports as done.
pub open spec fn done_text(component: Seq<char>, text: Seq<char>) -> Result<u32, Seq<char>> {
    match json_parse(text) {
        Err(message) => Err(component + ": bulk response is not valid JSON: "@ + message),
        Ok(root) => done_of(component, root),
    }
}

/// Reads the text of a reply.
pub fn read_done(component: &str, text: &str) -> (r: Result<u32, String>)
    ensures
        count_or_error(r) == done_text(component@, text@),
{
    match Json::parse(text) {
        Ok(root) => count_done(component, &root),
        Err(message) => Err(
            component.to_owned().concat(": bulk response is not valid JSON: ").concat(&message),
        ),
    }
}

} // verus!

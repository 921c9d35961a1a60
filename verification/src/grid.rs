//! Tables in JSON replies: named columns, rows of cells.

use vstd::prelude::*;
use vstd::string::*;

use crate::json::{json_text, Json, JsonView};
use crate::number::{parse_u64, u64_of};
use crate::text::{lower_all, same_ignoring_case, starts_with, trim_start, trimmed_start, views};

verus! {

/// The names of the columns; a column without a name is called by the empty
/// string.
pub open spec fn name_of(column: JsonView) -> Seq<char> {
    match column.as_text() {
        Some(s) => s,
        None => Seq::empty(),
    }
}

pub open spec fn names_of(columns: Seq<JsonView>) -> Seq<Seq<char>> {
    Seq::new(columns.len(), |i: int| name_of(columns[i]))
}

/// The first position of `want` among the names, whatever the case of ASCII
/// letters.
pub open spec fn position_of(names: Seq<Seq<char>>, want: Seq<char>) -> Option<nat>
    decreases names.len(),
{
    if names.len() == 0 {
        None
    } else if lower_all(names[0]) == lower_all(want) {
        Some(0)
    } else {
        match position_of(names.drop_first(), want) {
            Some(n) => Some(n + 1),
            None => None,
        }
    }
}

pub proof fn position_in_range(names: Seq<Seq<char>>, want: Seq<char>)
    ensures
        position_of(names, want) matches Some(n) ==> n < names.len(),
    decreases names.len(),
{
    if names.len() > 0 {
        position_in_range(names.drop_first(), want);
    }
}

/// The position of the first candidate that names a column.
pub open spec fn column_of(names: Seq<Seq<char>>, candidates: Seq<Seq<char>>) -> Option<nat>
    decreases candidates.len(),
{
    if candidates.len() == 0 {
        None
    } else {
        match position_of(names, candidates[0]) {
            Some(n) => Some(n),
            None => column_of(names, candidates.drop_first()),
        }
    }
}

/// The columns of a row: each cell with the name of its column, whatever the case
/// of ASCII letters.
pub open spec fn labelled(names: Seq<Seq<char>>, cells: Seq<JsonView>) -> Seq<(Seq<char>, JsonView)> {
    Seq::new(names.len(), |i: int| (lower_all(names[i]), cells[i]))
}

/// The cell under the first candidate that names a column.
pub open spec fn cell_under(names: Seq<Seq<char>>, cells: Seq<JsonView>, candidates: Seq<Seq<char>>) -> Option<
    JsonView,
> {
    match column_of(names, candidates) {
        Some(at) => cell_at(cells, at),
        None => None,
    }
}

proof fn position_names(names: Seq<Seq<char>>, want: Seq<char>)
    ensures
        match position_of(names, want) {
            Some(n) => n < names.len() && lower_all(names[n as int]) == lower_all(want),
            None => forall|i: int| 0 <= i < names.len() ==> lower_all(#[trigger] names[i]) != lower_all(want),
        },
    decreases names.len(),
{
    if names.len() > 0 {
        let rest = names.drop_first();
        position_names(rest, want);
        assert forall|i: int| 0 < i < names.len() implies #[trigger] names[i] == rest[i - 1] by {}
    }
}

/// Whether no two columns have one name, whatever the case of ASCII letters.
pub open spec fn names_differ(names: Seq<Seq<char>>) -> bool {
    forall|i: int, j: int|
        0 <= i < j < names.len() ==> lower_all(#[trigger] names[i]) != lower_all(#[trigger] names[j])
}

/// A cell is found by the name of its column, never by its position: the order
/// of the columns and the case of their names do not matter.
pub proof fn cells_are_found_by_name(
    names: Seq<Seq<char>>,
    cells: Seq<JsonView>,
    turned_names: Seq<Seq<char>>,
    turned_cells: Seq<JsonView>,
    candidates: Seq<Seq<char>>,
)
    requires
        cells.len() == names.len(),
        turned_cells.len() == turned_names.len(),
        names_differ(names),
        labelled(names, cells).to_multiset() == labelled(turned_names, turned_cells).to_multiset(),
    ensures
        column_of(names, candidates) is Some <==> column_of(turned_names, candidates) is Some,
        cell_under(names, cells, candidates) == cell_under(turned_names, turned_cells, candidates),
        column_of(names, candidates) is Some ==> cell_under(names, cells, candidates) is Some,
    decreases candidates.len(),
{
    if candidates.len() > 0 {
        let want = candidates[0];
        let a = labelled(names, cells);
        let b = labelled(turned_names, turned_cells);
        assert forall|x: (Seq<char>, JsonView)| a.contains(x) <==> b.contains(x) by {
            a.to_multiset_ensures();
            b.to_multiset_ensures();
            assert(a.contains(x) <==> a.to_multiset().count(x) > 0);
            assert(b.contains(x) <==> b.to_multiset().count(x) > 0);
        }
        position_names(names, want);
        position_names(turned_names, want);
        cells_are_found_by_name(names, cells, turned_names, turned_cells, candidates.drop_first());
        if let Some(n) = position_of(names, want) {
            assert(a.contains(a[n as int]));
            let j = choose|j: int| 0 <= j < b.len() && b[j] == a[n as int];
            assert(lower_all(turned_names[j]) == lower_all(want));
        }
        if let Some(m) = position_of(turned_names, want) {
            assert(b.contains(b[m as int]));
            let i = choose|i: int| 0 <= i < a.len() && a[i] == b[m as int];
            assert(lower_all(names[i]) == lower_all(want));
            assert(cells[i] == turned_cells[m as int]);
            let n = position_of(names, want)->0 as int;
            assert(i == n) by {
                assert(lower_all(names[n]) == lower_all(names[i]));
            }
        }
    }
}

/// The view of an optional position.
pub open spec fn pos_view(p: Option<usize>) -> Option<nat> {
    match p {
        Some(n) => Some(n as nat),
        None => None,
    }
}

pub fn column_names(columns: &Vec<Json>) -> (r: Vec<String>)
    ensures
        views(r@) == names_of(views(columns@)),
{
    let mut r: Vec<String> = Vec::new();
    for i in 0..columns.len()
        invariant
            r@.len() == i,
            forall|j: int| 0 <= j < i ==> (#[trigger] r@[j])@ == name_of(columns@[j]@),
    {
        let name = match columns[i].as_text() {
            Some(s) => s.clone(),
            None => String::new(),
        };
        proof {
            assert(name@ =~= name_of(columns@[i as int]@));
        }
        r.push(name);
    }
    proof {
        assert(views(r@) =~= names_of(views(columns@)));
    }
    r
}

pub fn position(names: &Vec<String>, want: &str) -> (r: Option<usize>)
    ensures
        pos_view(r) == position_of(views(names@), want@),
        r matches Some(i) ==> i < names@.len(),
{
    let ghost all = views(names@);
    proof {
        assert(all.skip(0) =~= all);
    }
    for i in 0..names.len()
        invariant
            all == views(names@),
            position_of(all, want@) == match position_of(all.skip(i as int), want@) {
                Some(n) => Some(n + i as nat),
                None => None,
            },
    {
        proof {
            assert(all.skip(i as int).drop_first() =~= all.skip(i + 1));
            assert(all[i as int] == names@[i as int]@);
        }
        if same_ignoring_case(&names[i], want) {
            return Some(i);
        }
    }
    None
}

pub fn column(names: &Vec<String>, candidates: &Vec<&str>) -> (r: Option<usize>)
    ensures
        pos_view(r) == column_of(views(names@), views(candidates@)),
        r matches Some(i) ==> i < names@.len(),
{
    let ghost all = views(candidates@);
    proof {
        assert(all.skip(0) =~= all);
    }
    for i in 0..candidates.len()
        invariant
            all == views(candidates@),
            column_of(views(names@), all) == column_of(views(names@), all.skip(i as int)),
    {
        proof {
            assert(all.skip(i as int).drop_first() =~= all.skip(i + 1));
            assert(all[i as int] == candidates@[i as int]@);
        }
        match position(names, candidates[i]) {
            Some(n) => {
                return Some(n);
            },
            None => {},
        }
    }
    None
}

/// The cell at a position of a row.
pub open spec fn cell_at(cells: Seq<JsonView>, at: nat) -> Option<JsonView> {
    if at < cells.len() {
        Some(cells[at as int])
    } else {
        None
    }
}

pub fn cell(cells: &Vec<Json>, at: usize) -> (r: Option<&Json>)
    ensures
        match r {
            Some(c) => cell_at(views(cells@), at as nat) == Some(c@),
            None => cell_at(views(cells@), at as nat) is None,
        },
        r matches Some(c) ==> at < cells@.len() && *c == cells@[at as int],
{
    if at < cells.len() {
        Some(&cells[at])
    } else {
        None
    }
}

// ---------------------------------------------------------------------------
// What a cell holds
// ---------------------------------------------------------------------------

/// A cell as an unsigned integer: a number, or a string that spells one.
pub open spec fn cell_unsigned(c: Option<JsonView>) -> Option<u64> {
    match c {
        Some(JsonView::Unsigned(n)) => Some(n),
        Some(JsonView::Text(s)) => u64_of(s),
        _ => None,
    }
}

/// A cell as a body, with its content type.
pub open spec fn cell_body(c: JsonView) -> (Seq<char>, Seq<char>) {
    match c {
        JsonView::Text(s) => (s, text_content_type(s)),
        JsonView::Null => (Seq::empty(), "application/octet-stream"@),
        other => (json_text(other), "application/json"@),
    }
}

/// A text that begins like a JSON object or array counts as JSON.
pub open spec fn text_content_type(s: Seq<char>) -> Seq<char> {
    let t = trimmed_start(s);
    if t.len() > 0 && (t[0] == '{' || t[0] == '[') {
        "application/json"@
    } else {
        "text/plain"@
    }
}

pub fn cell_to_unsigned(c: Option<&Json>) -> (r: Option<u64>)
    ensures
        r == cell_unsigned(match c {
            Some(j) => Some(j@),
            None => None,
        }),
{
    match c {
        Some(j) => match j {
            Json::Unsigned(n) => Some(*n),
            Json::Text(s) => parse_u64(s),
            _ => None,
        },
        None => None,
    }
}

pub fn cell_body_and_ct(c: &Json) -> (r: (String, String))
    requires
        c@.wf(),
    ensures
        (r.0@, r.1@) == cell_body(c@),
{
    match c {
        Json::Text(s) => {
            let content_type = sniff(s);
            (s.clone(), content_type)
        },
        Json::Null => (String::new(), "application/octet-stream".to_owned()),
        _ => (c.render(), "application/json".to_owned()),
    }
}

/// The content type of a text by how it begins.
pub fn sniff(s: &str) -> (r: String)
    ensures
        r@ == text_content_type(s@),
{
    let t = trim_start(s);
    proof {
        reveal_strlit("{");
        reveal_strlit("[");
        assert("{"@ =~= seq!['{']);
        assert("["@ =~= seq!['[']);
    }
    let like_object = starts_with(&t, "{");
    let like_array = starts_with(&t, "[");
    proof {
        assert(like_object <==> t@.len() > 0 && t@[0] == '{') by {
            if t@.len() > 0 {
                assert(t@.subrange(0, 1)[0] == t@[0]);
                if t@[0] == '{' {
                    assert(t@.subrange(0, 1) =~= "{"@);
                }
            }
        }
        assert(like_array <==> t@.len() > 0 && t@[0] == '[') by {
            if t@.len() > 0 {
                assert(t@.subrange(0, 1)[0] == t@[0]);
                if t@[0] == '[' {
                    assert(t@.subrange(0, 1) =~= "["@);
                }
            }
        }
    }
    if like_object || like_array {
        "application/json".to_owned()
    } else {
        "text/plain".to_owned()
    }
}

/// Whether a name is one of those wanted, whatever the case of ASCII letters.
pub open spec fn is_wanted(name: Seq<char>, wanted: Seq<Seq<char>>) -> bool {
    exists|i: int| 0 <= i < wanted.len() && lower_all(name) == lower_all(#[trigger] wanted[i])
}

/// The first position of a name that is one of those wanted.
pub open spec fn first_wanted(names: Seq<Seq<char>>, wanted: Seq<Seq<char>>) -> Option<nat>
    decreases names.len(),
{
    if names.len() == 0 {
        None
    } else if is_wanted(names[0], wanted) {
        Some(0)
    } else {
        match first_wanted(names.drop_first(), wanted) {
            Some(n) => Some(n + 1),
            None => None,
        }
    }
}

fn matches_any(name: &str, wanted: &Vec<&str>) -> (r: bool)
    ensures
        r == is_wanted(name@, views(wanted@)),
{
    for i in 0..wanted.len()
        invariant
            forall|j: int| 0 <= j < i ==> lower_all(name@) != lower_all(#[trigger] views(wanted@)[j]),
    {
        if same_ignoring_case(name, wanted[i]) {
            proof {
                assert(views(wanted@)[i as int] == wanted@[i as int]@);
            }
            return true;
        }
    }
    false
}

pub fn position_of_any(names: &Vec<String>, wanted: &Vec<&str>) -> (r: Option<usize>)
    ensures
        pos_view(r) == first_wanted(views(names@), views(wanted@)),
{
    let ghost all = views(names@);
    let ghost these = views(wanted@);
    proof {
        assert(all.skip(0) =~= all);
    }
    for i in 0..names.len()
        invariant
            all == views(names@),
            these == views(wanted@),
            first_wanted(all, these) == match first_wanted(all.skip(i as int), these) {
                Some(n) => Some(n + i as nat),
                None => None,
            },
    {
        proof {
            assert(all.skip(i as int).drop_first() =~= all.skip(i + 1));
            assert(all[i as int] == names@[i as int]@);
        }
        if matches_any(&names[i], wanted) {
            return Some(i);
        }
    }
    None
}

} // verus!

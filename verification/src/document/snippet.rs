//! Snippets: the part of a document around the first word that a search asked
//! for, with those words marked.

use vstd::prelude::*;
use vstd::string::*;

use crate::document::manticore::{Hit, HitView};
use crate::text::{
    ascii_lower, decode, decoded, from_chars, lower_all, occurs_at, opt_view, split_whitespace, to_chars, views, words,
};

verus! {

/// How many bytes a snippet shows on each side of where the first word begins.
pub const CONTEXT: usize = 100;

// ---------------------------------------------------------------------------
// Words of a query
// ---------------------------------------------------------------------------

/// The words of a query, in lower case.
pub open spec fn query_words(query: Seq<char>) -> Seq<Seq<char>> {
    Seq::new(words(query).len(), |i: int| lower_all(words(query)[i]))
}

pub fn snippet_terms(query: &str) -> (r: Vec<String>)
    ensures
        views(r@) == query_words(query@),
{
    let parts = split_whitespace(query);
    let mut r: Vec<String> = Vec::new();
    for i in 0..parts.len()
        invariant
            r@.len() == i,
            forall|j: int| 0 <= j < i ==> (#[trigger] r@[j])@ == lower_all(parts@[j]@),
    {
        r.push(ascii_lower(&parts[i]));
    }
    proof {
        assert forall|i: int| 0 <= i < views(r@).len() implies #[trigger] views(r@)[i] == query_words(query@)[i] by {
            assert(r@[i]@ == lower_all(parts@[i]@));
            assert(views(parts@)[i] == words(query@)[i]);
        }
        assert(views(r@) =~= query_words(query@));
    }
    r
}

// ---------------------------------------------------------------------------
// Marks
// ---------------------------------------------------------------------------

/// Whether the greedy search for a term, from `from` on, covers position `p`:
/// occurrences are taken from the left, and none begins inside the one before.
pub open spec fn covers(s: Seq<char>, term: Seq<char>, from: int, p: int) -> bool
    decreases s.len() - from,
{
    if term.len() == 0 || from < 0 || from >= s.len() {
        false
    } else if occurs_at(s, term, from) {
        from <= p < from + term.len() || covers(s, term, from + term.len(), p)
    } else {
        covers(s, term, from + 1, p)
    }
}

/// Whether any of the terms covers position `p` of a text, whatever the case of
/// ASCII letters in the text.
pub open spec fn marked_at(text: Seq<char>, terms: Seq<Seq<char>>, p: int) -> bool {
    exists|i: int| 0 <= i < terms.len() && covers(lower_all(text), #[trigger] terms[i], 0, p)
}

/// What a text shows up to `n`, each run of marked positions between `open` and
/// `close`.
pub open spec fn with_marks(
    text: Seq<char>,
    marked: spec_fn(int) -> bool,
    open: Seq<char>,
    close: Seq<char>,
    n: int,
) -> Seq<char>
    decreases n,
{
    if n <= 0 {
        Seq::empty()
    } else {
        let p = n - 1;
        let before = with_marks(text, marked, open, close, p);
        let begun = if marked(p) && (p == 0 || !marked(p - 1)) {
            before + open
        } else {
            before
        };
        let shown = begun.push(text[p]);
        if marked(p) && (n == text.len() || !marked(n)) {
            shown + close
        } else {
            shown
        }
    }
}

/// The marks of terms.
pub open spec fn marks_of(text: Seq<char>, terms: Seq<Seq<char>>) -> spec_fn(int) -> bool {
    |p: int| marked_at(text, terms, p)
}

/// A text with the terms marked.
pub open spec fn highlighted(text: Seq<char>, terms: Seq<Seq<char>>) -> Seq<char> {
    with_marks(text, marks_of(text, terms), "<mark>"@, "</mark>"@, text.len() as int)
}

fn chars_occur_at(s: &Vec<char>, part: &Vec<char>, at: usize) -> (r: bool)
    ensures
        r == occurs_at(s@, part@, at as int),
{
    if at > s.len() || part.len() > s.len() - at {
        return false;
    }
    for i in 0..part.len()
        invariant
            at + part@.len() <= s@.len(),
            forall|j: int| 0 <= j < i ==> s@[at + j] == part@[j],
    {
        if s[at + i] != part[i] {
            proof {
                assert(s@.subrange(at as int, at + part@.len())[i as int] == s@[at + i]);
            }
            return false;
        }
    }
    proof {
        assert(s@.subrange(at as int, at + part@.len()) =~= part@);
    }
    true
}

proof fn covers_only_inside(s: Seq<char>, term: Seq<char>, from: int, p: int)
    requires
        covers(s, term, from, p),
    ensures
        from <= p < s.len(),
    decreases s.len() - from,
{
    if occurs_at(s, term, from) {
        if !(from <= p < from + term.len()) {
            covers_only_inside(s, term, from + term.len(), p);
        }
    } else {
        covers_only_inside(s, term, from + 1, p);
    }
}

fn mark_term(marks: &mut Vec<bool>, s: &Vec<char>, term: &Vec<char>)
    requires
        old(marks)@.len() == s@.len(),
    ensures
        final(marks)@.len() == s@.len(),
        forall|p: int|
            0 <= p < s@.len() ==> #[trigger] final(marks)@[p] == (old(marks)@[p] || covers(s@, term@, 0, p)),
{
    if term.len() == 0 {
        return;
    }
    let ghost start = marks@;
    let mut from: usize = 0;
    while from < s.len()
        invariant
            from <= s@.len(),
            marks@.len() == s@.len(),
            forall|p: int|
                0 <= p < s@.len() ==> (#[trigger] marks@[p] || covers(s@, term@, from as int, p)) == (start[p]
                    || covers(s@, term@, 0, p)),
        decreases s@.len() - from,
    {
        if chars_occur_at(s, term, from) {
            let end: usize = from + term.len();
            let ghost was = marks@;
            let mut q: usize = from;
            while q < end
                invariant
                    from <= q <= end,
                    end == from + term@.len(),
                    end <= s@.len(),
                    marks@.len() == s@.len(),
                    forall|p: int|
                        0 <= p < s@.len() ==> #[trigger] marks@[p] == (was[p] || from <= p < q),
                decreases end - q,
            {
                marks.set(q, true);
                q = q + 1;
            }
            let ghost at = from as int;
            from = end;
            proof {
                assert forall|p: int| 0 <= p < s@.len() implies (#[trigger] marks@[p] || covers(
                    s@,
                    term@,
                    from as int,
                    p,
                )) == (start[p] || covers(s@, term@, 0, p)) by {
                    assert((was[p] || covers(s@, term@, at, p)) == (start[p] || covers(s@, term@, 0, p)));
                    assert(marks@[p] == (was[p] || at <= p < from));
                    assert(covers(s@, term@, at, p) == (at <= p < from || covers(s@, term@, from as int, p)));
                }
            }
        } else {
            let ghost at = from as int;
            from = from + 1;
            proof {
                assert forall|p: int| 0 <= p < s@.len() implies (#[trigger] marks@[p] || covers(
                    s@,
                    term@,
                    from as int,
                    p,
                )) == (start[p] || covers(s@, term@, 0, p)) by {
                    assert((marks@[p] || covers(s@, term@, at, p)) == (start[p] || covers(s@, term@, 0, p)));
                    assert(covers(s@, term@, at, p) == covers(s@, term@, from as int, p));
                }
            }
        }
    }
}

fn find_marks(text: &str, terms: &[String]) -> (r: Vec<bool>)
    ensures
        r@.len() == text@.len(),
        forall|p: int| 0 <= p < text@.len() ==> #[trigger] r@[p] == marked_at(text@, views(terms@), p),
{
    let lower = to_chars(&ascii_lower(text));
    let mut marks: Vec<bool> = Vec::new();
    for i in 0..lower.len()
        invariant
            marks@.len() == i,
            forall|p: int| 0 <= p < i ==> !(#[trigger] marks@[p]),
    {
        marks.push(false);
    }
    let ghost all = views(terms@);
    let n: usize = terms.len();
    for i in 0..n
        invariant
            n == terms@.len(),
            all == views(terms@),
            lower@ == lower_all(text@),
            marks@.len() == text@.len(),
            forall|p: int|
                0 <= p < text@.len() ==> #[trigger] marks@[p] == marked_at(text@, all.take(i as int), p),
    {
        let term = to_chars(&terms[i]);
        let ghost was = marks@;
        mark_term(&mut marks, &lower, &term);
        proof {
            assert(all[i as int] == term@);
            let some = all.take(i as int);
            let more = all.take(i + 1);
            assert forall|p: int| 0 <= p < text@.len() implies #[trigger] marks@[p] == marked_at(text@, more, p) by {
                assert(was[p] == marked_at(text@, some, p));
                if marked_at(text@, some, p) {
                    let j = choose|j: int| 0 <= j < some.len() && covers(lower_all(text@), #[trigger] some[j], 0, p);
                    assert(more[j] == some[j]);
                }
                if covers(lower@, term@, 0, p) {
                    assert(more[i as int] == term@);
                }
                if marked_at(text@, more, p) {
                    let j = choose|j: int| 0 <= j < more.len() && covers(lower_all(text@), #[trigger] more[j], 0, p);
                    if j < i {
                        assert(some[j] == more[j]);
                    }
                }
            }
        }
    }
    proof {
        assert(all.take(n as int) =~= all);
    }
    marks
}

/// Marks the terms in a text.
pub fn mark_terms(text: &str, terms: &[String]) -> (r: String)
    ensures
        r@ == highlighted(text@, views(terms@)),
{
    let chars = to_chars(text);
    let marks = find_marks(text, terms);
    let ghost marked = marks_of(text@, views(terms@));
    let mut out = String::new();
    for i in 0..chars.len()
        invariant
            chars@ == text@,
            marks@.len() == text@.len(),
            marked == marks_of(text@, views(terms@)),
            forall|p: int| 0 <= p < text@.len() ==> #[trigger] marks@[p] == marked_at(text@, views(terms@), p),
            out@ == with_marks(text@, marked, "<mark>"@, "</mark>"@, i as int),
    {
        proof {
            assert(marked(i as int) == marks@[i as int]);
            if i > 0 {
                assert(marked(i - 1) == marks@[i - 1]);
            }
            if i + 1 < text@.len() {
                assert(marked(i + 1) == marks@[i + 1]);
            }
        }
        if marks[i] && (i == 0 || !marks[i - 1]) {
            out.append("<mark>");
        }
        out.push(chars[i]);
        if marks[i] && (i == chars.len() - 1 || !marks[i + 1]) {
            out.append("</mark>");
        }
    }
    out
}

/// Marking adds marks and changes nothing else: with marks of no characters the
/// text is as it was.
pub proof fn marking_keeps_the_text(text: Seq<char>, marked: spec_fn(int) -> bool, n: int)
    requires
        0 <= n <= text.len(),
    ensures
        with_marks(text, marked, Seq::empty(), Seq::empty(), n) == text.take(n),
    decreases n,
{
    if n > 0 {
        marking_keeps_the_text(text, marked, n - 1);
        assert(text.take(n - 1).push(text[n - 1]) =~= text.take(n));
        assert(text.take(n - 1) + Seq::<char>::empty() =~= text.take(n - 1));
        assert(text.take(n) + Seq::<char>::empty() =~= text.take(n));
    } else {
        assert(text.take(0) =~= Seq::empty());
    }
}

/// The case of ASCII letters in a text does not decide what is marked.
pub proof fn case_does_not_decide(a: Seq<char>, b: Seq<char>, terms: Seq<Seq<char>>, p: int)
    requires
        lower_all(a) == lower_all(b),
    ensures
        marked_at(a, terms, p) == marked_at(b, terms, p),
{
}

// ---------------------------------------------------------------------------
// The part that is shown
// ---------------------------------------------------------------------------

/// How many bytes a character takes in UTF-8.
pub open spec fn width(c: char) -> int {
    if (c as u32) < 0x80 {
        1
    } else if (c as u32) < 0x800 {
        2
    } else if (c as u32) < 0x10000 {
        3
    } else {
        4
    }
}

/// How many bytes the first `n` characters take.
pub open spec fn offset(s: Seq<char>, n: int) -> int
    decreases n,
{
    if n <= 0 {
        0
    } else {
        offset(s, n - 1) + width(s[n - 1])
    }
}

proof fn offset_grows(s: Seq<char>, i: int, j: int)
    requires
        0 <= i <= j,
    ensures
        offset(s, i) + (j - i) <= offset(s, j) <= offset(s, i) + 4 * (j - i),
    decreases j - i,
{
    if i < j {
        offset_grows(s, i, j - 1);
    }
}

/// Whether `at` is the first position at which any of the terms occurs.
pub open spec fn is_first(s: Seq<char>, terms: Seq<Seq<char>>, at: int) -> bool {
    &&& 0 <= at <= s.len()
    &&& exists|i: int| 0 <= i < terms.len() && occurs_at(s, #[trigger] terms[i], at)
    &&& forall|q: int, i: int|
        0 <= q < at && 0 <= i < terms.len() ==> !(#[trigger] occurs_at(s, terms[i], q))
}

fn find_first(s: &Vec<char>, terms: &[String]) -> (r: Option<usize>)
    ensures
        match r {
            Some(at) => is_first(s@, views(terms@), at as int),
            None => forall|q: int| !is_first(s@, views(terms@), q),
        },
{
    let ghost all = views(terms@);
    let n: usize = terms.len();
    let mut at: usize = 0;
    loop
        invariant
            n == terms@.len(),
            all == views(terms@),
            at <= s@.len(),
            forall|q: int, i: int| 0 <= q < at && 0 <= i < n ==> !(#[trigger] occurs_at(s@, all[i], q)),
        decreases s@.len() - at,
    {
        for i in 0..n
            invariant
                n == terms@.len(),
                all == views(terms@),
                forall|j: int| 0 <= j < i ==> !(#[trigger] occurs_at(s@, all[j], at as int)),
        {
            let term = to_chars(&terms[i]);
            proof {
                assert(all[i as int] == term@);
            }
            if chars_occur_at(s, &term, at) {
                return Some(at);
            }
        }
        if at == s.len() {
            return None;
        }
        at = at + 1;
    }
}

/// Whether `start` is where a snippet starts: the last character that begins at
/// the byte or before it.
pub open spec fn starts_at(s: Seq<char>, byte: int, start: int) -> bool {
    0 <= start <= s.len() && offset(s, start) <= byte && (start == s.len() || byte < offset(s, start + 1))
}

/// Whether `end` is where a snippet ends: the first character that begins at the
/// byte or behind it.
pub open spec fn ends_at(s: Seq<char>, byte: int, end: int) -> bool {
    0 <= end <= s.len() && offset(s, end) >= byte && (end == 0 || offset(s, end - 1) < byte)
}

/// Whether the characters from `start` to `end` are what a snippet shows around
/// position `at`: a hundred bytes before it and a hundred from it on, widened to
/// whole characters.
pub open spec fn shows(s: Seq<char>, at: int, start: int, end: int) -> bool {
    let first = offset(s, at);
    let whole = offset(s, s.len() as int);
    &&& starts_at(
        s,
        if first >= CONTEXT {
            first - CONTEXT
        } else {
            0
        },
        start,
    )
    &&& ends_at(
        s,
        if first + CONTEXT <= whole {
            first + CONTEXT
        } else {
            whole
        },
        end,
    )
}

/// What the snippet of a text is: none where no term occurs, or where there is
/// nothing to show.
pub open spec fn is_snippet(text: Seq<char>, terms: Seq<Seq<char>>, snippet: Option<Seq<char>>) -> bool {
    match snippet {
        Some(shown) => exists|at: int, start: int, end: int|
            #![trigger is_first(lower_all(text), terms, at), text.subrange(start, end)]
            is_first(lower_all(text), terms, at) && shows(text, at, start, end) && start < end && shown
                == highlighted(text.subrange(start, end), terms),
        None => text.len() == 0 || forall|at: int| !is_first(lower_all(text), terms, at),
    }
}

fn char_width(c: char) -> (r: usize)
    ensures
        r == width(c),
{
    let n: u32 = c as u32;
    if n < 0x80 {
        1
    } else if n < 0x800 {
        2
    } else if n < 0x10000 {
        3
    } else {
        4
    }
}

fn window_start(s: &Vec<char>, at: usize) -> (r: usize)
    requires
        at <= s@.len(),
    ensures
        r <= at,
        ({
            let first = offset(s@, at as int);
            starts_at(
                s@,
                if first >= CONTEXT {
                    first - CONTEXT
                } else {
                    0
                },
                r as int,
            )
        }),
{
    let ghost first = offset(s@, at as int);
    let mut start: usize = at;
    let mut back: usize = 0;
    while start > 0 && back < CONTEXT
        invariant
            start <= at <= s@.len(),
            back == first - offset(s@, start as int),
            back < CONTEXT + 4,
            start < at ==> first - offset(s@, start + 1) < CONTEXT,
        decreases start,
    {
        start = start - 1;
        back = back + char_width(s[start]);
    }
    proof {
        let byte = if first >= CONTEXT {
            first - CONTEXT
        } else {
            0
        };
        offset_grows(s@, 0, start as int);
        if back >= CONTEXT {
            assert(byte < offset(s@, start + 1));
        } else {
            offset_grows(s@, 0, 1);
        }
    }
    start
}

fn window_end(s: &Vec<char>, at: usize) -> (r: usize)
    requires
        at <= s@.len(),
    ensures
        at <= r <= s@.len(),
        ({
            let first = offset(s@, at as int);
            let whole = offset(s@, s@.len() as int);
            ends_at(
                s@,
                if first + CONTEXT <= whole {
                    first + CONTEXT
                } else {
                    whole
                },
                r as int,
            )
        }),
{
    let ghost first = offset(s@, at as int);
    let mut end: usize = at;
    let mut ahead: usize = 0;
    while end < s.len() && ahead < CONTEXT
        invariant
            at <= end <= s@.len(),
            ahead == offset(s@, end as int) - first,
            ahead < CONTEXT + 4,
            end > at ==> offset(s@, end - 1) - first < CONTEXT,
        decreases s@.len() - end,
    {
        ahead = ahead + char_width(s[end]);
        end = end + 1;
    }
    proof {
        offset_grows(s@, end as int, s@.len() as int);
        if end > 0 {
            offset_grows(s@, end - 1, s@.len() as int);
            offset_grows(s@, end - 1, end as int);
        }
        if end == at && at > 0 {
            offset_grows(s@, at - 1, at as int);
        }
    }
    end
}

/// The snippet of a text.
pub fn snippet_of(text: &str, terms: &[String]) -> (r: Option<String>)
    ensures
        is_snippet(text@, views(terms@), opt_view(r)),
{
    let lower = to_chars(&ascii_lower(text));
    let at = match find_first(&lower, terms) {
        Some(at) => at,
        None => {
            return None;
        },
    };
    let chars = to_chars(text);
    let start: usize = window_start(&chars, at);
    let end: usize = window_end(&chars, at);
    if start >= end {
        proof {
            assert(start == at && end == at);
            if at < chars@.len() {
                offset_grows(chars@, at as int, at + 1);
                offset_grows(chars@, at + 1, chars@.len() as int);
            }
            if at > 0 {
                offset_grows(chars@, 0, at as int);
                offset_grows(chars@, at - 1, at as int);
            }
            assert(text@.len() == 0);
        }
        return None;
    }
    let part = from_chars(&chars, start, end);
    let shown = mark_terms(&part, terms);
    proof {
        assert(part@ =~= text@.subrange(start as int, end as int));
        assert(is_first(lower_all(text@), views(terms@), at as int));
        assert(shows(text@, at as int, start as int, end as int));
    }
    Some(shown)
}

/// The snippet of a body; a body that is no text has none.
pub fn generate_snippet(body: &[u8], terms: &[String]) -> (r: Option<String>)
    ensures
        match decoded(body@) {
            Ok(text) => is_snippet(text, views(terms@), opt_view(r)),
            Err(_) => r is None,
        },
{
    match decode(body) {
        Ok(text) => snippet_of(&text, terms),
        Err(_) => None,
    }
}

// ---------------------------------------------------------------------------
// Snippets of hits
// ---------------------------------------------------------------------------

/// Whether `after` is `before` with its snippet: a hit that has one keeps it, a
/// hit without body gets none.
pub open spec fn has_snippet(before: HitView, terms: Seq<Seq<char>>, after: HitView) -> bool {
    if terms.len() == 0 || before.snippet is Some || before.body is None {
        after == before
    } else {
        &&& after == (HitView { snippet: after.snippet, ..before })
        &&& match decoded(before.body->0) {
            Ok(text) => is_snippet(text, terms, after.snippet),
            Err(_) => after.snippet is None,
        }
    }
}

/// Gives hits their snippets.
pub fn populate_snippets(hits: Vec<Hit>, query: &str) -> (r: Vec<Hit>)
    ensures
        r@.len() == hits@.len(),
        forall|i: int|
            0 <= i < hits@.len() ==> has_snippet(hits@[i]@, query_words(query@), (#[trigger] r@[i])@),
{
    let terms = snippet_terms(query);
    let ghost all = hits@;
    let mut out: Vec<Hit> = Vec::new();
    for hit in iter: hits
        invariant
            iter.seq() == all,
            views(terms@) == query_words(query@),
            out@.len() == iter.index(),
            forall|i: int|
                0 <= i < out@.len() ==> has_snippet(all[i]@, query_words(query@), (#[trigger] out@[i])@),
    {
        let mut hit = hit;
        if terms.len() != 0 && hit.snippet.is_none() {
            let snippet = match &hit.body {
                Some(body) => generate_snippet(body, terms.as_slice()),
                None => None,
            };
            hit.snippet = snippet;
        }
        out.push(hit);
    }
    out
}

} // verus!

//! What a snippet shows of a text, which words a text is searched by, and what is
//! remembered of an earlier run.

use vstd::prelude::*;
use crate::canonicalize::merge::TrackerValue;
use crate::canonicalize::tracker::{known_doc_rows, known_rows};
use crate::document::snippet::{covers, highlighted, marked_at, marks_of, offset, shows, with_marks};
use crate::document::terms::{are_top, is_top, occurrences, scanned, words_of};
use crate::text::{lower_all, occurs_at};

verus! {

// ---------------------------------------------------------------------------
// Snippets
// ---------------------------------------------------------------------------

proof fn only_occurrence_is_covered(s: Seq<char>, term: Seq<char>, at: int, from: int, p: int)
    requires
        term.len() > 0,
        0 <= from,
        forall|q: int| #[trigger] occurs_at(s, term, q) <==> q == at,
    ensures
        covers(s, term, from, p) <==> from <= at <= p < at + term.len(),
    decreases s.len() - from,
{
    assert(occurs_at(s, term, at));
    if from < s.len() {
        if occurs_at(s, term, from) {
            only_occurrence_is_covered(s, term, at, from + term.len(), p);
        } else {
            only_occurrence_is_covered(s, term, at, from + 1, p);
        }
    }
}

proof fn one_run_is_marked(
    text: Seq<char>,
    marked: spec_fn(int) -> bool,
    open: Seq<char>,
    close: Seq<char>,
    at: int,
    end: int,
    n: int,
)
    requires
        0 <= at < end <= text.len(),
        forall|p: int| 0 <= p < text.len() ==> (#[trigger] marked(p) <==> at <= p < end),
        0 <= n <= text.len(),
    ensures
        n <= at ==> with_marks(text, marked, open, close, n) == text.take(n),
        at < n < end ==> with_marks(text, marked, open, close, n) == text.take(at) + open + text.subrange(at, n),
        end <= n ==> with_marks(text, marked, open, close, n) == text.take(at) + open + text.subrange(at, end) + close
            + text.subrange(end, n),
    decreases n,
{
    if n > 0 {
        one_run_is_marked(text, marked, open, close, at, end, n - 1);
        let p: int = n - 1;
        assert(marked(p) <==> at <= p < end);
        assert(p > 0 ==> (marked(p - 1) <==> at <= p - 1 < end));
        assert(n < text.len() ==> (marked(n) <==> at <= n < end));
        if n <= at {
            assert(text.take(p).push(text[p]) =~= text.take(n));
        } else if n < end {
            if p == at {
                assert((text.take(at) + open).push(text[p]) =~= text.take(at) + open + text.subrange(at, n));
            } else {
                assert((text.take(at) + open + text.subrange(at, p)).push(text[p]) =~= text.take(at) + open
                    + text.subrange(at, n));
            }
        } else if n == end {
            let empty = text.subrange(end, n);
            assert(empty =~= Seq::empty());
            if p == at {
                assert((text.take(at) + open).push(text[p]) =~= text.take(at) + open + text.subrange(at, end));
            } else {
                assert((text.take(at) + open + text.subrange(at, p)).push(text[p]) =~= text.take(at) + open
                    + text.subrange(at, end));
            }
            assert(text.take(at) + open + text.subrange(at, end) + close + empty =~= text.take(at) + open
                + text.subrange(at, end) + close);
        } else {
            assert((text.take(at) + open + text.subrange(at, end) + close + text.subrange(end, p)).push(text[p])
                =~= text.take(at) + open + text.subrange(at, end) + close + text.subrange(end, n));
        }
    } else {
        assert(text.take(0) =~= Seq::empty());
    }
}

/// A term that occurs at one place, whatever the case of the text, stands between
/// marks there, and everything else is as it was.
pub proof fn occurrence_is_marked(front: Seq<char>, word: Seq<char>, behind: Seq<char>, term: Seq<char>)
    requires
        term.len() > 0,
        word.len() == term.len(),
        forall|q: int| #[trigger]
            occurs_at(lower_all(front + word + behind), term, q) <==> q == front.len(),
    ensures
        highlighted(front + word + behind, seq![term]) == front + "<mark>"@ + word + "</mark>"@ + behind,
{
    let text = front + word + behind;
    let at: int = front.len() as int;
    let end: int = at + word.len();
    let marked = marks_of(text, seq![term]);
    assert forall|p: int| 0 <= p < text.len() implies (#[trigger] marked(p) <==> at <= p < end) by {
        only_occurrence_is_covered(lower_all(text), term, at, 0, p);
        assert(seq![term][0] == term);
        assert(marked(p) == marked_at(text, seq![term], p));
        if at <= p < end {
            assert(covers(lower_all(text), seq![term][0], 0, p));
        }
    }
    one_run_is_marked(text, marked, "<mark>"@, "</mark>"@, at, end, text.len() as int);
    assert(text.take(at) =~= front);
    assert(text.subrange(at, end) =~= word);
    assert(text.subrange(end, text.len() as int) =~= behind);
}

proof fn bytes_are_characters(s: Seq<char>, n: int)
    requires
        0 <= n <= s.len(),
        forall|i: int| 0 <= i < s.len() ==> (#[trigger] s[i] as u32) < 128,
    ensures
        offset(s, n) == n,
    decreases n,
{
    if n > 0 {
        bytes_are_characters(s, n - 1);
        assert((s[n - 1] as u32) < 128);
    }
}

/// Of a plain text, a snippet shows the hundred characters before the place and
/// the hundred from it on, as far as there are any.
pub proof fn surroundings_are_shown(s: Seq<char>, at: int, start: int, end: int)
    requires
        forall|i: int| 0 <= i < s.len() ==> (#[trigger] s[i] as u32) < 128,
        0 <= at < s.len(),
        shows(s, at, start, end),
    ensures
        start == if at < 100 { 0 } else { at - 100 },
        end == if at + 100 > s.len() { s.len() as int } else { at + 100 },
{
    bytes_are_characters(s, at);
    bytes_are_characters(s, s.len() as int);
    bytes_are_characters(s, start);
    bytes_are_characters(s, end);
    if start < s.len() {
        bytes_are_characters(s, start + 1);
    }
    if end > 0 {
        bytes_are_characters(s, end - 1);
    }
}

// ---------------------------------------------------------------------------
// Words
// ---------------------------------------------------------------------------

/// Whether a byte is a letter or a digit.
pub open spec fn alphanumeric(b: u8) -> bool {
    ('0' as u8 <= b <= '9' as u8) || ('a' as u8 <= b <= 'z' as u8) || ('A' as u8 <= b <= 'Z' as u8)
}

/// Whether a text spells these letters and digits, in lower case.
pub open spec fn spells(word: Seq<char>, bytes: Seq<u8>) -> bool {
    &&& word.len() == bytes.len()
    &&& forall|i: int|
        0 <= i < bytes.len() ==> (#[trigger] word[i]) as int == if 'A' as u8 <= bytes[i] <= 'Z' as u8 {
            bytes[i] + 32
        } else {
            bytes[i] as int
        }
}

proof fn run_stays_open(bytes: Seq<u8>)
    requires
        forall|i: int| 0 <= i < bytes.len() ==> alphanumeric(#[trigger] bytes[i]),
    ensures
        scanned(bytes).0.len() == 0,
        spells(scanned(bytes).1, bytes),
    decreases bytes.len(),
{
    if bytes.len() > 0 {
        let rest = bytes.drop_last();
        assert forall|i: int| 0 <= i < rest.len() implies alphanumeric(#[trigger] rest[i]) by {
            assert(rest[i] == bytes[i]);
        }
        run_stays_open(rest);
        let open = scanned(rest).1;
        let word = scanned(bytes).1;
        assert(alphanumeric(bytes[bytes.len() - 1]));
        assert forall|i: int| 0 <= i < bytes.len() implies (#[trigger] word[i]) as int == if 'A' as u8 <= bytes[i]
            <= 'Z' as u8 {
            bytes[i] + 32
        } else {
            bytes[i] as int
        } by {
            if i < rest.len() {
                assert(word[i] == open[i]);
                assert(rest[i] == bytes[i]);
            }
        }
    }
}

/// A run of letters and digits is one word, in lower case, where it has more than
/// three of them; a shorter one is none.
pub proof fn runs_are_words(bytes: Seq<u8>)
    requires
        forall|i: int| 0 <= i < bytes.len() ==> alphanumeric(#[trigger] bytes[i]),
    ensures
        bytes.len() >= 4 ==> words_of(bytes).len() == 1 && spells(words_of(bytes)[0], bytes),
        bytes.len() < 4 ==> words_of(bytes).len() == 0,
{
    run_stays_open(bytes);
}

proof fn scan_goes_on(front: Seq<u8>, separator: u8, behind: Seq<u8>)
    requires
        !alphanumeric(separator),
    ensures
        scanned(front.push(separator) + behind) == (words_of(front) + scanned(behind).0, scanned(behind).1),
    decreases behind.len(),
{
    let all = front.push(separator) + behind;
    if behind.len() == 0 {
        assert(all =~= front.push(separator));
        assert(all.drop_last() =~= front);
        assert(words_of(front) + Seq::<Seq<char>>::empty() =~= words_of(front));
    } else {
        scan_goes_on(front, separator, behind.drop_last());
        assert(all.drop_last() =~= front.push(separator) + behind.drop_last());
        assert(all.last() == behind.last());
        let (done, open) = scanned(behind.drop_last());
        if open.len() > 3 {
            assert((words_of(front) + done).push(open) =~= words_of(front) + done.push(open));
        }
    }
}

/// Any other byte ends a word: the words of a text are those before it and those
/// behind it, in this order.
pub proof fn other_bytes_end_words(front: Seq<u8>, separator: u8, behind: Seq<u8>)
    requires
        !alphanumeric(separator),
    ensures
        words_of(front.push(separator) + behind) == words_of(front) + words_of(behind),
{
    scan_goes_on(front, separator, behind);
    let (done, open) = scanned(behind);
    if open.len() > 3 {
        assert((words_of(front) + done).push(open) =~= words_of(front) + done.push(open));
    }
}

/// How often a word occurs is counted over all places.
pub proof fn occurrences_add_up(a: Seq<Seq<char>>, b: Seq<Seq<char>>, word: Seq<char>)
    ensures
        occurrences(a + b, word) == occurrences(a, word) + occurrences(b, word),
        occurrences(seq![word], word) == 1,
        !a.contains(word) ==> occurrences(a, word) == 0,
    decreases b.len(), a.len(),
{
    reveal_with_fuel(occurrences, 2);
    if b.len() == 0 {
        assert(a + b =~= a);
        if a.len() > 0 {
            occurrences_add_up(a.drop_last(), b, word);
            if !a.contains(word) {
                assert(a.last() == a[a.len() - 1]);
                assert(!a.drop_last().contains(word)) by {
                    if a.drop_last().contains(word) {
                        let i = choose|i: int| 0 <= i < a.drop_last().len() && a.drop_last()[i] == word;
                        assert(a[i] == word);
                    }
                }
            }
        }
    } else {
        occurrences_add_up(a, b.drop_last(), word);
        assert((a + b).drop_last() =~= a + b.drop_last());
        assert((a + b).last() == b.last());
    }
}

/// There are as many terms as were asked for, as far as there are words; none is
/// less frequent than one behind it or than a word that was left out.
pub proof fn terms_are_the_most_frequent(
    top: Seq<Seq<char>>,
    candidates: Seq<Seq<char>>,
    words: Seq<Seq<char>>,
    k: nat,
    word: Seq<char>,
)
    requires
        are_top(top, candidates, words, k),
        candidates.contains(word),
    ensures
        top.len() == if k < candidates.len() { k } else { candidates.len() },
        top.contains(word) || forall|i: int|
            0 <= i < top.len() ==> occurrences(words, word) <= occurrences(words, #[trigger] top[i]),
    decreases k,
{
    if k > 0 {
        let i = choose|i: int| #[trigger]
            is_top(candidates, words, i) && top.len() > 0 && top[0] == candidates[i] && are_top(
                top.drop_first(),
                candidates.remove(i),
                words,
                (k - 1) as nat,
            );
        let rest = candidates.remove(i);
        let behind = top.drop_first();
        let j = choose|j: int| 0 <= j < candidates.len() && candidates[j] == word;
        assert(occurrences(words, candidates[j]) <= occurrences(words, candidates[i]));
        if j == i {
            assert(top[0] == word);
            if rest.len() > 0 {
                assert(rest.contains(rest[0]));
                terms_are_the_most_frequent(behind, rest, words, (k - 1) as nat, rest[0]);
            }
        } else {
            assert(rest[if j < i { j } else { j - 1 }] == word);
            assert(rest.contains(word));
            terms_are_the_most_frequent(behind, rest, words, (k - 1) as nat, word);
            if behind.contains(word) {
                let m = choose|m: int| 0 <= m < behind.len() && behind[m] == word;
                assert(top[m + 1] == word);
            } else {
                assert forall|m: int| 0 <= m < top.len() implies occurrences(words, word) <= occurrences(
                    words,
                    #[trigger] top[m],
                ) by {
                    if m > 0 {
                        assert(behind[m - 1] == top[m]);
                    }
                }
            }
        }
    }
}

// ---------------------------------------------------------------------------
// What is remembered
// ---------------------------------------------------------------------------

/// Whether a row of the table of a literal index tells the hash of a subject.
pub open spec fn tells_hash(row: Seq<TrackerValue>, subject: Seq<char>, hash: Seq<char>) -> bool {
    &&& row.len() == 2
    &&& row[0] matches TrackerValue::TextValue(s) && s@ == subject
    &&& row[1] matches TrackerValue::TextValue(h) && h@ == hash
}

/// What a literal index remembers of each subject is the hash that the last row on
/// it tells, and nothing else is remembered.
pub proof fn hashes_are_remembered(rows: Seq<Seq<TrackerValue>>, pairs: Seq<(Seq<char>, Seq<char>)>)
    requires
        rows.len() == pairs.len(),
        forall|i: int| 0 <= i < rows.len() ==> tells_hash(#[trigger] rows[i], pairs[i].0, pairs[i].1),
    ensures
        known_rows(rows) matches Ok(known) && (forall|i: int|
            0 <= i < pairs.len() && (forall|j: int| i < j < pairs.len() ==> (#[trigger] pairs[j]).0 != pairs[i].0)
                ==> known.contains_pair((#[trigger] pairs[i]).0, pairs[i].1)) && (forall|subject: Seq<char>|
            known.dom().contains(subject) ==> exists|i: int|
                0 <= i < pairs.len() && (#[trigger] pairs[i]).0 == subject),
    decreases rows.len(),
{
    if rows.len() > 0 {
        let n: int = rows.len() - 1;
        let rest = rows.drop_last();
        let before = pairs.drop_last();
        assert forall|i: int| 0 <= i < rest.len() implies tells_hash(#[trigger] rest[i], before[i].0, before[i].1) by {
            assert(tells_hash(rows[i], pairs[i].0, pairs[i].1));
        }
        hashes_are_remembered(rest, before);
        assert(tells_hash(rows[n], pairs[n].0, pairs[n].1));
        let done = known_rows(rest)->Ok_0;
        let known = known_rows(rows)->Ok_0;
        assert(known == done.insert(pairs[n].0, pairs[n].1));
        assert forall|i: int|
            0 <= i < pairs.len() && (forall|j: int| i < j < pairs.len() ==> (#[trigger] pairs[j]).0 != pairs[i].0)
            implies known.contains_pair((#[trigger] pairs[i]).0, pairs[i].1) by {
            if i < n {
                assert(pairs[n].0 != pairs[i].0);
                assert forall|j: int| i < j < before.len() implies (#[trigger] before[j]).0 != before[i].0 by {
                    assert(pairs[j].0 != pairs[i].0);
                }
                assert(before[i] == pairs[i]);
            }
        }
        assert forall|subject: Seq<char>| known.dom().contains(subject) implies exists|i: int|
            0 <= i < pairs.len() && (#[trigger] pairs[i]).0 == subject by {
            if subject == pairs[n].0 {
            } else {
                assert(done.dom().contains(subject));
                let i = choose|i: int| 0 <= i < before.len() && (#[trigger] before[i]).0 == subject;
                assert(pairs[i].0 == subject);
            }
        }
    }
}

/// Whether a row of the table of a mirror tells the revision and the hash of a
/// document.
pub open spec fn tells_document(row: Seq<TrackerValue>, uri: Seq<char>, revision: u64, hash: Seq<char>) -> bool {
    &&& row.len() == 3
    &&& row[0] matches TrackerValue::TextValue(s) && s@ == uri
    &&& row[1] matches TrackerValue::IntegerValue(n) && n as int == revision as int
    &&& row[2] matches TrackerValue::TextValue(h) && h@ == hash
}

/// What a mirror remembers of each document is what the last row on it tells, and
/// nothing else is remembered.
pub proof fn documents_are_remembered(rows: Seq<Seq<TrackerValue>>, docs: Seq<(Seq<char>, u64, Seq<char>)>)
    requires
        rows.len() == docs.len(),
        forall|i: int|
            0 <= i < rows.len() ==> tells_document(#[trigger] rows[i], docs[i].0, docs[i].1, docs[i].2),
    ensures
        known_doc_rows(rows) matches Ok(known) && (forall|i: int|
            0 <= i < docs.len() && (forall|j: int| i < j < docs.len() ==> (#[trigger] docs[j]).0 != docs[i].0)
                ==> known.contains_pair((#[trigger] docs[i]).0, (docs[i].1, docs[i].2))) && (forall|uri: Seq<char>|
            known.dom().contains(uri) ==> exists|i: int| 0 <= i < docs.len() && (#[trigger] docs[i]).0 == uri),
    decreases rows.len(),
{
    if rows.len() > 0 {
        let n: int = rows.len() - 1;
        let rest = rows.drop_last();
        let before = docs.drop_last();
        assert forall|i: int| 0 <= i < rest.len() implies tells_document(
            #[trigger] rest[i],
            before[i].0,
            before[i].1,
            before[i].2,
        ) by {
            assert(tells_document(rows[i], docs[i].0, docs[i].1, docs[i].2));
        }
        documents_are_remembered(rest, before);
        assert(tells_document(rows[n], docs[n].0, docs[n].1, docs[n].2));
        let done = known_doc_rows(rest)->Ok_0;
        let known = known_doc_rows(rows)->Ok_0;
        assert(known == done.insert(docs[n].0, (docs[n].1, docs[n].2)));
        assert forall|i: int|
            0 <= i < docs.len() && (forall|j: int| i < j < docs.len() ==> (#[trigger] docs[j]).0 != docs[i].0)
            implies known.contains_pair((#[trigger] docs[i]).0, (docs[i].1, docs[i].2)) by {
            if i < n {
                assert(docs[n].0 != docs[i].0);
                assert forall|j: int| i < j < before.len() implies (#[trigger] before[j]).0 != before[i].0 by {
                    assert(docs[j].0 != docs[i].0);
                }
                assert(before[i] == docs[i]);
            }
        }
        assert forall|uri: Seq<char>| known.dom().contains(uri) implies exists|i: int|
            0 <= i < docs.len() && (#[trigger] docs[i]).0 == uri by {
            if uri == docs[n].0 {
            } else {
                assert(done.dom().contains(uri));
                let i = choose|i: int| 0 <= i < before.len() && (#[trigger] before[i]).0 == uri;
                assert(docs[i].0 == uri);
            }
        }
    }
}

} // verus!

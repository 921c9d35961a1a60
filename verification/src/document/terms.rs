//! The terms that characterize a document: its most frequent words.

use vstd::prelude::*;
use vstd::string::*;

use crate::text::{from_chars, same, views, views_push};

verus! {

/// Whether a byte is a letter or a digit of ASCII.
pub open spec fn in_word(b: u8) -> bool {
    (48 <= b <= 57) || (65 <= b <= 90) || (97 <= b <= 122)
}

/// The character of a word's byte, in lower case.
pub open spec fn word_char(b: u8) -> char {
    if 65 <= b <= 90 {
        (b + 32) as char
    } else {
        b as char
    }
}

/// The words that end before the last byte, and the word that is still open
/// there. A word is a run of letters and digits; one of three characters or less
/// does not count.
pub open spec fn scanned(bytes: Seq<u8>) -> (Seq<Seq<char>>, Seq<char>)
    decreases bytes.len(),
{
    if bytes.len() == 0 {
        (Seq::empty(), Seq::empty())
    } else {
        let (done, open) = scanned(bytes.drop_last());
        if in_word(bytes.last()) {
            (done, open.push(word_char(bytes.last())))
        } else {
            (with_word(done, open), Seq::empty())
        }
    }
}

/// The words with one more, where it is long enough.
pub open spec fn with_word(done: Seq<Seq<char>>, word: Seq<char>) -> Seq<Seq<char>> {
    if word.len() > 3 {
        done.push(word)
    } else {
        done
    }
}

/// The words of a text, in order.
pub open spec fn words_of(bytes: Seq<u8>) -> Seq<Seq<char>> {
    let (done, open) = scanned(bytes);
    with_word(done, open)
}

fn lower_word_char(b: u8) -> (r: char)
    requires
        in_word(b),
    ensures
        r == word_char(b),
{
    if 65 <= b && b <= 90 {
        (b + 32) as char
    } else {
        b as char
    }
}

fn read_words(bytes: &[u8]) -> (r: Vec<String>)
    ensures
        views(r@) == words_of(bytes@),
{
    broadcast use views_push;

    let mut done: Vec<String> = Vec::new();
    let mut open: Vec<char> = Vec::new();
    let n: usize = bytes.len();
    proof {
        assert(views(done@) =~= scanned(bytes@.take(0)).0);
        assert(open@ =~= scanned(bytes@.take(0)).1);
    }
    for i in 0..n
        invariant
            n == bytes@.len(),
            views(done@) == scanned(bytes@.take(i as int)).0,
            open@ == scanned(bytes@.take(i as int)).1,
    {
        proof {
            assert(bytes@.take(i + 1).drop_last() =~= bytes@.take(i as int));
        }
        let b: u8 = bytes[i];
        if (48 <= b && b <= 57) || (65 <= b && b <= 90) || (97 <= b && b <= 122) {
            open.push(lower_word_char(b));
        } else {
            if open.len() > 3 {
                let word = from_chars(&open, 0, open.len());
                proof {
                    assert(word@ =~= open@);
                }
                done.push(word);
            }
            open = Vec::new();
        }
    }
    proof {
        assert(bytes@.take(n as int) =~= bytes@);
    }
    if open.len() > 3 {
        let word = from_chars(&open, 0, open.len());
        proof {
            assert(word@ =~= open@);
        }
        done.push(word);
    }
    done
}

// ---------------------------------------------------------------------------
// Frequencies
// ---------------------------------------------------------------------------

/// How often a word occurs.
pub open spec fn occurrences(words: Seq<Seq<char>>, word: Seq<char>) -> nat
    decreases words.len(),
{
    if words.len() == 0 {
        0
    } else {
        occurrences(words.drop_last(), word) + if words.last() == word {
            1nat
        } else {
            0nat
        }
    }
}

/// The different words, each where it occurs first.
pub open spec fn different(words: Seq<Seq<char>>) -> Seq<Seq<char>>
    decreases words.len(),
{
    if words.len() == 0 {
        Seq::empty()
    } else {
        let before = different(words.drop_last());
        if before.contains(words.last()) {
            before
        } else {
            before.push(words.last())
        }
    }
}

fn count(words: &Vec<String>, word: &str) -> (r: usize)
    ensures
        r == occurrences(views(words@), word@),
{
    let ghost all = views(words@);
    let mut n: usize = 0;
    for i in 0..words.len()
        invariant
            all == views(words@),
            n <= i,
            n == occurrences(all.take(i as int), word@),
    {
        proof {
            assert(all.take(i + 1).drop_last() =~= all.take(i as int));
            assert(all[i as int] == words@[i as int]@);
        }
        if same(&words[i], word) {
            n = n + 1;
        }
    }
    proof {
        assert(all.take(all.len() as int) =~= all);
    }
    n
}

fn list_different(words: &Vec<String>) -> (r: Vec<String>)
    ensures
        views(r@) == different(views(words@)),
{
    broadcast use views_push;

    let ghost all = views(words@);
    let mut r: Vec<String> = Vec::new();
    proof {
        assert(views(r@) =~= different(all.take(0)));
    }
    for i in 0..words.len()
        invariant
            all == views(words@),
            views(r@) == different(all.take(i as int)),
    {
        proof {
            assert(all.take(i + 1).drop_last() =~= all.take(i as int));
            assert(all[i as int] == words@[i as int]@);
        }
        if !crate::text::has_text(&r, &words[i]) {
            r.push(words[i].clone());
        }
    }
    proof {
        assert(all.take(all.len() as int) =~= all);
    }
    r
}

/// Whether the candidate at `i` is the most frequent one; of several, the first.
pub open spec fn is_top(candidates: Seq<Seq<char>>, words: Seq<Seq<char>>, i: int) -> bool {
    &&& 0 <= i < candidates.len()
    &&& forall|j: int|
        0 <= j < candidates.len() ==> occurrences(words, #[trigger] candidates[j]) <= occurrences(
            words,
            candidates[i],
        )
    &&& forall|j: int| 0 <= j < i ==> occurrences(words, #[trigger] candidates[j]) < occurrences(words, candidates[i])
}

/// Whether `top` are the most frequent of the candidates, at most `k`, the most
/// frequent first.
pub open spec fn are_top(
    top: Seq<Seq<char>>,
    candidates: Seq<Seq<char>>,
    words: Seq<Seq<char>>,
    k: nat,
) -> bool
    decreases k,
{
    if k == 0 || candidates.len() == 0 {
        top.len() == 0
    } else {
        exists|i: int| #[trigger]
            is_top(candidates, words, i) && top.len() > 0 && top[0] == candidates[i] && are_top(
                top.drop_first(),
                candidates.remove(i),
                words,
                (k - 1) as nat,
            )
    }
}

/// The most frequent of the words that count, at most `k`: the most frequent
/// first, and of equally frequent ones that which occurs first.
pub fn top_words(words: &Vec<String>, k: usize) -> (r: Vec<String>)
    ensures
        are_top(views(r@), different(views(words@)), views(words@), k as nat),
{
    let candidates = list_different(words);
    pick_top(candidates, words, k)
}

fn pick_top(candidates: Vec<String>, words: &Vec<String>, k: usize) -> (r: Vec<String>)
    ensures
        are_top(views(r@), views(candidates@), views(words@), k as nat),
    decreases k,
{
    if k == 0 || candidates.len() == 0 {
        return Vec::new();
    }
    let ghost all = views(candidates@);
    let ghost ws = views(words@);
    let mut best: usize = 0;
    let mut most: usize = count(words, &candidates[0]);
    for j in 1..candidates.len()
        invariant
            all == views(candidates@),
            ws == views(words@),
            best < j,
            most == occurrences(ws, all[best as int]),
            forall|l: int| 0 <= l < j ==> occurrences(ws, #[trigger] all[l]) <= most,
            forall|l: int| 0 <= l < best ==> occurrences(ws, #[trigger] all[l]) < most,
    {
        let n: usize = count(words, &candidates[j]);
        proof {
            assert(all[j as int] == candidates@[j as int]@);
        }
        if n > most {
            most = n;
            best = j;
        }
    }
    let mut rest = candidates;
    let first = rest.remove(best);
    let mut r: Vec<String> = Vec::new();
    r.push(first);
    let mut others = pick_top(rest, words, k - 1);
    let ghost tail = views(others@);
    r.append(&mut others);
    proof {
        assert(is_top(all, ws, best as int));
        assert(views(rest@) =~= all.remove(best as int));
        assert(views(r@).drop_first() =~= tail);
        assert(views(r@)[0] == all[best as int]);
    }
    r
}

/// The terms that characterize a document, at most `k`.
pub fn extract_top_terms(body: &[u8], k: usize) -> (r: Vec<String>)
    ensures
        are_top(views(r@), different(words_of(body@)), words_of(body@), k as nat),
{
    top_words(&read_words(body), k)
}

/// Only words of more than three characters count.
pub proof fn short_words_do_not_count(bytes: Seq<u8>, i: int)
    requires
        0 <= i < words_of(bytes).len(),
    ensures
        words_of(bytes)[i].len() > 3,
{
    scanned_words_are_long(bytes, i);
}

proof fn scanned_words_are_long(bytes: Seq<u8>, i: int)
    ensures
        0 <= i < scanned(bytes).0.len() ==> scanned(bytes).0[i].len() > 3,
    decreases bytes.len(),
{
    if bytes.len() > 0 {
        scanned_words_are_long(bytes.drop_last(), i);
    }
}

/// The first of the terms is at least as frequent as any other word.
pub proof fn first_term_is_most_frequent(
    top: Seq<Seq<char>>,
    words: Seq<Seq<char>>,
    k: nat,
    word: Seq<char>,
)
    requires
        are_top(top, different(words), words, k),
        top.len() > 0,
        different(words).contains(word),
    ensures
        occurrences(words, word) <= occurrences(words, top[0]),
{
    let candidates = different(words);
    let i = choose|i: int| #[trigger]
        is_top(candidates, words, i) && top.len() > 0 && top[0] == candidates[i] && are_top(
            top.drop_first(),
            candidates.remove(i),
            words,
            (k - 1) as nat,
        );
    let j = choose|j: int| 0 <= j < candidates.len() && candidates[j] == word;
    assert(occurrences(words, candidates[j]) <= occurrences(words, candidates[i]));
}

} // verus!

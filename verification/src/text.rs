//! Strings as sequences of characters: comparison, trimming, splitting,
//! searching and building, each with its meaning over `Seq<char>`.

use vstd::prelude::*;
use vstd::string::*;
use vstd::utf8::{decode_utf8, encode_utf8, valid_utf8};

verus! {

/// `String::push` appends one character.
pub assume_specification[ String::push ](s: &mut String, c: char)
    ensures
        final(s)@ == old(s)@.push(c),
;

/// The element-wise view of a sequence.
pub open spec fn views<T: View>(items: Seq<T>) -> Seq<T::V> {
    Seq::new(items.len(), |i: int| items[i]@)
}

pub broadcast proof fn views_push<T: View>(items: Seq<T>, item: T)
    ensures
        #[trigger] views(items.push(item)) == views(items).push(item@),
{
    assert(views(items.push(item)) =~= views(items).push(item@));
}

/// The characters of a string as a vector.
pub fn to_chars(s: &str) -> (r: Vec<char>)
    ensures
        r@ == s@,
{
    let mut r: Vec<char> = Vec::new();
    for c in iter: s.chars()
        invariant
            iter.seq() == s@,
            r@ == s@.take(iter.index() as int),
    {
        proof {
            assert(s@.take(iter.index() as int).push(c) =~= s@.take(iter.index() + 1));
        }
        r.push(c);
    }
    proof {
        assert(s@.take(s@.len() as int) =~= s@);
    }
    r
}

/// The string made of the characters `chars[from..to]`.
pub fn from_chars(chars: &Vec<char>, from: usize, to: usize) -> (r: String)
    requires
        from <= to <= chars@.len(),
    ensures
        r@ == chars@.subrange(from as int, to as int),
{
    let mut r = String::new();
    let mut i: usize = from;
    while i < to
        invariant
            from <= i <= to <= chars@.len(),
            r@ == chars@.subrange(from as int, i as int),
        decreases to - i,
    {
        r.push(chars[i]);
        i = i + 1;
        proof {
            assert(chars@.subrange(from as int, i as int) =~= chars@.subrange(from as int, i - 1).push(chars@[i - 1]));
        }
    }
    r
}

/// Whether two strings hold the same characters.
pub fn same(a: &str, b: &str) -> (r: bool)
    ensures
        r == (a@ == b@),
{
    a.to_owned() == b.to_owned()
}


/// Whether `s` begins with `prefix`.
pub fn starts_with(s: &str, prefix: &str) -> (r: bool)
    ensures
        r == prefix@.is_prefix_of(s@),
{
    let a = to_chars(s);
    let b = to_chars(prefix);
    if b.len() > a.len() {
        return false;
    }
    let mut i: usize = 0;
    while i < b.len()
        invariant
            i <= b@.len() <= a@.len(),
            forall|j: int| 0 <= j < i ==> a@[j] == b@[j],
        decreases b@.len() - i,
    {
        if a[i] != b[i] {
            proof {
                assert(a@.subrange(0, b@.len() as int)[i as int] == a@[i as int]);
            }
            return false;
        }
        i = i + 1;
    }
    proof {
        assert(b@ =~= a@.subrange(0, b@.len() as int));
    }
    true
}

/// Whether `s` ends with `suffix`.
pub fn ends_with(s: &str, suffix: &str) -> (r: bool)
    ensures
        r == suffix@.is_suffix_of(s@),
{
    let a = to_chars(s);
    let b = to_chars(suffix);
    if b.len() > a.len() {
        return false;
    }
    let base: usize = a.len() - b.len();
    let mut i: usize = 0;
    while i < b.len()
        invariant
            i <= b@.len() <= a@.len(),
            base + b@.len() == a@.len(),
            forall|j: int| 0 <= j < i ==> a@[base + j] == b@[j],
        decreases b@.len() - i,
    {
        if a[base + i] != b[i] {
            proof {
                assert(a@.subrange(base as int, a@.len() as int)[i as int] == a@[base + i]);
            }
            return false;
        }
        i = i + 1;
    }
    proof {
        assert(b@ =~= a@.subrange(base as int, a@.len() as int));
    }
    true
}

/// What follows `prefix` in `s`, where `s` begins with it.
pub fn strip_prefix(s: &str, prefix: &str) -> (r: Option<String>)
    ensures
        r is Some <==> prefix@.is_prefix_of(s@),
        r matches Some(rest) ==> s@ == prefix@ + rest@,
{
    if !starts_with(s, prefix) {
        return None;
    }
    let a = to_chars(s);
    let n: usize = to_chars(prefix).len();
    let rest = from_chars(&a, n, a.len());
    proof {
        assert(s@ =~= prefix@ + rest@);
    }
    Some(rest)
}

// ---------------------------------------------------------------------------
// Character classes
// ---------------------------------------------------------------------------

/// The characters with the Unicode `White_Space` property.
pub open spec fn white(c: char) -> bool {
    ||| 0x09 <= c as int <= 0x0d
    ||| c as int == 0x20
    ||| c as int == 0x85
    ||| c as int == 0xa0
    ||| c as int == 0x1680
    ||| 0x2000 <= c as int <= 0x200a
    ||| c as int == 0x2028
    ||| c as int == 0x2029
    ||| c as int == 0x202f
    ||| c as int == 0x205f
    ||| c as int == 0x3000
}

pub fn is_white(c: char) -> (r: bool)
    ensures
        r == white(c),
{
    let n: u32 = c as u32;
    (0x09 <= n && n <= 0x0d) || n == 0x20 || n == 0x85 || n == 0xa0 || n == 0x1680
        || (0x2000 <= n && n <= 0x200a) || n == 0x2028 || n == 0x2029 || n == 0x202f
        || n == 0x205f || n == 0x3000
}

/// The lower-case form of an ASCII letter; any other character is unchanged.
pub open spec fn lower(c: char) -> char {
    if 'A' <= c <= 'Z' {
        (c as u8 + 32) as char
    } else {
        c
    }
}

pub open spec fn lower_all(s: Seq<char>) -> Seq<char> {
    Seq::new(s.len(), |i: int| lower(s[i]))
}

pub fn ascii_lower_char(c: char) -> (r: char)
    ensures
        r == lower(c),
{
    if 'A' <= c && c <= 'Z' {
        ((c as u8) + 32) as char
    } else {
        c
    }
}

/// `s` with every ASCII letter in lower case.
pub fn ascii_lower(s: &str) -> (r: String)
    ensures
        r@ == lower_all(s@),
{
    let a = to_chars(s);
    let mut r = String::new();
    let mut i: usize = 0;
    while i < a.len()
        invariant
            i <= a@.len(),
            r@ == lower_all(a@.take(i as int)),
        decreases a@.len() - i,
    {
        r.push(ascii_lower_char(a[i]));
        i = i + 1;
        proof {
            assert(lower_all(a@.take(i as int)) =~= lower_all(a@.take(i - 1)).push(lower(a@[i - 1])));
        }
    }
    proof {
        assert(a@.take(a@.len() as int) =~= a@);
    }
    r
}

/// Whether two strings are equal up to the case of ASCII letters.
pub fn same_ignoring_case(a: &str, b: &str) -> (r: bool)
    ensures
        r == (lower_all(a@) == lower_all(b@)),
{
    ascii_lower(a) == ascii_lower(b)
}

// ---------------------------------------------------------------------------
// Trimming
// ---------------------------------------------------------------------------

/// `s` without its leading whitespace.
pub open spec fn trimmed_start(s: Seq<char>) -> Seq<char>
    decreases s.len(),
{
    if s.len() > 0 && white(s[0]) {
        trimmed_start(s.drop_first())
    } else {
        s
    }
}

/// `s` without its trailing whitespace.
pub open spec fn trimmed_end(s: Seq<char>) -> Seq<char>
    decreases s.len(),
{
    if s.len() > 0 && white(s.last()) {
        trimmed_end(s.drop_last())
    } else {
        s
    }
}

/// `s` without leading and trailing whitespace.
pub open spec fn trimmed(s: Seq<char>) -> Seq<char> {
    trimmed_end(trimmed_start(s))
}

/// `s` without its trailing `c`s.
pub open spec fn stripped_end(s: Seq<char>, c: char) -> Seq<char>
    decreases s.len(),
{
    if s.len() > 0 && s.last() == c {
        stripped_end(s.drop_last(), c)
    } else {
        s
    }
}

pub fn trim_start(s: &str) -> (r: String)
    ensures
        r@ == trimmed_start(s@),
{
    let a = to_chars(s);
    let mut i: usize = 0;
    proof {
        assert(a@.skip(0) =~= a@);
    }
    while i < a.len() && is_white(a[i])
        invariant
            i <= a@.len(),
            trimmed_start(a@.skip(i as int)) == trimmed_start(a@),
        decreases a@.len() - i,
    {
        proof {
            assert(a@.skip(i as int).drop_first() =~= a@.skip(i + 1));
        }
        i = i + 1;
    }
    let r = from_chars(&a, i, a.len());
    proof {
        assert(r@ =~= a@.skip(i as int));
    }
    r
}

pub fn trim_end(s: &str) -> (r: String)
    ensures
        r@ == trimmed_end(s@),
{
    let a = to_chars(s);
    let mut i: usize = a.len();
    proof {
        assert(a@.take(a@.len() as int) =~= a@);
    }
    while i > 0 && is_white(a[i - 1])
        invariant
            i <= a@.len(),
            trimmed_end(a@.take(i as int)) == trimmed_end(a@),
        decreases i,
    {
        proof {
            assert(a@.take(i as int).drop_last() =~= a@.take(i - 1));
        }
        i = i - 1;
    }
    let r = from_chars(&a, 0, i);
    proof {
        assert(r@ =~= a@.take(i as int));
    }
    r
}

pub fn trim(s: &str) -> (r: String)
    ensures
        r@ == trimmed(s@),
{
    let t = trim_start(s);
    trim_end(&t)
}

/// `s` without its trailing `c`s.
pub fn trim_end_char(s: &str, c: char) -> (r: String)
    ensures
        r@ == stripped_end(s@, c),
{
    let a = to_chars(s);
    let mut i: usize = a.len();
    proof {
        assert(a@.take(a@.len() as int) =~= a@);
    }
    while i > 0 && a[i - 1] == c
        invariant
            i <= a@.len(),
            stripped_end(a@.take(i as int), c) == stripped_end(a@, c),
        decreases i,
    {
        proof {
            assert(a@.take(i as int).drop_last() =~= a@.take(i - 1));
        }
        i = i - 1;
    }
    let r = from_chars(&a, 0, i);
    proof {
        assert(r@ =~= a@.take(i as int));
    }
    r
}

// ---------------------------------------------------------------------------
// Searching and splitting
// ---------------------------------------------------------------------------

/// Whether `part` occurs in `s` at `at`.
pub open spec fn occurs_at(s: Seq<char>, part: Seq<char>, at: int) -> bool {
    0 <= at && at + part.len() <= s.len() && s.subrange(at, at + part.len()) == part
}

/// The first position of `c` in `a` at or after `from`.
pub fn find_char(a: &Vec<char>, c: char, from: usize) -> (r: Option<usize>)
    requires
        from <= a@.len(),
    ensures
        match r {
            Some(i) => from <= i < a@.len() && a@[i as int] == c && forall|j: int|
                from <= j < i ==> a@[j] != c,
            None => forall|j: int| from <= j < a@.len() ==> a@[j] != c,
        },
{
    let mut i: usize = from;
    while i < a.len()
        invariant
            from <= i <= a@.len(),
            forall|j: int| from <= j < i ==> a@[j] != c,
        decreases a@.len() - i,
    {
        if a[i] == c {
            return Some(i);
        }
        i = i + 1;
    }
    None
}

/// The last position of `c` in `a`.
pub fn find_last_char(a: &Vec<char>, c: char) -> (r: Option<usize>)
    ensures
        match r {
            Some(i) => i < a@.len() && a@[i as int] == c && forall|j: int|
                i < j < a@.len() ==> a@[j] != c,
            None => forall|j: int| 0 <= j < a@.len() ==> a@[j] != c,
        },
{
    let mut i: usize = a.len();
    while i > 0
        invariant
            i <= a@.len(),
            forall|j: int| i <= j < a@.len() ==> a@[j] != c,
        decreases i,
    {
        i = i - 1;
        if a[i] == c {
            return Some(i);
        }
    }
    None
}

/// The pieces of `s` between its `sep`s.
pub open spec fn pieces(s: Seq<char>, sep: char) -> Seq<Seq<char>>
    decreases s.len(),
{
    if s.len() == 0 {
        seq![Seq::<char>::empty()]
    } else {
        let before = pieces(s.drop_last(), sep);
        if s.last() == sep {
            before.push(Seq::<char>::empty())
        } else {
            before.drop_last().push(before.last().push(s.last()))
        }
    }
}

pub proof fn pieces_nonempty(s: Seq<char>, sep: char)
    ensures
        pieces(s, sep).len() > 0,
    decreases s.len(),
{
    if s.len() > 0 {
        pieces_nonempty(s.drop_last(), sep);
    }
}

pub fn split(s: &str, sep: char) -> (r: Vec<String>)
    ensures
        views(r@) == pieces(s@, sep),
{
    broadcast use views_push;
    let a = to_chars(s);
    let mut r: Vec<String> = Vec::new();
    let mut piece = String::new();
    let mut i: usize = 0;
    proof {
        assert(views(r@).push(piece@) =~= pieces(a@.take(0), sep));
    }
    while i < a.len()
        invariant
            i <= a@.len(),
            views(r@).push(piece@) == pieces(a@.take(i as int), sep),
        decreases a@.len() - i,
    {
        let c = a[i];
        let ghost old_r = views(r@);
        let ghost old_piece = piece@;
        if c == sep {
            r.push(piece);
            piece = String::new();
        } else {
            piece.push(c);
        }
        i = i + 1;
        proof {
            assert(a@.take(i as int).drop_last() =~= a@.take(i - 1));
            assert(old_r.push(old_piece).drop_last() =~= old_r);
        }
    }
    r.push(piece);
    proof {
        assert(a@.take(a@.len() as int) =~= a@);
    }
    r
}

/// The maximal runs of non-whitespace in `s`.
pub open spec fn words(s: Seq<char>) -> Seq<Seq<char>>
    decreases s.len(),
{
    if s.len() == 0 {
        Seq::empty()
    } else {
        let before = words(s.drop_last());
        if white(s.last()) {
            before
        } else if s.len() == 1 || white(s[s.len() - 2]) {
            before.push(seq![s.last()])
        } else {
            before.drop_last().push(before.last().push(s.last()))
        }
    }
}

/// Every word of `s` is non-empty and free of whitespace, and `s` ends inside
/// the last one unless it ends with whitespace.
pub proof fn words_shape(s: Seq<char>)
    ensures
        s.len() > 0 && !white(s.last()) ==> words(s).len() > 0,
        forall|i: int| 0 <= i < words(s).len() ==> (#[trigger] words(s)[i]).len() > 0,
        forall|i: int, j: int|
            0 <= i < words(s).len() && 0 <= j < words(s)[i].len() ==> !white(#[trigger] words(s)[i][j]),
    decreases s.len(),
{
    if s.len() > 0 {
        words_shape(s.drop_last());
        if s.len() > 1 {
            assert(s.drop_last().last() == s[s.len() - 2]);
        }
        let before = words(s.drop_last());
        assert forall|i: int| 0 <= i < words(s).len() implies (#[trigger] words(s)[i]).len() > 0 by {
            if i < before.len() {
                assert(before[i].len() > 0);
            }
        }
        assert forall|i: int, j: int|
            0 <= i < words(s).len() && 0 <= j < words(s)[i].len() implies !white(
            #[trigger] words(s)[i][j],
        ) by {
            if i < before.len() && j < before[i].len() {
                assert(!white(before[i][j]));
            }
        }
    }
}

pub fn split_whitespace(s: &str) -> (r: Vec<String>)
    ensures
        views(r@) == words(s@),
{
    broadcast use views_push;
    let a = to_chars(s);
    let mut r: Vec<String> = Vec::new();
    let mut word = String::new();
    let mut i: usize = 0;
    while i < a.len()
        invariant
            i <= a@.len(),
            word@.len() == 0 <==> (i == 0 || white(a@[i - 1])),
            word@.len() == 0 ==> views(r@) == words(a@.take(i as int)),
            word@.len() > 0 ==> views(r@).push(word@) == words(a@.take(i as int)),
        decreases a@.len() - i,
    {
        let c = a[i];
        let ghost old_r = views(r@);
        let ghost old_word = word@;
        let blank = is_white(c);
        proof {
            assert(a@.take(i + 1).drop_last() =~= a@.take(i as int));
            if i > 0 {
                assert(a@.take(i + 1)[i - 1] == a@[i - 1]);
            }
            if old_word.len() > 0 {
                assert(old_r.push(old_word).drop_last() =~= old_r);
            } else {
                assert(old_word.push(c) =~= seq![c]);
            }
        }
        if !blank {
            word.push(c);
        } else if !word.as_str().is_empty() {
            r.push(word);
            word = String::new();
        }
        i = i + 1;
    }
    if !word.as_str().is_empty() {
        r.push(word);
    }
    proof {
        assert(a@.take(a@.len() as int) =~= a@);
    }
    r
}


// ---------------------------------------------------------------------------
// Building
// ---------------------------------------------------------------------------

/// The view of an optional value.
pub open spec fn opt_view<T: View>(o: Option<T>) -> Option<T::V> {
    match o {
        Some(x) => Some(x@),
        None => None,
    }
}

/// A copy of an optional string.
pub fn copy_opt(o: &Option<String>) -> (r: Option<String>)
    ensures
        opt_view(r) == opt_view(*o),
{
    match o {
        Some(s) => Some(s.clone()),
        None => None,
    }
}

/// A copy of a list of strings.
pub fn copy_all(items: &Vec<String>) -> (r: Vec<String>)
    ensures
        views(r@) == views(items@),
{
    let mut r: Vec<String> = Vec::new();
    for i in 0..items.len()
        invariant
            r@.len() == i,
            forall|j: int| 0 <= j < i ==> (#[trigger] r@[j])@ == items@[j]@,
    {
        r.push(items[i].clone());
    }
    proof {
        assert(views(r@) =~= views(items@));
    }
    r
}

/// `s` with each character replaced by the text that `image` gives it.
pub open spec fn expand(s: Seq<char>, image: spec_fn(char) -> Seq<char>) -> Seq<char>
    decreases s.len(),
{
    if s.len() == 0 {
        Seq::empty()
    } else {
        expand(s.drop_last(), image) + image(s.last())
    }
}

pub proof fn expand_push(s: Seq<char>, c: char, image: spec_fn(char) -> Seq<char>)
    ensures
        expand(s.push(c), image) == expand(s, image) + image(c),
{
    assert(s.push(c).drop_last() =~= s);
}

/// `c` twice for `mark`, once for any other character.
pub open spec fn doubled(mark: char) -> spec_fn(char) -> Seq<char> {
    |c: char|
        if c == mark {
            seq![c, c]
        } else {
            seq![c]
        }
}

/// `s` with every `mark` doubled.
pub fn double_char(s: &str, mark: char) -> (r: String)
    ensures
        r@ == expand(s@, doubled(mark)),
{
    let a = to_chars(s);
    let mut r = String::new();
    proof {
        assert(a@.take(0) =~= Seq::<char>::empty());
    }
    for i in 0..a.len()
        invariant
            r@ == expand(a@.take(i as int), doubled(mark)),
    {
        let ghost was = r@;
        let c = a[i];
        r.push(c);
        if c == mark {
            r.push(c);
        }
        proof {
            assert(a@.take(i + 1) =~= a@.take(i as int).push(c));
            expand_push(a@.take(i as int), c, doubled(mark));
            assert(r@ =~= was + doubled(mark)(c));
        }
    }
    proof {
        assert(a@.take(a@.len() as int) =~= a@);
    }
    r
}

/// The text of one character inside a quoted SPARQL literal.
pub open spec fn escaped_char(c: char) -> Seq<char> {
    if c == '\\' {
        seq!['\\', '\\']
    } else if c == '"' {
        seq!['\\', '"']
    } else if c == '\n' {
        seq!['\\', 'n']
    } else if c == '\r' {
        seq!['\\', 'r']
    } else if c == '\t' {
        seq!['\\', 't']
    } else {
        seq![c]
    }
}

/// The text of a string inside a quoted SPARQL literal.
pub open spec fn escaped(s: Seq<char>) -> Seq<char> {
    expand(s, |c: char| escaped_char(c))
}

pub fn escape_literal(s: &str) -> (r: String)
    ensures
        r@ == escaped(s@),
{
    let a = to_chars(s);
    let mut r = String::new();
    let ghost image = |c: char| escaped_char(c);
    proof {
        assert(a@.take(0) =~= Seq::<char>::empty());
    }
    for i in 0..a.len()
        invariant
            r@ == expand(a@.take(i as int), image),
    {
        let ghost was = r@;
        let c = a[i];
        if c == '\\' {
            r.push('\\');
            r.push('\\');
        } else if c == '"' {
            r.push('\\');
            r.push('"');
        } else if c == '\n' {
            r.push('\\');
            r.push('n');
        } else if c == '\r' {
            r.push('\\');
            r.push('r');
        } else if c == '\t' {
            r.push('\\');
            r.push('t');
        } else {
            r.push(c);
        }
        proof {
            assert(a@.take(i + 1) =~= a@.take(i as int).push(c));
            expand_push(a@.take(i as int), c, image);
            assert(r@ =~= was + image(c));
        }
    }
    proof {
        assert(a@.take(a@.len() as int) =~= a@);
    }
    r
}

/// The parts with `sep` between them.
pub open spec fn joined(parts: Seq<Seq<char>>, sep: Seq<char>) -> Seq<char>
    decreases parts.len(),
{
    if parts.len() == 0 {
        Seq::empty()
    } else if parts.len() == 1 {
        parts[0]
    } else {
        joined(parts.drop_last(), sep) + sep + parts.last()
    }
}

pub fn join(parts: &[String], sep: &str) -> (r: String)
    ensures
        r@ == joined(views(parts@), sep@),
{
    let mut r = String::new();
    let ghost all = views(parts@);
    for i in 0..parts.len()
        invariant
            all == views(parts@),
            r@ == joined(all.take(i as int), sep@),
    {
        let ghost was = r@;
        if i > 0 {
            r.append(sep);
        }
        r.append(&parts[i]);
        proof {
            assert(all.take(i + 1).drop_last() =~= all.take(i as int));
            assert(all[i as int] == parts@[i as int]@);
            if i == 0 {
                assert(r@ =~= all[0]);
            }
        }
    }
    proof {
        assert(all.take(all.len() as int) =~= all);
    }
    r
}

/// How often `c` stands in `s`.
pub open spec fn count_of(s: Seq<char>, c: char) -> nat
    decreases s.len(),
{
    if s.len() == 0 {
        0
    } else {
        count_of(s.drop_last(), c) + if s.last() == c {
            1nat
        } else {
            0nat
        }
    }
}

/// Counting goes part by part.
pub proof fn count_of_sum(a: Seq<char>, b: Seq<char>, c: char)
    ensures
        count_of(a + b, c) == count_of(a, c) + count_of(b, c),
    decreases b.len(),
{
    if b.len() == 0 {
        assert(a + b =~= a);
    } else {
        assert((a + b).drop_last() =~= a + b.drop_last());
        count_of_sum(a, b.drop_last(), c);
    }
}

/// What does not occur is counted zero times.
pub proof fn count_of_absent(s: Seq<char>, c: char)
    requires
        !s.contains(c),
    ensures
        count_of(s, c) == 0,
    decreases s.len(),
{
    if s.len() > 0 {
        assert(s[s.len() - 1] != c);
        assert forall|i: int| 0 <= i < s.drop_last().len() implies s.drop_last()[i] != c by {
            assert(s[i] != c);
        }
        count_of_absent(s.drop_last(), c);
    }
}

/// The parts one after the other.
pub open spec fn concatenated(parts: Seq<Seq<char>>) -> Seq<char>
    decreases parts.len(),
{
    if parts.len() == 0 {
        Seq::empty()
    } else {
        concatenated(parts.drop_last()) + parts.last()
    }
}

pub proof fn concatenated_push(parts: Seq<Seq<char>>, part: Seq<char>)
    ensures
        concatenated(parts.push(part)) == concatenated(parts) + part,
{
    assert(parts.push(part).drop_last() =~= parts);
}

/// Whether `item` stands in `items`.
pub fn has_text(items: &Vec<String>, item: &str) -> (r: bool)
    ensures
        r == views(items@).contains(item@),
{
    for i in 0..items.len()
        invariant
            forall|j: int| 0 <= j < i ==> (#[trigger] views(items@)[j]) != item@,
    {
        if same(&items[i], item) {
            proof {
                assert(views(items@)[i as int] == item@);
            }
            return true;
        }
    }
    false
}

/// A string as Rust prints it for debugging: in quotes, with escapes.
pub uninterp spec fn debug_text(s: Seq<char>) -> Seq<char>;

/// The `Debug` form of `str`.
#[verifier::external_body]
fn debug_str(s: &str) -> (r: String)
    ensures
        r@ == debug_text(s@),
{
    format!("{s:?}")
}

/// A string in quotes, with escapes.
pub fn quote(s: &str) -> (r: String)
    ensures
        r@ == debug_text(s@),
{
    debug_str(s)
}

// ---------------------------------------------------------------------------
// Bytes
// ---------------------------------------------------------------------------

/// The UTF-8 bytes of a text.
pub fn bytes_of(s: &str) -> (r: Vec<u8>)
    ensures
        r@ == encode_utf8(s@),
{
    let bytes = s.as_bytes();
    let mut r: Vec<u8> = Vec::new();
    for i in 0..bytes.len()
        invariant
            r@ == bytes@.take(i as int),
    {
        r.push(bytes[i]);
        proof {
            assert(r@ =~= bytes@.take(i + 1));
        }
    }
    proof {
        assert(r@ =~= bytes@);
    }
    r
}

/// What `std::str::from_utf8` says of bytes that are not UTF-8.
pub uninterp spec fn utf8_error(bytes: Seq<u8>) -> Seq<char>;

/// Calls `std::str::from_utf8`: bytes that are valid UTF-8 give the text that
/// they encode, and others give the error's message. Which message is not said
/// beyond that the bytes decide it.
#[verifier::external_body]
fn from_utf8(bytes: &[u8]) -> (r: Result<String, String>)
    ensures
        r is Ok <==> valid_utf8(bytes@),
        r matches Ok(s) ==> s@ == decode_utf8(bytes@),
        r matches Err(e) ==> e@ == utf8_error(bytes@),
{
    match std::str::from_utf8(bytes) {
        Ok(s) => Ok(s.to_owned()),
        Err(e) => Err(e.to_string()),
    }
}

/// The text that bytes encode, or why they encode none.
pub open spec fn decoded(bytes: Seq<u8>) -> Result<Seq<char>, Seq<char>> {
    if valid_utf8(bytes) {
        Ok(decode_utf8(bytes))
    } else {
        Err(utf8_error(bytes))
    }
}

pub fn decode(bytes: &[u8]) -> (r: Result<String, String>)
    ensures
        match r {
            Ok(s) => decoded(bytes@) == Ok::<Seq<char>, Seq<char>>(s@),
            Err(e) => decoded(bytes@) == Err::<Seq<char>, Seq<char>>(e@),
        },
{
    from_utf8(bytes)
}

/// Decoding undoes encoding.
pub proof fn decoding_undoes_encoding(s: Seq<char>)
    ensures
        decoded(encode_utf8(s)) == Ok::<Seq<char>, Seq<char>>(s),
{
    broadcast use vstd::utf8::encode_utf8_valid_utf8;

    vstd::utf8::encode_utf8_decode_utf8(s);
}

} // verus!

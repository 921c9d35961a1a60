//! Quoting in SQL text.

use vstd::prelude::*;
use vstd::string::*;

use crate::text::{double_char, doubled, expand};

verus! {

/// A string inside a double-quoted identifier.
pub open spec fn ident(s: Seq<char>) -> Seq<char> {
    expand(s, doubled('"'))
}

/// A string as a single-quoted literal.
pub open spec fn quoted(s: Seq<char>) -> Seq<char> {
    "'"@ + expand(s, doubled('\'')) + "'"@
}

/// A table named by database and resource.
pub open spec fn table_ref(database: Seq<char>, resource: Seq<char>) -> Seq<char> {
    "\""@ + ident(database) + "\".\""@ + ident(resource) + "\""@
}

pub fn escape_ident(s: &str) -> (r: String)
    ensures
        r@ == ident(s@),
{
    double_char(s, '"')
}

pub fn quote_text(s: &str) -> (r: String)
    ensures
        r@ == quoted(s@),
{
    "'".to_owned().concat(&double_char(s, '\'')).concat("'")
}

pub fn table(database: &str, resource: &str) -> (r: String)
    ensures
        r@ == table_ref(database@, resource@),
{
    let d = escape_ident(database);
    let e = escape_ident(resource);
    "\"".to_owned().concat(&d).concat("\".\"").concat(&e).concat("\"")
}

/// Whether every run of `mark`s in `s` has even length.
pub open spec fn marks_paired(s: Seq<char>, mark: char) -> bool
    decreases s.len(),
{
    if s.len() == 0 {
        true
    } else if s.last() != mark {
        marks_paired(s.drop_last(), mark)
    } else {
        s.len() >= 2 && s[s.len() - 2] == mark && marks_paired(s.take(s.len() - 2), mark)
    }
}

/// Doubled text holds the mark in pairs alone, so no mark in it ends the
/// quotation.
pub proof fn doubling_pairs_marks(s: Seq<char>, mark: char)
    ensures
        marks_paired(expand(s, doubled(mark)), mark),
    decreases s.len(),
{
    if s.len() > 0 {
        let head = expand(s.drop_last(), doubled(mark));
        let all = expand(s, doubled(mark));
        doubling_pairs_marks(s.drop_last(), mark);
        if s.last() == mark {
            assert(all.take(all.len() - 2) =~= head);
        } else {
            assert(all.drop_last() =~= head);
        }
    }
}

/// Two different strings are quoted differently.
pub proof fn doubling_is_injective(a: Seq<char>, b: Seq<char>, mark: char)
    requires
        expand(a, doubled(mark)) == expand(b, doubled(mark)),
    ensures
        a == b,
    decreases a.len(),
{
    let x = expand(a, doubled(mark));
    if a.len() == 0 {
        if b.len() > 0 {
            assert(x.len() > 0);
        }
        assert(a =~= b);
    } else if b.len() == 0 {
        assert(x.len() > 0);
    } else {
        let ha = expand(a.drop_last(), doubled(mark));
        let hb = expand(b.drop_last(), doubled(mark));
        assert(x.last() == a.last());
        assert(x.last() == b.last());
        let cut = if a.last() == mark { 2int } else { 1int };
        assert(x.take(x.len() - cut) =~= ha);
        assert(x.take(x.len() - cut) =~= hb);
        doubling_is_injective(a.drop_last(), b.drop_last(), mark);
        assert(a =~= a.drop_last().push(a.last()));
        assert(b =~= b.drop_last().push(b.last()));
    }
}

} // verus!

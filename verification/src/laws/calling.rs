//! How a search for documents goes on from one reply to the next.

use vstd::prelude::*;
use crate::document::calls::{conflict, ends_before_it_begins, fetched_reply, hits_with_body, leads, listed,
    next_lacking, says, Action, DocRef, Search, SearchOpts, Stage};
use crate::document::manticore::{reply_hits, AtTime, Hit, HitView};
use crate::document::sirix::{addresses, fetched_text, revisions_text, DocIdView};
use crate::endpoint::endpoint_of;
use crate::json::{json_parse, JsonView};
use crate::number::{decimal_has_value, decimal_of, int_text, is_digit, parse_undoes_signed_decimal};
use crate::text::{opt_view, trimmed, views, white};

verus! {

// ---------------------------------------------------------------------------
// Options
// ---------------------------------------------------------------------------

/// A moment and a revision exclude each other, and where ranges count, a range
/// excludes both. Nothing else is refused.
pub proof fn points_and_ranges_exclude_each_other(o: SearchOpts, with_range: bool)
    ensures
        conflict(o, with_range) is None <==> !(o.at_time is Some && o.at_rev is Some) && (with_range ==> (o.after is None
            && o.before is None) || (o.at_time is None && o.at_rev is None)),
{
}

/// The decimal text of a number says that many seconds since the epoch, and no
/// other moment.
pub proof fn numbers_say_seconds(n: i64, t: AtTime)
    ensures
        says(int_text(n as int), t) <==> t == AtTime::Epoch(n),
{
    parse_undoes_signed_decimal(n);
    reveal_strlit("-");
    let text = int_text(n as int);
    let m: nat = if n < 0 { (-n) as nat } else { n as nat };
    decimal_has_value(m);
    let digits = decimal_of(m);
    assert(is_digit(digits[0]) && is_digit(digits[digits.len() - 1]));
    assert(text.last() == digits[digits.len() - 1]);
    assert(text[0] == '-' || text[0] == digits[0]);
    assert(!white(text[0]) && !white(text.last()));
    assert(trimmed(text) == text);
}

/// A range in seconds is empty just where its beginning lies behind its end; an
/// open one never is.
pub proof fn ranges_in_seconds(a: i64, b: i64, t: AtTime)
    ensures
        ends_before_it_begins(Some(AtTime::Epoch(a)), Some(AtTime::Epoch(b))) <==> b < a,
        !ends_before_it_begins(Some(t), None),
        !ends_before_it_begins(None, Some(t)),
        !ends_before_it_begins(None, None),
{
}

/// The path stands behind the address of a service.
pub proof fn path_is_appended(base: Seq<char>, path: Seq<char>)
    requires
        base.len() == 0 || base.last() != '/',
        !path.is_suffix_of(base),
    ensures
        endpoint_of(base, path) == base + path,
        endpoint_of(base.push('/'), path) == base + path,
{
    assert(base.push('/').drop_last() =~= base);
}

// ---------------------------------------------------------------------------
// Bodies
// ---------------------------------------------------------------------------

/// Whether there is nothing to ask the store for: the hit has its body, or what it
/// names is no address of the store.
pub open spec fn settled(h: HitView) -> bool {
    h.body is Some || forall|d: DocIdView| !addresses(h.doc, d)
}

/// Whether all hits of a stretch are settled.
pub open spec fn all_settled(hits: Seq<HitView>, from: int, to: int) -> bool {
    forall|i: int| from <= i < to ==> settled(#[trigger] hits[i])
}

proof fn search_for_lacking(hits: Seq<HitView>, from: int)
    requires
        0 <= from,
    ensures
        next_lacking(hits, from) matches Some(i) ==> from <= i < hits.len() && !settled(hits[i]) && all_settled(
            hits,
            from,
            i,
        ),
        next_lacking(hits, from) is None ==> all_settled(hits, from, hits.len() as int),
    decreases hits.len() - from,
{
    if from < hits.len() {
        if settled(hits[from]) {
            search_for_lacking(hits, from + 1);
            match next_lacking(hits, from + 1) {
                Some(i) => {
                    assert forall|k: int| from <= k < i implies settled(#[trigger] hits[k]) by {
                        if k > from {
                            assert(from + 1 <= k < i);
                        }
                    }
                },
                None => {
                    assert forall|k: int| from <= k < hits.len() implies settled(#[trigger] hits[k]) by {
                        if k > from {
                            assert(from + 1 <= k < hits.len());
                        }
                    }
                },
            }
        }
    }
}

/// What the store answers for a hit becomes its body, and no other hit changes.
/// The next that the store is asked for is the next one without a body; there is
/// none left when the search ends.
pub proof fn every_body_is_asked_for(
    c: Search,
    words: String,
    hits: Vec<Hit>,
    at: usize,
    reply: Result<String, String>,
    next: Stage,
    action: Action,
)
    requires
        leads(c, Stage::Fetching(words, hits, at), reply, next, action),
        at < hits@.len(),
    ensures
        next matches Stage::Fetching(w, h, to) ==> {
            let now = views(h@);
            let was = views(hits@);
            &&& w@ == words@
            &&& now.len() == was.len()
            &&& at < to < now.len()
            &&& !settled(now[to as int])
            &&& all_settled(now, at + 1, to as int)
            &&& forall|i: int| 0 <= i < now.len() && i != at ==> #[trigger] now[i] == was[i]
            &&& (reply matches Ok(text) && fetched_text(text@, opt_view(c.opts.body_content_type)) matches Ok(doc)
                && now[at as int].body == Some(doc.0) && now[at as int].content_type == Some(doc.1)) || now[at as int]
                == was[at as int]
            &&& action matches Action::Send(p) && p.url@ == endpoint_of(c.sirix_url@, "/query"@)
        },
        (reply matches Ok(text) && fetched_text(text@, opt_view(c.opts.body_content_type)) is Ok) ==> {
            &&& next matches Stage::Fetching(w, h, to) ==> views(h@)[at as int].body is Some
            &&& action matches Action::Finish(Ok(out)) ==> (out@[at as int])@.body is Some
        },
        next !is Fetching ==> {
            &&& next is Over
            &&& action matches Action::Finish(Ok(out)) && out@.len() == hits@.len() && all_settled(
                views(hits@),
                at + 1,
                hits@.len() as int,
            ) && forall|i: int| 0 <= i < out@.len() && i != at ==> (#[trigger] out@[i])@.body == hits@[i]@.body
        },
{
    let was = views(hits@);
    let fetched = fetched_reply(reply, opt_view(c.opts.body_content_type));
    let now = hits_with_body(was, at as int, fetched);
    search_for_lacking(now, at + 1);
    assert(now.len() == was.len());
    assert forall|i: int| 0 <= i < now.len() && i != at implies #[trigger] now[i] == was[i] by {
    }
    if next_lacking(now, at + 1) is None {
        assert forall|i: int| at + 1 <= i < was.len() implies settled(#[trigger] was[i]) by {
            assert(settled(now[i]));
            assert(now[i] == was[i]);
        }
    }
}

// ---------------------------------------------------------------------------
// Hits
// ---------------------------------------------------------------------------

/// The hits of a reply are handed out as they are where no bodies are wished for.
/// A search at a moment that finds nothing in its one index first asks whether the
/// index knows moments at all.
pub proof fn hits_are_handed_out(
    c: Search,
    words: String,
    may: bool,
    text: String,
    root: JsonView,
    hits: Seq<HitView>,
    next: Stage,
    action: Action,
)
    requires
        leads(c, Stage::Searching(words, may), Ok(text), next, action),
        json_parse(text@) == Ok::<JsonView, Seq<char>>(root),
        reply_hits(root) == Ok::<Seq<HitView>, Seq<char>>(hits),
    ensures
        !c.opts.include_body && (hits.len() > 0 || c.opts.at_time is None || !may) ==> (action matches Action::Finish(
            Ok(out),
        ) && views(out@) == hits && next is Over),
        next is Probing <==> may && hits.len() == 0 && c.opts.at_time is Some && c.opts.indexes@.len() == 0
            && c.index@.len() > 0,
        next is Probing ==> (action matches Action::Send(p) && p.url@ == endpoint_of(c.search_url@, "/search"@)),
{
    if !c.opts.include_body && (hits.len() > 0 || c.opts.at_time is None || !may) {
        if let Action::Finish(Ok(out)) = action {
            assert forall|i: int| 0 <= i < hits.len() implies views(out@)[i] == #[trigger] hits[i] by {
                assert(out@[i]@ == hits[i]);
            }
            assert(views(out@) =~= hits);
        }
    }
}

/// A reply that cannot be read, or that did not come, ends a search with an error.
pub proof fn unread_replies_end_the_search(
    c: Search,
    words: String,
    may: bool,
    reply: Result<String, String>,
    next: Stage,
    action: Action,
)
    requires
        leads(c, Stage::Searching(words, may), reply, next, action),
        reply matches Ok(text) ==> json_parse(text@) is Err || reply_hits(json_parse(text@)->Ok_0) is Err,
    ensures
        next is Over,
        action matches Action::Finish(Err(_)),
{
}

/// The revisions that the store lists are handed out as they are; where it lists
/// none, there is the one that was asked for.
pub proof fn revisions_are_handed_out(doc: DocRef, text: Seq<char>, revs: Seq<u64>)
    ensures
        revs.len() > 0 && revisions_text(text) == Ok::<Seq<u64>, Seq<char>>(revs) ==> listed(doc, text) == revs,
        listed(doc, text).len() > 0,
        doc.revision is Some && revisions_text(text) is Err ==> listed(doc, text) == seq![doc.revision->0],
        doc.revision is None && revisions_text(text) is Err ==> listed(doc, text) == seq![1u64],
{
}

} // verus!

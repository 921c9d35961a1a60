//! The order of strings, and sorting by a string key.
//!
//! Strings are ordered by the code points of their characters, position by
//! position; a proper prefix comes first.

use vstd::prelude::*;
use vstd::string::*;

use crate::text::{to_chars, views};

verus! {

/// Whether `a` comes strictly before `b`.
pub open spec fn before(a: Seq<char>, b: Seq<char>) -> bool
    decreases a.len(),
{
    if b.len() == 0 {
        false
    } else if a.len() == 0 {
        true
    } else if a[0] != b[0] {
        a[0] < b[0]
    } else {
        before(a.drop_first(), b.drop_first())
    }
}

/// Whether `a` comes no later than `b`.
pub open spec fn at_most(a: Seq<char>, b: Seq<char>) -> bool {
    !before(b, a)
}

pub proof fn before_irreflexive(a: Seq<char>)
    ensures
        !before(a, a),
    decreases a.len(),
{
    if a.len() > 0 {
        before_irreflexive(a.drop_first());
    }
}

pub proof fn before_transitive(a: Seq<char>, b: Seq<char>, c: Seq<char>)
    requires
        before(a, b),
        before(b, c),
    ensures
        before(a, c),
    decreases a.len(),
{
    if a.len() > 0 && a[0] == b[0] && b[0] == c[0] {
        before_transitive(a.drop_first(), b.drop_first(), c.drop_first());
    }
}

/// Of two different strings exactly one comes before the other.
pub proof fn before_total(a: Seq<char>, b: Seq<char>)
    ensures
        a != b ==> before(a, b) || before(b, a),
        !(before(a, b) && before(b, a)),
    decreases a.len(),
{
    if a.len() > 0 && b.len() > 0 {
        before_total(a.drop_first(), b.drop_first());
        if a.drop_first() == b.drop_first() && a[0] == b[0] {
            assert(a =~= seq![a[0]] + a.drop_first());
            assert(b =~= seq![b[0]] + b.drop_first());
        }
    } else if a.len() == 0 && b.len() == 0 {
        assert(a =~= b);
    }
}

pub proof fn at_most_transitive(a: Seq<char>, b: Seq<char>, c: Seq<char>)
    requires
        at_most(a, b),
        at_most(b, c),
    ensures
        at_most(a, c),
{
    if before(c, a) {
        before_total(a, b);
        before_total(b, c);
        if a == b {
        } else if b == c {
        } else {
            before_transitive(a, b, c);
            before_total(a, c);
        }
    }
}

/// Whether `a` comes strictly before `b`.
pub fn is_before(a: &str, b: &str) -> (r: bool)
    ensures
        r == before(a@, b@),
{
    let x = to_chars(a);
    let y = to_chars(b);
    let mut i: usize = 0;
    proof {
        assert(x@.skip(0) =~= x@);
        assert(y@.skip(0) =~= y@);
    }
    while i < x.len() && i < y.len()
        invariant
            i <= x@.len(),
            i <= y@.len(),
            before(x@, y@) == before(x@.skip(i as int), y@.skip(i as int)),
        decreases x@.len() - i,
    {
        if x[i] != y[i] {
            return x[i] < y[i];
        }
        proof {
            assert(x@.skip(i as int).drop_first() =~= x@.skip(i + 1));
            assert(y@.skip(i as int).drop_first() =~= y@.skip(i + 1));
        }
        i = i + 1;
    }
    i == x.len() && i < y.len()
}

// ---------------------------------------------------------------------------
// Sorting by key
// ---------------------------------------------------------------------------

/// An item that has a string to sort it by.
pub trait HasKey: Sized {
    spec fn key(self) -> Seq<char>;
}

/// An item that can hand out the string to sort it by.
pub trait Keyed: HasKey {
    fn key_text(&self) -> (r: &str)
        ensures
            r@ == self.key(),
    ;
}

impl HasKey for Seq<char> {
    open spec fn key(self) -> Seq<char> {
        self
    }
}

impl HasKey for String {
    open spec fn key(self) -> Seq<char> {
        self@
    }
}

impl Keyed for String {
    fn key_text(&self) -> (r: &str) {
        self.as_str()
    }
}

/// Whether the keys never go down.
pub open spec fn sorted<T: HasKey>(items: Seq<T>) -> bool {
    forall|i: int, j: int|
        0 <= i < j < items.len() ==> at_most((#[trigger] items[i]).key(), (#[trigger] items[j]).key())
}

/// The test for the key `k`.
pub open spec fn key_is<T: HasKey>(k: Seq<char>) -> spec_fn(T) -> bool {
    |item: T| item.key() == k
}

/// The items with the key `k`, in their order.
pub open spec fn with_key<T: HasKey>(items: Seq<T>, k: Seq<char>) -> Seq<T> {
    items.filter(key_is::<T>(k))
}

/// Whether `result` holds the items of `items` sorted by key, with items of
/// one key left in their order.
pub open spec fn stably_sorts<T: HasKey>(result: Seq<T>, items: Seq<T>) -> bool {
    &&& sorted(result)
    &&& result.len() == items.len()
    &&& forall|k: Seq<char>| #[trigger] with_key(result, k) == with_key(items, k)
}

pub proof fn with_key_push<T: HasKey>(items: Seq<T>, item: T, k: Seq<char>)
    ensures
        with_key(items.push(item), k) == if item.key() == k {
            with_key(items, k).push(item)
        } else {
            with_key(items, k)
        },
{
    reveal(Seq::filter);
    assert(items.push(item).drop_last() =~= items);
}

/// Inserting an item behind every item with a smaller or equal key and before
/// the greater ones puts it behind the others of its key.
proof fn with_key_insert<T: HasKey>(items: Seq<T>, at: int, item: T, k: Seq<char>)
    requires
        0 <= at <= items.len(),
        forall|i: int| at <= i < items.len() ==> (#[trigger] items[i]).key() != item.key(),
    ensures
        with_key(items.insert(at, item), k) == if item.key() == k {
            with_key(items, k).push(item)
        } else {
            with_key(items, k)
        },
    decreases items.len(),
{
    if at == items.len() {
        assert(items.insert(at, item) =~= items.push(item));
        with_key_push(items, item, k);
    } else {
        let rest = items.drop_last();
        assert(items =~= rest.push(items.last()));
        assert(items.insert(at, item) =~= rest.insert(at, item).push(items.last()));
        with_key_insert(rest, at, item, k);
        with_key_push(rest, items.last(), k);
        with_key_push(rest.insert(at, item), items.last(), k);
    }
}

/// Sorts by key; items of one key keep their order.
pub fn sort_by_key<T: Keyed>(items: Vec<T>) -> (r: Vec<T>)
    ensures
        stably_sorts(r@, items@),
{
    let ghost all = items@;
    let mut r: Vec<T> = Vec::new();
    proof {
        assert(r@ =~= all.take(0));
    }
    for item in iter: items
        invariant
            iter.seq() == all,
            stably_sorts(r@, all.take(iter.index() as int)),
    {
        let ghost done = iter.index() as int;
        let ghost prefix = all.take(done);
        insert_by_key(&mut r, item);
        proof {
            assert(all.take(done + 1) =~= prefix.push(item));
            assert forall|k: Seq<char>| #[trigger] with_key(r@, k) == with_key(all.take(done + 1), k) by {
                with_key_push(prefix, item, k);
            }
        }
    }
    proof {
        assert(all.take(all.len() as int) =~= all);
    }
    r
}

/// Inserts an item into a sorted vector, behind the items of its key.
pub fn insert_by_key<T: Keyed>(items: &mut Vec<T>, item: T)
    requires
        sorted(old(items)@),
    ensures
        sorted(final(items)@),
        final(items)@.len() == old(items)@.len() + 1,
        forall|k: Seq<char>| #[trigger]
            with_key(final(items)@, k) == if item.key() == k {
                with_key(old(items)@, k).push(item)
            } else {
                with_key(old(items)@, k)
            },
{
    let ghost start = items@;
    let mut at: usize = items.len();
    while at > 0 && is_before(item.key_text(), items[at - 1].key_text())
        invariant
            items@ == start,
            at <= items@.len(),
            forall|i: int| at <= i < items@.len() ==> before(item.key(), (#[trigger] items@[i]).key()),
        decreases at,
    {
        at = at - 1;
    }
    proof {
        assert forall|i: int| at <= i < start.len() implies (#[trigger] start[i]).key() != item.key() by {
            before_irreflexive(item.key());
        }
        assert forall|i: int| 0 <= i < at implies at_most((#[trigger] start[i]).key(), item.key()) by {
            if i < at - 1 {
                assert(at_most(start[i].key(), start[at - 1].key()));
                at_most_transitive(start[i].key(), start[at - 1].key(), item.key());
            }
        }
    }
    items.insert(at, item);
    proof {
        assert(items@ =~= start.insert(at as int, item));
        assert forall|k: Seq<char>| #[trigger]
            with_key(items@, k) == (if item.key() == k {
                with_key(start, k).push(item)
            } else {
                with_key(start, k)
            }) by {
            with_key_insert(start, at as int, item, k);
        }
        assert forall|i: int, j: int| 0 <= i < j < items@.len() implies at_most(
            (#[trigger] items@[i]).key(),
            (#[trigger] items@[j]).key(),
        ) by {
            if i == at {
                before_total(item.key(), start[j - 1].key());
            } else if j == at {
            } else {
                let p = if i < at { i } else { i - 1 };
                let q = if j < at { j } else { j - 1 };
                assert(at_most(start[p].key(), start[q].key()));
            }
        }
    }
}

/// Sorting items sorts their views.
pub proof fn views_sorted<T: HasKey + View>(result: Seq<T>, items: Seq<T>)
    where T::V: HasKey
    requires
        stably_sorts(result, items),
        forall|t: T| #[trigger] t@.key() == t.key(),
    ensures
        stably_sorts(views(result), views(items)),
{
    assert forall|k: Seq<char>| #[trigger] with_key(views(result), k) == with_key(views(items), k) by {
        with_key_views(result, k);
        with_key_views(items, k);
        assert(with_key(result, k) == with_key(items, k));
    }
    assert forall|i: int, j: int| 0 <= i < j < views(result).len() implies at_most(
        (#[trigger] views(result)[i]).key(),
        (#[trigger] views(result)[j]).key(),
    ) by {
        assert(at_most(result[i].key(), result[j].key()));
        assert(result[i]@.key() == result[i].key());
        assert(result[j]@.key() == result[j].key());
    }
}

proof fn with_key_views<T: HasKey + View>(items: Seq<T>, k: Seq<char>)
    where T::V: HasKey
    requires
        forall|t: T| #[trigger] t@.key() == t.key(),
    ensures
        with_key(views(items), k) == views(with_key(items, k)),
    decreases items.len(),
{
    if items.len() == 0 {
        reveal(Seq::filter);
        assert(views(items) =~= Seq::<T::V>::empty());
        assert(with_key(items, k) =~= Seq::<T>::empty());
        assert(with_key(views(items), k) =~= views(with_key(items, k)));
    } else {
        let rest = items.drop_last();
        let last = items.last();
        with_key_views(rest, k);
        assert(items =~= rest.push(last));
        assert(views(items) =~= views(rest).push(last@));
        with_key_push(rest, last, k);
        with_key_push(views(rest), last@, k);
        assert(last@.key() == last.key());
        assert(views(with_key(rest, k).push(last)) =~= views(with_key(rest, k)).push(last@));
    }
}

/// Whether some item has the key `k`.
pub open spec fn has_key<T: HasKey>(items: Seq<T>, k: Seq<char>) -> bool {
    exists|i: int| 0 <= i < items.len() && (#[trigger] items[i]).key() == k
}

proof fn with_key_nonempty<T: HasKey>(items: Seq<T>, k: Seq<char>)
    ensures
        with_key(items, k).len() > 0 <==> has_key(items, k),
{
    let p = key_is::<T>(k);
    if with_key(items, k).len() > 0 {
        let x = items.filter(p)[0];
        items.lemma_filter_pred(p, 0);
        items.lemma_filter_contains_rev(p, x);
        let i = choose|i: int| 0 <= i < items.len() && items[i] == x;
        assert(items[i].key() == k);
    }
    if has_key(items, k) {
        let i = choose|i: int| 0 <= i < items.len() && (#[trigger] items[i]).key() == k;
        items.lemma_filter_contains(p, i);
    }
}

/// Sorting keeps the keys.
pub proof fn sorting_keeps_keys<T: HasKey>(result: Seq<T>, items: Seq<T>, k: Seq<char>)
    requires
        stably_sorts(result, items),
    ensures
        has_key(result, k) <==> has_key(items, k),
{
    assert(with_key(result, k) == with_key(items, k));
    with_key_nonempty(result, k);
    with_key_nonempty(items, k);
}

/// Sorting adds no items.
pub proof fn sorted_member<T: HasKey>(result: Seq<T>, items: Seq<T>, i: int)
    requires
        stably_sorts(result, items),
        0 <= i < result.len(),
    ensures
        items.contains(result[i]),
{
    let k = result[i].key();
    let p = key_is::<T>(k);
    assert(with_key(result, k) == with_key(items, k));
    result.lemma_filter_contains(p, i);
    items.lemma_filter_contains_rev(p, result[i]);
}

/// The items, last first.
pub fn turned<T>(items: Vec<T>) -> (r: Vec<T>)
    ensures
        r@ == items@.reverse(),
{
    let ghost all = items@;
    let mut rest = items;
    let mut r: Vec<T> = Vec::new();
    while rest.len() > 0
        invariant
            rest@ == all.take(rest@.len() as int),
            rest@.len() + r@.len() == all.len(),
            r@ == all.reverse().take(r@.len() as int),
        decreases rest@.len(),
    {
        match rest.pop() {
            Some(item) => {
                r.push(item);
                proof {
                    assert(r@ =~= all.reverse().take(r@.len() as int));
                    assert(rest@ =~= all.take(rest@.len() as int));
                }
            },
            None => {},
        }
    }
    proof {
        assert(r@ =~= all.reverse());
    }
    r
}

} // verus!

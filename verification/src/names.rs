//! Sets of names.

use vstd::prelude::*;

use crate::order::{before, before_irreflexive, before_total, before_transitive};
use crate::table::{ascends, ascends_distinct, Table};
use crate::text::views;

verus! {

/// Whether `s` lists the members of a set in ascending order.
pub open spec fn lists(s: Seq<Seq<char>>, set: Set<Seq<char>>) -> bool {
    ascends(s) && forall|k: Seq<char>| #[trigger] s.contains(k) <==> set.contains(k)
}

/// The members of a set in ascending order.
pub open spec fn in_order(set: Set<Seq<char>>) -> Seq<Seq<char>> {
    choose|s: Seq<Seq<char>>| lists(s, set)
}

/// There is one way to list a set in ascending order.
pub proof fn lists_unique(a: Seq<Seq<char>>, b: Seq<Seq<char>>, set: Set<Seq<char>>)
    requires
        lists(a, set),
        lists(b, set),
    ensures
        a == b,
    decreases a.len(),
{
    if a.len() == 0 {
        if b.len() > 0 {
            assert(b.contains(b[0]));
            assert(a.contains(b[0]));
        }
        assert(a =~= b);
    } else {
        assert(a.contains(a.last()));
        assert(b.contains(a.last()));
        let j = choose|j: int| 0 <= j < b.len() && b[j] == a.last();
        assert(b.contains(b.last()));
        assert(a.contains(b.last()));
        let i = choose|i: int| 0 <= i < a.len() && a[i] == b.last();
        if i < a.len() - 1 && j < b.len() - 1 {
            assert(before(a[i], a[a.len() - 1]));
            assert(before(b[j], b[b.len() - 1]));
            before_transitive(a.last(), b.last(), a.last());
            before_irreflexive(a.last());
        }
        assert(a.last() == b.last());
        let x = a.last();
        shorter_list(a, set);
        shorter_list(b, set);
        lists_unique(a.drop_last(), b.drop_last(), set.remove(x));
        assert(a =~= a.drop_last().push(x));
        assert(b =~= b.drop_last().push(x));
    }
}

proof fn shorter_list(s: Seq<Seq<char>>, set: Set<Seq<char>>)
    requires
        lists(s, set),
        s.len() > 0,
    ensures
        lists(s.drop_last(), set.remove(s.last())),
{
    let rest = s.drop_last();
    assert forall|k: Seq<char>| #[trigger] rest.contains(k) <==> set.remove(s.last()).contains(k) by {
        if rest.contains(k) {
            let i = choose|i: int| 0 <= i < rest.len() && rest[i] == k;
            assert(s[i] == k);
            assert(s.contains(k));
            if k == s.last() {
                ascends_distinct(s, i, s.len() - 1);
            }
        }
        if set.remove(s.last()).contains(k) {
            assert(s.contains(k));
            let i = choose|i: int| 0 <= i < s.len() && s[i] == k;
            assert(rest[i] == k);
        }
    }
    assert forall|i: int, j: int| 0 <= i < j < rest.len() implies before(#[trigger] rest[i], #[trigger] rest[j]) by {
        assert(before(s[i], s[j]));
    }
}

/// A finite set can be listed in ascending order.
pub proof fn listed(set: Set<Seq<char>>)
    requires
        set.finite(),
    ensures
        lists(in_order(set), set),
    decreases set.len(),
{
    if set.len() == 0 {
        assert(set =~= Set::empty());
        assert(lists(Seq::empty(), set));
    } else {
        let k = set.choose();
        let rest = in_order(set.remove(k));
        listed(set.remove(k));
        let s = longer_list(rest, k);
        assert forall|x: Seq<char>| #[trigger] s.contains(x) <==> set.contains(x) by {
            assert(rest.contains(x) <==> set.remove(k).contains(x));
        }
        assert(lists(s, set));
    }
}

proof fn longer_list(s: Seq<Seq<char>>, k: Seq<char>) -> (r: Seq<Seq<char>>)
    requires
        ascends(s),
        !s.contains(k),
    ensures
        ascends(r),
        forall|x: Seq<char>| #[trigger] r.contains(x) <==> s.contains(x) || x == k,
    decreases s.len(),
{
    if s.len() == 0 || before(s.last(), k) {
        let r = s.push(k);
        assert forall|i: int, j: int| 0 <= i < j < r.len() implies before(#[trigger] r[i], #[trigger] r[j]) by {
            if j == s.len() && i < s.len() - 1 {
                assert(before(s[i], s.last()));
                before_transitive(s[i], s.last(), k);
            }
        }
        assert forall|x: Seq<char>| #[trigger] r.contains(x) <==> s.contains(x) || x == k by {
            member_of_push(s, k, x);
        }
        r
    } else {
        let last = s.last();
        let rest = s.drop_last();
        assert(s.contains(last));
        before_total(k, last);
        assert forall|x: Seq<char>| #[trigger] s.contains(x) <==> rest.contains(x) || x == last by {
            assert(s =~= rest.push(last));
            member_of_push(rest, last, x);
        }
        let t = longer_list(rest, k);
        let r = t.push(last);
        assert forall|i: int, j: int| 0 <= i < j < r.len() implies before(#[trigger] r[i], #[trigger] r[j]) by {
            if j == t.len() {
                assert(t.contains(t[i]));
                if t[i] != k {
                    let at = choose|at: int| 0 <= at < rest.len() && rest[at] == t[i];
                    assert(before(s[at], s[s.len() - 1]));
                }
            }
        }
        assert forall|x: Seq<char>| #[trigger] r.contains(x) <==> s.contains(x) || x == k by {
            member_of_push(t, last, x);
        }
        r
    }
}

proof fn member_of_push(s: Seq<Seq<char>>, k: Seq<char>, x: Seq<char>)
    ensures
        s.push(k).contains(x) <==> s.contains(x) || x == k,
{
    let r = s.push(k);
    assert(r[s.len() as int] == k);
    if s.contains(x) {
        let i = choose|i: int| 0 <= i < s.len() && s[i] == x;
        assert(r[i] == x);
    }
    if r.contains(x) {
        let i = choose|i: int| 0 <= i < r.len() && r[i] == x;
        if i < s.len() {
            assert(s[i] == x);
        }
    }
}

/// A set of names, kept in ascending order.
pub struct Names {
    entries: Table<()>,
}

impl View for Names {
    type V = Set<Seq<char>>;

    closed spec fn view(&self) -> Set<Seq<char>> {
        self.entries@.dom()
    }
}

impl Names {
    pub fn new() -> (r: Self)
        ensures
            r@ == Set::<Seq<char>>::empty(),
    {
        let r = Names { entries: Table::new() };
        proof {
            assert(r@ =~= Set::<Seq<char>>::empty());
        }
        r
    }

    pub fn contains(&self, name: &str) -> (r: bool)
        ensures
            r == self@.contains(name@),
    {
        self.entries.get(name).is_some()
    }

    /// Adds a name; says whether it is new.
    pub fn insert(&mut self, name: String) -> (r: bool)
        ensures
            final(self)@ == old(self)@.insert(name@),
            r == !old(self)@.contains(name@),
    {
        let fresh = !self.contains(&name);
        let ghost k = name@;
        self.entries.insert(name, ());
        proof {
            assert(self@ =~= old(self)@.insert(k));
        }
        fresh
    }

    pub fn len(&self) -> (r: usize)
        ensures
            r == in_order(self@).len(),
    {
        let n: usize = self.entries.len();
        proof {
            let keys = self.entries.key_seq();
            assert forall|k: Seq<char>| #[trigger] keys.contains(k) <==> self@.contains(k) by {
                assert(self@.contains(k) == self.entries@.contains_key(k));
            }
            assert(lists(keys, self@));
            lists_unique(keys, in_order(self@), self@);
        }
        n
    }

    /// The names in ascending order.
    pub fn items(&self) -> (r: Vec<String>)
        ensures
            views(r@) == in_order(self@),
            lists(views(r@), self@),
    {
        let r = self.entries.keys();
        proof {
            assert forall|k: Seq<char>| #[trigger] views(r@).contains(k) <==> self@.contains(k) by {
                assert(self@.contains(k) == self.entries@.contains_key(k));
            }
            assert(lists(views(r@), self@));
            lists_unique(views(r@), in_order(self@), self@);
        }
        r
    }

    /// Adds the names of another set.
    pub fn extend(&mut self, other: &Names)
        ensures
            final(self)@ == old(self)@.union(other@),
    {
        let items = other.items();
        let ghost all = views(items@);
        let ghost start = self@;
        proof {
            assert(start =~= start.union(all.take(0).to_set()));
        }
        for i in 0..items.len()
            invariant
                all == views(items@),
                self@ == start.union(all.take(i as int).to_set()),
        {
            self.insert(items[i].clone());
            proof {
                assert(all.take(i + 1) =~= all.take(i as int).push(all[i as int]));
                assert forall|k: Seq<char>| all.take(i + 1).contains(k) <==> all.take(i as int).contains(k) || k
                    == all[i as int] by {
                    if all.take(i as int).contains(k) {
                        let j = choose|j: int| 0 <= j < i && #[trigger] all.take(i as int)[j] == k;
                        assert(all.take(i + 1)[j] == k);
                    }
                    assert(all.take(i + 1)[i as int] == all[i as int]);
                    if all.take(i + 1).contains(k) {
                        let longer = all.take(i + 1);
                        let j = choose|j: int| 0 <= j < longer.len() && longer[j] == k;
                        if j < i {
                            assert(all.take(i as int)[j] == k);
                        }
                    }
                }
                assert(self@ =~= start.union(all.take(i + 1).to_set()));
            }
        }
        proof {
            assert(all.take(all.len() as int) =~= all);
            assert forall|k: Seq<char>| all.to_set().contains(k) <==> other@.contains(k) by {
                assert(all.contains(k) <==> other@.contains(k));
            }
            assert(self@ =~= start.union(other@));
        }
    }
}

} // verus!

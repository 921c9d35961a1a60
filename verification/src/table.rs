//! A map keyed by strings that keeps its keys in order.

use vstd::prelude::*;
use vstd::string::*;

use crate::order::{before, before_irreflexive, before_total, before_transitive, is_before};
use crate::text::{same, views, views_push};

verus! {

/// A map from strings to values; its entries stand in ascending order of
/// their keys, each key once.
#[derive(Debug)]
pub struct Table<V> {
    entries: Vec<(String, V)>,
}

/// Whether the strings ascend strictly.
pub open spec fn ascends(keys: Seq<Seq<char>>) -> bool {
    forall|i: int, j: int| 0 <= i < j < keys.len() ==> before(#[trigger] keys[i], #[trigger] keys[j])
}

/// Strictly ascending strings are different.
pub proof fn ascends_distinct(keys: Seq<Seq<char>>, i: int, j: int)
    requires
        ascends(keys),
        0 <= i < keys.len(),
        0 <= j < keys.len(),
        keys[i] == keys[j],
    ensures
        i == j,
{
    if i < j {
        assert(before(keys[i], keys[j]));
        before_irreflexive(keys[i]);
    } else if j < i {
        assert(before(keys[j], keys[i]));
        before_irreflexive(keys[i]);
    }
}

impl<V> Table<V> {
    /// The keys, in order.
    pub closed spec fn key_seq(&self) -> Seq<Seq<char>> {
        Seq::new(self.entries@.len(), |i: int| self.entries@[i].0@)
    }

    /// The values, in the order of their keys.
    pub closed spec fn value_seq(&self) -> Seq<V> {
        Seq::new(self.entries@.len(), |i: int| self.entries@[i].1)
    }

    #[verifier::type_invariant]
    spec fn inv(&self) -> bool {
        ascends(self.key_seq())
    }

    spec fn index_of(&self, key: Seq<char>) -> int {
        choose|i: int| 0 <= i < self.key_seq().len() && self.key_seq()[i] == key
    }
}

impl<V> View for Table<V> {
    type V = Map<Seq<char>, V>;

    closed spec fn view(&self) -> Map<Seq<char>, V> {
        Map::new(
            |k: Seq<char>| self.key_seq().contains(k),
            |k: Seq<char>| self.value_seq()[self.index_of(k)],
        )
    }
}

impl<V> Table<V> {
    proof fn entry_in_view(&self, i: int)
        requires
            ascends(self.key_seq()),
            0 <= i < self.key_seq().len(),
        ensures
            self@.contains_key(self.key_seq()[i]),
            self@[self.key_seq()[i]] == self.value_seq()[i],
    {
        let k = self.key_seq()[i];
        assert(self.key_seq().contains(k));
        ascends_distinct(self.key_seq(), i, self.index_of(k));
    }

    /// A map without entries.
    pub fn new() -> (r: Self)
        ensures
            r@ == Map::<Seq<char>, V>::empty(),
            r.key_seq() == Seq::<Seq<char>>::empty(),
    {
        let r = Table { entries: Vec::new() };
        proof {
            assert(r.key_seq() =~= Seq::<Seq<char>>::empty());
            assert(r@ =~= Map::<Seq<char>, V>::empty());
        }
        r
    }

    /// The number of entries. The key at each position has the value at that
    /// position, and there are no other keys.
    pub fn len(&self) -> (r: usize)
        ensures
            r == self.key_seq().len(),
            r == self.value_seq().len(),
            ascends(self.key_seq()),
            self@.dom().finite(),
            forall|k: Seq<char>| self.key_seq().contains(k) <==> self@.contains_key(k),
            forall|i: int|
                0 <= i < r ==> self@.contains_key(#[trigger] self.key_seq()[i])
                    && self@[self.key_seq()[i]] == self.value_seq()[i],
    {
        proof {
            use_type_invariant(self);
            assert(self@.dom() =~= self.key_seq().to_set());
            assert forall|i: int| 0 <= i < self.entries@.len() implies self@.contains_key(
                #[trigger] self.key_seq()[i],
            ) && self@[self.key_seq()[i]] == self.value_seq()[i] by {
                self.entry_in_view(i);
            }
        }
        self.entries.len()
    }

    /// The key at a position.
    pub fn key_at(&self, i: usize) -> (r: &String)
        requires
            i < self.key_seq().len(),
        ensures
            r@ == self.key_seq()[i as int],
    {
        &self.entries[i].0
    }

    /// The value at a position.
    pub fn value_at(&self, i: usize) -> (r: &V)
        requires
            i < self.key_seq().len(),
        ensures
            *r == self.value_seq()[i as int],
    {
        &self.entries[i].1
    }

    /// Where `key` stands, or where it would stand.
    fn locate(&self, key: &str) -> (r: (bool, usize))
        ensures
            r.1 <= self.key_seq().len(),
            forall|j: int| 0 <= j < r.1 ==> before(#[trigger] self.key_seq()[j], key@),
            r.0 ==> r.1 < self.key_seq().len() && self.key_seq()[r.1 as int] == key@,
            !r.0 ==> forall|j: int|
                r.1 <= j < self.key_seq().len() ==> before(key@, #[trigger] self.key_seq()[j]),
    {
        proof {
            use_type_invariant(self);
        }
        let ghost keys = self.key_seq();
        let mut lo: usize = 0;
        let mut hi: usize = self.entries.len();
        while lo < hi
            invariant
                keys == self.key_seq(),
                ascends(keys),
                lo <= hi <= keys.len(),
                forall|j: int| 0 <= j < lo ==> before(#[trigger] keys[j], key@),
                forall|j: int| hi <= j < keys.len() ==> !before(#[trigger] keys[j], key@),
            decreases hi - lo,
        {
            let mid: usize = lo + (hi - lo) / 2;
            proof {
                assert(keys[mid as int] == self.entries@[mid as int].0@);
            }
            if is_before(&self.entries[mid].0, key) {
                proof {
                    assert forall|j: int| 0 <= j < mid + 1 implies before(#[trigger] keys[j], key@) by {
                        if j < mid {
                            assert(before(keys[j], keys[mid as int]));
                            before_transitive(keys[j], keys[mid as int], key@);
                        }
                    }
                }
                lo = mid + 1;
            } else {
                proof {
                    assert forall|j: int| mid <= j < keys.len() implies !before(#[trigger] keys[j], key@) by {
                        if j > mid && before(keys[j], key@) {
                            assert(before(keys[mid as int], keys[j]));
                            before_transitive(keys[mid as int], keys[j], key@);
                        }
                    }
                }
                hi = mid;
            }
        }
        let found = lo < self.entries.len() && same(&self.entries[lo].0, key);
        proof {
            if lo < keys.len() {
                assert(keys[lo as int] == self.entries@[lo as int].0@);
            }
            if !found {
                assert forall|j: int| lo <= j < keys.len() implies before(key@, #[trigger] keys[j]) by {
                    before_total(keys[lo as int], key@);
                    if j > lo {
                        assert(before(keys[lo as int], keys[j]));
                        before_transitive(key@, keys[lo as int], keys[j]);
                    }
                }
            }
        }
        (found, lo)
    }

    /// The value under `key`.
    pub fn get(&self, key: &str) -> (r: Option<&V>)
        ensures
            match r {
                Some(v) => self@.contains_key(key@) && self@[key@] == *v,
                None => !self@.contains_key(key@),
            },
    {
        let (found, at) = self.locate(key);
        proof {
            use_type_invariant(self);
            if found {
                self.entry_in_view(at as int);
            } else {
                self.absent(key@, at as int);
            }
        }
        if found {
            Some(&self.entries[at].1)
        } else {
            None
        }
    }

    proof fn absent(&self, key: Seq<char>, at: int)
        requires
            forall|j: int| 0 <= j < at && j < self.key_seq().len() ==> before(#[trigger] self.key_seq()[j], key),
            forall|j: int| at <= j < self.key_seq().len() && 0 <= j ==> before(key, #[trigger] self.key_seq()[j]),
        ensures
            !self@.contains_key(key),
    {
        if self@.contains_key(key) {
            let j = choose|j: int| 0 <= j < self.key_seq().len() && self.key_seq()[j] == key;
            before_irreflexive(key);
        }
    }

    /// Puts a value under a key, in place of the one that stood there.
    pub fn insert(&mut self, key: String, value: V)
        ensures
            final(self)@ == old(self)@.insert(key@, value),
    {
        proof {
            use_type_invariant(&*self);
        }
        let ghost start = *self;
        let ghost keys = self.key_seq();
        let (replaces, at) = self.locate(&key);
        let mut entries: Vec<(String, V)> = Vec::new();
        std::mem::swap(&mut entries, &mut self.entries);
        let ghost new_key = key@;
        if replaces {
            entries.set(at, (key, value));
        } else {
            entries.insert(at, (key, value));
        }
        proof {
            let k2 = Seq::new(entries@.len(), |i: int| entries@[i].0@);
            if replaces {
                assert(k2 =~= keys);
            } else {
                assert(k2 =~= keys.insert(at as int, new_key));
                assert forall|i: int, j: int| 0 <= i < j < k2.len() implies before(
                    #[trigger] k2[i],
                    #[trigger] k2[j],
                ) by {
                    let p = if i < at { i } else { i - 1 };
                    let q = if j < at { j } else { j - 1 };
                    if i == at {
                        assert(k2[j] == keys[j - 1]);
                    } else if j == at {
                        assert(k2[i] == keys[i]);
                    } else {
                        assert(before(keys[p], keys[q]));
                    }
                }
            }
            assert(ascends(k2));
        }
        *self = Table { entries };
        proof {
            let k2 = self.key_seq();
            assert(ascends(k2));
            self.entry_in_view(at as int);
            assert forall|k: Seq<char>| self@.contains_key(k) <==> #[trigger] start@.insert(
                new_key,
                value,
            ).contains_key(k) by {
                if self@.contains_key(k) {
                    let i = choose|i: int| 0 <= i < k2.len() && k2[i] == k;
                    if k != new_key {
                        let p = if replaces || i < at { i } else { i - 1 };
                        assert(keys[p] == k);
                        start.entry_in_view(p);
                    }
                }
                if start@.contains_key(k) {
                    let i = choose|i: int| 0 <= i < keys.len() && keys[i] == k;
                    let p = if replaces || i < at { i } else { i + 1 };
                    if k != new_key {
                        assert(k2[p] == k);
                    }
                }
                assert(k2[at as int] == new_key);
            }
            assert forall|k: Seq<char>| self@.contains_key(k) implies self@[k] == start@.insert(
                new_key,
                value,
            )[k] by {
                let i = choose|i: int| 0 <= i < k2.len() && k2[i] == k;
                self.entry_in_view(i);
                if k != new_key {
                    let p = if replaces || i < at { i } else { i - 1 };
                    assert(keys[p] == k);
                    start.entry_in_view(p);
                }
            }
            assert(self@ =~= start@.insert(new_key, value));
        }
    }

    /// Takes the value under `key` out.
    pub fn remove(&mut self, key: &str) -> (r: Option<V>)
        ensures
            final(self)@ == old(self)@.remove(key@),
            match r {
                Some(v) => old(self)@.contains_key(key@) && old(self)@[key@] == v,
                None => !old(self)@.contains_key(key@),
            },
    {
        proof {
            use_type_invariant(&*self);
        }
        let ghost start = *self;
        let ghost keys = self.key_seq();
        let (found, at) = self.locate(key);
        if !found {
            proof {
                self.absent(key@, at as int);
                assert(self@.remove(key@) =~= self@);
            }
            return None;
        }
        let mut entries: Vec<(String, V)> = Vec::new();
        proof {
            assert(keys[at as int] == key@);
            start.entry_in_view(at as int);
        }
        std::mem::swap(&mut entries, &mut self.entries);
        let (_, value) = entries.remove(at);
        proof {
            let k2 = Seq::new(entries@.len(), |i: int| entries@[i].0@);
            assert(k2 =~= keys.remove(at as int));
            assert forall|i: int, j: int| 0 <= i < j < k2.len() implies before(
                #[trigger] k2[i],
                #[trigger] k2[j],
            ) by {
                let p = if i < at { i } else { i + 1 };
                let q = if j < at { j } else { j + 1 };
                assert(before(keys[p], keys[q]));
            }
        }
        *self = Table { entries };
        proof {
            let k2 = self.key_seq();
            assert(k2 =~= keys.remove(at as int));
            assert forall|k: Seq<char>| self@.contains_key(k) <==> #[trigger] start@.remove(key@).contains_key(k) by {
                if self@.contains_key(k) {
                    let i = choose|i: int| 0 <= i < k2.len() && k2[i] == k;
                    let p = if i < at { i } else { i + 1 };
                    assert(keys[p] == k);
                    start.entry_in_view(p);
                    if k == key@ {
                        ascends_distinct(keys, p, at as int);
                    }
                }
                if start@.contains_key(k) && k != key@ {
                    let i = choose|i: int| 0 <= i < keys.len() && keys[i] == k;
                    let p = if i < at { i } else { i - 1 };
                    assert(k2[p] == k);
                }
            }
            assert forall|k: Seq<char>| self@.contains_key(k) implies self@[k] == start@.remove(key@)[k] by {
                let i = choose|i: int| 0 <= i < k2.len() && k2[i] == k;
                self.entry_in_view(i);
                let p = if i < at { i } else { i + 1 };
                assert(keys[p] == k);
                start.entry_in_view(p);
                if k == key@ {
                    ascends_distinct(keys, p, at as int);
                }
                assert(self.value_seq()[i] == start.value_seq()[p]);
            }
            assert(self@ =~= start@.remove(key@));
        }
        Some(value)
    }

    /// The keys, in order.
    pub fn keys(&self) -> (r: Vec<String>)
        ensures
            views(r@) == self.key_seq(),
            ascends(views(r@)),
            forall|k: Seq<char>| views(r@).contains(k) <==> self@.contains_key(k),
    {
        broadcast use views_push;

        let n: usize = self.len();
        let mut r: Vec<String> = Vec::new();
        for i in 0..n
            invariant
                n == self.key_seq().len(),
                views(r@) == self.key_seq().take(i as int),
        {
            r.push(self.key_at(i).clone());
            proof {
                assert(self.key_seq().take(i + 1) =~= self.key_seq().take(i as int).push(
                    self.key_seq()[i as int],
                ));
            }
        }
        proof {
            assert(self.key_seq().take(n as int) =~= self.key_seq());
        }
        r
    }
}

} // verus!

//! Disjoint sets of strings.

use vstd::prelude::*;
use vstd::string::*;

use crate::canonicalize::fulltext_sweep::texts;
use crate::table::{ascends, Table};
use crate::text::{same, views, views_push};

verus! {

/// Sets of strings that are merged pairwise. Each set has one of its members
/// as its representative.
pub struct DisjointSetUnion {
    representative: Table<String>,
    members: Table<Vec<String>>,
}

/// `m` with `x` in it, in a set of its own where it was absent.
pub open spec fn with_element(m: Map<Seq<char>, Seq<char>>, x: Seq<char>) -> Map<Seq<char>, Seq<char>> {
    if m.contains_key(x) {
        m
    } else {
        m.insert(x, x)
    }
}

/// `m` with the sets of `a` and `b` merged; the representative of `b` stays.
pub open spec fn merged(m: Map<Seq<char>, Seq<char>>, a: Seq<char>, b: Seq<char>) -> Map<Seq<char>, Seq<char>> {
    let both = with_element(with_element(m, a), b);
    both.map_values(
        |r: Seq<char>|
            if r == both[a] {
                both[b]
            } else {
                r
            },
    )
}

/// Whether every representative represents itself.
pub open spec fn rooted(m: Map<Seq<char>, Seq<char>>) -> bool {
    forall|k: Seq<char>|
        #![trigger m.contains_key(k)]
        #![trigger m[k]]
        m.contains_key(k) ==> m.contains_key(m[k]) && m[m[k]] == m[k]
}

/// Whether `class` is the set that `r` represents.
pub open spec fn is_class(class: Seq<Seq<char>>, m: Map<Seq<char>, Seq<char>>, r: Seq<char>) -> bool {
    &&& class.no_duplicates()
    &&& forall|x: Seq<char>| #[trigger] class.contains(x) <==> m.contains_key(x) && m[x] == r
}

pub open spec fn class_views(classes: Seq<Vec<String>>) -> Seq<Seq<Seq<char>>> {
    Seq::new(classes.len(), |i: int| views(classes[i]@))
}

/// Whether `classes` are the sets of `m`, each once, in the order of their
/// representatives `roots`.
pub open spec fn partitions(
    classes: Seq<Seq<Seq<char>>>,
    roots: Seq<Seq<char>>,
    m: Map<Seq<char>, Seq<char>>,
) -> bool {
    &&& classes.len() == roots.len()
    &&& ascends(roots)
    &&& forall|i: int| 0 <= i < roots.len() ==> m.contains_key(#[trigger] roots[i]) && m[roots[i]] == roots[i]
    &&& forall|i: int| 0 <= i < classes.len() ==> is_class(#[trigger] classes[i], m, roots[i])
    &&& forall|x: Seq<char>| m.contains_key(x) ==> roots.contains(#[trigger] m[x])
}

impl DisjointSetUnion {
    /// The representative of every element.
    pub closed spec fn reps(&self) -> Map<Seq<char>, Seq<char>> {
        texts(self.representative@)
    }

    pub closed spec fn wf(&self) -> bool {
        &&& rooted(self.reps())
        &&& forall|r: Seq<char>| #[trigger]
            self.members@.contains_key(r) <==> self.reps().contains_key(r) && self.reps()[r] == r
        &&& forall|r: Seq<char>|
            self.members@.contains_key(r) ==> is_class(views((#[trigger] self.members@[r])@), self.reps(), r)
    }

    /// No elements.
    pub fn new() -> (r: Self)
        ensures
            r.wf(),
            r.reps() == Map::<Seq<char>, Seq<char>>::empty(),
    {
        let r = DisjointSetUnion { representative: Table::new(), members: Table::new() };
        proof {
            assert(r.reps() =~= Map::<Seq<char>, Seq<char>>::empty());
        }
        r
    }

    /// The representative of `x`, which becomes an element where it was none.
    pub fn find(&mut self, x: &str) -> (r: String)
        requires
            old(self).wf(),
        ensures
            final(self).wf(),
            final(self).reps() == with_element(old(self).reps(), x@),
            r@ == final(self).reps()[x@],
    {
        let ghost start = *self;
        let ghost m = self.reps();
        let present = match self.representative.get(x) {
            Some(root) => Some(root.clone()),
            None => None,
        };
        match present {
            Some(root) => root,
            None => {
                let mut single: Vec<String> = Vec::new();
                single.push(x.to_owned());
                let ghost class = views(single@);
                proof {
                    assert(class =~= seq![x@]);
                    assert(!m.contains_key(x@));
                }
                self.representative.insert(x.to_owned(), x.to_owned());
                self.members.insert(x.to_owned(), single);
                proof {
                    let m2 = self.reps();
                    assert(m2 =~= m.insert(x@, x@));
                    assert forall|k: Seq<char>| m2.contains_key(k) implies m2.contains_key(m2[k]) && m2[m2[k]]
                        == m2[k] by {
                        if k != x@ {
                            assert(m.contains_key(k));
                            assert(m.contains_key(m[k]));
                        }
                    }
                    assert(class.contains(x@)) by {
                        assert(class[0] == x@);
                    }
                    assert forall|r: Seq<char>| self.members@.contains_key(r) implies is_class(
                        views((#[trigger] self.members@[r])@),
                        m2,
                        r,
                    ) by {
                        if r == x@ {
                            assert forall|y: Seq<char>| #[trigger] class.contains(y) <==> m2.contains_key(y) && m2[y]
                                == x@ by {
                                if m.contains_key(y) && m[y] == x@ {
                                    assert(m.contains_key(m[y]));
                                }
                            }
                        } else {
                            assert(start.members@.contains_key(r));
                            assert(is_class(views(start.members@[r]@), m, r));
                        }
                    }
                }
                x.to_owned()
            },
        }
    }

    /// Merges the sets of `a` and `b`.
    #[verifier::rlimit(40)]
    pub fn union(&mut self, a: &str, b: &str)
        requires
            old(self).wf(),
        ensures
            final(self).wf(),
            final(self).reps() == merged(old(self).reps(), a@, b@),
    {
        broadcast use views_push;

        let ra0 = self.find(a);
        let rb = self.find(b);
        let ghost m2 = self.reps();
        let ghost mid = *self;
        let ra = ra0;
        proof {
            assert(m2[a@] == ra@);
            assert(m2[b@] == rb@);
            assert(m2.contains_key(a@));
            assert(m2.contains_key(b@));
            assert(m2.contains_key(ra@) && m2[ra@] == ra@);
            assert(m2.contains_key(rb@) && m2[rb@] == rb@);
        }
        if same(&ra, &rb) {
            proof {
                assert(m2.map_values(
                    |r: Seq<char>|
                        if r == m2[a@] {
                            m2[b@]
                        } else {
                            r
                        },
                ) =~= m2);
            }
            return ;
        }
        proof {
            assert(self.members@.contains_key(ra@));
            assert(self.members@.contains_key(rb@));
            assert(is_class(views(mid.members@[ra@]@), m2, ra@));
            assert(is_class(views(mid.members@[rb@]@), m2, rb@));
        }
        let moved = self.members.remove(&ra).unwrap();
        let mut target = self.members.remove(&rb).unwrap();
        let ghost from = views(moved@);
        let ghost to = views(target@);
        for x in iter: moved
            invariant
                views(iter.seq()) == from,
                is_class(from, m2, ra@),
                views(target@) == to + from.take(iter.index() as int),
                self.members@ == mid.members@.remove(ra@).remove(rb@),
                forall|k: Seq<char>| #[trigger] self.reps().contains_key(k) <==> m2.contains_key(k),
                forall|k: Seq<char>|
                    m2.contains_key(k) ==> (#[trigger] self.reps()[k]) == if from.take(
                        iter.index() as int,
                    ).contains(k) {
                        rb@
                    } else {
                        m2[k]
                    },
        {
            let ghost n = iter.index() as int;
            let ghost was = self.reps();
            proof {
                assert(from[n] == x@);
                assert(from.contains(x@));
                assert(from.take(n + 1) =~= from.take(n).push(x@));
                assert(to + from.take(n + 1) =~= (to + from.take(n)).push(x@));
                assert forall|k: Seq<char>| #[trigger] from.take(n + 1).contains(k) <==> from.take(n).contains(k) || k
                    == x@ by {
                    let t = from.take(n + 1);
                    if t.contains(k) {
                        let i = choose|i: int| 0 <= i < t.len() && t[i] == k;
                        if i < n {
                            assert(from.take(n)[i] == k);
                        }
                    }
                    if from.take(n).contains(k) {
                        let i = choose|i: int| 0 <= i < n && from.take(n)[i] == k;
                        assert(t[i] == k);
                    }
                    assert(t[n] == x@);
                }
            }
            self.representative.insert(x.clone(), rb.clone());
            proof {
                assert(self.reps() =~= was.insert(x@, rb@));
            }
            target.push(x);
        }
        let ghost full = views(target@);
        let ghost done = self.reps();
        proof {
            assert(from.take(from.len() as int) =~= from);
            assert forall|k: Seq<char>| m2.contains_key(k) implies (#[trigger] done[k]) == if from.contains(k) {
                rb@
            } else {
                m2[k]
            } by {
                assert(self.reps()[k] == done[k]);
            }
        }
        self.members.insert(rb.clone(), target);
        proof {
            let m3 = self.reps();
            assert(m3 == done);
            let image = |r: Seq<char>|
                if r == m2[a@] {
                    m2[b@]
                } else {
                    r
                };
            assert forall|k: Seq<char>| m2.contains_key(k) implies m3[k] == image(m2[k]) by {
                assert(from.contains(k) <==> m2.contains_key(k) && m2[k] == ra@);
            }
            assert(m3 =~= m2.map_values(image));
            assert forall|k: Seq<char>| m3.contains_key(k) implies m3.contains_key(m3[k]) && m3[m3[k]] == m3[k] by {
                assert(m2.contains_key(k));
                assert(m2.contains_key(m2[k]));
                assert(m3[k] == image(m2[k]));
                assert(m3[rb@] == rb@);
                assert(m3[m2[k]] == image(m2[m2[k]]));
            }
            assert forall|r: Seq<char>| #[trigger] self.members@.contains_key(r) <==> m3.contains_key(r) && m3[r] == r by {
                if m2.contains_key(r) {
                    assert(m3[r] == image(m2[r]));
                }
                assert(mid.members@.contains_key(r) <==> m2.contains_key(r) && m2[r] == r);
            }
            assert(full == to + from);
            assert forall|x: Seq<char>| #[trigger] full.contains(x) <==> to.contains(x) || from.contains(x) by {
                if full.contains(x) {
                    let i = choose|i: int| 0 <= i < full.len() && full[i] == x;
                    if i < to.len() {
                        assert(to[i] == x);
                    } else {
                        assert(from[i - to.len()] == x);
                    }
                }
                if to.contains(x) {
                    let i = choose|i: int| 0 <= i < to.len() && to[i] == x;
                    assert(full[i] == x);
                }
                if from.contains(x) {
                    let i = choose|i: int| 0 <= i < from.len() && from[i] == x;
                    assert(full[to.len() + i] == x);
                }
            }
            assert(full.no_duplicates()) by {
                assert forall|i: int, j: int| 0 <= i < j < full.len() implies full[i] != full[j] by {
                    if i < to.len() && j >= to.len() {
                        assert(to.contains(to[i]));
                        assert(from.contains(from[j - to.len()]));
                    }
                }
            }
            assert forall|r: Seq<char>| self.members@.contains_key(r) implies is_class(
                views((#[trigger] self.members@[r])@),
                m3,
                r,
            ) by {
                if r == rb@ {
                    assert forall|x: Seq<char>| #[trigger] full.contains(x) <==> m3.contains_key(x) && m3[x] == rb@ by {
                        assert(to.contains(x) <==> m2.contains_key(x) && m2[x] == rb@);
                        assert(from.contains(x) <==> m2.contains_key(x) && m2[x] == ra@);
                        if m2.contains_key(x) {
                            assert(m3[x] == image(m2[x]));
                        }
                    }
                } else {
                    let class = views(mid.members@[r]@);
                    assert(mid.members@.contains_key(r));
                    assert(is_class(class, m2, r));
                    assert forall|x: Seq<char>| #[trigger] class.contains(x) <==> m3.contains_key(x) && m3[x] == r by {
                        if m2.contains_key(x) {
                            assert(m3[x] == image(m2[x]));
                        }
                    }
                }
            }
        }
    }

    /// The sets, in the order of their representatives.
    pub fn classes(&self) -> (r: (Vec<Vec<String>>, Vec<String>))
        requires
            self.wf(),
        ensures
            partitions(class_views(r.0@), views(r.1@), self.reps()),
    {
        let roots = self.members.keys();
        let n: usize = self.members.len();
        let ghost keys = self.members.key_seq();
        let mut out: Vec<Vec<String>> = Vec::new();
        for i in 0..n
            invariant
                n == keys.len(),
                keys == self.members.key_seq(),
                self.wf(),
                forall|j: int|
                    0 <= j < n ==> self.members@.contains_key(#[trigger] keys[j]) && self.members@[keys[j]]
                        == self.members.value_seq()[j],
                out@.len() == i,
                forall|j: int| 0 <= j < i ==> is_class(views((#[trigger] out@[j])@), self.reps(), keys[j]),
        {
            proof {
                assert(self.members@.contains_key(keys[i as int]));
            }
            out.push(crate::text::copy_all(self.members.value_at(i)));
        }
        proof {
            let cs = class_views(out@);
            assert forall|i: int| 0 <= i < cs.len() implies is_class(#[trigger] cs[i], self.reps(), keys[i]) by {
                assert(cs[i] == views(out@[i]@));
            }
            assert forall|x: Seq<char>| self.reps().contains_key(x) implies keys.contains(#[trigger] self.reps()[x]) by {
                assert(self.members@.contains_key(self.reps()[x]));
            }
            assert forall|i: int| 0 <= i < keys.len() implies self.reps().contains_key(#[trigger] keys[i])
                && self.reps()[keys[i]] == keys[i] by {
                assert(self.members@.contains_key(keys[i]));
            }
        }
        (out, roots)
    }
}

// ---------------------------------------------------------------------------
// Laws
// ---------------------------------------------------------------------------

/// The representatives after merging the pairs in turn, starting from `m`.
pub open spec fn merged_all(
    m: Map<Seq<char>, Seq<char>>,
    pairs: Seq<(Seq<char>, Seq<char>)>,
) -> Map<Seq<char>, Seq<char>>
    decreases pairs.len(),
{
    if pairs.len() == 0 {
        m
    } else {
        merged(merged_all(m, pairs.drop_last()), pairs.last().0, pairs.last().1)
    }
}

/// Whether one of the pairs joins `x` and `y`.
pub open spec fn joined_by(pairs: Seq<(Seq<char>, Seq<char>)>, x: Seq<char>, y: Seq<char>) -> bool {
    exists|i: int| 0 <= i < pairs.len() && ((#[trigger] pairs[i]) == (x, y) || pairs[i] == (y, x))
}

/// Whether each element of `p` is joined to the next.
pub open spec fn is_path(pairs: Seq<(Seq<char>, Seq<char>)>, p: Seq<Seq<char>>) -> bool {
    forall|i: int, j: int|
        0 <= i && j == i + 1 && j < p.len() ==> joined_by(pairs, #[trigger] p[i], #[trigger] p[j])
}

/// Whether a chain of pairs leads from `x` to `y`.
pub open spec fn connected(pairs: Seq<(Seq<char>, Seq<char>)>, x: Seq<char>, y: Seq<char>) -> bool {
    exists|p: Seq<Seq<char>>| p.len() > 0 && p[0] == x && p.last() == y && #[trigger] is_path(pairs, p)
}

proof fn connected_reflexive(pairs: Seq<(Seq<char>, Seq<char>)>, x: Seq<char>)
    ensures
        connected(pairs, x, x),
{
    let p = seq![x];
    assert(is_path(pairs, p));
}

proof fn connected_symmetric(pairs: Seq<(Seq<char>, Seq<char>)>, x: Seq<char>, y: Seq<char>)
    requires
        connected(pairs, x, y),
    ensures
        connected(pairs, y, x),
{
    let p = choose|p: Seq<Seq<char>>|
        p.len() > 0 && p[0] == x && p.last() == y && #[trigger] is_path(pairs, p);
    let q = p.reverse();
    assert forall|i: int, j: int| 0 <= i && j == i + 1 && j < q.len() implies joined_by(
        pairs,
        #[trigger] q[i],
        #[trigger] q[j],
    ) by {
        let n = p.len() as int;
        assert(q[i] == p[n - 1 - i]);
        assert(q[j] == p[n - 1 - j]);
        assert(joined_by(pairs, p[n - 1 - j], p[n - 1 - i]));
        let k = choose|k: int|
            0 <= k < pairs.len() && ((#[trigger] pairs[k]) == (p[n - 1 - j], p[n - 1 - i]) || pairs[k] == (
                p[n - 1 - i],
                p[n - 1 - j],
            ));
        assert(pairs[k] == (q[i], q[j]) || pairs[k] == (q[j], q[i]));
    }
    assert(is_path(pairs, q));
    assert(q[0] == y && q.last() == x);
}

proof fn connected_transitive(pairs: Seq<(Seq<char>, Seq<char>)>, x: Seq<char>, y: Seq<char>, z: Seq<char>)
    requires
        connected(pairs, x, y),
        connected(pairs, y, z),
    ensures
        connected(pairs, x, z),
{
    let p = choose|p: Seq<Seq<char>>|
        p.len() > 0 && p[0] == x && p.last() == y && #[trigger] is_path(pairs, p);
    let q = choose|q: Seq<Seq<char>>|
        q.len() > 0 && q[0] == y && q.last() == z && #[trigger] is_path(pairs, q);
    let r = p + q.drop_first();
    assert forall|i: int, j: int| 0 <= i && j == i + 1 && j < r.len() implies joined_by(
        pairs,
        #[trigger] r[i],
        #[trigger] r[j],
    ) by {
        if j < p.len() {
            assert(r[i] == p[i] && r[j] == p[j]);
        } else {
            let a = i - p.len() + 1;
            let b = a + 1;
            assert(r[j] == q[b]);
            if i == p.len() - 1 {
                assert(r[i] == q[0]);
            } else {
                assert(r[i] == q[a]);
            }
            assert(joined_by(pairs, q[a], q[b]));
        }
    }
    assert(is_path(pairs, r));
    assert(r.last() == z) by {
        if q.len() == 1 {
            assert(r =~= p);
        }
    }
}

proof fn connected_step(pairs: Seq<(Seq<char>, Seq<char>)>, i: int)
    requires
        0 <= i < pairs.len(),
    ensures
        connected(pairs, pairs[i].0, pairs[i].1),
{
    let p = seq![pairs[i].0, pairs[i].1];
    assert(joined_by(pairs, p[0], p[1]));
    assert(is_path(pairs, p));
}

proof fn connected_grows(
    pairs: Seq<(Seq<char>, Seq<char>)>,
    pair: (Seq<char>, Seq<char>),
    x: Seq<char>,
    y: Seq<char>,
)
    requires
        connected(pairs, x, y),
    ensures
        connected(pairs.push(pair), x, y),
{
    let more = pairs.push(pair);
    let p = choose|p: Seq<Seq<char>>|
        p.len() > 0 && p[0] == x && p.last() == y && #[trigger] is_path(pairs, p);
    assert forall|i: int, j: int| 0 <= i && j == i + 1 && j < p.len() implies joined_by(
        more,
        #[trigger] p[i],
        #[trigger] p[j],
    ) by {
        assert(joined_by(pairs, p[i], p[j]));
        let k = choose|k: int|
            0 <= k < pairs.len() && ((#[trigger] pairs[k]) == (p[i], p[j]) || pairs[k] == (p[j], p[i]));
        assert(more[k] == pairs[k]);
    }
    assert(is_path(more, p));
}

proof fn merged_rooted(m: Map<Seq<char>, Seq<char>>, a: Seq<char>, b: Seq<char>)
    requires
        rooted(m),
    ensures
        rooted(merged(m, a, b)),
        rooted(with_element(with_element(m, a), b)),
{
    let one = with_element(m, a);
    assert(rooted(one)) by {
        assert forall|k: Seq<char>| one.contains_key(k) implies one.contains_key(one[k]) && one[one[k]] == one[k] by {
            if m.contains_key(k) {
                assert(m.contains_key(m[k]));
            }
        }
    }
    let both = with_element(one, b);
    assert forall|k: Seq<char>| both.contains_key(k) implies both.contains_key(both[k]) && both[both[k]] == both[k] by {
        if one.contains_key(k) {
            assert(one.contains_key(one[k]));
        }
    }
    let r = merged(m, a, b);
    assert forall|k: Seq<char>| r.contains_key(k) implies r.contains_key(r[k]) && r[r[k]] == r[k] by {
        assert(both.contains_key(k));
        assert(both.contains_key(both[k]));
        assert(both.contains_key(both[b]));
        assert(both[both[k]] == both[k]);
        assert(both[both[b]] == both[b]);
    }
}

proof fn merged_all_rooted(pairs: Seq<(Seq<char>, Seq<char>)>)
    ensures
        rooted(merged_all(Map::empty(), pairs)),
    decreases pairs.len(),
{
    if pairs.len() > 0 {
        merged_all_rooted(pairs.drop_last());
        merged_rooted(merged_all(Map::empty(), pairs.drop_last()), pairs.last().0, pairs.last().1);
    }
}

/// The two elements of a pair end up in one set.
proof fn pair_in_one_set(pairs: Seq<(Seq<char>, Seq<char>)>, i: int)
    requires
        0 <= i < pairs.len(),
    ensures
        merged_all(Map::empty(), pairs).contains_key(pairs[i].0),
        merged_all(Map::empty(), pairs).contains_key(pairs[i].1),
        merged_all(Map::empty(), pairs)[pairs[i].0] == merged_all(Map::empty(), pairs)[pairs[i].1],
    decreases pairs.len(),
{
    let rest = pairs.drop_last();
    if i < rest.len() {
        pair_in_one_set(rest, i);
        assert(rest[i] == pairs[i]);
    }
}

proof fn path_in_one_set(pairs: Seq<(Seq<char>, Seq<char>)>, p: Seq<Seq<char>>)
    requires
        p.len() > 0,
        is_path(pairs, p),
    ensures
        merged_all(Map::empty(), pairs)[p[0]] == merged_all(Map::empty(), pairs)[p.last()],
    decreases p.len(),
{
    if p.len() > 1 {
        let q = p.drop_last();
        assert forall|i: int, j: int| 0 <= i && j == i + 1 && j < q.len() implies joined_by(
            pairs,
            #[trigger] q[i],
            #[trigger] q[j],
        ) by {
            assert(q[i] == p[i] && q[j] == p[j]);
        }
        path_in_one_set(pairs, q);
        let n = p.len() as int;
        assert(joined_by(pairs, p[n - 2], p[n - 1]));
        let k = choose|k: int|
            0 <= k < pairs.len() && ((#[trigger] pairs[k]) == (p[n - 2], p[n - 1]) || pairs[k] == (p[n - 1], p[n - 2]));
        pair_in_one_set(pairs, k);
    }
}

proof fn one_set_is_connected(pairs: Seq<(Seq<char>, Seq<char>)>, x: Seq<char>, y: Seq<char>)
    requires
        merged_all(Map::empty(), pairs).contains_key(x),
        merged_all(Map::empty(), pairs).contains_key(y),
        merged_all(Map::empty(), pairs)[x] == merged_all(Map::empty(), pairs)[y],
    ensures
        connected(pairs, x, y),
    decreases pairs.len(), 0int,
{
    if pairs.len() > 0 {
        let rest = pairs.drop_last();
        let (a, b) = pairs.last();
        let m = merged_all(Map::empty(), rest);
        let both = with_element(with_element(m, a), b);
        merged_all_rooted(rest);
        assert(pairs =~= rest.push(pairs.last()));
        connected_step(pairs, pairs.len() - 1);
        connected_symmetric(pairs, a, b);
        if both[x] == both[y] {
            before_merge(rest, a, b, x, y);
            connected_grows(rest, pairs.last(), x, y);
        } else if both[x] == both[a] {
            before_merge(rest, a, b, x, a);
            connected_grows(rest, pairs.last(), x, a);
            before_merge(rest, a, b, b, y);
            connected_grows(rest, pairs.last(), b, y);
            connected_transitive(pairs, x, a, b);
            connected_transitive(pairs, x, b, y);
        } else {
            before_merge(rest, a, b, x, b);
            connected_grows(rest, pairs.last(), x, b);
            before_merge(rest, a, b, a, y);
            connected_grows(rest, pairs.last(), a, y);
            connected_transitive(pairs, x, b, a);
            connected_transitive(pairs, x, a, y);
        }
    }
}

/// Elements that one representative has before the last merge are connected by
/// the pairs before it.
proof fn before_merge(rest: Seq<(Seq<char>, Seq<char>)>, a: Seq<char>, b: Seq<char>, x: Seq<char>, y: Seq<char>)
    requires
        with_element(with_element(merged_all(Map::empty(), rest), a), b).contains_key(x),
        with_element(with_element(merged_all(Map::empty(), rest), a), b).contains_key(y),
        with_element(with_element(merged_all(Map::empty(), rest), a), b)[x] == with_element(
            with_element(merged_all(Map::empty(), rest), a),
            b,
        )[y],
        rooted(merged_all(Map::empty(), rest)),
    ensures
        connected(rest, x, y),
    decreases rest.len(), 1int,
{
    let m = merged_all(Map::empty(), rest);
    connected_reflexive(rest, x);
    if m.contains_key(x) && m.contains_key(y) {
        one_set_is_connected(rest, x, y);
    } else if m.contains_key(x) {
        assert(m.contains_key(m[x]));
    } else if m.contains_key(y) {
        assert(m.contains_key(m[y]));
    }
}

/// Two elements are in one set if and only if a chain of the merged pairs
/// leads from one to the other.
pub proof fn sets_are_the_connected_elements(pairs: Seq<(Seq<char>, Seq<char>)>, x: Seq<char>, y: Seq<char>)
    requires
        merged_all(Map::empty(), pairs).contains_key(x),
        merged_all(Map::empty(), pairs).contains_key(y),
    ensures
        merged_all(Map::empty(), pairs)[x] == merged_all(Map::empty(), pairs)[y] <==> connected(pairs, x, y),
{
    if merged_all(Map::empty(), pairs)[x] == merged_all(Map::empty(), pairs)[y] {
        one_set_is_connected(pairs, x, y);
    }
    if connected(pairs, x, y) {
        let p = choose|p: Seq<Seq<char>>|
            p.len() > 0 && p[0] == x && p.last() == y && #[trigger] is_path(pairs, p);
        path_in_one_set(pairs, p);
    }
}

/// The elements are exactly those of the pairs.
pub proof fn elements_come_from_pairs(pairs: Seq<(Seq<char>, Seq<char>)>, x: Seq<char>)
    ensures
        merged_all(Map::empty(), pairs).contains_key(x) <==> exists|i: int|
            0 <= i < pairs.len() && ((#[trigger] pairs[i]).0 == x || pairs[i].1 == x),
    decreases pairs.len(),
{
    if pairs.len() > 0 {
        let rest = pairs.drop_last();
        elements_come_from_pairs(rest, x);
        if merged_all(Map::empty(), pairs).contains_key(x) {
            if merged_all(Map::empty(), rest).contains_key(x) {
                let i = choose|i: int| 0 <= i < rest.len() && ((#[trigger] rest[i]).0 == x || rest[i].1 == x);
                assert(pairs[i] == rest[i]);
            } else {
                assert(pairs[pairs.len() - 1].0 == x || pairs[pairs.len() - 1].1 == x);
            }
        }
        if exists|i: int| 0 <= i < pairs.len() && ((#[trigger] pairs[i]).0 == x || pairs[i].1 == x) {
            let i = choose|i: int| 0 <= i < pairs.len() && ((#[trigger] pairs[i]).0 == x || pairs[i].1 == x);
            if i < rest.len() {
                assert(rest[i] == pairs[i]);
            }
        }
    }
}

} // verus!

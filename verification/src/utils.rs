//! A small map ordered by its values, used for the steno rank table.
//!
//! An `OrderedMap` keeps its key-value pairs twice: once for lookup, and
//! once sorted by value in descending order, so that keys can be walked in
//! value order. When two pairs share a value, the most recently inserted
//! one comes first in the descending order.

use vstd::prelude::*;
use vstd::string::*;
use crate::text::str_eq;

verus! {

/// The (key view, value) pairs of a pair vector.
pub open spec fn pairs_view(v: Seq<(String, i8)>) -> Seq<(Seq<char>, i8)> {
    v.map_values(|p: (String, i8)| (p.0@, p.1))
}

/// Whether `k` is among the keys of `ps`.
pub open spec fn key_in(ps: Seq<(Seq<char>, i8)>, k: Seq<char>) -> bool {
    exists|i: int| 0 <= i < ps.len() && ps[i].0 == k
}

/// Whether the keys of `ps` are pairwise distinct.
pub open spec fn keys_unique(ps: Seq<(Seq<char>, i8)>) -> bool {
    forall|i: int, j: int| 0 <= i < j < ps.len() ==> ps[i].0 != ps[j].0
}

/// The finite map described by an association list; a later pair wins over
/// an earlier one with the same key.
pub open spec fn assoc_map(ps: Seq<(Seq<char>, i8)>) -> Map<Seq<char>, i8>
    decreases ps.len(),
{
    if ps.len() == 0 {
        Map::empty()
    } else {
        assoc_map(ps.drop_last()).insert(ps.last().0, ps.last().1)
    }
}

/// An association list contains exactly the keys of its map, with each
/// distinct key bound to its value.
proof fn lemma_assoc_map_props(ps: Seq<(Seq<char>, i8)>)
    requires
        keys_unique(ps),
    ensures
        forall|k: Seq<char>| assoc_map(ps).contains_key(k) == key_in(ps, k),
        forall|i: int| 0 <= i < ps.len() ==>
            assoc_map(ps)[(#[trigger] ps[i]).0] == ps[i].1,
    decreases ps.len(),
{
    if ps.len() > 0 {
        let head = ps.drop_last();
        assert(keys_unique(head));
        lemma_assoc_map_props(head);
        assert forall|k: Seq<char>| assoc_map(ps).contains_key(k) == key_in(ps, k) by {
            if assoc_map(ps).contains_key(k) {
                if k == ps.last().0 {
                    assert(ps[ps.len() - 1].0 == k);
                } else {
                    assert(assoc_map(head).contains_key(k));
                    assert(key_in(head, k));
                    let i = choose|i: int| 0 <= i < head.len() && head[i].0 == k;
                    assert(head[i] == ps[i]);
                    assert(ps[i].0 == k);
                }
                assert(key_in(ps, k));
            }
            if key_in(ps, k) {
                let i = choose|i: int| 0 <= i < ps.len() && ps[i].0 == k;
                if i < ps.len() - 1 {
                    assert(head[i] == ps[i]);
                    assert(key_in(head, k));
                    assert(assoc_map(head).contains_key(k));
                }
                assert(assoc_map(ps).contains_key(k));
            }
        }
        assert forall|i: int| 0 <= i < ps.len() implies
            assoc_map(ps)[(#[trigger] ps[i]).0] == ps[i].1 by {
            if i < ps.len() - 1 {
                assert(head[i] == ps[i]);
                assert(ps[i].0 != ps.last().0);
            }
        }
    }
}

/// Removing the pair at index `i` removes exactly its key from the map.
proof fn lemma_assoc_map_remove(ps: Seq<(Seq<char>, i8)>, i: int)
    requires
        keys_unique(ps),
        0 <= i < ps.len(),
    ensures
        assoc_map(ps.remove(i)) == assoc_map(ps).remove(ps[i].0),
    decreases ps.len(),
{
    let head = ps.drop_last();
    assert(keys_unique(head));
    lemma_assoc_map_props(ps);
    lemma_assoc_map_props(head);
    if i == ps.len() - 1 {
        assert(ps.remove(i) =~= head);
        assert(!key_in(head, ps[i].0));
        assert(assoc_map(head) =~= assoc_map(head).insert(ps.last().0, ps.last().1).remove(ps[i].0));
    } else {
        lemma_assoc_map_remove(head, i);
        assert(ps.remove(i).drop_last() =~= head.remove(i));
        assert(ps.remove(i).last() == ps.last());
        assert(assoc_map(ps.remove(i))
            == assoc_map(head.remove(i)).insert(ps.last().0, ps.last().1));
        assert(assoc_map(head).remove(ps[i].0).insert(ps.last().0, ps.last().1)
            =~= assoc_map(head).insert(ps.last().0, ps.last().1).remove(ps[i].0)) by {
            assert(ps[i].0 != ps.last().0);
        }
    }
}

/// Whether the values of `ps` never increase from left to right.
pub open spec fn sorted_desc(ps: Seq<(Seq<char>, i8)>) -> bool {
    forall|i: int, j: int| 0 <= i < j < ps.len()
        ==> (#[trigger] ps[i]).1 >= (#[trigger] ps[j]).1
}

/// Where an inserted pair lands in the descending store: before the first
/// pair whose value does not exceed the new one, so that among equal
/// values the most recently inserted pair comes first.
pub open spec fn desc_inserted(
    before: Seq<(Seq<char>, i8)>,
    after: Seq<(Seq<char>, i8)>,
    k: Seq<char>,
    v: i8,
) -> bool {
    exists|idx: int|
        0 <= idx <= before.len()
        && after == #[trigger] before.insert(idx, (k, v))
        && (forall|j: int| 0 <= j < idx ==> (#[trigger] before[j]).1 > v)
        && (idx == before.len() || before[idx].1 <= v)
}

/// Viewing pairs commutes with appending a pair.
proof fn lemma_pairs_view_push(v: Seq<(String, i8)>, p: (String, i8))
    ensures
        pairs_view(v.push(p)) == pairs_view(v).push((p.0@, p.1)),
{
    assert(pairs_view(v.push(p)) =~= pairs_view(v).push((p.0@, p.1)));
}

/// Viewing pairs commutes with removing a pair.
proof fn lemma_pairs_view_remove(v: Seq<(String, i8)>, i: int)
    requires
        0 <= i < v.len(),
    ensures
        pairs_view(v.remove(i)) == pairs_view(v).remove(i),
{
    assert(pairs_view(v.remove(i)) =~= pairs_view(v).remove(i));
}

/// Viewing pairs commutes with inserting a pair.
proof fn lemma_pairs_view_insert(v: Seq<(String, i8)>, i: int, p: (String, i8))
    requires
        0 <= i <= v.len(),
    ensures
        pairs_view(v.insert(i, p)) == pairs_view(v).insert(i, (p.0@, p.1)),
{
    assert(pairs_view(v.insert(i, p)) =~= pairs_view(v).insert(i, (p.0@, p.1)));
}

/// Appending a pair binds its key in the map.
proof fn lemma_assoc_map_push(ps: Seq<(Seq<char>, i8)>, k: Seq<char>, v: i8)
    ensures
        assoc_map(ps.push((k, v))) == assoc_map(ps).insert(k, v),
{
    assert(ps.push((k, v)).drop_last() =~= ps);
    assert(ps.push((k, v)).last() == (k, v));
}

/// Removes the first pair whose key is `k` from a pair vector; reports
/// whether one was found.
pub fn remove_from_pairs(pairs: &mut Vec<(String, i8)>, k: &str) -> (r: bool)
    ensures
        !r ==> final(pairs)@ == old(pairs)@ && !key_in(pairs_view(old(pairs)@), k@),
        r ==> exists|i: int|
            0 <= i < old(pairs)@.len()
            && (#[trigger] pairs_view(old(pairs)@)[i]).0 == k@
            && final(pairs)@ == old(pairs)@.remove(i)
            && (forall|j: int| 0 <= j < i ==> pairs_view(old(pairs)@)[j].0 != k@),
{
    let ghost ps = pairs_view(pairs@);
    let mut i: usize = 0;
    while i < pairs.len()
        invariant
            pairs@ == old(pairs)@,
            ps == pairs_view(pairs@),
            ps.len() == pairs@.len(),
            i <= pairs@.len(),
            forall|j: int| 0 <= j < i ==> (#[trigger] ps[j]).0 != k@,
        decreases pairs@.len() - i,
    {
        if str_eq(pairs[i].0.as_str(), k) {
            proof {
                assert(ps[i as int] == (pairs@[i as int].0@, pairs@[i as int].1));
                assert(ps[i as int].0 == k@);
            }
            pairs.remove(i);
            proof {
                assert(0 <= (i as int) && (i as int) < old(pairs)@.len()
                    && (#[trigger] pairs_view(old(pairs)@)[i as int]).0 == k@
                    && pairs@ == old(pairs)@.remove(i as int)
                    && (forall|j: int| 0 <= j < i as int
                        ==> pairs_view(old(pairs)@)[j].0 != k@));
            }
            return true;
        }
        i = i + 1;
    }
    proof {
        if key_in(ps, k@) {
            let j = choose|j: int| 0 <= j < ps.len() && ps[j].0 == k@;
            assert(false);
        }
    }
    false
}

/// An `OrderedMap` from steno key names to their table values, walkable in
/// descending value order.
#[derive(Debug)]
pub struct OrderedMap {
    map: Vec<(String, i8)>,
    descending_pairs: Vec<(String, i8)>,
}

impl OrderedMap {
    /// The map from key names to values.
    pub closed spec fn map_view(&self) -> Map<Seq<char>, i8> {
        assoc_map(pairs_view(self.map@))
    }

    /// The pairs in descending value order, most recent first among equal
    /// values.
    pub closed spec fn desc_view(&self) -> Seq<(Seq<char>, i8)> {
        pairs_view(self.descending_pairs@)
    }

    /// The number of stored pairs.
    pub closed spec fn spec_len(&self) -> nat {
        self.map@.len()
    }

    /// Both stores hold the same pairs: unique keys, one descending pair
    /// per map pair and back, values sorted in descending order.
    pub closed spec fn wf(&self) -> bool {
        &&& keys_unique(pairs_view(self.map@))
        &&& keys_unique(self.desc_view())
        &&& self.desc_view().len() == self.map@.len()
        &&& forall|i: int| 0 <= i < self.desc_view().len() ==> {
            &&& self.map_view().contains_key((#[trigger] self.desc_view()[i]).0)
            &&& self.map_view()[self.desc_view()[i].0] == self.desc_view()[i].1
        }
        &&& forall|k: Seq<char>| #[trigger] self.map_view().contains_key(k)
            ==> key_in(self.desc_view(), k)
        &&& sorted_desc(self.desc_view())
    }

    /// An empty map.
    pub fn new() -> (m: OrderedMap)
        ensures
            m.wf(),
            m.map_view() == Map::<Seq<char>, i8>::empty(),
            m.spec_len() == 0,
            m.desc_view().len() == 0,
    {
        let m = OrderedMap { map: Vec::new(), descending_pairs: Vec::new() };
        proof {
            assert(pairs_view(m.map@) =~= Seq::empty());
            assert(pairs_view(m.descending_pairs@) =~= Seq::empty());
        }
        m
    }

    /// The number of stored pairs.
    pub fn len(&self) -> (n: usize)
        ensures
            n == self.spec_len(),
    {
        self.map.len()
    }

    /// The value stored for `key`, if any.
    pub fn get(&self, key: &str) -> (r: Option<i8>)
        requires
            self.wf(),
        ensures
            match r {
                Some(v) => self.map_view().contains_key(key@) && v == self.map_view()[key@],
                None => !self.map_view().contains_key(key@),
            },
    {
        let ghost ps = pairs_view(self.map@);
        proof {
            lemma_assoc_map_props(ps);
        }
        let mut i: usize = 0;
        while i < self.map.len()
            invariant
                ps == pairs_view(self.map@),
                ps.len() == self.map@.len(),
                i <= self.map@.len(),
                forall|j: int| 0 <= j < i ==> (#[trigger] ps[j]).0 != key@,
                forall|k: Seq<char>| #[trigger] assoc_map(ps).contains_key(k) == key_in(ps, k),
                forall|j: int| 0 <= j < ps.len() ==>
                    assoc_map(ps)[(#[trigger] ps[j]).0] == ps[j].1,
            decreases self.map@.len() - i,
        {
            if str_eq(self.map[i].0.as_str(), key) {
                proof {
                    assert(ps[i as int] == (self.map@[i as int].0@, self.map@[i as int].1));
                    assert(ps[i as int].0 == key@);
                    assert(self.map_view() == assoc_map(ps));
                    assert(self.map_view()[key@] == ps[i as int].1);
                }
                return Some(self.map[i].1);
            }
            i = i + 1;
        }
        proof {
            if assoc_map(ps).contains_key(key@) {
                assert(key_in(ps, key@));
                let j = choose|j: int| 0 <= j < ps.len() && ps[j].0 == key@;
                assert(false);
            }
        }
        None
    }

    /// Compares two keys by their stored values: a missing first key orders
    /// greater, a missing second key orders less, and two present keys
    /// order by value.
    pub fn compare(&self, key1: &str, key2: &str) -> (r: core::cmp::Ordering)
        requires
            self.wf(),
        ensures
            !self.map_view().contains_key(key1@) ==> r == core::cmp::Ordering::Greater,
            self.map_view().contains_key(key1@) && !self.map_view().contains_key(key2@)
                ==> r == core::cmp::Ordering::Less,
            self.map_view().contains_key(key1@) && self.map_view().contains_key(key2@) ==> {
                let v1 = self.map_view()[key1@];
                let v2 = self.map_view()[key2@];
                r == if v1 < v2 {
                    core::cmp::Ordering::Less
                } else if v1 == v2 {
                    core::cmp::Ordering::Equal
                } else {
                    core::cmp::Ordering::Greater
                }
            },
    {
        match (self.get(key1), self.get(key2)) {
            (Some(v1), Some(v2)) => {
                if v1 < v2 {
                    core::cmp::Ordering::Less
                } else if v1 == v2 {
                    core::cmp::Ordering::Equal
                } else {
                    core::cmp::Ordering::Greater
                }
            }
            (None, _) => core::cmp::Ordering::Greater,
            (_, None) => core::cmp::Ordering::Less,
        }
    }

    /// Places `(k, c)` into the descending store, before the first pair
    /// whose value does not exceed `c`: among equal values the newest pair
    /// comes first.
    fn insert_into_pairs(&mut self, k: String, c: i8)
        requires
            sorted_desc(pairs_view(old(self).descending_pairs@)),
        ensures
            final(self).map == old(self).map,
            sorted_desc(pairs_view(final(self).descending_pairs@)),
            desc_inserted(
                pairs_view(old(self).descending_pairs@),
                pairs_view(final(self).descending_pairs@),
                k@,
                c,
            ),
    {
        let ghost ps = pairs_view(self.descending_pairs@);
        let mut insert_index: usize = self.descending_pairs.len();
        let mut i: usize = 0;
        let mut found = false;
        while i < self.descending_pairs.len() && !found
            invariant
                ps == pairs_view(self.descending_pairs@),
                ps.len() == self.descending_pairs@.len(),
                i <= ps.len(),
                !found ==> insert_index == ps.len()
                    && forall|j: int| 0 <= j < i ==> (#[trigger] ps[j]).1 > c,
                found ==> i > 0 && insert_index == i - 1
                    && ps[insert_index as int].1 <= c
                    && forall|j: int| 0 <= j < insert_index ==> (#[trigger] ps[j]).1 > c,
            decreases ps.len() - i,
        {
            proof {
                assert(ps[i as int] == (self.descending_pairs@[i as int].0@,
                    self.descending_pairs@[i as int].1));
            }
            if c >= self.descending_pairs[i].1 {
                insert_index = i;
                found = true;
            }
            i = i + 1;
        }
        let ghost old_pairs = self.descending_pairs@;
        let ghost idx = insert_index as int;
        let ghost kv = k@;
        self.descending_pairs.insert(insert_index, (k, c));
        proof {
            lemma_pairs_view_insert(old_pairs, idx, (k, c));
            let new_ps = pairs_view(self.descending_pairs@);
            assert(0 <= idx <= ps.len()
                && new_ps == ps.insert(idx, (kv, c))
                && (forall|j: int| 0 <= j < idx ==> (#[trigger] ps[j]).1 > c)
                && (idx == ps.len() || ps[idx].1 <= c));
            assert(desc_inserted(ps, new_ps, kv, c));
            assert forall|a: int, b: int| 0 <= a < b < new_ps.len() implies
                (#[trigger] new_ps[a]).1 >= (#[trigger] new_ps[b]).1 by {
                if a < idx {
                    assert(new_ps[a] == ps[a]);
                }
                if b < idx {
                    assert(new_ps[b] == ps[b]);
                }
                if a > idx {
                    assert(new_ps[a] == ps[a - 1]);
                }
                if b > idx {
                    assert(new_ps[b] == ps[b - 1]);
                }
                if a == idx {
                    assert(new_ps[a].1 == c);
                }
                if b == idx {
                    assert(new_ps[b].1 == c);
                    assert(a < idx);
                    assert(ps[a].1 > c);
                }
            }
        }
    }

    /// Removes the pair stored for `key` from the lookup store, if any.
    fn remove_map_pair(&mut self, key: &str) -> (r: Option<i8>)
        requires
            keys_unique(pairs_view(old(self).map@)),
        ensures
            final(self).descending_pairs == old(self).descending_pairs,
            keys_unique(pairs_view(final(self).map@)),
            match r {
                Some(o) => {
                    &&& assoc_map(pairs_view(old(self).map@)).contains_key(key@)
                    &&& o == assoc_map(pairs_view(old(self).map@))[key@]
                    &&& final(self).map@.len() + 1 == old(self).map@.len()
                    &&& assoc_map(pairs_view(final(self).map@))
                        == assoc_map(pairs_view(old(self).map@)).remove(key@)
                    &&& !key_in(pairs_view(final(self).map@), key@)
                },
                None => *final(self) == *old(self)
                    && !assoc_map(pairs_view(old(self).map@)).contains_key(key@),
            },
    {
        let ghost ps = pairs_view(self.map@);
        proof {
            lemma_assoc_map_props(ps);
        }
        let mut i: usize = 0;
        while i < self.map.len()
            invariant
                *self == *old(self),
                ps == pairs_view(self.map@),
                ps.len() == self.map@.len(),
                keys_unique(ps),
                i <= self.map@.len(),
                forall|j: int| 0 <= j < i ==> (#[trigger] ps[j]).0 != key@,
                forall|k: Seq<char>| #[trigger] assoc_map(ps).contains_key(k) == key_in(ps, k),
                forall|j: int| 0 <= j < ps.len() ==>
                    assoc_map(ps)[(#[trigger] ps[j]).0] == ps[j].1,
            decreases self.map@.len() - i,
        {
            proof {
                assert(ps[i as int] == (self.map@[i as int].0@, self.map@[i as int].1));
            }
            if str_eq(self.map[i].0.as_str(), key) {
                let val = self.map[i].1;
                let ghost omv = self.map@;
                self.map.remove(i);
                proof {
                    lemma_pairs_view_remove(omv, i as int);
                    lemma_assoc_map_remove(ps, i as int);
                    let nps = pairs_view(self.map@);
                    assert(nps == ps.remove(i as int));
                    assert forall|a: int, b: int| 0 <= a < b < nps.len() implies
                        (#[trigger] nps[a]).0 != (#[trigger] nps[b]).0 by {
                        let a0: int = if a < i as int { a } else { a + 1 };
                        let b0: int = if b < i as int { b } else { b + 1 };
                        assert(nps[a] == ps[a0]);
                        assert(nps[b] == ps[b0]);
                    }
                    assert(!key_in(nps, key@)) by {
                        if key_in(nps, key@) {
                            let j = choose|j: int| 0 <= j < nps.len() && nps[j].0 == key@;
                            let j0: int = if j < i as int { j } else { j + 1 };
                            assert(nps[j] == ps[j0]);
                            assert(ps[j0].0 == key@ && ps[i as int].0 == key@
                                && j0 != i as int);
                        }
                    }
                    assert(val == assoc_map(ps)[key@]);
                }
                return Some(val);
            }
            i = i + 1;
        }
        proof {
            if key_in(ps, key@) {
                let j = choose|j: int| 0 <= j < ps.len() && ps[j].0 == key@;
                assert(false);
            }
        }
        None
    }

    /// Removes the pair stored for `k` from both stores and returns its
    /// value, or leaves the map unchanged when `k` is absent.
    pub fn remove(&mut self, k: &str) -> (r: Option<i8>)
        requires
            old(self).wf(),
        ensures
            final(self).wf(),
            final(self).map_view() == old(self).map_view().remove(k@),
            match r {
                Some(o) => old(self).map_view().contains_key(k@)
                    && o == old(self).map_view()[k@]
                    && final(self).spec_len() + 1 == old(self).spec_len()
                    && exists|m: int|
                        0 <= m < old(self).desc_view().len()
                        && (#[trigger] old(self).desc_view()[m]).0 == k@
                        && final(self).desc_view() == old(self).desc_view().remove(m),
                None => !old(self).map_view().contains_key(k@)
                    && *final(self) == *old(self),
            },
    {
        let ghost osl = *self;
        let prior = self.remove_map_pair(k);
        match prior {
            None => {
                proof {
                    assert(self.map_view() =~= osl.map_view().remove(k@));
                }
                None
            }
            Some(val) => {
                let ghost mid = *self;
                let ghost ods = osl.desc_view();
                let removed = remove_from_pairs(&mut self.descending_pairs, k);
                proof {
                    assert(osl.map_view().contains_key(k@));
                    assert(key_in(osl.desc_view(), k@));
                    assert(ods == pairs_view(mid.descending_pairs@));
                    assert(removed);
                    let m = choose|m: int|
                        0 <= m < mid.descending_pairs@.len()
                        && (#[trigger] pairs_view(mid.descending_pairs@)[m]).0 == k@
                        && self.descending_pairs@ == mid.descending_pairs@.remove(m)
                        && (forall|j: int| 0 <= j < m
                            ==> pairs_view(mid.descending_pairs@)[j].0 != k@);
                    lemma_pairs_view_remove(mid.descending_pairs@, m);
                    let nds = self.desc_view();
                    assert(nds == ods.remove(m));
                    // distinct keys survive the removal with shifted indices
                    assert forall|a: int, b: int| 0 <= a < b < nds.len() implies
                        (#[trigger] nds[a]).0 != (#[trigger] nds[b]).0 by {
                        let a0: int = if a < m { a } else { a + 1 };
                        let b0: int = if b < m { b } else { b + 1 };
                        assert(nds[a] == ods[a0]);
                        assert(nds[b] == ods[b0]);
                    }
                    assert forall|i: int| 0 <= i < nds.len() implies {
                        &&& self.map_view().contains_key((#[trigger] nds[i]).0)
                        &&& self.map_view()[nds[i].0] == nds[i].1
                    } by {
                        let i0: int = if i < m { i } else { i + 1 };
                        assert(nds[i] == ods[i0]);
                        assert(ods[i0].0 != k@);
                        assert(osl.map_view().contains_key(ods[i0].0));
                    }
                    assert forall|kk: Seq<char>| #[trigger] self.map_view().contains_key(kk)
                        implies key_in(nds, kk) by {
                        assert(osl.map_view().contains_key(kk) && kk != k@);
                        assert(key_in(ods, kk));
                        let j = choose|j: int| 0 <= j < ods.len() && ods[j].0 == kk;
                        assert(j != m);
                        let j1: int = if j < m { j } else { j - 1 };
                        assert(nds[j1] == ods[j]);
                    }
                    assert forall|a: int, b: int| 0 <= a < b < nds.len() implies
                        (#[trigger] nds[a]).1 >= (#[trigger] nds[b]).1 by {
                        let a0: int = if a < m { a } else { a + 1 };
                        let b0: int = if b < m { b } else { b + 1 };
                        assert(nds[a] == ods[a0]);
                        assert(nds[b] == ods[b0]);
                    }
                    assert(0 <= m < osl.desc_view().len()
                        && (#[trigger] osl.desc_view()[m]).0 == k@
                        && self.desc_view() == osl.desc_view().remove(m));
                }
                Some(val)
            }
        }
    }

    /// Stores `v` under `k`, keeping the descending order; the value the
    /// key held before is returned, `None` when the key is new.
    pub fn insert(&mut self, k: String, v: i8) -> (r: Option<i8>)
        requires
            old(self).wf(),
        ensures
            final(self).wf(),
            final(self).map_view() == old(self).map_view().insert(k@, v),
            match r {
                Some(o) => old(self).map_view().contains_key(k@)
                    && o == old(self).map_view()[k@]
                    && final(self).spec_len() == old(self).spec_len()
                    && exists|m: int|
                        0 <= m < old(self).desc_view().len()
                        && (#[trigger] old(self).desc_view()[m]).0 == k@
                        && desc_inserted(
                            old(self).desc_view().remove(m),
                            final(self).desc_view(),
                            k@,
                            v,
                        ),
                None => !old(self).map_view().contains_key(k@)
                    && final(self).spec_len() == old(self).spec_len() + 1
                    && desc_inserted(old(self).desc_view(), final(self).desc_view(), k@, v),
            },
    {
        let ghost osl = *self;
        let prior = self.remove(k.as_str());
        let ghost mid = *self;
        let key_copy = k.clone();
        let ghost omv = self.map@;
        self.map.push((key_copy, v));
        proof {
            lemma_pairs_view_push(omv, (k, v));
            lemma_assoc_map_push(pairs_view(omv), k@, v);
            let nps = pairs_view(self.map@);
            assert(nps == pairs_view(omv).push((k@, v)));
            lemma_assoc_map_props(pairs_view(omv));
            assert(!key_in(pairs_view(omv), k@));
            assert forall|a: int, b: int| 0 <= a < b < nps.len() implies
                (#[trigger] nps[a]).0 != (#[trigger] nps[b]).0 by {
                if b == nps.len() - 1 {
                    assert(nps[a] == pairs_view(omv)[a]);
                    assert(nps[b].0 == k@);
                }
            }
        }
        self.insert_into_pairs(k, v);
        proof {
            let nmv = mid.map_view().insert(k@, v);
            assert(self.map_view() == nmv);
            assert(nmv =~= osl.map_view().insert(k@, v));
            let ods = mid.desc_view();
            let nds = self.desc_view();
            assert(desc_inserted(ods, nds, k@, v));
            let idx = choose|idx: int|
                0 <= idx <= ods.len()
                && nds == #[trigger] ods.insert(idx, (k@, v))
                && (forall|j: int| 0 <= j < idx ==> (#[trigger] ods[j]).1 > v)
                && (idx == ods.len() || ods[idx].1 <= v);
            assert(nds == ods.insert(idx, (k@, v)));
            assert(!key_in(ods, k@)) by {
                if key_in(ods, k@) {
                    let j = choose|j: int| 0 <= j < ods.len() && ods[j].0 == k@;
                    assert(mid.map_view().contains_key(k@));
                }
            }
            assert forall|a: int, b: int| 0 <= a < b < nds.len() implies
                (#[trigger] nds[a]).0 != (#[trigger] nds[b]).0 by {
                let a0: int = if a < idx { a } else { a - 1 };
                let b0: int = if b < idx { b } else { b - 1 };
                if a != idx {
                    assert(nds[a] == ods[a0]);
                }
                if b != idx {
                    assert(nds[b] == ods[b0]);
                }
                if a == idx {
                    assert(nds[a].0 == k@);
                    assert(nds[b] == ods[b0]);
                } else if b == idx {
                    assert(nds[b].0 == k@);
                    assert(nds[a] == ods[a0]);
                }
            }
            assert forall|i: int| 0 <= i < nds.len() implies {
                &&& self.map_view().contains_key((#[trigger] nds[i]).0)
                &&& self.map_view()[nds[i].0] == nds[i].1
            } by {
                if i == idx {
                    assert(nds[i] == (k@, v));
                } else {
                    let i0: int = if i < idx { i } else { i - 1 };
                    assert(nds[i] == ods[i0]);
                    assert(mid.map_view().contains_key(ods[i0].0));
                    assert(ods[i0].0 != k@);
                }
            }
            assert forall|kk: Seq<char>| #[trigger] self.map_view().contains_key(kk)
                implies key_in(nds, kk) by {
                if kk == k@ {
                    assert(nds[idx] == (k@, v));
                } else {
                    assert(mid.map_view().contains_key(kk));
                    assert(key_in(ods, kk));
                    let j = choose|j: int| 0 <= j < ods.len() && ods[j].0 == kk;
                    let j1: int = if j < idx { j } else { j + 1 };
                    assert(nds[j1] == ods[j]);
                }
            }
            if prior is Some {
                let m = choose|m: int|
                    0 <= m < osl.desc_view().len()
                    && (#[trigger] osl.desc_view()[m]).0 == k@
                    && mid.desc_view() == osl.desc_view().remove(m);
                assert(0 <= m < osl.desc_view().len()
                    && (#[trigger] osl.desc_view()[m]).0 == k@
                    && desc_inserted(osl.desc_view().remove(m), self.desc_view(), k@, v));
            } else {
                assert(mid.desc_view() == osl.desc_view());
                assert(desc_inserted(osl.desc_view(), self.desc_view(), k@, v));
            }
        }
        prior
    }
}

/// A cursor over keys in descending value order, consumable from both ends.
#[derive(Debug)]
pub struct DescendingKeys {
    keys: Vec<String>,
    front: usize,
    back: usize,
}

impl DescendingKeys {
    /// The keys not yet taken.
    pub closed spec fn remaining(&self) -> Seq<Seq<char>> {
        self.keys.deep_view().subrange(self.front as int, self.back as int)
    }

    /// The cursor bounds stay inside its key list.
    pub closed spec fn wf(&self) -> bool {
        self.front <= self.back <= self.keys@.len()
    }

    /// Takes the next key from the front.
    pub fn next(&mut self) -> (r: Option<String>)
        requires
            old(self).wf(),
        ensures
            final(self).wf(),
            match r {
                Some(s) => old(self).remaining().len() > 0
                    && s@ == old(self).remaining()[0]
                    && final(self).remaining() == old(self).remaining().drop_first(),
                None => old(self).remaining().len() == 0
                    && final(self).remaining() == old(self).remaining(),
            },
    {
        if self.front < self.back {
            let s = self.keys[self.front].clone();
            let ghost pre = *self;
            self.front = self.front + 1;
            proof {
                assert(self.remaining() =~= pre.remaining().drop_first());
                assert(s@ == pre.remaining()[0]);
            }
            Some(s)
        } else {
            None
        }
    }

    /// Takes the next key from the back.
    pub fn next_back(&mut self) -> (r: Option<String>)
        requires
            old(self).wf(),
        ensures
            final(self).wf(),
            match r {
                Some(s) => old(self).remaining().len() > 0
                    && s@ == old(self).remaining().last()
                    && final(self).remaining() == old(self).remaining().drop_last(),
                None => old(self).remaining().len() == 0
                    && final(self).remaining() == old(self).remaining(),
            },
    {
        if self.front < self.back {
            let s = self.keys[self.back - 1].clone();
            let ghost pre = *self;
            self.back = self.back - 1;
            proof {
                assert(self.remaining() =~= pre.remaining().drop_last());
                assert(s@ == pre.remaining().last());
            }
            Some(s)
        } else {
            None
        }
    }
}

/// A cursor over values in descending order, consumable from both ends.
#[derive(Debug)]
pub struct DescendingValues {
    values: Vec<i8>,
    front: usize,
    back: usize,
}

impl DescendingValues {
    /// The values not yet taken.
    pub closed spec fn remaining(&self) -> Seq<i8> {
        self.values@.subrange(self.front as int, self.back as int)
    }

    /// The cursor bounds stay inside its value list.
    pub closed spec fn wf(&self) -> bool {
        self.front <= self.back <= self.values@.len()
    }

    /// Takes the next value from the front.
    pub fn next(&mut self) -> (r: Option<i8>)
        requires
            old(self).wf(),
        ensures
            final(self).wf(),
            match r {
                Some(v) => old(self).remaining().len() > 0
                    && v == old(self).remaining()[0]
                    && final(self).remaining() == old(self).remaining().drop_first(),
                None => old(self).remaining().len() == 0
                    && final(self).remaining() == old(self).remaining(),
            },
    {
        if self.front < self.back {
            let v = self.values[self.front];
            let ghost pre = *self;
            self.front = self.front + 1;
            proof {
                assert(self.remaining() =~= pre.remaining().drop_first());
            }
            Some(v)
        } else {
            None
        }
    }

    /// Takes the next value from the back.
    pub fn next_back(&mut self) -> (r: Option<i8>)
        requires
            old(self).wf(),
        ensures
            final(self).wf(),
            match r {
                Some(v) => old(self).remaining().len() > 0
                    && v == old(self).remaining().last()
                    && final(self).remaining() == old(self).remaining().drop_last(),
                None => old(self).remaining().len() == 0
                    && final(self).remaining() == old(self).remaining(),
            },
    {
        if self.front < self.back {
            let v = self.values[self.back - 1];
            let ghost pre = *self;
            self.back = self.back - 1;
            proof {
                assert(self.remaining() =~= pre.remaining().drop_last());
            }
            Some(v)
        } else {
            None
        }
    }
}

/// A cursor over key-value pairs in descending value order, consumable from
/// both ends.
#[derive(Debug)]
pub struct DescendingItems {
    items: Vec<(String, i8)>,
    front: usize,
    back: usize,
}

impl DescendingItems {
    /// The pairs not yet taken.
    pub closed spec fn remaining(&self) -> Seq<(Seq<char>, i8)> {
        pairs_view(self.items@).subrange(self.front as int, self.back as int)
    }

    /// The cursor bounds stay inside its pair list.
    pub closed spec fn wf(&self) -> bool {
        self.front <= self.back <= self.items@.len()
    }

    /// Takes the next pair from the front.
    pub fn next(&mut self) -> (r: Option<(String, i8)>)
        requires
            old(self).wf(),
        ensures
            final(self).wf(),
            match r {
                Some(p) => old(self).remaining().len() > 0
                    && (p.0@, p.1) == old(self).remaining()[0]
                    && final(self).remaining() == old(self).remaining().drop_first(),
                None => old(self).remaining().len() == 0
                    && final(self).remaining() == old(self).remaining(),
            },
    {
        if self.front < self.back {
            let p = (self.items[self.front].0.clone(), self.items[self.front].1);
            let ghost pre = *self;
            self.front = self.front + 1;
            proof {
                assert(pairs_view(pre.items@)[pre.front as int]
                    == (pre.items@[pre.front as int].0@, pre.items@[pre.front as int].1));
                assert(self.remaining() =~= pre.remaining().drop_first());
            }
            Some(p)
        } else {
            None
        }
    }

    /// Takes the next pair from the back.
    pub fn next_back(&mut self) -> (r: Option<(String, i8)>)
        requires
            old(self).wf(),
        ensures
            final(self).wf(),
            match r {
                Some(p) => old(self).remaining().len() > 0
                    && (p.0@, p.1) == old(self).remaining().last()
                    && final(self).remaining() == old(self).remaining().drop_last(),
                None => old(self).remaining().len() == 0
                    && final(self).remaining() == old(self).remaining(),
            },
    {
        if self.front < self.back {
            let p = (self.items[self.back - 1].0.clone(), self.items[self.back - 1].1);
            let ghost pre = *self;
            self.back = self.back - 1;
            proof {
                assert(pairs_view(pre.items@)[pre.back - 1]
                    == (pre.items@[pre.back - 1].0@, pre.items@[pre.back - 1].1));
                assert(self.remaining() =~= pre.remaining().drop_last());
            }
            Some(p)
        } else {
            None
        }
    }
}

impl OrderedMap {
    /// The map's keys in descending value order.
    pub fn descending_keys(&self) -> (it: DescendingKeys)
        requires
            self.wf(),
        ensures
            it.wf(),
            it.remaining().len() == self.desc_view().len(),
            forall|i: int| 0 <= i < it.remaining().len()
                ==> it.remaining()[i] == (#[trigger] self.desc_view()[i]).0,
    {
        let mut ks: Vec<String> = Vec::new();
        let mut i: usize = 0;
        while i < self.descending_pairs.len()
            invariant
                i <= self.descending_pairs@.len(),
                ks.deep_view().len() == i,
                forall|j: int| 0 <= j < i
                    ==> ks.deep_view()[j] == (#[trigger] pairs_view(self.descending_pairs@)[j]).0,
            decreases self.descending_pairs@.len() - i,
        {
            let ghost pre = ks.deep_view();
            ks.push(self.descending_pairs[i].0.clone());
            proof {
                assert(ks.deep_view() =~= pre.push(self.descending_pairs@[i as int].0@));
                assert(pairs_view(self.descending_pairs@)[i as int]
                    == (self.descending_pairs@[i as int].0@, self.descending_pairs@[i as int].1));
            }
            i = i + 1;
        }
        let back = ks.len();
        let it = DescendingKeys { keys: ks, front: 0, back };
        proof {
            assert(it.remaining() =~= it.keys.deep_view());
        }
        it
    }

    /// The map's values in descending order.
    pub fn descending_values(&self) -> (it: DescendingValues)
        requires
            self.wf(),
        ensures
            it.wf(),
            it.remaining().len() == self.desc_view().len(),
            forall|i: int| 0 <= i < it.remaining().len()
                ==> it.remaining()[i] == (#[trigger] self.desc_view()[i]).1,
    {
        let mut vs: Vec<i8> = Vec::new();
        let mut i: usize = 0;
        while i < self.descending_pairs.len()
            invariant
                i <= self.descending_pairs@.len(),
                vs@.len() == i,
                forall|j: int| 0 <= j < i
                    ==> vs@[j] == (#[trigger] pairs_view(self.descending_pairs@)[j]).1,
            decreases self.descending_pairs@.len() - i,
        {
            vs.push(self.descending_pairs[i].1);
            proof {
                assert(pairs_view(self.descending_pairs@)[i as int]
                    == (self.descending_pairs@[i as int].0@, self.descending_pairs@[i as int].1));
            }
            i = i + 1;
        }
        let back = vs.len();
        let it = DescendingValues { values: vs, front: 0, back };
        proof {
            assert(it.remaining() =~= it.values@);
        }
        it
    }

    /// The map's key-value pairs in descending value order.
    pub fn descending_items(&self) -> (it: DescendingItems)
        requires
            self.wf(),
        ensures
            it.wf(),
            it.remaining() == self.desc_view(),
    {
        let mut items: Vec<(String, i8)> = Vec::new();
        let mut i: usize = 0;
        while i < self.descending_pairs.len()
            invariant
                i <= self.descending_pairs@.len(),
                pairs_view(items@) == pairs_view(self.descending_pairs@).take(i as int),
            decreases self.descending_pairs@.len() - i,
        {
            let ghost pre = items@;
            items.push((self.descending_pairs[i].0.clone(), self.descending_pairs[i].1));
            proof {
                let pushed = items@.last();
                lemma_pairs_view_push(pre, pushed);
                assert(items@ =~= pre.push(pushed));
                assert(pairs_view(self.descending_pairs@)[i as int]
                    == (self.descending_pairs@[i as int].0@,
                        self.descending_pairs@[i as int].1));
                assert(pairs_view(self.descending_pairs@).take(i as int + 1)
                    =~= pairs_view(self.descending_pairs@).take(i as int)
                        .push(pairs_view(self.descending_pairs@)[i as int]));
                assert(pairs_view(items@)
                    =~= pairs_view(self.descending_pairs@).take(i as int + 1));
            }
            i = i + 1;
        }
        let back = items.len();
        let it = DescendingItems { items, front: 0, back };
        proof {
            assert(pairs_view(it.items@).take(it.items@.len() as int) =~= pairs_view(it.items@));
            assert(it.remaining() =~= self.desc_view());
        }
        it
    }

    /// What the descending store guarantees: it lists exactly the map's
    /// keys, each bound to its value, pairwise distinct, in descending
    /// value order.
    pub proof fn lemma_desc_view_facts(&self)
        requires
            self.wf(),
        ensures
            self.desc_view().len() == self.spec_len(),
            keys_unique(self.desc_view()),
            sorted_desc(self.desc_view()),
            forall|i: int| 0 <= i < self.desc_view().len() ==> {
                &&& self.map_view().contains_key((#[trigger] self.desc_view()[i]).0)
                &&& self.map_view()[self.desc_view()[i].0] == self.desc_view()[i].1
            },
            forall|k: Seq<char>| #[trigger] self.map_view().contains_key(k)
                ==> key_in(self.desc_view(), k),
    {
    }
}

/// The fixed steno order table: each of the 23 key names bound to its rank.
pub fn steno_order() -> (m: OrderedMap)
    ensures
        m.wf(),
        m.spec_len() == 23,
        forall|r: int| 0 <= r < 23 ==> {
            &&& m.map_view().contains_key(#[trigger] crate::steno::rank_name(r))
            &&& m.map_view()[crate::steno::rank_name(r)] == r as i8
        },
        forall|k: Seq<char>| #[trigger] m.map_view().contains_key(k)
            ==> crate::steno::rank_of(k) >= 0,
{
    let mut m = OrderedMap::new();
    let mut r: usize = 0;
    while r < 23
        invariant
            m.wf(),
            r <= 23,
            m.spec_len() == r,
            forall|q: int| 0 <= q < r ==> {
                &&& m.map_view().contains_key(#[trigger] crate::steno::rank_name(q))
                &&& m.map_view()[crate::steno::rank_name(q)] == q as i8
            },
            forall|k: Seq<char>| #[trigger] m.map_view().contains_key(k)
                ==> exists|q: int| 0 <= q < r && k == crate::steno::rank_name(q),
        decreases 23 - r,
    {
        let ghost pre = m;
        proof {
            if pre.map_view().contains_key(crate::steno::rank_name(r as int)) {
                let q = choose|q: int| 0 <= q < r
                    && crate::steno::rank_name(r as int) == crate::steno::rank_name(q);
                crate::steno::lemma_rank_name_injective(q, r as int);
            }
        }
        let prior = m.insert(crate::steno::name_of_rank(r), r as i8);
        proof {
            assert(prior is None);
            assert forall|q: int| 0 <= q < r + 1 implies {
                &&& m.map_view().contains_key(#[trigger] crate::steno::rank_name(q))
                &&& m.map_view()[crate::steno::rank_name(q)] == q as i8
            } by {
                if q < r {
                    crate::steno::lemma_rank_name_injective(q, r as int);
                }
            }
            assert forall|k: Seq<char>| #[trigger] m.map_view().contains_key(k)
                implies exists|q: int| 0 <= q < r + 1 && k == crate::steno::rank_name(q) by {
                if k != crate::steno::rank_name(r as int) {
                    assert(pre.map_view().contains_key(k));
                }
            }
        }
        r = r + 1;
    }
    proof {
        assert forall|k: Seq<char>| #[trigger] m.map_view().contains_key(k)
            implies crate::steno::rank_of(k) >= 0 by {
            let q = choose|q: int| 0 <= q < 23 && k == crate::steno::rank_name(q);
            crate::steno::lemma_rank_of_name(q);
        }
    }
    m
}

} // verus!

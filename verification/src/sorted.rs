//! A map held as a vector of entries in strictly increasing key order.

use crate::order::KeyOrder;
use vstd::prelude::*;

verus! {

/// Whether entry `i` of `s` exists and has a key whose view is `q`.
pub open spec fn has_key_at<K: View, V>(s: Seq<(K, V)>, i: int, q: K::V) -> bool {
    0 <= i < s.len() && s[i].0@ == q
}

/// Whether the keys of `s` strictly increase.
pub open spec fn sorted<K: KeyOrder, V>(s: Seq<(K, V)>) -> bool {
    forall|i: int, j: int|
        #![trigger s[i], s[j]]
        0 <= i < j < s.len() ==> K::lt(s[i].0@, s[j].0@)
}

/// The map that the entries of `s` stand for.
pub open spec fn to_map<K: KeyOrder, V>(s: Seq<(K, V)>) -> Map<K::V, V> {
    Map::new(
        |q: K::V| exists|i: int| has_key_at(s, i, q),
        |q: K::V| s[choose|i: int| has_key_at(s, i, q)].1,
    )
}

/// Whether every key before index `i` is below `q` and every key from `i` on
/// is not.
pub open spec fn splits_at<K: KeyOrder, V>(s: Seq<(K, V)>, i: int, q: K::V) -> bool {
    &&& 0 <= i <= s.len()
    &&& forall|j: int| 0 <= j < i ==> K::lt(#[trigger] s[j].0@, q)
    &&& forall|j: int| i <= j < s.len() ==> !K::lt(#[trigger] s[j].0@, q)
}

pub proof fn lemma_unique<K: KeyOrder, V>(s: Seq<(K, V)>, i: int, j: int, q: K::V)
    requires
        sorted(s),
        has_key_at(s, i, q),
        has_key_at(s, j, q),
    ensures
        i == j,
{
    K::lemma_irreflexive(q);
    if i < j {
        assert(K::lt(s[i].0@, s[j].0@));
    }
    if j < i {
        assert(K::lt(s[j].0@, s[i].0@));
    }
}

/// In a sorted sequence the map holds each entry under its key.
pub proof fn lemma_at<K: KeyOrder, V>(s: Seq<(K, V)>, i: int)
    requires
        sorted(s),
        0 <= i < s.len(),
    ensures
        to_map(s).contains_key(s[i].0@),
        to_map(s)[s[i].0@] == s[i].1,
{
    let q = s[i].0@;
    assert(has_key_at(s, i, q));
    let j = choose|j: int| has_key_at(s, j, q);
    lemma_unique(s, i, j, q);
}

/// A key that the map holds sits at some index.
pub proof fn lemma_index_of<K: KeyOrder, V>(s: Seq<(K, V)>, q: K::V) -> (i: int)
    requires
        sorted(s),
        to_map(s).contains_key(q),
    ensures
        has_key_at(s, i, q),
        to_map(s)[q] == s[i].1,
{
    let i = choose|i: int| has_key_at(s, i, q);
    lemma_at(s, i);
    i
}

/// Where a sorted sequence splits at `q`, the key `q` is held exactly if the
/// entry at the split has it.
pub proof fn lemma_split<K: KeyOrder, V>(s: Seq<(K, V)>, i: int, q: K::V)
    requires
        sorted(s),
        splits_at(s, i, q),
    ensures
        to_map(s).contains_key(q) <==> (i < s.len() && s[i].0@ == q),
        i < s.len() && s[i].0@ != q ==> K::lt(q, s[i].0@),
        forall|j: int| i < j < s.len() ==> K::lt(q, #[trigger] s[j].0@),
{
    K::lemma_irreflexive(q);
    if i < s.len() {
        K::lemma_connected(q, s[i].0@);
        if s[i].0@ == q {
            assert(has_key_at(s, i, q));
        }
    }
    if to_map(s).contains_key(q) {
        let j = choose|j: int| has_key_at(s, j, q);
        if j > i {
            assert(K::lt(s[i].0@, s[j].0@));
        }
    }
    assert forall|j: int| i < j < s.len() implies K::lt(q, #[trigger] s[j].0@) by {
        assert(K::lt(s[i].0@, s[j].0@));
        K::lemma_connected(q, s[i].0@);
        if K::lt(q, s[i].0@) {
            K::lemma_transitive(q, s[i].0@, s[j].0@);
        }
    }
}

pub proof fn lemma_insert_at<K: KeyOrder, V>(s: Seq<(K, V)>, i: int, k: K, v: V)
    requires
        sorted(s),
        splits_at(s, i, k@),
        !to_map(s).contains_key(k@),
    ensures
        sorted(s.insert(i, (k, v))),
        to_map(s.insert(i, (k, v))) == to_map(s).insert(k@, v),
{
    let t = s.insert(i, (k, v));
    lemma_split(s, i, k@);
    assert forall|a: int, b: int| 0 <= a < b < t.len() implies K::lt(
        (#[trigger] t[a]).0@,
        (#[trigger] t[b]).0@,
    ) by {
        if b < i {
            assert(K::lt(s[a].0@, s[b].0@));
        } else if b == i {
        } else if a < i {
            assert(K::lt(s[a].0@, k@));
            if i < b - 1 {
                assert(K::lt(s[a].0@, s[b - 1].0@));
            } else {
                assert(K::lt(s[a].0@, s[b - 1].0@));
            }
        } else if a == i {
            if b - 1 == i {
                assert(s[i].0@ != k@);
            }
        } else {
            assert(K::lt(s[a - 1].0@, s[b - 1].0@));
        }
    }
    let m = to_map(s).insert(k@, v);
    assert forall|q: K::V| to_map(t).contains_key(q) <==> m.contains_key(q) by {
        if to_map(t).contains_key(q) {
            let j = choose|j: int| has_key_at(t, j, q);
            if j < i {
                assert(has_key_at(s, j, q));
            } else if j > i {
                assert(has_key_at(s, j - 1, q));
            }
        }
        if m.contains_key(q) {
            if q == k@ {
                assert(has_key_at(t, i, q));
            } else {
                let j = choose|j: int| has_key_at(s, j, q);
                if j < i {
                    assert(has_key_at(t, j, q));
                } else {
                    assert(has_key_at(t, j + 1, q));
                }
            }
        }
    }
    assert forall|q: K::V| to_map(t).contains_key(q) implies to_map(t)[q] == m[q] by {
        let j = choose|j: int| has_key_at(t, j, q);
        lemma_at(t, j);
        if j < i {
            lemma_at(s, j);
            assert(K::lt(s[j].0@, k@));
            K::lemma_irreflexive(k@);
        } else if j > i {
            lemma_at(s, j - 1);
            assert(has_key_at(t, i, k@));
            if q == k@ {
                lemma_unique(t, i, j, q);
            }
        }
    }
    assert(to_map(t) =~= m);
}

pub proof fn lemma_update_at<K: KeyOrder, V>(s: Seq<(K, V)>, i: int, k: K, v: V)
    requires
        sorted(s),
        0 <= i < s.len(),
        s[i].0@ == k@,
    ensures
        sorted(s.update(i, (k, v))),
        to_map(s.update(i, (k, v))) == to_map(s).insert(k@, v),
{
    let t = s.update(i, (k, v));
    assert forall|a: int, b: int| 0 <= a < b < t.len() implies K::lt(
        (#[trigger] t[a]).0@,
        (#[trigger] t[b]).0@,
    ) by {
        assert(K::lt(s[a].0@, s[b].0@));
    }
    let m = to_map(s).insert(k@, v);
    assert forall|q: K::V| to_map(t).contains_key(q) <==> m.contains_key(q) by {
        if to_map(t).contains_key(q) {
            let j = choose|j: int| has_key_at(t, j, q);
            assert(has_key_at(s, j, q));
        }
        if m.contains_key(q) {
            if q == k@ {
                assert(has_key_at(t, i, q));
            } else {
                let j = choose|j: int| has_key_at(s, j, q);
                assert(has_key_at(t, j, q));
            }
        }
    }
    assert forall|q: K::V| to_map(t).contains_key(q) implies to_map(t)[q] == m[q] by {
        let j = choose|j: int| has_key_at(t, j, q);
        lemma_at(t, j);
        if j != i {
            lemma_at(s, j);
            assert(has_key_at(t, i, k@));
            if q == k@ {
                lemma_unique(t, i, j, q);
            }
        }
    }
    assert(to_map(t) =~= m);
}

pub proof fn lemma_remove_at<K: KeyOrder, V>(s: Seq<(K, V)>, i: int)
    requires
        sorted(s),
        0 <= i < s.len(),
    ensures
        sorted(s.remove(i)),
        to_map(s.remove(i)) == to_map(s).remove(s[i].0@),
{
    let t = s.remove(i);
    let k = s[i].0@;
    assert forall|a: int, b: int| 0 <= a < b < t.len() implies K::lt(
        (#[trigger] t[a]).0@,
        (#[trigger] t[b]).0@,
    ) by {
        let a0 = if a < i { a } else { a + 1 };
        let b0 = if b < i { b } else { b + 1 };
        assert(K::lt(s[a0].0@, s[b0].0@));
    }
    let m = to_map(s).remove(k);
    assert forall|q: K::V| to_map(t).contains_key(q) <==> m.contains_key(q) by {
        if to_map(t).contains_key(q) {
            let j = choose|j: int| has_key_at(t, j, q);
            let j0 = if j < i { j } else { j + 1 };
            assert(has_key_at(s, j0, q));
            if q == k {
                lemma_unique(s, i, j0, q);
            }
        }
        if m.contains_key(q) {
            let j = choose|j: int| has_key_at(s, j, q);
            if j < i {
                assert(has_key_at(t, j, q));
            } else {
                assert(has_key_at(t, j - 1, q));
            }
        }
    }
    assert forall|q: K::V| to_map(t).contains_key(q) implies to_map(t)[q] == m[q] by {
        let j = choose|j: int| has_key_at(t, j, q);
        lemma_at(t, j);
        let j0 = if j < i { j } else { j + 1 };
        lemma_at(s, j0);
        if q == k {
            lemma_unique(s, i, j0, q);
        }
    }
    assert(to_map(t) =~= m);
}

pub proof fn lemma_empty<K: KeyOrder, V>()
    ensures
        sorted(Seq::<(K, V)>::empty()),
        to_map(Seq::<(K, V)>::empty()) == Map::<K::V, V>::empty(),
{
    assert(to_map(Seq::<(K, V)>::empty()) =~= Map::<K::V, V>::empty());
}

/// A finite map from keys to values, kept in key order.
#[derive(Debug, Clone)]
pub struct SortedMap<K, V> {
    entries: Vec<(K, V)>,
}

impl<K: KeyOrder, V> View for SortedMap<K, V> {
    type V = Map<K::V, V>;

    open spec fn view(&self) -> Map<K::V, V> {
        to_map(self.seq())
    }
}

impl<K: KeyOrder, V> SortedMap<K, V> {
    /// The entries, in key order.
    pub closed spec fn seq(&self) -> Seq<(K, V)> {
        self.entries@
    }

    /// The keys strictly increase.
    pub open spec fn wf(&self) -> bool {
        sorted(self.seq())
    }

    pub fn new() -> (r: Self)
        ensures
            r.wf(),
            r.seq() == Seq::<(K, V)>::empty(),
            r@ == Map::<K::V, V>::empty(),
    {
        proof {
            lemma_empty::<K, V>();
        }
        SortedMap { entries: Vec::new() }
    }

    /// The number of entries.
    pub fn len(&self) -> (r: usize)
        ensures
            r == self.seq().len(),
    {
        self.entries.len()
    }

    /// The entry at position `i` of the key order.
    pub fn entry(&self, i: usize) -> (r: &(K, V))
        requires
            i < self.seq().len(),
        ensures
            *r == self.seq()[i as int],
    {
        &self.entries[i]
    }

    /// The number of keys below `key`.
    pub fn lower_bound(&self, key: &K) -> (i: usize)
        requires
            self.wf(),
        ensures
            splits_at(self.seq(), i as int, key@),
    {
        let mut lo: usize = 0;
        let mut hi: usize = self.entries.len();
        while lo < hi
            invariant
                self.wf(),
                lo <= hi <= self.entries@.len(),
                forall|j: int| 0 <= j < lo ==> K::lt(#[trigger] self.entries@[j].0@, key@),
                forall|j: int|
                    hi <= j < self.entries@.len() ==> !K::lt(#[trigger] self.entries@[j].0@, key@),
            decreases hi - lo,
        {
            let mid: usize = lo + (hi - lo) / 2;
            if self.entries[mid].0.precedes(key) {
                proof {
                    assert forall|j: int| 0 <= j < mid + 1 implies K::lt(
                        #[trigger] self.entries@[j].0@,
                        key@,
                    ) by {
                        if j < mid {
                            assert(K::lt(self.entries@[j].0@, self.entries@[mid as int].0@));
                            K::lemma_transitive(
                                self.entries@[j].0@,
                                self.entries@[mid as int].0@,
                                key@,
                            );
                        }
                    }
                }
                lo = mid + 1;
            } else {
                proof {
                    assert forall|j: int| mid <= j < self.entries@.len() implies !K::lt(
                        #[trigger] self.entries@[j].0@,
                        key@,
                    ) by {
                        if j > mid && K::lt(self.entries@[j].0@, key@) {
                            assert(K::lt(self.entries@[mid as int].0@, self.entries@[j].0@));
                            K::lemma_transitive(
                                self.entries@[mid as int].0@,
                                self.entries@[j].0@,
                                key@,
                            );
                        }
                    }
                }
                hi = mid;
            }
        }
        lo
    }

    /// The position of `key`, if the map holds it.
    pub fn position(&self, key: &K) -> (r: Option<usize>)
        requires
            self.wf(),
        ensures
            match r {
                Some(i) => has_key_at(self.seq(), i as int, key@) && self@.contains_key(key@)
                    && self@[key@] == self.seq()[i as int].1,
                None => !self@.contains_key(key@),
            },
    {
        let i = self.lower_bound(key);
        proof {
            lemma_split(self.seq(), i as int, key@);
        }
        if i < self.entries.len() && !key.precedes(&self.entries[i].0) {
            proof {
                K::lemma_connected(key@, self.entries@[i as int].0@);
                lemma_at(self.seq(), i as int);
            }
            Some(i)
        } else {
            proof {
                if i < self.entries.len() {
                    K::lemma_irreflexive(key@);
                }
            }
            None
        }
    }

    pub fn contains_key(&self, key: &K) -> (r: bool)
        requires
            self.wf(),
        ensures
            r == self@.contains_key(key@),
    {
        self.position(key).is_some()
    }

    /// The value held under `key`.
    pub fn get(&self, key: &K) -> (r: Option<&V>)
        requires
            self.wf(),
        ensures
            match r {
                Some(v) => self@.contains_key(key@) && *v == self@[key@],
                None => !self@.contains_key(key@),
            },
    {
        match self.position(key) {
            Some(i) => Some(&self.entries[i].1),
            None => None,
        }
    }

    /// The value held under `key`, to be changed in place.
    pub fn get_mut(&mut self, key: &K) -> (r: Option<&mut V>)
        requires
            old(self).wf(),
        ensures
            final(self).wf(),
            match r {
                Some(v) => old(self)@.contains_key(key@) && *v == old(self)@[key@]
                    && final(self)@ == old(self)@.insert(key@, *final(v)),
                None => !old(self)@.contains_key(key@) && final(self)@ == old(self)@,
            },
    {
        match self.position(key) {
            Some(i) => {
                let ghost before = self.entries@;
                let slot = &mut self.entries[i].1;
                proof {
                    lemma_update_at(before, i as int, before[i as int].0, *final(slot));
                }
                Some(slot)
            },
            None => None,
        }
    }

    /// The position of the greatest key that is not above `key`.
    pub fn floor(&self, key: &K) -> (r: Option<usize>)
        requires
            self.wf(),
        ensures
            match r {
                Some(i) => i < self.seq().len() && !K::lt(key@, self.seq()[i as int].0@)
                    && forall|j: int|
                    i < j < self.seq().len() ==> K::lt(key@, #[trigger] self.seq()[j].0@),
                None => forall|j: int|
                    0 <= j < self.seq().len() ==> K::lt(key@, #[trigger] self.seq()[j].0@),
            },
    {
        let i = self.lower_bound(key);
        proof {
            lemma_split(self.seq(), i as int, key@);
            K::lemma_irreflexive(key@);
        }
        if i < self.entries.len() && !key.precedes(&self.entries[i].0) {
            Some(i)
        } else if i > 0 {
            proof {
                let below = self.entries@[i - 1].0@;
                assert(K::lt(below, key@));
                if K::lt(key@, below) {
                    K::lemma_transitive(key@, below, key@);
                }
            }
            Some(i - 1)
        } else {
            None
        }
    }

    /// Puts `value` under `key` and hands back what was there.
    pub fn insert(&mut self, key: K, value: V) -> (r: Option<V>)
        requires
            old(self).wf(),
        ensures
            final(self).wf(),
            final(self)@ == old(self)@.insert(key@, value),
            match r {
                Some(v) => old(self)@.contains_key(key@) && v == old(self)@[key@],
                None => !old(self)@.contains_key(key@),
            },
    {
        let i = self.lower_bound(&key);
        proof {
            lemma_split(self.seq(), i as int, key@);
        }
        if i < self.entries.len() && !key.precedes(&self.entries[i].0) {
            proof {
                K::lemma_connected(key@, self.entries@[i as int].0@);
                lemma_at(self.seq(), i as int);
                lemma_update_at(self.seq(), i as int, key, value);
            }
            let ghost before = self.entries@;
            let gone = self.entries.remove(i);
            self.entries.insert(i, (key, value));
            assert(self.entries@ =~= before.update(i as int, (key, value)));
            Some(gone.1)
        } else {
            proof {
                if i < self.entries.len() {
                    K::lemma_irreflexive(key@);
                }
                lemma_insert_at(self.seq(), i as int, key, value);
            }
            self.entries.insert(i, (key, value));
            None
        }
    }

    /// Takes the entry of `key` out of the map.
    pub fn remove(&mut self, key: &K) -> (r: Option<V>)
        requires
            old(self).wf(),
        ensures
            final(self).wf(),
            final(self)@ == old(self)@.remove(key@),
            match r {
                Some(v) => old(self)@.contains_key(key@) && v == old(self)@[key@],
                None => !old(self)@.contains_key(key@),
            },
    {
        match self.position(key) {
            Some(i) => {
                proof {
                    lemma_remove_at(self.seq(), i as int);
                }
                let gone = self.entries.remove(i);
                Some(gone.1)
            },
            None => {
                assert(self@.remove(key@) =~= self@);
                None
            },
        }
    }

    /// The entries, in key order.
    pub fn into_entries(self) -> (r: Vec<(K, V)>)
        ensures
            r@ == self.seq(),
    {
        self.entries
    }

    /// Empties the map.
    pub fn clear(&mut self)
        ensures
            final(self).wf(),
            final(self).seq() == Seq::<(K, V)>::empty(),
            final(self)@ == Map::<K::V, V>::empty(),
    {
        proof {
            lemma_empty::<K, V>();
        }
        self.entries.clear();
    }

    /// Moves every entry of `other` into `self`; where both hold a key, the
    /// entry of `other` stays.
    pub fn append(&mut self, other: Self)
        requires
            old(self).wf(),
            other.wf(),
        ensures
            final(self).wf(),
            final(self)@ == old(self)@.union_prefer_right(other@),
    {
        let mut rest = other.entries;
        let ghost all = rest@;
        assert(self@
            =~= old(self)@.union_prefer_right(
            to_map(all.subrange(all.len() as int, all.len() as int)),
        )) by {
            lemma_empty::<K, V>();
            assert(all.subrange(all.len() as int, all.len() as int) =~= Seq::<(K, V)>::empty());
        }
        while rest.len() > 0
            invariant
                self.wf(),
                sorted(all),
                rest@ == all.subrange(0, rest@.len() as int),
                rest@.len() <= all.len(),
                self@ == old(self)@.union_prefer_right(
                    to_map(all.subrange(rest@.len() as int, all.len() as int)),
                ),
            decreases rest.len(),
        {
            let ghost n = rest@.len() as int;
            let ghost done = all.subrange(n, all.len() as int);
            let ghost next = all.subrange(n - 1, all.len() as int);
            let pair = rest.pop().unwrap();
            let (k, v) = pair;
            proof {
                assert(pair == all[n - 1]);
                lemma_subrange_sorted(all, n - 1, all.len() as int);
                lemma_subrange_sorted(all, n, all.len() as int);
                assert(next =~= done.insert(0, (k, v)));
                assert(splits_at(done, 0, k@)) by {
                    assert forall|j: int| 0 <= j < done.len() implies !K::lt(
                        #[trigger] done[j].0@,
                        k@,
                    ) by {
                        assert(K::lt(all[n - 1].0@, all[n + j].0@));
                        if K::lt(done[j].0@, k@) {
                            K::lemma_transitive(k@, done[j].0@, k@);
                            K::lemma_irreflexive(k@);
                        }
                    }
                }
                lemma_split(done, 0, k@);
                if done.len() > 0 {
                    assert(K::lt(all[n - 1].0@, all[n].0@));
                    K::lemma_irreflexive(k@);
                }
                lemma_insert_at(done, 0, k, v);
                assert(old(self)@.union_prefer_right(to_map(done)).insert(k@, v)
                    =~= old(self)@.union_prefer_right(to_map(next)));
            }
            self.insert(k, v);
            assert(rest@ =~= all.subrange(0, n - 1));
        }
        assert(all.subrange(0, all.len() as int) =~= all);
    }
}

pub proof fn lemma_subrange_sorted<K: KeyOrder, V>(s: Seq<(K, V)>, a: int, b: int)
    requires
        sorted(s),
        0 <= a <= b <= s.len(),
    ensures
        sorted(s.subrange(a, b)),
{
    let t = s.subrange(a, b);
    assert forall|i: int, j: int| 0 <= i < j < t.len() implies K::lt(
        (#[trigger] t[i]).0@,
        (#[trigger] t[j]).0@,
    ) by {
        assert(K::lt(s[a + i].0@, s[a + j].0@));
    }
}

} // verus!

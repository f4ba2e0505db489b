//! The cache of a list.
//!
//! The elements of a list are kept under their indices, and the length under
//! an index of its own that no element can have. A cache that is laid over
//! another list also counts how many elements it has added, so that they can
//! be replayed at the end of the list they are merged into.

use crate::codec::cbor_u64;
use crate::error::Error;
use crate::model::map::{
    edits_valid, lemma_entries_valid, lemma_operation_views_empty, lemma_operation_views_insert,
    lemma_operation_views_remove, lemma_operation_views_union, lemma_prefixed_empty,
    operation_views, pending_of, push_pending,
};
use crate::model::model::{pairs_view, Model};
use crate::model::ValueType;
use crate::operation::{Operation, OperationBytes};
use crate::sorted::{lemma_at, lemma_empty, SortedMap};
use vstd::prelude::*;

verus! {

/// The index under which the length of a list is kept.
pub const INDEX_VEC_LEN: u64 = 0xffff_ffff_ffff_ffff;

/// Pending edits of the elements of a list, the length of the list where it
/// is known, and the number of elements added since the cache was made, less
/// those taken away.
#[derive(Debug, Clone)]
pub struct Vec<T> {
    pub cache: SortedMap<u64, Operation<T>>,
    pub offset: i64,
    pub len: Option<u64>,
}

/// The record of a known length, as an edit.
pub open spec fn length_edit(len: Option<u64>) -> Seq<(Seq<u8>, Operation<Seq<u8>>)> {
    match len {
        Some(l) => seq![(cbor_u64(INDEX_VEC_LEN), Operation::Update(cbor_u64(l)))],
        None => Seq::empty(),
    }
}

/// The length from which the edits of a cache that has grown are replayed:
/// the length that the base knows. A base that does not know its length has
/// not changed it, so its length is the one that the other cache started
/// from, which is that cache's length less its growth; where that is not
/// known either, it is 0.
pub open spec fn replay_base(len: Option<u64>, other_len: Option<u64>, growth: i64) -> u64 {
    match len {
        Some(l) => l,
        None => match other_len {
            Some(l) => if 0 <= growth <= l {
                (l - growth) as u64
            } else {
                0
            },
            None => 0,
        },
    }
}

/// The edits of a list after the elements `added` have been replayed from
/// index `base` on.
pub open spec fn replay<A>(
    edits: Map<u64, Operation<A>>,
    added: Seq<Operation<A>>,
    base: int,
) -> Map<u64, Operation<A>> {
    Map::new(
        |k: u64| edits.contains_key(k) || base <= k < base + added.len(),
        |k: u64|
            if base <= k < base + added.len() {
                added[k - base]
            } else {
                edits[k]
            },
    )
}

/// The edits with an update for every element of `items` from position `lo`
/// on, the first element of `items` standing at index `from`.
pub open spec fn with_items<A>(
    edits: Map<u64, Operation<A>>,
    from: int,
    items: Seq<A>,
    lo: int,
) -> Map<u64, Operation<A>> {
    Map::new(
        |k: u64| edits.contains_key(k) || from + lo <= k < from + items.len(),
        |k: u64|
            if from + lo <= k < from + items.len() {
                Operation::Update(items[k - from])
            } else {
                edits[k]
            },
    )
}

/// The edits without those of the indices from `low` up to `high`.
pub open spec fn without_range<A>(edits: Map<u64, Operation<A>>, low: int, high: int) -> Map<
    u64,
    Operation<A>,
> {
    Map::new(|k: u64| edits.contains_key(k) && !(low <= k < high), |k: u64| edits[k])
}

/// The edits of a list whose elements from `from` up to `old_len` give way
/// to `items`: an update for every item, and no edit where the list has
/// become shorter.
pub open spec fn spliced<A>(
    edits: Map<u64, Operation<A>>,
    from: int,
    old_len: int,
    items: Seq<A>,
) -> Map<u64, Operation<A>> {
    without_range(with_items(edits, from, items, 0), from + items.len(), old_len)
}

/// The views of a vector of values.
pub open spec fn views_of<T: View>(items: Seq<T>) -> Seq<T::V> {
    Seq::new(items.len(), |i: int| items[i]@)
}

impl<T: ValueType> Vec<T> {
    /// Puts `items` in place of the elements from `from` up to `old_len`,
    /// makes the new length known, and counts `growth` elements more as
    /// added.
    pub fn replace_tail(&mut self, from: u64, old_len: u64, items: std::vec::Vec<T>, growth: i64)
        requires
            old(self).wf(),
            from <= old_len,
            from + items@.len() <= u64::MAX,
            i64::MIN <= old(self).offset + growth <= i64::MAX,
        ensures
            final(self).wf(),
            final(self).entries() == spliced(
                old(self).entries(),
                from as int,
                old_len as int,
                views_of(items@),
            ),
            final(self).len == Some((from + items@.len()) as u64),
            final(self).offset == old(self).offset + growth,
    {
        let ghost all = views_of(items@);
        let ghost first = self.entries();
        let count: usize = items.len();
        let mut rest = items;
        assert(self.entries() =~= with_items(first, from as int, all, count as int));
        while rest.len() > 0
            invariant
                self.wf(),
                rest@.len() <= count,
                count == all.len(),
                from + count <= u64::MAX,
                forall|i: int| 0 <= i < rest@.len() ==> (#[trigger] rest@[i])@ == all[i],
                self.entries() == with_items(first, from as int, all, rest@.len() as int),
                self.offset == old(self).offset,
            decreases rest.len(),
        {
            let item = rest.pop().unwrap();
            let position: usize = rest.len();
            self.insert_operation(from + position as u64, Operation::Update(item));
            assert(self.entries() =~= with_items(first, from as int, all, position as int));
        }
        let end: u64 = from + count as u64;
        let ghost filled = self.entries();
        let mut i: u64 = end;
        assert(self.entries() =~= without_range(filled, end as int, i as int));
        while i < old_len
            invariant
                self.wf(),
                end <= i,
                i <= old_len || i == end,
                filled == with_items(first, from as int, all, 0),
                self.entries() == without_range(filled, end as int, i as int),
                self.offset == old(self).offset,
            decreases old_len - i,
        {
            self.remove_operation(i);
            assert(self.entries() =~= without_range(filled, end as int, i + 1));
            i = i + 1;
        }
        assert(self.entries() =~= spliced(first, from as int, old_len as int, all));
        self.len = Some(end);
        self.offset = self.offset + growth;
    }

    /// The pending edits of the elements.
    pub open spec fn entries(&self) -> Map<u64, Operation<T::V>> {
        operation_views(self.cache@)
    }

    /// The operations of the cache in index order.
    pub open spec fn operations_in_order(&self) -> Seq<Operation<T::V>> {
        Seq::new(self.cache.seq().len(), |i: int| self.cache.seq()[i].1@)
    }

    /// Whether the cache holds an edit of an element, or a length.
    pub fn has_edits(&self) -> (r: bool)
        requires
            self.wf(),
        ensures
            r == !(self.entries() == Map::<u64, Operation<T::V>>::empty() && self.len is None),
    {
        let count: usize = self.cache.len();
        proof {
            if count == 0 {
                assert(self.cache.seq() =~= Seq::empty());
                lemma_empty::<u64, Operation<T>>();
                lemma_operation_views_empty::<u64, T>();
            } else {
                lemma_at(self.cache.seq(), 0);
                assert(self.entries().contains_key(self.cache.seq()[0].0@));
            }
        }
        count > 0 || self.len.is_some()
    }

    /// A cache that holds nothing.
    pub fn new() -> (r: Self)
        ensures
            r.wf(),
            r.cleared(),
    {
        proof {
            lemma_operation_views_empty::<u64, T>();
        }
        Self { cache: SortedMap::new(), offset: 0, len: None }
    }

    /// Counts one element more as added.
    pub fn add_offset(&mut self)
        requires
            old(self).offset < i64::MAX,
        ensures
            final(self).offset == old(self).offset + 1,
            final(self).cache == old(self).cache,
            final(self).len == old(self).len,
    {
        self.offset = self.offset + 1;
    }

    /// Counts one element more as taken away.
    pub fn sub_offset(&mut self)
        requires
            old(self).offset > i64::MIN,
        ensures
            final(self).offset == old(self).offset - 1,
            final(self).cache == old(self).cache,
            final(self).len == old(self).len,
    {
        self.offset = self.offset - 1;
    }

    /// The length of the list, where the cache knows it.
    pub fn len(&self) -> (r: Option<u64>)
        ensures
            r == self.len,
    {
        self.len
    }

    /// Records the length of the list.
    pub fn set_length(&mut self, len: u64)
        ensures
            final(self).len == Some(len),
            final(self).cache == old(self).cache,
            final(self).offset == old(self).offset,
    {
        self.len = Some(len);
    }

    /// The number of elements added, less those taken away.
    pub fn offset(&self) -> (r: i64)
        ensures
            r == self.offset,
    {
        self.offset
    }

    /// Records `op` as the edit of the element at `index`, and hands back
    /// the edit it replaces.
    pub fn insert_operation(&mut self, index: u64, op: Operation<T>) -> (r: Option<Operation<T>>)
        requires
            old(self).wf(),
        ensures
            final(self).wf(),
            final(self).entries() == old(self).entries().insert(index, op@),
            final(self).offset == old(self).offset,
            final(self).len == old(self).len,
            match r {
                Some(gone) => old(self).entries().contains_key(index)
                    && gone@ == old(self).entries()[index],
                None => !old(self).entries().contains_key(index),
            },
    {
        proof {
            lemma_operation_views_insert(self.cache@, index, op);
        }
        self.cache.insert(index, op)
    }

    /// Forgets the edit of the element at `index`, and hands it back.
    pub fn remove_operation(&mut self, index: u64) -> (r: Option<Operation<T>>)
        requires
            old(self).wf(),
        ensures
            final(self).wf(),
            final(self).entries() == old(self).entries().remove(index),
            final(self).offset == old(self).offset,
            final(self).len == old(self).len,
            match r {
                Some(gone) => old(self).entries().contains_key(index)
                    && gone@ == old(self).entries()[index],
                None => !old(self).entries().contains_key(index),
            },
    {
        proof {
            lemma_operation_views_remove(self.cache@, index);
        }
        self.cache.remove(&index)
    }

    /// Whether the element at `index` has a pending edit.
    pub fn contains_key(&self, index: &u64) -> (r: bool)
        requires
            self.wf(),
        ensures
            r == self.entries().contains_key(*index),
    {
        self.cache.contains_key(index)
    }

    /// The pending edit of the element at `index`.
    pub fn get(&self, index: &u64) -> (r: Option<&Operation<T>>)
        requires
            self.wf(),
        ensures
            match r {
                Some(op) => self.entries().contains_key(*index) && op@ == self.entries()[*index],
                None => !self.entries().contains_key(*index),
            },
    {
        self.cache.get(index)
    }

    /// The pending edit of the element at `index`, to be changed in place.
    pub fn get_mut(&mut self, index: &u64) -> (r: Option<&mut Operation<T>>)
        requires
            old(self).wf(),
        ensures
            final(self).wf(),
            final(self).offset == old(self).offset,
            final(self).len == old(self).len,
            match r {
                Some(op) => old(self).entries().contains_key(*index)
                    && op@ == old(self).entries()[*index]
                        && final(self).entries() == old(self).entries().insert(
                    *index,
                    (*final(op))@,
                ),
                None => !old(self).entries().contains_key(*index)
                    && final(self).entries() == old(self).entries(),
            },
    {
        let ghost before = self.cache@;
        match self.cache.get_mut(index) {
            Some(op) => {
                proof {
                    lemma_operation_views_insert(before, *index, *final(op));
                }
                Some(op)
            },
            None => None,
        }
    }
}

impl<T: ValueType> Default for Vec<T> {
    fn default() -> (r: Self)
        ensures
            r.wf(),
            r.cleared(),
    {
        Self::new()
    }
}

impl<T: ValueType> Model for Vec<T> {
    open spec fn wf(&self) -> bool {
        self.cache.wf()
    }

    /// The edits of the elements in index order, then the length where it is
    /// known.
    open spec fn pending(&self) -> Seq<(Seq<u8>, Operation<Seq<u8>>)> {
        pending_of::<u64, T>(self.cache.seq()) + length_edit(self.len)
    }

    open spec fn cleared(&self) -> bool {
        &&& self.cache.seq() == Seq::<(u64, Operation<T>)>::empty()
        &&& self.entries() == Map::<u64, Operation<T::V>>::empty()
        &&& self.offset == 0
        &&& self.len is None
    }

    open spec fn spec_type_code() -> u32 {
        2
    }

    open spec fn encodable(&self) -> bool {
        edits_valid::<u64, T>(self.entries())
    }

    /// The counters that merging adds up must stay within their types.
    open spec fn mergeable(&self, other: &Self) -> bool {
        &&& i64::MIN <= self.offset + other.offset <= i64::MAX
        &&& other.offset > 0 ==> replay_base(self.len, other.len, other.offset)
            + other.cache.seq().len() <= u64::MAX
    }

    /// A cache that added nothing on balance hands over its edits as they
    /// are. One that took elements away only moves the count. One that added
    /// elements has all its edits replayed, in index order, from the length
    /// of this list on; the length grows by their number.
    open spec fn merged(before: &Self, other: &Self, after: &Self) -> bool {
        &&& after.offset == before.offset + other.offset
        &&& if other.offset == 0 {
            &&& after.entries() == before.entries().union_prefer_right(other.entries())
            &&& after.len == before.len
        } else if other.offset < 0 {
            &&& after.entries() == before.entries()
            &&& after.len == before.len
        } else {
            let base = replay_base(before.len, other.len, other.offset) as int;
            let added = other.operations_in_order();
            &&& after.entries() == replay(before.entries(), added, base)
            &&& after.len == if added.len() > 0 {
                Some((base + added.len()) as u64)
            } else {
                before.len
            }
        }
    }

    fn empty() -> (r: Self) {
        Self::new()
    }

    fn pending_operations(&self) -> (r: Result<
        std::vec::Vec<(std::vec::Vec<u8>, OperationBytes)>,
        Error,
    >) {
        let mut out: std::vec::Vec<(std::vec::Vec<u8>, OperationBytes)> = std::vec::Vec::new();
        let prefix: std::vec::Vec<u8> = std::vec::Vec::new();
        assert(pairs_view(out@) =~= Seq::empty());
        push_pending(&self.cache, prefix.as_slice(), &mut out)?;
        proof {
            lemma_prefixed_empty(pending_of::<u64, T>(self.cache.seq()));
            assert(prefix@ =~= Seq::<u8>::empty());
            assert(pairs_view(out@) =~= pending_of::<u64, T>(self.cache.seq()));
            lemma_entries_valid(self.cache.seq());
        }
        match self.len {
            Some(l) => {
                let key = INDEX_VEC_LEN.to_bytes()?;
                let value = l.to_bytes()?;
                let ghost before = pairs_view(out@);
                out.push((key, Operation::Update(value)));
                assert(pairs_view(out@) =~= before + length_edit(self.len));
            },
            None => {
                assert(pairs_view(out@) =~= pairs_view(out@) + length_edit(self.len));
            },
        }
        Ok(out)
    }

    fn clear(&mut self) {
        proof {
            lemma_operation_views_empty::<u64, T>();
        }
        self.cache.clear();
        self.offset = 0;
        self.len = None;
    }

    fn operations(&mut self) -> (r: Result<
        std::vec::Vec<(std::vec::Vec<u8>, OperationBytes)>,
        Error,
    >) {
        let ops = self.pending_operations()?;
        self.clear();
        Ok(ops)
    }

    fn type_code(&self) -> (r: u32) {
        2
    }

    fn merge(&mut self, other: Self) {
        let growth: i64 = other.offset;
        if growth == 0 {
            proof {
                lemma_operation_views_union(self.cache@, other.cache@);
            }
            self.cache.append(other.cache);
        } else {
            self.offset = self.offset + growth;
            if growth > 0 {
                let base: u64 = match self.len {
                    Some(l) => l,
                    None => match other.len {
                        Some(l) => if growth as u64 <= l {
                            l - growth as u64
                        } else {
                            0
                        },
                        None => 0,
                    },
                };
                let ghost added = other.operations_in_order();
                let ghost first = self.entries();
                let mut rest = other.cache.into_entries();
                let count: usize = rest.len();
                if count > 0 {
                    self.len = Some(base + count as u64);
                }
                assert(self.entries() =~= replay(first, added.skip(count as int), base + count));
                while rest.len() > 0
                    invariant
                        self.wf(),
                        rest@.len() <= count,
                        count == added.len(),
                        base + count <= u64::MAX,
                        forall|i: int| 0 <= i < rest@.len()
                            ==> (#[trigger] rest@[i]).1@ == added[i],
                        self.entries() == replay(
                            first,
                            added.skip(rest@.len() as int),
                            base + rest@.len(),
                        ),
                        self.offset == old(self).offset + other.offset,
                        self.len == if count > 0 {
                            Some((base + count) as u64)
                        } else {
                            old(self).len
                        },
                    decreases rest.len(),
                {
                    let ghost n = rest@.len() as int;
                    let ghost shown = self.entries();
                    let pair = rest.pop().unwrap();
                    let position: usize = rest.len();
                    assert(pair.1@ == added[n - 1]);
                    let ghost slot = (base + n - 1) as u64;
                    proof {
                        lemma_operation_views_insert(
                            self.cache@,
                            (base + position as u64) as u64,
                            pair.1,
                        );
                    }
                    self.cache.insert(base + position as u64, pair.1);
                    proof {
                        let wanted = replay(first, added.skip(n - 1), base + n - 1);
                        assert forall|k: u64| wanted.contains_key(k)
                            <==> self.entries().contains_key(
                            k,
                        ) by {}
                        assert forall|k: u64| wanted.contains_key(k) implies wanted[k]
                            == self.entries()[k] by {
                            if k == slot {
                                assert(added.skip(n - 1)[0] == added[n - 1]);
                            } else if slot < k < slot + added.skip(n - 1).len() {
                                assert(added.skip(n - 1)[k - slot]
                                    == added.skip(n)[k - (base + n)]);
                                assert(self.entries()[k] == shown[k]);
                            } else {
                                assert(self.entries()[k] == shown[k]);
                            }
                        }
                        assert(self.entries() =~= wanted);
                    }
                }
                assert(added.skip(0) =~= added);
            }
        }
    }
}

} // verus!

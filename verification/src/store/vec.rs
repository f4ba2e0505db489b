//! A list, as a storage and as a transaction offer it.
//!
//! The elements are kept under their indices and the length under an index
//! of its own. Elements are added and taken away at the end; an element in
//! the middle is reached by taking away what follows it and adding it back.

use crate::backend::store::Store;
use crate::codec::cbor_u64;
use crate::cow_lite::Cow;
use crate::error::Error;
use crate::merkle::Merkle;
use crate::model::vec::{spliced, views_of, Vec, INDEX_VEC_LEN};
use crate::model::ValueType;
use crate::operation::Operation;
use crate::snapshot::storage::{record_at, SnapshotableStorage};
use crate::snapshot::value::decode_operation_record;
use crate::store::utils::{
    agrees, cached, cow_view, get_greatest, into_owned, operation_mut, opt_view,
    read_value, resolve,
};
use vstd::prelude::*;

verus! {

/// The length that a length record stands for. A list without a record is
/// empty; a record that is a tombstone is refused with `StoreError`.
pub open spec fn read_length(record: Option<Seq<u8>>) -> Result<u64, Error> {
    match record {
        None => Ok(0u64),
        Some(bytes) => match read_value::<u64>(Some(bytes)) {
            Ok(Some(l)) => Ok(l),
            Ok(None) => Err(Error::StoreError),
            Err(e) => Err(e),
        },
    }
}

/// What taking away the element at `index` hands out: the value of a pending
/// update, and otherwise what lies beneath.
pub open spec fn taken<A>(edit: Option<Operation<A>>, beneath: Result<Option<A>, Error>) -> Result<
    Option<A>,
    Error,
> {
    match edit {
        Some(Operation::Update(v)) => Ok(Some(v)),
        _ => beneath,
    }
}

/// What a store of a list is made of: a cache, and what lies beneath it.
pub trait VecState<T: ValueType>: Sized {
    spec fn wf(&self) -> bool;

    /// The pending edits of the elements.
    spec fn pending(&self) -> Map<u64, Operation<T::V>>;

    /// The length, where the cache knows it.
    spec fn cached_len(&self) -> Option<u64>;

    /// The number of elements added through this store, less those taken
    /// away.
    spec fn net_growth(&self) -> i64;

    /// What a read of the element at `index` gives without the pending
    /// edits.
    spec fn beneath(&self, index: u64) -> Result<Option<T::V>, Error>;

    /// The length without the cache.
    spec fn beneath_len(&self) -> Result<u64, Error>;

    /// Whether `other` differs from this store in the cache at most.
    spec fn same_beneath(&self, other: &Self) -> bool;

    /// Whether the store beneath never refuses a call.
    spec fn reliable(&self) -> bool;

    /// Stores that differ in the cache at most have the same beneath them.
    proof fn lemma_same_beneath(&self, other: &Self)
        requires
            self.same_beneath(other),
        ensures
            forall|index: u64| #[trigger] self.beneath(index) == other.beneath(index),
            self.beneath_len() == other.beneath_len(),
    ;

    proof fn lemma_same_beneath_transitive(&self, middle: &Self, other: &Self)
        requires
            self.same_beneath(middle),
            middle.same_beneath(other),
        ensures
            self.same_beneath(other),
    ;

    proof fn lemma_same_beneath_reflexive(&self)
        ensures
            self.same_beneath(self),
    ;

}

/// A store of a list of values.
pub trait VecStore<T: ValueType>: VecState<T> {
    /// The length of the list.
    fn len(&self) -> (r: Result<u64, Error>)
        requires
            self.wf(),
        ensures
            r matches Ok(l) ==> list_len::<T, Self>(self) == Ok::<u64, Error>(l),
            list_len::<T, Self>(self) is Err ==> r is Err,
            self.cached_len() is Some ==> r is Ok,
            self.reliable() ==> agrees(r, list_len::<T, Self>(self)),
    ;

    /// The element at `index`.
    fn get(&self, index: u64) -> (r: Result<Option<Cow<'_, T>>, Error>)
        requires
            self.wf(),
        ensures
            r matches Ok(v)
                ==> list_get::<T, Self>(self, index) == Ok::<Option<T::V>, Error>(cow_view(v)),
            list_get::<T, Self>(self, index) is Err ==> r is Err,
            decided::<T, Self>(self, index) ==> agrees(r, list_get::<T, Self>(self, index)),
    ;

    /// The element at `index`, to be changed in place. An element that is
    /// read from beneath becomes a pending edit, so that a change to it is
    /// one.
    fn get_mut(&mut self, index: u64) -> (r: Result<Option<&mut T>, Error>)
        requires
            old(self).wf(),
        ensures
            final(self).wf(),
            old(self).same_beneath(final(self)),
            final(self).cached_len() == old(self).cached_len(),
            final(self).net_growth() == old(self).net_growth(),
            match r {
                Ok(Some(v)) => list_get::<T, Self>(old(self), index)
                    == Ok::<Option<T::V>, Error>(Some((*v)@))
                    && final(self).pending() == old(self).pending().insert(
                    index,
                    Operation::Update((*final(v))@),
                ),
                Ok(None) => list_get::<T, Self>(old(self), index)
                    == Ok::<Option<T::V>, Error>(None)
                        && final(self).pending() == old(self).pending(),
                Err(_) => final(self).pending() == old(self).pending(),
            },
            list_get::<T, Self>(old(self), index) is Err ==> r is Err,
            decided::<T, Self>(old(self), index) ==> agrees(
                r,
                list_get::<T, Self>(old(self), index),
            ),
    ;

    /// Adds `value` at the end of the list. A list that cannot grow is left
    /// as it is, with `OutOffIndex`.
    fn push(&mut self, value: T) -> (r: Result<(), Error>)
        requires
            old(self).wf(),
        ensures
            final(self).wf(),
            old(self).same_beneath(final(self)),
            match r {
                Ok(_) => {
                    &&& list_len::<T, Self>(old(self)) matches Ok(len)
                    &&& len < u64::MAX
                    &&& old(self).net_growth() < i64::MAX
                    &&& final(self).pending() == old(self).pending().insert(
                        len,
                        Operation::Update(value@),
                    )
                    &&& final(self).cached_len() == Some((len + 1) as u64)
                    &&& final(self).net_growth() == old(self).net_growth() + 1
                },
                Err(e) => {
                    &&& final(self).pending() == old(self).pending()
                    &&& final(self).cached_len() == old(self).cached_len()
                    &&& final(self).net_growth() == old(self).net_growth()
                },
            },
            list_len::<T, Self>(old(self)) is Err ==> r is Err,
            old(self).reliable() || old(self).cached_len() is Some ==> r == match list_len::<
                T,
                Self,
            >(old(self)) {
                Ok(len) => if len < u64::MAX && old(self).net_growth() < i64::MAX {
                    Ok::<(), Error>(())
                } else {
                    Err::<(), Error>(Error::OutOffIndex)
                },
                Err(e) => Err::<(), Error>(e),
            },
    ;

    /// Takes the last element away and hands it out; an empty list hands
    /// out nothing. A list whose last element is missing is left as it is,
    /// with `StoreError`.
    fn pop(&mut self) -> (r: Result<Option<T>, Error>)
        requires
            old(self).wf(),
        ensures
            final(self).wf(),
            old(self).same_beneath(final(self)),
            match r {
                Ok(None) => {
                    &&& list_len::<T, Self>(old(self)) == Ok::<u64, Error>(0)
                    &&& final(self).pending() == old(self).pending()
                    &&& final(self).cached_len() == old(self).cached_len()
                    &&& final(self).net_growth() == old(self).net_growth()
                },
                Ok(Some(v)) => {
                    &&& list_len::<T, Self>(old(self)) matches Ok(len)
                    &&& len > 0
                    &&& list_item::<T, Self>(old(self), (len - 1) as u64)
                        == Ok::<Option<T::V>, Error>(Some(v@))
                    &&& final(self).pending() == old(self).pending().remove((len - 1) as u64)
                    &&& final(self).cached_len() == Some((len - 1) as u64)
                    &&& final(self).net_growth() == old(self).net_growth() - 1
                },
                Err(e) => {
                    &&& final(self).pending() == old(self).pending()
                    &&& final(self).cached_len() == old(self).cached_len()
                    &&& final(self).net_growth() == old(self).net_growth()
                },
            },
            list_len::<T, Self>(old(self)) is Err ==> r is Err,
            list_len::<T, Self>(old(self)) matches Ok(len) && len > 0
                && !(list_item::<T, Self>(old(self), (len - 1) as u64,
            ) matches Ok(Some(_)))
                ==> r is Err,
            last_decided::<T, Self>(old(self)) ==> agrees(
                r,
                match list_len::<T, Self>(old(self)) {
                    Ok(len) => if len == 0 {
                        Ok::<Option<T::V>, Error>(None)
                    } else if old(self).net_growth() == i64::MIN {
                        Err::<Option<T::V>, Error>(Error::OutOffIndex)
                    } else {
                        match list_item::<T, Self>(old(self), (len - 1) as u64) {
                            Ok(None) => Err::<Option<T::V>, Error>(Error::StoreError),
                            other => other,
                        }
                    },
                    Err(e) => Err::<Option<T::V>, Error>(e),
                },
            ),
    ;

    /// Reads the elements from `index` up to the end of a list of length
    /// `len`, in their order. An element that is missing is refused with
    /// `StoreError`.
    fn read_from(&self, index: u64, len: u64) -> (r: Result<std::vec::Vec<T>, Error>)
        requires
            self.wf(),
            list_len::<T, Self>(self) == Ok::<u64, Error>(len),
            index <= len,
        ensures
            r matches Ok(items) ==> views_of(items@) == elements_from::<T, Self>(
                self,
                index,
                (len - index) as nat,
            ) && all_present::<T, Self>(self, index, len),
            all_decided::<T, Self>(self, index, len) && all_present::<T, Self>(self, index, len)
                ==> r is Ok,
    {
        let mut items: std::vec::Vec<T> = std::vec::Vec::new();
        let mut i: u64 = index;
        assert(views_of(items@) =~= elements_from::<T, Self>(self, index, 0));
        while i < len
            invariant
                self.wf(),
                list_len::<T, Self>(self) == Ok::<u64, Error>(len),
                index <= i <= len,
                views_of(items@) == elements_from::<T, Self>(self, index, (i - index) as nat),
                all_present::<T, Self>(self, index, i),
            decreases len - i,
        {
            match self.get(i)? {
                Some(found) => {
                    let item = into_owned(found);
                    let ghost before = views_of(items@);
                    items.push(item);
                    assert(views_of(items@) =~= before.push(item@));
                    assert(views_of(items@) =~= elements_from::<T, Self>(
                        self,
                        index,
                        (i + 1 - index) as nat,
                    ));
                },
                None => {
                    return Err(Error::StoreError);
                },
            }
            i = i + 1;
        }
        Ok(items)
    }

    /// Puts `items` in place of the elements from `from` up to the end of a
    /// list of length `old_len`, and counts `growth` elements more as added.
    /// Only the cache is touched.
    fn replace_tail(&mut self, from: u64, old_len: u64, items: std::vec::Vec<T>, growth: i64)
        requires
            old(self).wf(),
            from <= old_len,
            from + items@.len() <= u64::MAX,
            i64::MIN <= old(self).net_growth() + growth <= i64::MAX,
        ensures
            final(self).wf(),
            old(self).same_beneath(final(self)),
            final(self).pending() == spliced(
                old(self).pending(),
                from as int,
                old_len as int,
                views_of(items@),
            ),
            final(self).cached_len() == Some((from + items@.len()) as u64),
            final(self).net_growth() == old(self).net_growth() + growth,
    ;

    /// Takes the element at `index` out of the list and hands it out; the
    /// elements behind it move one place down. A store whose cache holds no
    /// pending edit has nothing to take away: it hands out nothing and the
    /// list stays as it is. An index beyond the end is refused with
    /// `OutOffIndex`. Where the call fails, the list is as it was.
    fn remove(&mut self, index: u64) -> (r: Result<Option<T>, Error>)
        requires
            old(self).wf(),
        ensures
            final(self).wf(),
            old(self).same_beneath(final(self)),
            nothing_pending::<T, Self>(old(self)) ==> r matches Ok(None),
            match r {
                Ok(None) => {
                    &&& nothing_pending::<T, Self>(old(self))
                    &&& final(self).pending() == old(self).pending()
                    &&& final(self).cached_len() == old(self).cached_len()
                    &&& final(self).net_growth() == old(self).net_growth()
                },
                Ok(Some(t)) => {
                    &&& !nothing_pending::<T, Self>(old(self))
                    &&& list_len::<T, Self>(old(self)) matches Ok(len)
                    &&& index < len
                    &&& list_get::<T, Self>(old(self), index) == Ok::<Option<T::V>, Error>(Some(t@))
                    &&& all_present::<T, Self>(old(self), index, len)
                    &&& final(self).pending() == spliced(
                        old(self).pending(),
                        index as int,
                        len as int,
                        elements_from::<T, Self>(
                            old(self),
                            (index + 1) as u64,
                            (len - index - 1) as nat,
                        ),
                    )
                    &&& final(self).cached_len() == Some((len - 1) as u64)
                    &&& final(self).net_growth() == old(self).net_growth() - 1
                },
                Err(_) => {
                    &&& final(self).pending() == old(self).pending()
                    &&& final(self).cached_len() == old(self).cached_len()
                    &&& final(self).net_growth() == old(self).net_growth()
                },
            },
            !nothing_pending::<T, Self>(old(self)) && list_len::<T, Self>(old(self)) is Err
                ==> r is Err,
            !nothing_pending::<T, Self>(old(self)) && (old(self).reliable()
                || old(self).cached_len() is Some) ==> match list_len::<T, Self>(old(self)) {
                Err(e) => r matches Err(x) && x == e,
                Ok(len) => {
                    &&& index >= len || old(self).net_growth() == i64::MIN ==> r == Err::<
                        Option<T>,
                        Error,
                    >(Error::OutOffIndex)
                    &&& index < len && old(self).net_growth() > i64::MIN && all_decided::<T, Self>(
                        old(self),
                        index,
                        len,
                    ) && all_present::<T, Self>(old(self), index, len) ==> r is Ok
                },
            },
    {
        proof {
            self.lemma_same_beneath_reflexive();
        }
        if !self.has_pending() {
            return Ok(None);
        }
        let len = self.len()?;
        if index >= len || self.net_growth_value() == i64::MIN {
            return Err(Error::OutOffIndex);
        }
        let mut items = self.read_from(index, len)?;
        let ghost read = views_of(items@);
        let ghost held = items@;
        assert(held.len() == read.len());
        let removed = items.remove(0);
        proof {
            assert forall|j: int| 0 <= j < items@.len() implies views_of(items@)[j] == read[j
                + 1] by {
                assert(items@[j] == held[j + 1]);
            }
            assert(views_of(items@) =~= elements_from::<T, Self>(
                self,
                (index + 1) as u64,
                (len - index - 1) as nat,
            ));
            assert(read[0] == removed@);
        }
        self.replace_tail(index, len, items, -1);
        Ok(Some(removed))
    }

    /// Puts `value` into the list at `index`; the elements from there on
    /// move one place up. An index beyond the end is refused with
    /// `OutOffIndex`. Where the call fails, the list is as it was.
    fn insert(&mut self, index: u64, value: T) -> (r: Result<(), Error>)
        requires
            old(self).wf(),
        ensures
            final(self).wf(),
            old(self).same_beneath(final(self)),
            match r {
                Ok(_) => {
                    &&& list_len::<T, Self>(old(self)) matches Ok(len)
                    &&& index <= len
                    &&& len < u64::MAX
                    &&& all_present::<T, Self>(old(self), index, len)
                    &&& final(self).pending() == spliced(
                        old(self).pending(),
                        index as int,
                        len as int,
                        seq![value@] + elements_from::<T, Self>(
                            old(self),
                            index,
                            (len - index) as nat,
                        ),
                    )
                    &&& final(self).cached_len() == Some((len + 1) as u64)
                    &&& final(self).net_growth() == old(self).net_growth() + 1
                },
                Err(_) => {
                    &&& final(self).pending() == old(self).pending()
                    &&& final(self).cached_len() == old(self).cached_len()
                    &&& final(self).net_growth() == old(self).net_growth()
                },
            },
            list_len::<T, Self>(old(self)) is Err ==> r is Err,
            old(self).reliable() || old(self).cached_len() is Some ==> match list_len::<T, Self>(
                old(self),
            ) {
                Err(e) => r matches Err(x) && x == e,
                Ok(len) => {
                    &&& index > len || len == u64::MAX || old(self).net_growth() == i64::MAX
                        ==> r == Err::<(), Error>(Error::OutOffIndex)
                    &&& index <= len && len < u64::MAX && old(self).net_growth() < i64::MAX
                        && all_decided::<T, Self>(old(self), index, len) && all_present::<T, Self>(
                        old(self),
                        index,
                        len,
                    ) ==> r is Ok
                },
            },
    {
        proof {
            self.lemma_same_beneath_reflexive();
        }
        let len = self.len()?;
        if index > len || len == u64::MAX || self.net_growth_value() == i64::MAX {
            return Err(Error::OutOffIndex);
        }
        let mut items = self.read_from(index, len)?;
        let ghost read = views_of(items@);
        items.insert(0, value);
        assert(views_of(items@) =~= seq![value@] + read);
        self.replace_tail(index, len, items, 1);
        Ok(())
    }

    /// The number of elements added through this store, less those taken
    /// away.
    fn net_growth_value(&self) -> (r: i64)
        ensures
            r == self.net_growth(),
    ;

    /// Whether the cache holds a pending edit: an edit of an element, or a
    /// length.
    fn has_pending(&self) -> (r: bool)
        requires
            self.wf(),
        ensures
            r == !nothing_pending::<T, Self>(self),
    ;

    /// Makes the length of the list known to the cache, so that later calls
    /// need not read it from the store.
    fn load_length(&mut self) -> (r: Result<u64, Error>)
        requires
            old(self).wf(),
        ensures
            final(self).wf(),
            old(self).same_beneath(final(self)),
            final(self).pending() == old(self).pending(),
            final(self).net_growth() == old(self).net_growth(),
            match r {
                Ok(len) => list_len::<T, Self>(old(self)) == Ok::<u64, Error>(len)
                    && final(self).cached_len() == Some(len),
                Err(_) => final(self).cached_len() == old(self).cached_len(),
            },
            list_len::<T, Self>(old(self)) is Err ==> r is Err,
            old(self).cached_len() is Some ==> r is Ok,
            old(self).reliable() ==> agrees(r, list_len::<T, Self>(old(self))),
    ;

    /// Whether the list is empty: whether its length is 0. The call
    /// succeeds where the cache knows the length, and over a store that does
    /// not fail it succeeds and fails as the read of the length does.
    fn is_empty(&self) -> (r: Result<bool, Error>)
        requires
            self.wf(),
        ensures
            r matches Ok(b) ==> list_len::<T, Self>(self) matches Ok(l) && b == (l == 0),
            list_len::<T, Self>(self) is Err ==> r is Err,
            self.cached_len() is Some ==> r is Ok,
            self.reliable() ==> agrees(r, list_len::<T, Self>(self)),
    {
        match self.len() {
            Ok(l) => Ok(l == 0),
            Err(e) => Err(e),
        }
    }
}

/// Whether the cache holds no pending edit: no edit of an element and no
/// length.
pub open spec fn nothing_pending<T: ValueType, X: VecState<T>>(s: &X) -> bool {
    s.pending() == Map::<u64, Operation<T::V>>::empty() && s.cached_len() is None
}

/// Whether a read of `index` is settled without a refusal of the store
/// beneath: the store never refuses, or the cache knows the length and,
/// where `index` lies within it, holds an edit of the element.
pub open spec fn decided<T: ValueType, X: VecState<T>>(s: &X, index: u64) -> bool {
    s.reliable() || (s.cached_len() matches Some(len) && (index >= len
        || s.pending().contains_key(index)))
}

/// Whether the reads of the indices from `from` up to `to` are all settled
/// without a refusal of the store beneath.
pub open spec fn all_decided<T: ValueType, X: VecState<T>>(s: &X, from: u64, to: u64) -> bool {
    s.reliable() || (s.cached_len() is Some && forall|i: u64|
        from <= i < to ==> #[trigger] s.pending().contains_key(i))
}

/// Whether taking away the last element is settled without a refusal of the
/// store beneath: the store never refuses, or the cache knows the length and,
/// where the list is not empty, holds an update of the last element.
pub open spec fn last_decided<T: ValueType, X: VecState<T>>(s: &X) -> bool {
    s.reliable() || (s.cached_len() matches Some(len) && (len == 0 || (s.pending().contains_key(
        (len - 1) as u64,
    ) && s.pending()[(len - 1) as u64] is Update)))
}

/// The length of the list.
pub open spec fn list_len<T: ValueType, X: VecState<T>>(s: &X) -> Result<u64, Error> {
    match s.cached_len() {
        Some(l) => Ok(l),
        None => s.beneath_len(),
    }
}

/// The element at `index`, whatever the length.
pub open spec fn list_element<T: ValueType, X: VecState<T>>(s: &X, index: u64) -> Result<
    Option<T::V>,
    Error,
> {
    resolve(cached(s.pending(), index), s.beneath(index))
}

/// What a read of `index` gives: nothing beyond the end of the list, and
/// the element otherwise.
pub open spec fn list_get<T: ValueType, X: VecState<T>>(s: &X, index: u64) -> Result<
    Option<T::V>,
    Error,
> {
    match list_len::<T, X>(s) {
        Err(e) => Err(e),
        Ok(len) => if index >= len {
            Ok(None)
        } else {
            list_element::<T, X>(s, index)
        },
    }
}

/// What taking away the element at `index` hands out, once it is the
/// last.
pub open spec fn list_item<T: ValueType, X: VecState<T>>(s: &X, index: u64) -> Result<
    Option<T::V>,
    Error,
> {
    taken(cached(s.pending(), index), s.beneath(index))
}

/// The values of the `count` elements from `from` on.
pub open spec fn elements_from<T: ValueType, X: VecState<T>>(s: &X, from: u64, count: nat) -> Seq<
    T::V,
> {
    Seq::new(count, |j: int| list_get::<T, X>(s, (from + j) as u64)->Ok_0->0)
}

/// Whether every element from `from` up to `to` can be read and is there.
pub open spec fn all_present<T: ValueType, X: VecState<T>>(s: &X, from: u64, to: u64) -> bool {
    forall|i: u64| from <= i < to ==> #[trigger] list_get::<T, X>(s, i) matches Ok(Some(_))
}

impl<S: Store, M: Merkle, T: ValueType> SnapshotableStorage<S, M, Vec<T>> {
    /// The persisted element at `index`, at the current height.
    pub open spec fn persisted_element(&self, index: u64) -> Result<Option<T::V>, Error> {
        read_value::<T>(
            record_at(self.contents(), self.scope(), cbor_u64(index), self.height as int),
        )
    }

    /// The persisted length, at the current height.
    pub open spec fn persisted_len(&self) -> Result<u64, Error> {
        read_length(
            record_at(self.contents(), self.scope(), cbor_u64(INDEX_VEC_LEN), self.height as int),
        )
    }

    /// Reads the persisted element at `index`.
    pub fn get_inner_value(&self, index: u64) -> (r: Result<Option<T>, Error>)
        requires
            self.wf(),
        ensures
            r matches Ok(v) ==> self.persisted_element(index) == Ok::<Option<T::V>, Error>(
                opt_view(v),
            ),
            self.persisted_element(index) is Err ==> r is Err,
            self.store.reliable() ==> agrees(r, self.persisted_element(index)),
    {
        let key_bytes = index.to_bytes()?;
        let store_key = self.storage_tuple_key(&key_bytes);
        get_greatest(&self.store, store_key.0.as_slice(), store_key.1.as_slice())
    }

    /// Reads the persisted length.
    pub fn get_len(&self) -> (r: Result<u64, Error>)
        requires
            self.wf(),
        ensures
            r matches Ok(l) ==> self.persisted_len() == Ok::<u64, Error>(l),
            self.persisted_len() is Err ==> r is Err,
            self.store.reliable() ==> agrees(r, self.persisted_len()),
    {
        let key_bytes = INDEX_VEC_LEN.to_bytes()?;
        let store_key = self.storage_tuple_key(&key_bytes);
        match self.store.get_in(store_key.0.as_slice(), store_key.1.as_slice())? {
            Some(bytes) => {
                let operation = decode_operation_record(bytes.as_ref().as_slice())?;
                match operation {
                    Operation::Update(payload) => u64::from_bytes(payload.as_slice()),
                    Operation::Delete => Err(Error::StoreError),
                }
            },
            None => Ok(0),
        }
    }
}

impl<S: Store, M: Merkle, T: ValueType> VecState<T> for SnapshotableStorage<S, M, Vec<T>> {
    open spec fn wf(&self) -> bool {
        SnapshotableStorage::wf(self)
    }

    open spec fn pending(&self) -> Map<u64, Operation<T::V>> {
        self.value.entries()
    }

    open spec fn cached_len(&self) -> Option<u64> {
        self.value.len
    }

    open spec fn net_growth(&self) -> i64 {
        self.value.offset
    }

    open spec fn beneath(&self, index: u64) -> Result<Option<T::V>, Error> {
        self.persisted_element(index)
    }

    open spec fn beneath_len(&self) -> Result<u64, Error> {
        self.persisted_len()
    }

    open spec fn same_beneath(&self, other: &Self) -> bool {
        &&& other.store == self.store
        &&& other.height == self.height
        &&& other.namespace == self.namespace
        &&& other.merkle == self.merkle
    }

    open spec fn reliable(&self) -> bool {
        self.store.reliable()
    }

    proof fn lemma_same_beneath(&self, other: &Self) {
    }

    proof fn lemma_same_beneath_transitive(&self, middle: &Self, other: &Self) {
    }

    proof fn lemma_same_beneath_reflexive(&self) {
    }
}

impl<S: Store, M: Merkle, T: ValueType> VecStore<T> for SnapshotableStorage<S, M, Vec<T>> {
    fn net_growth_value(&self) -> (r: i64) {
        self.value.offset()
    }

    fn has_pending(&self) -> (r: bool) {
        self.value.has_edits()
    }

    fn len(&self) -> (r: Result<u64, Error>) {
        match self.value.len() {
            Some(l) => Ok(l),
            None => self.get_len(),
        }
    }

    /// An element that is read from the cache is borrowed; one that is read
    /// from the store is owned.
    fn get(&self, index: u64) -> (r: Result<Option<Cow<'_, T>>, Error>)
        ensures
            r matches Ok(Some(c)) ==> (c is Borrowed <==> self.value.entries().contains_key(index)),
    {
        let len = self.len()?;
        assert(list_len::<T, Self>(self) == Ok::<u64, Error>(len));
        if index >= len {
            assert(list_get::<T, Self>(self, index) == Ok::<Option<T::V>, Error>(None));
            return Ok(None);
        }
        assert(list_get::<T, Self>(self, index) == list_element::<T, Self>(self, index));
        match self.value.get(&index) {
            Some(op) => match op {
                Operation::Update(v) => Ok(Some(Cow::Borrowed(v))),
                Operation::Delete => Ok(None),
            },
            None => match self.get_inner_value(index)? {
                Some(v) => Ok(Some(Cow::Owned(v))),
                None => Ok(None),
            },
        }
    }

    fn get_mut(&mut self, index: u64) -> (r: Result<Option<&mut T>, Error>) {
        let len = self.len()?;
        assert(list_len::<T, Self>(self) == Ok::<u64, Error>(len));
        if index >= len {
            assert(list_get::<T, Self>(self, index) == Ok::<Option<T::V>, Error>(None));
            return Ok(None);
        }
        assert(list_get::<T, Self>(self, index) == list_element::<T, Self>(self, index));
        if !self.value.contains_key(&index) {
            match self.get_inner_value(index)? {
                Some(t) => {
                    self.value.insert_operation(index, Operation::Update(t));
                },
                None => {
                    return Ok(None);
                },
            }
        }
        let ghost before = self.value.entries();
        match self.value.get_mut(&index) {
            Some(op) => {
                proof {
                    assert(before.insert(index, before[index]) =~= before);
                    assert(old(self).pending().insert(index, before[index]).insert(
                        index,
                        (*final(op))@,
                    ) =~= old(self).pending().insert(index, (*final(op))@));
                }
                Ok(operation_mut(op))
            },
            None => Ok(None),
        }
    }

    fn load_length(&mut self) -> (r: Result<u64, Error>) {
        let len = self.len()?;
        self.value.set_length(len);
        Ok(len)
    }

    fn replace_tail(&mut self, from: u64, old_len: u64, items: std::vec::Vec<T>, growth: i64) {
        self.value.replace_tail(from, old_len, items, growth);
    }

    fn push(&mut self, value: T) -> (r: Result<(), Error>) {
        let len = self.len()?;
        if len == u64::MAX || self.value.offset() == i64::MAX {
            return Err(Error::OutOffIndex);
        }
        self.value.insert_operation(len, Operation::Update(value));
        self.value.set_length(len + 1);
        self.value.add_offset();
        Ok(())
    }

    fn pop(&mut self) -> (r: Result<Option<T>, Error>) {
        let len = self.len()?;
        assert(list_len::<T, Self>(self) == Ok::<u64, Error>(len));
        if len == 0 {
            return Ok(None);
        }
        if self.value.offset() == i64::MIN {
            return Err(Error::OutOffIndex);
        }
        let ghost edit = cached(self.pending(), (len - 1) as u64);
        let held = match self.value.get(&(len - 1)) {
            Some(Operation::Update(_)) => true,
            _ => false,
        };
        assert(held == (edit matches Some(Operation::Update(_))));
        assert(!held
            ==> list_item::<T, Self>(self, (len - 1) as u64) == self.beneath((len - 1) as u64));
        let last = if held {
            match self.value.remove_operation(len - 1) {
                Some(Operation::Update(t)) => t,
                _ => {
                    return Err(Error::StoreError);
                },
            }
        } else {
            match self.get_inner_value(len - 1)? {
                Some(t) => {
                    self.value.remove_operation(len - 1);
                    t
                },
                None => {
                    return Err(Error::StoreError);
                },
            }
        };
        assert(list_item::<T, Self>(old(self), (len - 1) as u64)
            == Ok::<Option<T::V>, Error>(Some(last@)));
        self.value.set_length(len - 1);
        self.value.sub_offset();
        Ok(Some(last))
    }
}

} // verus!

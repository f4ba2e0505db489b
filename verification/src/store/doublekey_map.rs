//! A map whose values can be reached by either of two keys, as a storage and
//! as a transaction offer it.
//!
//! A first key is linked to a second key, and the value is kept under the
//! second. Taking a value away by its first key leaves a tombstone for the
//! link and one for the value.

use crate::backend::store::Store;
use crate::cow_lite::Cow;
use crate::error::Error;
use crate::merkle::Merkle;
use crate::model::doublekey_map::{without_links_to, DoubleKeyMap, LINK_PREFIX, VALUE_PREFIX};
use crate::model::{KeyType, ValueType};
use crate::operation::Operation;
use crate::order::key_eq;
use crate::snapshot::storage::{record_at, SnapshotableStorage};
use crate::store::utils::{
    agrees, cached, cow_view, get_greatest, into_owned, operation_mut, opt_view,
    read_value, resolve,
};
use vstd::prelude::*;

verus! {

/// What a store with two keys is made of: the pending links and values, and
/// what lies beneath them.
pub trait DoubleKeyState<K1: KeyType, K2: KeyType, V: ValueType>: Sized {
    spec fn wf(&self) -> bool;

    /// The pending edits of the links from first keys to second keys.
    spec fn links(&self) -> Map<K1::V, Operation<K2::V>>;

    /// The pending edits of the values, under their second keys.
    spec fn values(&self) -> Map<K2::V, Operation<V::V>>;

    /// The second key that `key1` is linked to without the pending edits.
    spec fn beneath_link(&self, key1: K1::V) -> Result<Option<K2::V>, Error>;

    /// The value under `key2` without the pending edits.
    spec fn beneath_value(&self, key2: K2::V) -> Result<Option<V::V>, Error>;

    /// Whether `other` differs from this store in the pending edits at most.
    spec fn same_beneath(&self, other: &Self) -> bool;

    /// Whether the store beneath never refuses a call.
    spec fn reliable(&self) -> bool;

    proof fn lemma_same_beneath_reflexive(&self)
        ensures
            self.same_beneath(self),
    ;

    /// Stores that differ in the pending edits at most have the same beneath
    /// them.
    proof fn lemma_same_beneath(&self, other: &Self)
        requires
            self.same_beneath(other),
        ensures
            forall|key1: K1::V| #[trigger] self.beneath_link(key1) == other.beneath_link(key1),
            forall|key2: K2::V| #[trigger] self.beneath_value(key2) == other.beneath_value(key2),
    ;
}

/// The second key that `key1` is linked to.
pub open spec fn link_of<K1: KeyType, K2: KeyType, V: ValueType, X: DoubleKeyState<K1, K2, V>>(
    s: &X,
    key1: K1::V,
) -> Result<Option<K2::V>, Error> {
    resolve(cached(s.links(), key1), s.beneath_link(key1))
}

/// The value under `key2`.
pub open spec fn value_of<K1: KeyType, K2: KeyType, V: ValueType, X: DoubleKeyState<K1, K2, V>>(
    s: &X,
    key2: K2::V,
) -> Result<Option<V::V>, Error> {
    resolve(cached(s.values(), key2), s.beneath_value(key2))
}

/// The value that `key1` leads to: that under the second key it is linked
/// to.
pub open spec fn value_by_key1<
    K1: KeyType,
    K2: KeyType,
    V: ValueType,
    X: DoubleKeyState<K1, K2, V>,
>(s: &X, key1: K1::V) -> Result<Option<V::V>, Error> {
    match link_of::<K1, K2, V, X>(s, key1) {
        Err(e) => Err(e),
        Ok(None) => Ok(None),
        Ok(Some(key2)) => value_of::<K1, K2, V, X>(s, key2),
    }
}

/// The value that the pair of `key1` and `key2` leads to: that under `key2`
/// where `key1` is linked to it, and none otherwise.
pub open spec fn value_by_pair<
    K1: KeyType,
    K2: KeyType,
    V: ValueType,
    X: DoubleKeyState<K1, K2, V>,
>(s: &X, key1: K1::V, key2: K2::V) -> Result<Option<V::V>, Error> {
    match link_of::<K1, K2, V, X>(s, key1) {
        Err(e) => Err(e),
        Ok(None) => Ok(None),
        Ok(Some(linked)) => if linked == key2 {
            value_of::<K1, K2, V, X>(s, key2)
        } else {
            Ok(None)
        },
    }
}

/// The pending links after the link of `key1` has been taken away: a
/// tombstone for `key1` where it was linked, and no change otherwise.
pub open spec fn links_without<
    K1: KeyType,
    K2: KeyType,
    V: ValueType,
    X: DoubleKeyState<K1, K2, V>,
>(s: &X, key1: K1::V) -> Map<K1::V, Operation<K2::V>> {
    match link_of::<K1, K2, V, X>(s, key1) {
        Ok(Some(_)) => s.links().insert(key1, Operation::Delete),
        _ => s.links(),
    }
}

/// The pending values after the link of `key1` has been taken away: a
/// tombstone for the second key that `key1` was linked to.
pub open spec fn values_without<
    K1: KeyType,
    K2: KeyType,
    V: ValueType,
    X: DoubleKeyState<K1, K2, V>,
>(s: &X, key1: K1::V) -> Map<K2::V, Operation<V::V>> {
    match link_of::<K1, K2, V, X>(s, key1) {
        Ok(Some(key2)) => s.values().insert(key2, Operation::Delete),
        _ => s.values(),
    }
}

/// Whether `key1` is linked to `key2`.
pub open spec fn linked<K1: KeyType, K2: KeyType, V: ValueType, X: DoubleKeyState<K1, K2, V>>(
    s: &X,
    key1: K1::V,
    key2: K2::V,
) -> bool {
    link_of::<K1, K2, V, X>(s, key1) == Ok::<Option<K2::V>, Error>(Some(key2))
}

/// Whether there is a value under `key2`.
pub open spec fn live<K1: KeyType, K2: KeyType, V: ValueType, X: DoubleKeyState<K1, K2, V>>(
    s: &X,
    key2: K2::V,
) -> bool {
    value_of::<K1, K2, V, X>(s, key2) matches Ok(Some(_))
}

/// Links and values go together: a first key is linked only to a second key
/// that has a value, every value is reached from a first key, and no two
/// first keys are linked to one second key.
pub open spec fn symmetric<K1: KeyType, K2: KeyType, V: ValueType, X: DoubleKeyState<K1, K2, V>>(
    s: &X,
) -> bool {
    &&& forall|key1: K1::V, key2: K2::V| #[trigger]
        linked::<K1, K2, V, X>(s, key1, key2) ==> live::<K1, K2, V, X>(s, key2)
    &&& forall|key2: K2::V| #[trigger]
        live::<K1, K2, V, X>(s, key2) ==> exists|key1: K1::V|
            linked::<K1, K2, V, X>(s, key1, key2)
    &&& forall|key1: K1::V, other: K1::V, key2: K2::V|
        #![trigger linked::<K1, K2, V, X>(s, key1, key2), linked::<K1, K2, V, X>(s, other, key2)]
        linked::<K1, K2, V, X>(s, key1, key2) && linked::<K1, K2, V, X>(s, other, key2) ==> key1
            == other
}

/// Taking away by the first key keeps links and values together.
pub proof fn lemma_remove_keeps_symmetry<
    K1: KeyType,
    K2: KeyType,
    V: ValueType,
    X: DoubleKeyState<K1, K2, V>,
>(before: &X, after: &X, key1: K1::V)
    requires
        symmetric::<K1, K2, V, X>(before),
        before.same_beneath(after),
        after.links() == links_without::<K1, K2, V, X>(before, key1),
        after.values() == values_without::<K1, K2, V, X>(before, key1),
    ensures
        symmetric::<K1, K2, V, X>(after),
        link_of::<K1, K2, V, X>(before, key1) is Ok ==> link_of::<K1, K2, V, X>(after, key1)
            == Ok::<Option<K2::V>, Error>(None),
{
    before.lemma_same_beneath(after);
    match link_of::<K1, K2, V, X>(before, key1) {
        Ok(Some(gone)) => {
            assert(linked::<K1, K2, V, X>(before, key1, gone));
            assert forall|a: K1::V, b: K2::V| #[trigger]
                linked::<K1, K2, V, X>(after, a, b) implies live::<K1, K2, V, X>(after, b) by {
                assert(linked::<K1, K2, V, X>(before, a, b));
                assert(live::<K1, K2, V, X>(before, b));
            }
            assert forall|b: K2::V| #[trigger] live::<K1, K2, V, X>(after, b) implies exists|
                a: K1::V,
            |
                linked::<K1, K2, V, X>(after, a, b) by {
                assert(live::<K1, K2, V, X>(before, b));
                let a = choose|a: K1::V| linked::<K1, K2, V, X>(before, a, b);
                assert(linked::<K1, K2, V, X>(after, a, b));
            }
            assert forall|a: K1::V, c: K1::V, b: K2::V|
                #![trigger linked::<K1, K2, V, X>(after, a, b), linked::<K1, K2, V, X>(after, c, b)]
                linked::<K1, K2, V, X>(after, a, b) && linked::<K1, K2, V, X>(
                    after,
                    c,
                    b,
                ) implies a == c by {
                assert(linked::<K1, K2, V, X>(before, a, b));
                assert(linked::<K1, K2, V, X>(before, c, b));
            }
        },
        _ => {
            assert forall|a: K1::V, b: K2::V|
                linked::<K1, K2, V, X>(after, a, b) == linked::<K1, K2, V, X>(before, a, b) by {}
            assert forall|b: K2::V|
                live::<K1, K2, V, X>(after, b) == live::<K1, K2, V, X>(before, b) by {}
            assert forall|b: K2::V| #[trigger] live::<K1, K2, V, X>(after, b) implies exists|
                a: K1::V,
            |
                linked::<K1, K2, V, X>(after, a, b) by {
                assert(live::<K1, K2, V, X>(before, b));
                let a = choose|a: K1::V| linked::<K1, K2, V, X>(before, a, b);
                assert(linked::<K1, K2, V, X>(after, a, b));
            }
        },
    }
}

/// Taking away by the second key keeps links and values together, provided
/// that the link to the second key is a pending one: a link that lies
/// beneath cannot be found from its second key, and would stay.
pub proof fn lemma_remove_by_key2_keeps_symmetry<
    K1: KeyType,
    K2: KeyType,
    V: ValueType,
    X: DoubleKeyState<K1, K2, V>,
>(before: &X, after: &X, key2: K2::V)
    requires
        symmetric::<K1, K2, V, X>(before),
        before.same_beneath(after),
        forall|key1: K1::V| #[trigger]
            linked::<K1, K2, V, X>(before, key1, key2) ==> before.links().contains_key(key1),
        after.links() == without_links_to(before.links(), key2),
        after.values() == before.values().insert(key2, Operation::Delete),
    ensures
        symmetric::<K1, K2, V, X>(after),
        value_of::<K1, K2, V, X>(after, key2) == Ok::<Option<V::V>, Error>(None),
        forall|key1: K1::V| !linked::<K1, K2, V, X>(after, key1, key2),
{
    before.lemma_same_beneath(after);
    assert forall|a: K1::V, b: K2::V| #[trigger]
        linked::<K1, K2, V, X>(after, a, b) implies linked::<K1, K2, V, X>(before, a, b) && b
        != key2 by {
        if b == key2 && !before.links().contains_key(a) {
            assert(linked::<K1, K2, V, X>(before, a, key2));
        }
    }
    assert forall|a: K1::V, b: K2::V| #[trigger]
        linked::<K1, K2, V, X>(after, a, b) implies live::<K1, K2, V, X>(after, b) by {
        assert(linked::<K1, K2, V, X>(before, a, b));
        assert(live::<K1, K2, V, X>(before, b));
    }
    assert forall|b: K2::V| #[trigger] live::<K1, K2, V, X>(after, b) implies exists|a: K1::V|
        linked::<K1, K2, V, X>(after, a, b) by {
        assert(live::<K1, K2, V, X>(before, b));
        let a = choose|a: K1::V| linked::<K1, K2, V, X>(before, a, b);
        assert(linked::<K1, K2, V, X>(after, a, b));
    }
    assert forall|a: K1::V, c: K1::V, b: K2::V|
        #![trigger linked::<K1, K2, V, X>(after, a, b), linked::<K1, K2, V, X>(after, c, b)]
        linked::<K1, K2, V, X>(after, a, b) && linked::<K1, K2, V, X>(after, c, b) implies a
            == c by {
        assert(linked::<K1, K2, V, X>(before, a, b));
        assert(linked::<K1, K2, V, X>(before, c, b));
    }
}

/// Putting a value under a pair of keys keeps links and values together,
/// provided that the second key is not yet the second key of another first
/// key.
pub proof fn lemma_insert_keeps_symmetry<
    K1: KeyType,
    K2: KeyType,
    V: ValueType,
    X: DoubleKeyState<K1, K2, V>,
>(before: &X, after: &X, key1: K1::V, key2: K2::V, value: V::V)
    requires
        symmetric::<K1, K2, V, X>(before),
        before.same_beneath(after),
        link_of::<K1, K2, V, X>(before, key1) is Ok,
        forall|other: K1::V| #[trigger] linked::<K1, K2, V, X>(before, other, key2)
            ==> other == key1,
        after.links() == before.links().insert(key1, Operation::Update(key2)),
        after.values() == values_without::<K1, K2, V, X>(before, key1).insert(
            key2,
            Operation::Update(value),
        ),
    ensures
        symmetric::<K1, K2, V, X>(after),
        linked::<K1, K2, V, X>(after, key1, key2),
        value_of::<K1, K2, V, X>(after, key2) == Ok::<Option<V::V>, Error>(Some(value)),
{
    before.lemma_same_beneath(after);
    assert(linked::<K1, K2, V, X>(after, key1, key2));
    assert(live::<K1, K2, V, X>(after, key2));
    let was = link_of::<K1, K2, V, X>(before, key1)->Ok_0;
    if was is Some {
        assert(linked::<K1, K2, V, X>(before, key1, was->0));
    }
    assert forall|a: K1::V, b: K2::V| #[trigger]
        linked::<K1, K2, V, X>(after, a, b) implies live::<K1, K2, V, X>(after, b) by {
        if a != key1 {
            assert(linked::<K1, K2, V, X>(before, a, b));
            assert(live::<K1, K2, V, X>(before, b));
            if was is Some && b == was->0 {
                assert(linked::<K1, K2, V, X>(before, key1, b));
            }
        }
    }
    assert forall|b: K2::V| #[trigger] live::<K1, K2, V, X>(after, b) implies exists|a: K1::V|
        linked::<K1, K2, V, X>(after, a, b) by {
        if b != key2 {
            assert(live::<K1, K2, V, X>(before, b));
            let a = choose|a: K1::V| linked::<K1, K2, V, X>(before, a, b);
            assert(linked::<K1, K2, V, X>(after, a, b));
        }
    }
    assert forall|a: K1::V, c: K1::V, b: K2::V|
        #![trigger linked::<K1, K2, V, X>(after, a, b), linked::<K1, K2, V, X>(after, c, b)]
        linked::<K1, K2, V, X>(after, a, b) && linked::<K1, K2, V, X>(after, c, b) implies a
            == c by {
        if a != key1 {
            assert(linked::<K1, K2, V, X>(before, a, b));
        }
        if c != key1 {
            assert(linked::<K1, K2, V, X>(before, c, b));
        }
    }
}

/// A store of values that are reached by either of two keys.
/// Whether a read of the value under `key2` is settled without a refusal of
/// the store beneath: the store never refuses, or an edit of the value is
/// pending.
pub open spec fn value_settled<
    K1: KeyType,
    K2: KeyType,
    V: ValueType,
    X: DoubleKeyState<K1, K2, V>,
>(s: &X, key2: K2::V) -> bool {
    s.reliable() || s.values().contains_key(key2)
}

/// Whether a read of the link of `key1` is settled without a refusal of the
/// store beneath: the store never refuses, or an edit of the link is
/// pending.
pub open spec fn link_settled<
    K1: KeyType,
    K2: KeyType,
    V: ValueType,
    X: DoubleKeyState<K1, K2, V>,
>(s: &X, key1: K1::V) -> bool {
    s.reliable() || s.links().contains_key(key1)
}

/// Whether a read of what `key1` leads to is settled without a refusal of
/// the store beneath: the store never refuses, or an edit of the link is
/// pending and, where that links `key1` to a second key, an edit of the
/// value under that key is pending too.
pub open spec fn path_settled<
    K1: KeyType,
    K2: KeyType,
    V: ValueType,
    X: DoubleKeyState<K1, K2, V>,
>(s: &X, key1: K1::V) -> bool {
    s.reliable() || (s.links().contains_key(key1) && match s.links()[key1] {
        Operation::Update(key2) => s.values().contains_key(key2),
        Operation::Delete => true,
    })
}

/// Whether a read of what the pair of `key1` and `key2` leads to is settled
/// without a refusal of the store beneath: the store never refuses, or an
/// edit of the link is pending and, where that links `key1` to `key2`, an
/// edit of the value under `key2` is pending too.
pub open spec fn pair_settled<
    K1: KeyType,
    K2: KeyType,
    V: ValueType,
    X: DoubleKeyState<K1, K2, V>,
>(s: &X, key1: K1::V, key2: K2::V) -> bool {
    s.reliable() || (s.links().contains_key(key1) && (s.links()[key1] == Operation::Update(key2)
        ==> s.values().contains_key(key2)))
}

pub trait DoubleKeyMapStore<K1: KeyType, K2: KeyType, V: ValueType>: DoubleKeyState<K1, K2, V> {
    /// The value under the second key `key2`.
    fn get_key2(&self, key2: &K2) -> (r: Result<Option<Cow<'_, V>>, Error>)
        requires
            self.wf(),
        ensures
            r matches Ok(v) ==> value_of::<K1, K2, V, Self>(self, key2@) == Ok::<
                Option<V::V>,
                Error,
            >(cow_view(v)),
            value_of::<K1, K2, V, Self>(self, key2@) is Err ==> r is Err,
            value_settled::<K1, K2, V, Self>(self, key2@) ==> agrees(
                r,
                value_of::<K1, K2, V, Self>(self, key2@),
            ),
    ;

    /// The value under the second key `key2`, to be changed in place. A
    /// value that is read from beneath becomes a pending edit, so that a
    /// change to it is one.
    fn get_mut_key2(&mut self, key2: &K2) -> (r: Result<Option<&mut V>, Error>)
        requires
            old(self).wf(),
        ensures
            final(self).wf(),
            old(self).same_beneath(final(self)),
            final(self).links() == old(self).links(),
            match r {
                Ok(Some(v)) => value_of::<K1, K2, V, Self>(old(self), key2@) == Ok::<
                    Option<V::V>,
                    Error,
                >(Some((*v)@)) && final(self).values() == old(self).values().insert(
                    key2@,
                    Operation::Update((*final(v))@),
                ),
                Ok(None) => value_of::<K1, K2, V, Self>(old(self), key2@) == Ok::<
                    Option<V::V>,
                    Error,
                >(None) && final(self).values() == old(self).values(),
                Err(_) => final(self).values() == old(self).values(),
            },
            value_of::<K1, K2, V, Self>(old(self), key2@) is Err ==> r is Err,
            value_settled::<K1, K2, V, Self>(old(self), key2@) ==> agrees(
                r,
                value_of::<K1, K2, V, Self>(old(self), key2@),
            ),
    ;

    /// Links `key1` to `key2` and puts `value` under `key2`. What `key1`
    /// led to before is taken away first, and handed back.
    fn insert(&mut self, key1: K1, key2: K2, value: V) -> (r: Result<Option<V>, Error>)
        requires
            old(self).wf(),
        ensures
            final(self).wf(),
            old(self).same_beneath(final(self)),
            match r {
                Ok(v) => {
                    &&& value_by_key1::<K1, K2, V, Self>(old(self), key1@) == Ok::<
                        Option<V::V>,
                        Error,
                    >(opt_view(v))
                    &&& final(self).links() == old(self).links().insert(
                        key1@,
                        Operation::Update(key2@),
                    )
                    &&& final(self).values() == values_without::<K1, K2, V, Self>(
                        old(self),
                        key1@,
                    ).insert(key2@, Operation::Update(value@))
                },
                Err(_) => final(self).links() == old(self).links()
                    && final(self).values() == old(self).values(),
            },
            value_by_key1::<K1, K2, V, Self>(old(self), key1@) is Err ==> r is Err,
            path_settled::<K1, K2, V, Self>(old(self), key1@) ==> agrees(
                r,
                value_by_key1::<K1, K2, V, Self>(old(self), key1@),
            ),
    ;

    /// Takes away what `key1` leads to: leaves a tombstone for the link of
    /// `key1` and one for the value, and hands the value back. A key that is
    /// not linked changes nothing.
    fn remove_by_key1(&mut self, key1: &K1) -> (r: Result<Option<V>, Error>)
        requires
            old(self).wf(),
        ensures
            final(self).wf(),
            old(self).same_beneath(final(self)),
            match r {
                Ok(v) => {
                    &&& value_by_key1::<K1, K2, V, Self>(old(self), key1@) == Ok::<
                        Option<V::V>,
                        Error,
                    >(opt_view(v))
                    &&& final(self).links() == links_without::<K1, K2, V, Self>(old(self), key1@)
                    &&& final(self).values() == values_without::<K1, K2, V, Self>(
                        old(self),
                        key1@,
                    )
                },
                Err(_) => final(self).links() == old(self).links()
                    && final(self).values() == old(self).values(),
            },
            value_by_key1::<K1, K2, V, Self>(old(self), key1@) is Err ==> r is Err,
            path_settled::<K1, K2, V, Self>(old(self), key1@) ==> agrees(
                r,
                value_by_key1::<K1, K2, V, Self>(old(self), key1@),
            ),
    ;

    /// Takes away the value under `key2`: leaves a tombstone for it and for
    /// every pending link that leads to it, and hands the value back. A key
    /// without a value changes nothing.
    fn remove_by_key2(&mut self, key2: &K2) -> (r: Result<Option<V>, Error>)
        requires
            old(self).wf(),
        ensures
            final(self).wf(),
            old(self).same_beneath(final(self)),
            match r {
                Ok(Some(v)) => {
                    &&& value_of::<K1, K2, V, Self>(old(self), key2@) == Ok::<
                        Option<V::V>,
                        Error,
                    >(Some(v@))
                    &&& final(self).links() == without_links_to(old(self).links(), key2@)
                    &&& final(self).values() == old(self).values().insert(
                        key2@,
                        Operation::Delete,
                    )
                },
                Ok(None) => {
                    &&& value_of::<K1, K2, V, Self>(old(self), key2@) == Ok::<
                        Option<V::V>,
                        Error,
                    >(None)
                    &&& final(self).links() == old(self).links()
                    &&& final(self).values() == old(self).values()
                },
                Err(_) => final(self).links() == old(self).links()
                    && final(self).values() == old(self).values(),
            },
            value_of::<K1, K2, V, Self>(old(self), key2@) is Err ==> r is Err,
            value_settled::<K1, K2, V, Self>(old(self), key2@) ==> agrees(
                r,
                value_of::<K1, K2, V, Self>(old(self), key2@),
            ),
    ;

    /// The second key that `key1` is linked to.
    fn key1_to_key2(&self, key1: &K1) -> (r: Result<Option<Cow<'_, K2>>, Error>)
        requires
            self.wf(),
        ensures
            r matches Ok(k) ==> link_of::<K1, K2, V, Self>(self, key1@) == Ok::<
                Option<K2::V>,
                Error,
            >(cow_view(k)),
            link_of::<K1, K2, V, Self>(self, key1@) is Err ==> r is Err,
            link_settled::<K1, K2, V, Self>(self, key1@) ==> agrees(
                r,
                link_of::<K1, K2, V, Self>(self, key1@),
            ),
    ;

    /// The value that `key1` leads to.
    fn get_key1(&self, key1: &K1) -> (r: Result<Option<Cow<'_, V>>, Error>)
        requires
            self.wf(),
        ensures
            r matches Ok(v) ==> value_by_key1::<K1, K2, V, Self>(self, key1@) == Ok::<
                Option<V::V>,
                Error,
            >(cow_view(v)),
            value_by_key1::<K1, K2, V, Self>(self, key1@) is Err ==> r is Err,
            path_settled::<K1, K2, V, Self>(self, key1@) ==> agrees(
                r,
                value_by_key1::<K1, K2, V, Self>(self, key1@),
            ),
    {
        match self.key1_to_key2(key1)? {
            Some(key2) => self.get_key2(key2.as_ref()),
            None => Ok(None),
        }
    }

    /// The value that `key1` leads to, to be changed in place.
    fn get_mut_key1(&mut self, key1: &K1) -> (r: Result<Option<&mut V>, Error>)
        requires
            old(self).wf(),
        ensures
            final(self).wf(),
            old(self).same_beneath(final(self)),
            final(self).links() == old(self).links(),
            match r {
                Ok(Some(v)) => {
                    &&& link_of::<K1, K2, V, Self>(old(self), key1@) matches Ok(Some(key2))
                    &&& value_of::<K1, K2, V, Self>(old(self), key2) == Ok::<Option<V::V>, Error>(
                        Some((*v)@),
                    )
                    &&& final(self).values() == old(self).values().insert(
                        key2,
                        Operation::Update((*final(v))@),
                    )
                },
                Ok(None) => value_by_key1::<K1, K2, V, Self>(old(self), key1@) == Ok::<
                    Option<V::V>,
                    Error,
                >(None) && final(self).values() == old(self).values(),
                Err(_) => final(self).values() == old(self).values(),
            },
            value_by_key1::<K1, K2, V, Self>(old(self), key1@) is Err ==> r is Err,
            path_settled::<K1, K2, V, Self>(old(self), key1@) ==> agrees(
                r,
                value_by_key1::<K1, K2, V, Self>(old(self), key1@),
            ),
    {
        proof {
            self.lemma_same_beneath_reflexive();
        }
        let key2 = match self.key1_to_key2(key1) {
            Ok(found) => match found {
                Some(key2) => into_owned(key2),
                None => {
                    return Ok(None);
                },
            },
            Err(e) => {
                return Err(e);
            },
        };
        self.get_mut_key2(&key2)
    }

    /// The value under `key2`, provided that `key1` is linked to it.
    fn get(&self, key1: &K1, key2: &K2) -> (r: Result<Option<Cow<'_, V>>, Error>)
        requires
            self.wf(),
        ensures
            r matches Ok(v) ==> value_by_pair::<K1, K2, V, Self>(self, key1@, key2@) == Ok::<
                Option<V::V>,
                Error,
            >(cow_view(v)),
            value_by_pair::<K1, K2, V, Self>(self, key1@, key2@) is Err ==> r is Err,
            pair_settled::<K1, K2, V, Self>(self, key1@, key2@) ==> agrees(
                r,
                value_by_pair::<K1, K2, V, Self>(self, key1@, key2@),
            ),
    {
        let linked = match self.key1_to_key2(key1)? {
            Some(k) => key_eq(key2, k.as_ref()),
            None => false,
        };
        if !linked {
            return Ok(None);
        }
        self.get_key2(key2)
    }

    /// The value under `key2`, to be changed in place, provided that `key1`
    /// is linked to it.
    fn get_mut(&mut self, key1: &K1, key2: &K2) -> (r: Result<Option<&mut V>, Error>)
        requires
            old(self).wf(),
        ensures
            final(self).wf(),
            old(self).same_beneath(final(self)),
            final(self).links() == old(self).links(),
            match r {
                Ok(Some(v)) => value_by_pair::<K1, K2, V, Self>(old(self), key1@, key2@) == Ok::<
                    Option<V::V>,
                    Error,
                >(Some((*v)@)) && final(self).values() == old(self).values().insert(
                    key2@,
                    Operation::Update((*final(v))@),
                ),
                Ok(None) => value_by_pair::<K1, K2, V, Self>(old(self), key1@, key2@) == Ok::<
                    Option<V::V>,
                    Error,
                >(None) && final(self).values() == old(self).values(),
                Err(_) => final(self).values() == old(self).values(),
            },
            value_by_pair::<K1, K2, V, Self>(old(self), key1@, key2@) is Err ==> r is Err,
            pair_settled::<K1, K2, V, Self>(old(self), key1@, key2@) ==> agrees(
                r,
                value_by_pair::<K1, K2, V, Self>(old(self), key1@, key2@),
            ),
    {
        proof {
            self.lemma_same_beneath_reflexive();
        }
        let linked = match self.key1_to_key2(key1) {
            Ok(found) => match found {
                Some(k) => key_eq(key2, k.as_ref()),
                None => false,
            },
            Err(e) => {
                return Err(e);
            },
        };
        if !linked {
            return Ok(None);
        }
        self.get_mut_key2(key2)
    }

    /// Takes away what `key1` leads to, provided that it is linked to
    /// `key2`.
    fn remove(&mut self, key1: &K1, key2: &K2) -> (r: Result<Option<V>, Error>)
        requires
            old(self).wf(),
        ensures
            final(self).wf(),
            old(self).same_beneath(final(self)),
            match r {
                Ok(v) => {
                    &&& value_by_pair::<K1, K2, V, Self>(old(self), key1@, key2@) == Ok::<
                        Option<V::V>,
                        Error,
                    >(opt_view(v))
                    &&& link_of::<K1, K2, V, Self>(old(self), key1@) matches Ok(linked)
                    &&& if linked == Some(key2@) {
                        &&& final(self).links() == old(self).links().insert(
                            key1@,
                            Operation::Delete,
                        )
                        &&& final(self).values() == old(self).values().insert(
                            key2@,
                            Operation::Delete,
                        )
                    } else {
                        &&& final(self).links() == old(self).links()
                        &&& final(self).values() == old(self).values()
                    }
                },
                Err(_) => final(self).links() == old(self).links()
                    && final(self).values() == old(self).values(),
            },
            value_by_pair::<K1, K2, V, Self>(old(self), key1@, key2@) is Err ==> r is Err,
            pair_settled::<K1, K2, V, Self>(old(self), key1@, key2@) ==> agrees(
                r,
                value_by_pair::<K1, K2, V, Self>(old(self), key1@, key2@),
            ),
    {
        proof {
            self.lemma_same_beneath_reflexive();
        }
        let linked = match self.key1_to_key2(key1) {
            Ok(found) => match found {
                Some(k) => key_eq(key2, k.as_ref()),
                None => false,
            },
            Err(e) => {
                return Err(e);
            },
        };
        if !linked {
            return Ok(None);
        }
        self.remove_by_key1(key1)
    }
}

/// A logical key: `prefix`, then the bytes of `key`.
fn prefixed_key<K: KeyType>(prefix: u8, key: &K) -> (r: Result<Vec<u8>, Error>)
    ensures
        r matches Ok(b) && b@ == seq![prefix] + K::encode(key@),
        K::valid(key@),
{
    let bytes = key.to_bytes()?;
    let mut out: Vec<u8> = Vec::new();
    out.push(prefix);
    out.extend_from_slice(bytes.as_slice());
    assert(out@ =~= seq![prefix] + K::encode(key@));
    Ok(out)
}

impl<S: Store, M: Merkle, K1: KeyType, K2: KeyType, V: ValueType> SnapshotableStorage<
    S,
    M,
    DoubleKeyMap<K1, K2, V>,
> {
    /// The persisted value under `key2`, at the current height.
    pub open spec fn persisted_value(&self, key2: K2::V) -> Result<Option<V::V>, Error> {
        read_value::<V>(
            record_at(
                self.contents(),
                self.scope(),
                seq![VALUE_PREFIX] + K2::encode(key2),
                self.height as int,
            ),
        )
    }

    /// The persisted link of `key1`, at the current height.
    pub open spec fn persisted_link(&self, key1: K1::V) -> Result<Option<K2::V>, Error> {
        read_value::<K2>(
            record_at(
                self.contents(),
                self.scope(),
                seq![LINK_PREFIX] + K1::encode(key1),
                self.height as int,
            ),
        )
    }

    fn get_value_inner(&self, key2: &K2) -> (r: Result<Option<V>, Error>)
        requires
            SnapshotableStorage::wf(self),
        ensures
            r matches Ok(v) ==> self.persisted_value(key2@) == Ok::<Option<V::V>, Error>(
                opt_view(v),
            ),
            self.persisted_value(key2@) is Err ==> r is Err,
            self.store.reliable() ==> agrees(r, self.persisted_value(key2@)),
    {
        let key_bytes = prefixed_key(VALUE_PREFIX, key2)?;
        let store_key = self.storage_tuple_key(&key_bytes);
        get_greatest(&self.store, store_key.0.as_slice(), store_key.1.as_slice())
    }

    fn get_key2_inner(&self, key1: &K1) -> (r: Result<Option<K2>, Error>)
        requires
            SnapshotableStorage::wf(self),
        ensures
            r matches Ok(v) ==> self.persisted_link(key1@) == Ok::<Option<K2::V>, Error>(
                opt_view(v),
            ),
            self.persisted_link(key1@) is Err ==> r is Err,
            self.store.reliable() ==> agrees(r, self.persisted_link(key1@)),
    {
        let key_bytes = prefixed_key(LINK_PREFIX, key1)?;
        let store_key = self.storage_tuple_key(&key_bytes);
        get_greatest(&self.store, store_key.0.as_slice(), store_key.1.as_slice())
    }
}

impl<S: Store, M: Merkle, K1: KeyType, K2: KeyType, V: ValueType> DoubleKeyState<
    K1,
    K2,
    V,
> for SnapshotableStorage<S, M, DoubleKeyMap<K1, K2, V>> {
    open spec fn wf(&self) -> bool {
        SnapshotableStorage::wf(self)
    }

    open spec fn links(&self) -> Map<K1::V, Operation<K2::V>> {
        self.value.links()
    }

    open spec fn values(&self) -> Map<K2::V, Operation<V::V>> {
        self.value.values()
    }

    open spec fn beneath_link(&self, key1: K1::V) -> Result<Option<K2::V>, Error> {
        self.persisted_link(key1)
    }

    open spec fn beneath_value(&self, key2: K2::V) -> Result<Option<V::V>, Error> {
        self.persisted_value(key2)
    }

    open spec fn same_beneath(&self, other: &Self) -> bool {
        &&& other.store == self.store
        &&& other.height == self.height
        &&& other.namespace == self.namespace
        &&& other.merkle == self.merkle
    }

    open spec fn reliable(&self) -> bool {
        self.store.reliable()
    }

    proof fn lemma_same_beneath_reflexive(&self) {
    }

    proof fn lemma_same_beneath(&self, other: &Self) {
    }
}

impl<S: Store, M: Merkle, K1: KeyType, K2: KeyType, V: ValueType> DoubleKeyMapStore<
    K1,
    K2,
    V,
> for SnapshotableStorage<S, M, DoubleKeyMap<K1, K2, V>> {
    fn get_key2(&self, key2: &K2) -> (r: Result<Option<Cow<'_, V>>, Error>) {
        match self.value.get_value(key2) {
            Some(op) => match op {
                Operation::Update(v) => Ok(Some(Cow::Borrowed(v))),
                Operation::Delete => Ok(None),
            },
            None => match self.get_value_inner(key2)? {
                Some(v) => Ok(Some(Cow::Owned(v))),
                None => Ok(None),
            },
        }
    }

    fn get_mut_key2(&mut self, key2: &K2) -> (r: Result<Option<&mut V>, Error>) {
        if !self.value.contains_opertaion(key2) {
            match self.get_value_inner(key2)? {
                Some(v) => {
                    self.value.insert_operation(key2.duplicate(), Operation::Update(v));
                },
                None => {
                    return Ok(None);
                },
            }
        }
        let ghost before = self.value.values();
        match self.value.get_mut_value(key2) {
            Some(op) => {
                proof {
                    assert(before.insert(key2@, before[key2@]) =~= before);
                    assert(old(self).values().insert(key2@, before[key2@]).insert(
                        key2@,
                        (*final(op))@,
                    ) =~= old(self).values().insert(key2@, (*final(op))@));
                }
                Ok(operation_mut(op))
            },
            None => Ok(None),
        }
    }

    fn insert(&mut self, key1: K1, key2: K2, value: V) -> (r: Result<Option<V>, Error>) {
        let v_old = self.remove_by_key1(&key1)?;
        let ghost cleared = self.value.links();
        self.value.insert_operation(key2.duplicate(), Operation::Update(value));
        self.value.insert_operation_key2(key1, Operation::Update(key2));
        proof {
            assert(cleared.insert(key1@, Operation::Update(key2@)) =~= old(self).links().insert(
                key1@,
                Operation::Update(key2@),
            ));
        }
        Ok(v_old)
    }

    fn remove_by_key1(&mut self, key1: &K1) -> (r: Result<Option<V>, Error>) {
        let key2: K2 = match self.key1_to_key2(key1) {
            Ok(found) => match found {
                Some(c) => into_owned(c),
                None => {
                    return Ok(None);
                },
            },
            Err(e) => {
                return Err(e);
            },
        };
        let hidden: Option<V> = match self.get_key2(&key2) {
            Ok(found) => match found {
                Some(c) => Some(into_owned(c)),
                None => None,
            },
            Err(e) => {
                return Err(e);
            },
        };
        self.value.insert_operation(key2, Operation::Delete);
        self.value.insert_operation_key2(key1.duplicate(), Operation::Delete);
        Ok(hidden)
    }

    fn remove_by_key2(&mut self, key2: &K2) -> (r: Result<Option<V>, Error>) {
        let hidden: V = match self.get_key2(key2) {
            Ok(found) => match found {
                Some(c) => into_owned(c),
                None => {
                    return Ok(None);
                },
            },
            Err(e) => {
                return Err(e);
            },
        };
        self.value.unlink(key2);
        self.value.insert_operation(key2.duplicate(), Operation::Delete);
        Ok(Some(hidden))
    }

    fn key1_to_key2(&self, key1: &K1) -> (r: Result<Option<Cow<'_, K2>>, Error>) {
        match self.value.get_key2(key1) {
            Some(op) => match op {
                Operation::Update(key2) => Ok(Some(Cow::Borrowed(key2))),
                Operation::Delete => Ok(None),
            },
            None => match self.get_key2_inner(key1)? {
                Some(k) => Ok(Some(Cow::Owned(k))),
                None => Ok(None),
            },
        }
    }
}

} // verus!

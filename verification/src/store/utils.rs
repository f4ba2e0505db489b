//! What the typed stores share: how a record is read as a value, and how a
//! cache is laid over what lies beneath it.

use crate::backend::store::{greatest_in, Store};
use crate::cow_lite::Cow;
use crate::error::Error;
use crate::model::ValueType;
use crate::operation::{outcome, Operation};
use crate::snapshot::value::{decode_operation_record, parse_operation_record};
use vstd::prelude::*;

verus! {

/// The value that a record stands for. No record and a tombstone stand for
/// no value. A record that is none, or whose payload is no value, is an
/// error and never stands for "no value".
pub open spec fn read_value<T: ValueType>(record: Option<Seq<u8>>) -> Result<Option<T::V>, Error> {
    match record {
        None => Ok(None),
        Some(bytes) => match parse_operation_record(bytes) {
            Err(e) => Err(e),
            Ok(Operation::Delete) => Ok(None),
            Ok(Operation::Update(payload)) => match T::decode(payload) {
                Some(v) => Ok(Some(v)),
                None => Err(Error::CborDeIoError),
            },
        },
    }
}

/// What a read gives where `cached` is the pending edit, if there is one,
/// and `beneath` is what a read gives without the cache: an edit decides,
/// and only without one is `beneath` looked at.
pub open spec fn resolve<A>(
    cached: Option<Operation<A>>,
    beneath: Result<Option<A>, Error>,
) -> Result<Option<A>, Error> {
    match cached {
        Some(op) => Ok(outcome(op)),
        None => beneath,
    }
}

/// Whether `r` succeeds where `expected` does, and fails with the error of
/// `expected` where that fails.
pub open spec fn agrees<A, B>(r: Result<A, Error>, expected: Result<B, Error>) -> bool {
    match expected {
        Ok(_) => r is Ok,
        Err(e) => r matches Err(x) && x == e,
    }
}

/// The edit of `key` in `pending`, if there is one.
pub open spec fn cached<K, A>(pending: Map<K, Operation<A>>, key: K) -> Option<Operation<A>> {
    if pending.contains_key(key) {
        Some(pending[key])
    } else {
        None
    }
}

/// The view of a value that may be borrowed.
pub open spec fn cow_view<T: View>(v: Option<Cow<'_, T>>) -> Option<T::V> {
    match v {
        Some(c) => Some(c.value()@),
        None => None,
    }
}

/// The view of an optional value.
pub open spec fn opt_view<T: View>(v: Option<T>) -> Option<T::V> {
    match v {
        Some(t) => Some(t@),
        None => None,
    }
}

/// The value of `c`, copied where it was borrowed.
pub fn into_owned<T: ValueType>(c: Cow<'_, T>) -> (r: T)
    ensures
        r@ == c.value()@,
{
    match c {
        Cow::Owned(v) => v,
        Cow::Borrowed(v) => v.duplicate(),
    }
}

/// The value of an update, to be changed in place.
pub fn operation_mut<T>(op: &mut Operation<T>) -> (r: Option<&mut T>)
    ensures
        match *old(op) {
            Operation::Update(v) => r matches Some(t) && *t == v && *final(op)
                == Operation::Update(*final(t)),
            Operation::Delete => r is None && *final(op) == *old(op),
        },
{
    match op {
        Operation::Update(v) => Some(v),
        Operation::Delete => None,
    }
}

/// Reads the value under the greatest key between `from` and `to`, both
/// included.
pub fn get_greatest<S: Store, V: ValueType>(store: &S, from: &[u8], to: &[u8]) -> (r: Result<
    Option<V>,
    Error,
>)
    requires
        store.wf(),
    ensures
        r matches Ok(v) ==> read_value::<V>(greatest_in(store.contents(), from@, to@)) == Ok::<
            Option<V::V>,
            Error,
        >(opt_view(v)),
        read_value::<V>(greatest_in(store.contents(), from@, to@)) is Err ==> r is Err,
        store.reliable() ==> agrees(r, read_value::<V>(greatest_in(store.contents(), from@, to@))),
{
    match store.get_in(from, to)? {
        Some(bytes) => {
            let operation = decode_operation_record(bytes.as_ref().as_slice())?;
            match operation {
                Operation::Update(payload) => {
                    let value = V::from_bytes(payload.as_slice())?;
                    Ok(Some(value))
                },
                Operation::Delete => Ok(None),
            }
        },
        None => Ok(None),
    }
}

} // verus!

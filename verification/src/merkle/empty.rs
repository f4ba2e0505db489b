//! The accumulator that accumulates nothing.

use crate::backend::store::Store;
use crate::error::Error;
use crate::merkle::hash::{zero_bytes, zero_hash, Hasher};
use crate::merkle::Merkle;
use crate::operation::{Operation, OperationBytes};
use core::marker::PhantomData;
use vstd::prelude::*;

verus! {

/// For a storage that wants no integrity hashing: nothing is written, and
/// the root is always the zero hash.
pub struct EmptyMerkle<D> {
    marker: PhantomData<D>,
}

impl<D: Hasher> Default for EmptyMerkle<D> {
    fn default() -> (r: Self) {
        Self { marker: PhantomData }
    }
}

impl<D: Hasher> Merkle for EmptyMerkle<D> {
    type Digest = D;

    open spec fn owns(&self, key: Seq<u8>) -> bool {
        false
    }

    open spec fn follows(&self, height: i64) -> bool {
        true
    }

    open spec fn refusal(&self, store: Map<Seq<u8>, Seq<u8>>) -> Option<Error> {
        None
    }

    open spec fn uses_store(&self) -> bool {
        false
    }

    proof fn lemma_inserted_frame(
        before: &Self,
        store: Map<Seq<u8>, Seq<u8>>,
        batch: Seq<(Seq<u8>, Operation<Seq<u8>>)>,
        after: &Self,
        written: Map<Seq<u8>, Seq<u8>>,
        key: Seq<u8>,
    ) {
    }

    open spec fn inserted(
        before: &Self,
        store: Map<Seq<u8>, Seq<u8>>,
        batch: Seq<(Seq<u8>, Operation<Seq<u8>>)>,
        after: &Self,
        written: Map<Seq<u8>, Seq<u8>>,
    ) -> bool {
        written == store
    }

    open spec fn spec_root(&self, store: Map<Seq<u8>, Seq<u8>>) -> Result<Seq<u8>, Error> {
        Ok(zero_hash::<D>())
    }

    fn new(_namespace: &str, _height: i64) -> (r: Self) {
        Self { marker: PhantomData }
    }

    fn rollback(&mut self, _target_height: i64) -> (r: Result<(), Error>)
        ensures
            r is Ok,
            *final(self) == *old(self),
    {
        Ok(())
    }

    fn insert<S: Store>(&mut self, _store: &mut S, _batch: &[(Vec<u8>, OperationBytes)]) -> (r:
        Result<(), Error>)
        ensures
            r is Ok,
            *final(self) == *old(self),
            final(_store).contents() == old(_store).contents(),
    {
        Ok(())
    }

    fn root<S: Store>(&self, _store: &S) -> (r: Result<Vec<u8>, Error>)
        ensures
            r matches Ok(hash) && hash@ == zero_hash::<D>(),
    {
        Ok(zero_bytes(D::output_size()))
    }
}

} // verus!

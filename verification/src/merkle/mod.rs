//! The accumulator that folds every committed batch into a root hash.

pub mod append_only;
pub mod empty;
pub mod hash;
pub mod value;

use crate::backend::store::{lookup, Store};
use crate::error::Error;
use crate::model::model::pairs_view;
use crate::operation::{Operation, OperationBytes};
use crate::snapshot::utils::spec_merkle_key;
use crate::store::utils::agrees;
use vstd::prelude::*;
use vstd::utf8::encode_utf8;

pub use append_only::AppendOnlyMerkle;
pub use empty::EmptyMerkle;
pub use hash::{Hasher, Sha3_256, Sha3_512};

verus! {

/// Whether `key` is the key of a Merkle record of `namespace`.
pub open spec fn is_merkle_key(namespace: Seq<u8>, key: Seq<u8>) -> bool {
    exists|height: int| key == #[trigger] spec_merkle_key(namespace, height)
}

/// An accumulator over the committed batches of one namespace.
pub trait Merkle: Sized {
    type Digest: Hasher;

    /// Whether the accumulator may write under `key`.
    spec fn owns(&self, key: Seq<u8>) -> bool;

    /// The error with which the accumulator refuses a batch on grounds of
    /// its own, over a store with the contents `store`; none where it has no
    /// such grounds.
    spec fn refusal(&self, store: Map<Seq<u8>, Seq<u8>>) -> Option<Error>;

    /// Whether the accumulator calls the store at all, so that a refusal of
    /// the store can make it fail.
    spec fn uses_store(&self) -> bool;

    /// Whether the accumulator has seen as many batches as `height` says.
    spec fn follows(&self, height: i64) -> bool;

    /// Whether folding `batch` into `before`, over a store with the contents
    /// `store`, gives `after` and the contents `written`.
    spec fn inserted(
        before: &Self,
        store: Map<Seq<u8>, Seq<u8>>,
        batch: Seq<(Seq<u8>, Operation<Seq<u8>>)>,
        after: &Self,
        written: Map<Seq<u8>, Seq<u8>>,
    ) -> bool;

    /// The root that the accumulator reads from a store with the contents
    /// `store`, or why it reads none.
    spec fn spec_root(&self, store: Map<Seq<u8>, Seq<u8>>) -> Result<Seq<u8>, Error>;

    /// An accumulator for `namespace` that has seen `height` batches.
    fn new(namespace: &str, height: i64) -> (r: Self)
        ensures
            r.follows(height),
            forall|key: Seq<u8>| #[trigger] r.owns(key)
                ==> is_merkle_key(encode_utf8(namespace@), key),
    ;

    /// Goes back to the state after `target_height` batches. An accumulator
    /// that is at or above that height does so.
    fn rollback(&mut self, target_height: i64) -> (r: Result<(), Error>)
        ensures
            forall|key: Seq<u8>| #[trigger] final(self).owns(key) == old(self).owns(key),
            r is Err ==> *final(self) == *old(self),
            r is Ok ==> final(self).follows(target_height),
            forall|height: i64|
                #[trigger] old(self).follows(height) && target_height <= height ==> r is Ok,
    ;

    /// Folds `batch` into the root and persists the new state. Only keys that
    /// the accumulator owns are written, and none where it fails.
    fn insert<S: Store>(&mut self, store: &mut S, batch: &[(Vec<u8>, OperationBytes)]) -> (r:
        Result<(), Error>)
        requires
            old(store).wf(),
        ensures
            final(store).wf(),
            final(store).reliable() == old(store).reliable(),
            old(self).refusal(old(store).contents()) is Some ==> r is Err,
            old(store).reliable() || !old(self).uses_store() ==> match old(self).refusal(
                old(store).contents(),
            ) {
                Some(e) => r == Err::<(), Error>(e),
                None => r is Ok,
            },
            forall|key: Seq<u8>| #[trigger] final(self).owns(key) == old(self).owns(key),
            forall|key: Seq<u8>|
                !old(self).owns(key) ==> #[trigger] lookup(final(store).contents(), key) == lookup(
                    old(store).contents(),
                    key,
                ),
            r is Err
                ==> *final(self) == *old(self) && final(store).contents() == old(store).contents(),
            r is Ok ==> Self::inserted(
                old(self),
                old(store).contents(),
                pairs_view(batch@),
                final(self),
                final(store).contents(),
            ),
            forall|height: i64|
                #[trigger] old(self).follows(height) && height < i64::MAX && r is Ok
                    ==> final(self).follows((height + 1) as i64),
    ;

    /// The current root.
    fn root<S: Store>(&self, store: &S) -> (r: Result<Vec<u8>, Error>)
        requires
            store.wf(),
        ensures
            r matches Ok(hash) ==> self.spec_root(store.contents()) == Ok::<Seq<u8>, Error>(hash@),
            self.spec_root(store.contents()) is Err ==> r is Err,
            store.reliable() || !self.uses_store() ==> agrees(
                r,
                self.spec_root(store.contents()),
            ),
    ;

    /// What the accumulator writes lies under keys that it owns.
    proof fn lemma_inserted_frame(
        before: &Self,
        store: Map<Seq<u8>, Seq<u8>>,
        batch: Seq<(Seq<u8>, Operation<Seq<u8>>)>,
        after: &Self,
        written: Map<Seq<u8>, Seq<u8>>,
        key: Seq<u8>,
    )
        requires
            Self::inserted(before, store, batch, after, written),
            !before.owns(key),
        ensures
            lookup(written, key) == lookup(store, key),
    ;
}

} // verus!

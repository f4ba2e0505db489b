//! What every cache of pending edits offers to the storage that owns it.

use crate::error::Error;
use crate::operation::{Operation, OperationBytes};
use vstd::prelude::*;

verus! {

/// A batch of edits as pairs of a logical key and an operation, both as
/// bytes.
pub open spec fn pairs_view(ops: Seq<(Vec<u8>, OperationBytes)>) -> Seq<
    (Seq<u8>, Operation<Seq<u8>>),
> {
    Seq::new(ops.len(), |i: int| (ops[i].0@, ops[i].1@))
}

/// A cache of pending edits.
pub trait Model: Sized {
    /// What the cache keeps true of itself.
    spec fn wf(&self) -> bool;

    /// The pending edits as they are written at the next commit: each
    /// logical key with its operation, in the order of the batch.
    spec fn pending(&self) -> Seq<(Seq<u8>, Operation<Seq<u8>>)>;

    /// Whether the cache holds nothing.
    spec fn cleared(&self) -> bool;

    /// The tag that marks a namespace as owned by this kind of model.
    spec fn spec_type_code() -> u32;

    /// Whether every key and value of a pending edit is the view of a value
    /// of its type, so that the bytes it is written as stand for it.
    spec fn encodable(&self) -> bool;

    /// Whether `other` can be merged into this cache.
    spec fn mergeable(&self, other: &Self) -> bool;

    /// Whether `after` is `before` with `other` merged into it.
    spec fn merged(before: &Self, other: &Self, after: &Self) -> bool;

    /// A cache that holds nothing.
    fn empty() -> (r: Self)
        ensures
            r.wf(),
            r.cleared(),
    ;

    /// The pending edits as bytes. The cache keeps them.
    fn pending_operations(&self) -> (r: Result<Vec<(Vec<u8>, OperationBytes)>, Error>)
        requires
            self.wf(),
        ensures
            r matches Ok(ops) && pairs_view(ops@) == self.pending(),
            self.encodable(),
    ;

    /// Forgets every pending edit.
    fn clear(&mut self)
        ensures
            final(self).wf(),
            final(self).cleared(),
    ;

    /// Drains the cache: hands out the pending edits as bytes and leaves the
    /// cache empty.
    fn operations(&mut self) -> (r: Result<Vec<(Vec<u8>, OperationBytes)>, Error>)
        requires
            old(self).wf(),
        ensures
            final(self).wf(),
            r matches Ok(ops) && pairs_view(ops@) == old(self).pending(),
            final(self).cleared(),
            old(self).encodable(),
    ;

    /// The tag that marks a namespace as owned by this kind of model.
    fn type_code(&self) -> (r: u32)
        ensures
            r == Self::spec_type_code(),
    ;

    /// Takes over the pending edits of `other`.
    fn merge(&mut self, other: Self)
        requires
            old(self).wf(),
            other.wf(),
            old(self).mergeable(&other),
        ensures
            final(self).wf(),
            Self::merged(old(self), &other, final(self)),
    ;
}

} // verus!

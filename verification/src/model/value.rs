//! The cache of a single value.

use crate::error::Error;
use crate::model::model::{pairs_view, Model};
use crate::model::ValueType;
use crate::operation::{encode_operation, valid_operation, Operation, OperationBytes};
use vstd::prelude::*;

verus! {

/// At most one pending edit: a new value, a tombstone, or nothing.
#[derive(Debug, Clone)]
pub struct Value<T> {
    pub value: Option<Operation<T>>,
}

impl<T: ValueType> View for Value<T> {
    type V = Option<Operation<T::V>>;

    open spec fn view(&self) -> Option<Operation<T::V>> {
        match self.value {
            Some(op) => Some(op@),
            None => None,
        }
    }
}

impl<T: ValueType> Value<T> {
    /// A cache whose pending edit is the value `t`.
    pub fn new(t: T) -> (r: Self)
        ensures
            r@ == Some(Operation::Update(t@)),
    {
        Self { value: Some(Operation::Update(t)) }
    }

    /// Makes `t` the pending value.
    pub fn store(&mut self, t: T)
        ensures
            final(self)@ == Some(Operation::Update(t@)),
    {
        self.value = Some(Operation::Update(t));
    }

    /// Hands out the pending edit and leaves none.
    pub fn take(&mut self) -> (r: Option<Operation<T>>)
        ensures
            r == old(self).value,
            final(self).value is None,
    {
        self.value.take()
    }

    /// Turns a pending edit into a tombstone and hands out what it was.
    /// Where nothing is pending, nothing changes.
    pub fn del(&mut self) -> (r: Option<Operation<T>>)
        ensures
            r == old(self).value,
            final(self)@ == if old(self).value is Some {
                Some(Operation::<T::V>::Delete)
            } else {
                None
            },
    {
        let res = self.take();
        if res.is_some() {
            self.value = Some(Operation::Delete);
        }
        res
    }

    /// Whether an edit is pending.
    pub fn is_some(&self) -> (r: bool)
        ensures
            r == self.value is Some,
    {
        self.value.is_some()
    }

    /// The pending edit.
    pub fn as_ref(&self) -> (r: Option<&Operation<T>>)
        ensures
            r is Some == self.value is Some,
            r matches Some(op) ==> *op == self.value->0,
    {
        self.value.as_ref()
    }

    /// The pending edit, to be changed in place.
    pub fn as_mut(&mut self) -> (r: Option<&mut Operation<T>>)
        ensures
            r is Some == old(self).value is Some,
            r matches Some(op) ==> *op == old(self).value->0 && final(self).value == Some(
                *final(op),
            ),
            r is None ==> final(self).value is None,
    {
        self.value.as_mut()
    }
}

impl<T: ValueType> Default for Value<T> {
    fn default() -> (r: Self)
        ensures
            r.value is None,
    {
        Self { value: None }
    }
}

impl<T: ValueType> Model for Value<T> {
    open spec fn wf(&self) -> bool {
        true
    }

    open spec fn pending(&self) -> Seq<(Seq<u8>, Operation<Seq<u8>>)> {
        match self@ {
            Some(op) => seq![(Seq::<u8>::empty(), encode_operation::<T>(op))],
            None => Seq::empty(),
        }
    }

    open spec fn cleared(&self) -> bool {
        self.value is None
    }

    open spec fn spec_type_code() -> u32 {
        1
    }

    open spec fn encodable(&self) -> bool {
        match self@ {
            Some(op) => valid_operation::<T>(op),
            None => true,
        }
    }

    open spec fn mergeable(&self, other: &Self) -> bool {
        true
    }

    /// The edit of `other` takes the place of the pending one; where `other`
    /// has none, the pending one stays.
    open spec fn merged(before: &Self, other: &Self, after: &Self) -> bool {
        after@ == if other.value is Some {
            other@
        } else {
            before@
        }
    }

    fn empty() -> (r: Self) {
        Self { value: None }
    }

    fn pending_operations(&self) -> (r: Result<Vec<(Vec<u8>, OperationBytes)>, Error>) {
        let mut out: Vec<(Vec<u8>, OperationBytes)> = Vec::new();
        match &self.value {
            Some(op) => {
                let bytes = op.to_bytes()?;
                let key: Vec<u8> = Vec::new();
                out.push((key, bytes));
                assert(pairs_view(out@) =~= self.pending());
            },
            None => {
                assert(pairs_view(out@) =~= self.pending());
            },
        }
        Ok(out)
    }

    fn clear(&mut self) {
        self.value = None;
    }

    fn operations(&mut self) -> (r: Result<Vec<(Vec<u8>, OperationBytes)>, Error>) {
        let ops = self.pending_operations()?;
        self.clear();
        Ok(ops)
    }

    fn type_code(&self) -> (r: u32) {
        1
    }

    fn merge(&mut self, other: Self) {
        if other.value.is_some() {
            self.value = other.value;
        }
    }
}

} // verus!

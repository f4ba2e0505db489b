//! A value that is either held or borrowed.

use vstd::prelude::*;

verus! {

/// Either a value of its own or a reference to one that lives elsewhere.
/// Reads that are answered from a cache borrow; reads that had to decode
/// persisted bytes own what they return.
#[derive(Debug, PartialEq)]
pub enum Cow<'a, T> {
    Owned(T),
    Borrowed(&'a T),
}

impl<'a, T> Cow<'a, T> {
    /// The value, wherever it lives.
    pub open spec fn value(self) -> T {
        match self {
            Cow::Owned(v) => v,
            Cow::Borrowed(v) => *v,
        }
    }

    pub fn as_ref(&self) -> (r: &T)
        ensures
            *r == self.value(),
    {
        match self {
            Cow::Owned(t) => t,
            Cow::Borrowed(t) => *t,
        }
    }
}

impl<'a, T> core::ops::Deref for Cow<'a, T> {
    type Target = T;

    fn deref(&self) -> (r: &T)
        ensures
            *r == self.value(),
    {
        match self {
            Cow::Owned(v) => v,
            Cow::Borrowed(v) => *v,
        }
    }
}

pub type CowBytes<'a> = Cow<'a, Vec<u8>>;

} // verus!

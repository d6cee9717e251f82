use std::marker::PhantomData;
use vstd::prelude::*;

verus! {

/// Marker for objects that live in the garbage-collected heap.
pub trait GcTrace {}

/// An opaque, copyable reference to a heap object: an index into the heap,
/// tagged with the type of the object it refers to.
#[derive(Debug, PartialEq, Eq)]
pub struct GcRef<T: GcTrace> {
    idx: usize,
    _marker: PhantomData<T>,
}

impl<T: GcTrace> Copy for GcRef<T> {}

impl<T: GcTrace> Clone for GcRef<T> {
    fn clone(&self) -> (r: Self)
        ensures
            r == *self,
    {
        *self
    }
}

impl<T: GcTrace> GcRef<T> {
    /// The heap slot this reference designates.
    pub closed spec fn spec_index(self) -> nat {
        self.idx as nat
    }

    pub fn new(idx: usize) -> (r: Self)
        ensures
            r.spec_index() == idx,
    {
        GcRef { idx, _marker: PhantomData }
    }

    pub fn index(&self) -> (r: usize)
        ensures
            r == self.spec_index(),
    {
        self.idx
    }
}

/// The heap object behind a string value.
#[derive(Debug, PartialEq, Eq)]
pub struct ObjString {
    pub chars: String,
}

impl GcTrace for ObjString {}

} // verus!

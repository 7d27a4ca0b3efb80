use vstd::prelude::*;

use core::mem::MaybeUninit;

use crate::chunk::footer::REFCOUNT_MAX;
use crate::ptr::{Ptr, Ref, RefMut};
use crate::Arena;

verus! {

/// The owner of a value in the arena. It holds one reference on its chunk;
/// giving it back ends the value's life.
pub struct Boxed<T> {
    pub inner: RefMut<T>,
}

impl<T> Boxed<T> {
    pub open spec fn ptr(&self) -> Ptr<T> {
        self.inner.ptr
    }

    pub open spec fn value(&self) -> T {
        self.inner.value
    }

    /// Wraps a pointer that already carries its reference.
    pub fn from_ptr(ptr: Ptr<T>, value: T) -> (r: Self)
        ensures
            r.ptr() == ptr,
            r.value() == value,
    {
        Boxed { inner: RefMut::from_ptr(ptr, value) }
    }

    /// Wraps a pointer and takes a reference on its chunk.
    pub fn new(ptr: Ptr<T>, value: T, arena: &mut Arena) -> (r: Self)
        requires
            old(arena).wf(),
            old(arena).holds(ptr.chunk),
            old(arena).spec_footer(ptr.chunk).spec_refs() < REFCOUNT_MAX,
            !old(arena).spec_footer(ptr.chunk).spec_free(),
        ensures
            r.ptr() == ptr,
            r.value() == value,
            Arena::ref_taken(*old(arena), *final(arena), ptr.chunk),
    {
        Boxed { inner: RefMut::new(ptr, value, arena) }
    }

    /// The owner of what a borrow points at; the reference moves with it.
    pub fn from_mut(value: RefMut<T>) -> (r: Self)
        ensures
            r.inner == value,
    {
        Boxed { inner: value }
    }

    /// The pointer.
    pub fn as_ptr(&self) -> (r: Ptr<T>)
        ensures
            r == self.ptr(),
    {
        self.inner.as_ptr()
    }

    /// The address of the value.
    pub fn as_raw(&self) -> (r: usize)
        ensures
            r == self.ptr().addr,
    {
        self.inner.as_raw()
    }

    /// The value.
    pub fn get(&self) -> (r: &T)
        ensures
            *r == self.value(),
    {
        self.inner.get()
    }

    /// The same value as an exclusive borrow; the reference moves with it.
    pub fn into_mut(self) -> (r: RefMut<T>)
        ensures
            r == self.inner,
    {
        self.inner
    }

    /// The same value as a shared borrow; the reference moves with it.
    pub fn into_ref(self) -> (r: Ref<T>)
        ensures
            r.ptr == self.ptr(),
            *r.value == self.value(),
    {
        self.inner.into_ref()
    }

    /// Keeps the value without giving its reference back: the chunk stays
    /// referenced for the rest of the arena's life.
    pub fn leak(self) -> (r: T)
        ensures
            r == self.value(),
    {
        self.inner.leak()
    }

    /// Ends the value's life and gives the reference on the chunk back.
    pub fn release(self, arena: &mut Arena)
        requires
            old(arena).wf(),
            old(arena).holds(self.ptr().chunk),
            old(arena).spec_footer(self.ptr().chunk).spec_refs() > 0,
        ensures
            Arena::ref_given(*old(arena), *final(arena), self.ptr().chunk),
    {
        self.inner.release(arena)
    }
}

impl<T> Boxed<MaybeUninit<T>> {
    /// Writes `value` into the slot, which from then on holds a `T`.
    pub fn init_with(self, value: T) -> (r: Boxed<T>)
        ensures
            r.ptr().chunk == self.ptr().chunk,
            r.ptr().addr == self.ptr().addr,
            r.value() == value,
    {
        Boxed::from_mut(self.into_mut().init_with(value))
    }
}

} // verus!

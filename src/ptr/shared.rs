use vstd::prelude::*;

use std::rc::Rc;

use crate::chunk::footer::REFCOUNT_MAX;
use crate::ptr::{Boxed, Ptr, RefMut};
use crate::Arena;

verus! {

/// Relies on `Rc::clone`: a second pointer to the same value.
#[verifier::external_body]
fn share<T>(value: &Rc<T>) -> (r: Rc<T>)
    ensures
        *r == **value,
{
    Rc::clone(value)
}

/// A shared borrow of a value in the arena. Each copy holds one reference
/// on its chunk.
pub struct Ref<T> {
    pub ptr: Ptr<T>,
    pub value: Rc<T>,
}

impl<T> Ref<T> {
    /// Wraps a pointer that already carries its reference.
    pub fn from_ptr(ptr: Ptr<T>, value: Rc<T>) -> (r: Self)
        ensures
            r.ptr == ptr,
            r.value == value,
    {
        Ref { ptr, value }
    }

    /// Wraps a pointer and takes a reference on its chunk.
    pub fn new(ptr: Ptr<T>, value: Rc<T>, arena: &mut Arena) -> (r: Self)
        requires
            old(arena).wf(),
            old(arena).holds(ptr.chunk),
            old(arena).spec_footer(ptr.chunk).spec_refs() < REFCOUNT_MAX,
            !old(arena).spec_footer(ptr.chunk).spec_free(),
        ensures
            r.ptr == ptr,
            r.value == value,
            Arena::ref_taken(*old(arena), *final(arena), ptr.chunk),
    {
        ptr.add_ref(arena);
        Self::from_ptr(ptr, value)
    }

    /// The shared form of an exclusive borrow; the reference moves with it.
    pub fn from_mut(value: RefMut<T>) -> (r: Self)
        ensures
            r.ptr == value.ptr,
            *r.value == value.value,
    {
        value.into_ref()
    }

    /// The shared form of an owner; the reference moves with it.
    pub fn from_box(value: Boxed<T>) -> (r: Self)
        ensures
            r.ptr == value.ptr(),
            *r.value == value.value(),
    {
        value.into_ref()
    }

    /// Another shared borrow of the same value, with a reference of its own.
    pub fn clone_in(&self, arena: &mut Arena) -> (r: Self)
        requires
            old(arena).wf(),
            old(arena).holds(self.ptr.chunk),
            old(arena).spec_footer(self.ptr.chunk).spec_refs() < REFCOUNT_MAX,
            !old(arena).spec_footer(self.ptr.chunk).spec_free(),
        ensures
            r.ptr == self.ptr,
            *r.value == *self.value,
            Arena::ref_taken(*old(arena), *final(arena), self.ptr.chunk),
    {
        let ptr = Ptr::new(self.ptr.chunk, self.ptr.addr);
        Self::new(ptr, share(&self.value), arena)
    }

    /// The pointer.
    pub fn as_ptr(&self) -> (r: Ptr<T>)
        ensures
            r == self.ptr,
    {
        Ptr::new(self.ptr.chunk, self.ptr.addr)
    }

    /// The address of the value.
    pub fn as_raw(&self) -> (r: usize)
        ensures
            r == self.ptr.addr,
    {
        self.ptr.addr
    }

    /// The value.
    pub fn get(&self) -> (r: &T)
        ensures
            *r == *self.value,
    {
        &*self.value
    }

    /// Keeps the value without giving the reference back: the chunk stays
    /// referenced for the rest of the arena's life.
    pub fn leak(self) -> (r: Rc<T>)
        ensures
            r == self.value,
    {
        self.value
    }

    /// Gives the reference on the chunk back.
    pub fn release(self, arena: &mut Arena)
        requires
            old(arena).wf(),
            old(arena).holds(self.ptr.chunk),
            old(arena).spec_footer(self.ptr.chunk).spec_refs() > 0,
        ensures
            Arena::ref_given(*old(arena), *final(arena), self.ptr.chunk),
    {
        self.ptr.remove_ref(arena);
    }
}

} // verus!

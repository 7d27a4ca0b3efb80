use vstd::prelude::*;

use core::mem::MaybeUninit;

use crate::chunk::footer::REFCOUNT_MAX;
use crate::ptr::{Boxed, Ptr, Ref};
use crate::Arena;

verus! {

/// An exclusive borrow of a value in the arena. It holds one reference on
/// its chunk; giving it back does not end the value's life.
pub struct RefMut<T> {
    pub ptr: Ptr<T>,
    pub value: T,
}

impl<T> RefMut<T> {
    /// Wraps a pointer that already carries its reference.
    pub fn from_ptr(ptr: Ptr<T>, value: T) -> (r: Self)
        ensures
            r.ptr == ptr,
            r.value == value,
    {
        RefMut { ptr, value }
    }

    /// Wraps a pointer and takes a reference on its chunk.
    pub fn new(ptr: Ptr<T>, value: T, arena: &mut Arena) -> (r: Self)
        requires
            old(arena).wf(),
            old(arena).holds(ptr.chunk),
            old(arena).spec_footer(ptr.chunk).spec_refs() < REFCOUNT_MAX,
            !old(arena).spec_footer(ptr.chunk).spec_free(),
        ensures
            r.ptr == ptr,
            r.value == value,
            Arena::ref_taken(*old(arena), *final(arena), ptr.chunk),
    {
        ptr.add_ref(arena);
        Self::from_ptr(ptr, value)
    }

    /// The same borrow, shared; the reference moves with it.
    pub fn into_ref(self) -> (r: Ref<T>)
        ensures
            r.ptr == self.ptr,
            *r.value == self.value,
    {
        Ref::from_ptr(self.ptr, std::rc::Rc::new(self.value))
    }

    /// The same value, owned; the reference moves with it.
    pub fn into_box(self) -> (r: Boxed<T>)
        ensures
            r.inner == self,
    {
        Boxed::from_mut(self)
    }

    /// The borrow an owner turns into; the reference moves with it.
    pub fn from_box(value: Boxed<T>) -> (r: Self)
        ensures
            r == value.inner,
    {
        value.into_mut()
    }

    /// The pointer.
    pub fn as_ptr(&self) -> (r: Ptr<T>)
        ensures
            r == self.ptr,
    {
        Ptr::new(self.ptr.chunk, self.ptr.addr)
    }

    /// The address of the value.
    pub fn as_raw(&self) -> (r: usize)
        ensures
            r == self.ptr.addr,
    {
        self.ptr.addr
    }

    /// The value.
    pub fn get(&self) -> (r: &T)
        ensures
            *r == self.value,
    {
        &self.value
    }

    /// Keeps the value without giving its reference back: the chunk stays
    /// referenced for the rest of the arena's life.
    pub fn leak(self) -> (r: T)
        ensures
            r == self.value,
    {
        self.value
    }

    /// Gives the reference on the chunk back.
    pub fn release(self, arena: &mut Arena)
        requires
            old(arena).wf(),
            old(arena).holds(self.ptr.chunk),
            old(arena).spec_footer(self.ptr.chunk).spec_refs() > 0,
        ensures
            Arena::ref_given(*old(arena), *final(arena), self.ptr.chunk),
    {
        self.ptr.remove_ref(arena);
    }
}

impl<T> RefMut<MaybeUninit<T>> {
    /// Writes `value` into the slot, which from then on holds a `T`.
    pub fn init_with(self, value: T) -> (r: RefMut<T>)
        ensures
            r.ptr.chunk == self.ptr.chunk,
            r.ptr.addr == self.ptr.addr,
            r.value == value,
    {
        RefMut::from_ptr(self.ptr.cast(), value)
    }
}

} // verus!

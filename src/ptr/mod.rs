use vstd::prelude::*;

use core::marker::PhantomData;

use crate::chunk::footer::REFCOUNT_MAX;
use crate::chunk::Chunk;
use crate::Arena;

pub mod boxed;
pub mod shared;
pub mod ref_mut;

pub use boxed::Boxed;
pub use shared::Ref;
pub use ref_mut::RefMut;

verus! {

/// An address inside a chunk, with the chunk it belongs to.
pub struct Ptr<T> {
    pub chunk: Chunk,
    pub addr: usize,
    pub marker: PhantomData<T>,
}

impl<T> Ptr<T> {
    pub fn new(chunk: Chunk, addr: usize) -> (r: Self)
        ensures
            r.chunk == chunk,
            r.addr == addr,
    {
        Ptr { chunk, addr, marker: PhantomData }
    }

    /// The same address, read as a `C`.
    pub fn cast<C>(self) -> (r: Ptr<C>)
        ensures
            r.chunk == self.chunk,
            r.addr == self.addr,
    {
        Ptr::new(self.chunk, self.addr)
    }

    /// The address.
    pub fn as_raw(&self) -> (r: usize)
        ensures
            r == self.addr,
    {
        self.addr
    }

    /// The chunk the address lies in.
    pub fn chunk(&self) -> (r: Chunk)
        ensures
            r == self.chunk,
    {
        self.chunk
    }

    /// Takes one more reference on the chunk; returns the count before.
    pub fn add_ref(&self, arena: &mut Arena) -> (r: u64)
        requires
            old(arena).wf(),
            old(arena).holds(self.chunk),
            old(arena).spec_footer(self.chunk).spec_refs() < REFCOUNT_MAX,
            !old(arena).spec_footer(self.chunk).spec_free(),
        ensures
            r == old(arena).spec_footer(self.chunk).spec_refs(),
            Arena::ref_taken(*old(arena), *final(arena), self.chunk),
    {
        arena.add_ref(self.chunk)
    }

    /// Gives one reference on the chunk back; returns the count before.
    pub fn remove_ref(&self, arena: &mut Arena) -> (r: u64)
        requires
            old(arena).wf(),
            old(arena).holds(self.chunk),
            old(arena).spec_footer(self.chunk).spec_refs() > 0,
        ensures
            r == old(arena).spec_footer(self.chunk).spec_refs(),
            Arena::ref_given(*old(arena), *final(arena), self.chunk),
    {
        arena.remove_ref(self.chunk)
    }
}

} // verus!

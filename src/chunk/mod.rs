use vstd::prelude::*;

pub mod footer;
pub mod free_list;
pub mod list;

pub use footer::ChunkFooter;
pub use free_list::{FreeError, FreeList};
pub use list::ChunkList;

use crate::chunk::free_list::push_outcome;
use crate::layout::Layout;

verus! {

/// A handle to one chunk of a chunk list: its class (the chunk size) and its
/// position in the list's order of allocation.
#[derive(Debug, Clone, Copy, PartialEq, Eq, Structural)]
pub struct Chunk {
    pub size: usize,
    pub index: usize,
}

impl Chunk {
    /// Whether an allocation of `layout` fits in what is left of the chunk.
    pub fn can_fit(self, list: &ChunkList, layout: Layout) -> (r: bool)
        requires
            list.holds(self),
            layout.align > 0,
        ensures
            r == list.spec_footer(self).spec_fit(layout) is Some,
    {
        list.footer(self).can_fit(layout)
    }

    /// Moves the chunk's bump cursor down to make room for `layout`, which
    /// must fit, and returns the address of the room.
    pub fn alloc_layout(self, list: &mut ChunkList, layout: Layout) -> (r: usize)
        requires
            old(list).wf(),
            old(list).holds(self),
            layout.align > 0,
            old(list).spec_footer(self).spec_fit(layout) is Some,
            !old(list).spec_footer(self).spec_free(),
        ensures
            final(list).wf(),
            old(list).spec_footer(self).spec_fit(layout) == Some(r as int),
            final(list).spec_footer(self).bump == r,
            final(list).spec_footer(self).flags == old(list).spec_footer(self).flags,
            final(list).chunks@ == old(list).chunks@.update(self.index as int, final(list).spec_footer(self)),
            final(list).size == old(list).size,
            final(list).len == old(list).len,
            final(list).current == old(list).current,
            final(list).free_list@ == old(list).free_list@,
    {
        let ghost before = list.chunks@;
        let mut f = list.chunks[self.index];
        let addr = f.alloc_layout(layout);
        list.chunks.set(self.index, f);
        proof {
            assert forall|j: usize| j < list.chunks@.len() && #[trigger] list.chunks@[j as int].spec_free() implies list.free_list@.contains(j) by {
                assert(before[j as int].spec_free());
            }
            assert forall|k: int| 0 <= k < list.free_list@.len() implies #[trigger] list.free_list@[k]
                != self.index by {
                assert(before[list.free_list@[k] as int].spec_free());
            }
        }
        addr
    }

    /// Puts the chunk on its list's free list; refused unless the chunk is
    /// neither free nor current and has no references.
    pub fn free(self, list: &mut ChunkList) -> (r: Result<(), FreeError>)
        requires
            old(list).wf(),
            old(list).holds(self),
        ensures
            final(list).wf(),
            r == push_outcome(old(list).spec_footer(self)),
            r is Err ==> final(list).chunks@ == old(list).chunks@ && final(list).free_list@ == old(list).free_list@,
            r is Ok ==> {
                &&& final(list).spec_footer(self).spec_free()
                &&& final(list).spec_footer(self).bump == 2 * old(list).size
                &&& final(list).free_list@ == seq![self.index].add(old(list).free_list@)
                &&& final(list).chunks@ == old(list).chunks@.update(
                    self.index as int,
                    final(list).spec_footer(self),
                )
            },
            final(list).size == old(list).size,
            final(list).len == old(list).len,
            final(list).current == old(list).current,
    {
        list.free_list.push(&mut list.chunks, self)
    }
}

} // verus!

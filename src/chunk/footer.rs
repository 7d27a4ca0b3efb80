use vstd::prelude::*;

use crate::chunk::Chunk;
use crate::layout::{lemma_align_down, Layout};

verus! {

/// Bit 63 of the flags word: the chunk is the one its list allocates from.
pub const CURRENT_BIT: u64 = 0x8000_0000_0000_0000;

/// Bit 62 of the flags word: the chunk sits on its list's free list.
pub const FREE_BIT: u64 = 0x4000_0000_0000_0000;

/// Bits 0..62 of the flags word: the number of live handles into the chunk.
pub const REF_COUNT: u64 = 0x3fff_ffff_ffff_ffff;

/// The largest reference count a chunk can hold.
pub const REFCOUNT_MAX: u64 = REF_COUNT;

pub open spec fn flag_refs(flags: u64) -> u64 {
    flags & REF_COUNT
}

pub open spec fn flag_free(flags: u64) -> bool {
    flags & FREE_BIT != 0
}

pub open spec fn flag_current(flags: u64) -> bool {
    flags & CURRENT_BIT != 0
}

/// How the three parts of the flags word react to the operations on it.
pub proof fn lemma_flag_ops(f: u64)
    by (bit_vector)
    ensures
        f & REF_COUNT <= REF_COUNT,
        0u64 & REF_COUNT == 0,
        0u64 & FREE_BIT == 0,
        0u64 & CURRENT_BIT == 0,
        f & REF_COUNT < REF_COUNT ==> {
            &&& ((f + 1) as u64) & REF_COUNT == (f & REF_COUNT) + 1
            &&& ((f + 1) as u64) & FREE_BIT == f & FREE_BIT
            &&& ((f + 1) as u64) & CURRENT_BIT == f & CURRENT_BIT
            &&& f + 1 <= u64::MAX
        },
        f & REF_COUNT > 0 ==> {
            &&& ((f - 1) as u64) & REF_COUNT == (f & REF_COUNT) - 1
            &&& ((f - 1) as u64) & FREE_BIT == f & FREE_BIT
            &&& ((f - 1) as u64) & CURRENT_BIT == f & CURRENT_BIT
            &&& f >= 1
        },
        (f ^ FREE_BIT) & REF_COUNT == f & REF_COUNT,
        (f ^ FREE_BIT) & CURRENT_BIT == f & CURRENT_BIT,
        ((f ^ FREE_BIT) & FREE_BIT != 0) == (f & FREE_BIT == 0),
        (f ^ CURRENT_BIT) & REF_COUNT == f & REF_COUNT,
        (f ^ CURRENT_BIT) & FREE_BIT == f & FREE_BIT,
        ((f ^ CURRENT_BIT) & CURRENT_BIT != 0) == (f & CURRENT_BIT == 0),
{
}

/// Where a bump allocation of `size` bytes aligned to `align` lands when
/// the cursor is at `bump` and the data region begins at `start`: the cursor
/// moves down by `size`, then down to a multiple of `align`. `None` where
/// that passes below `start` (or below address zero).
pub open spec fn fit_at(bump: int, start: int, size: int, align: int) -> Option<int> {
    if bump < size {
        None
    } else {
        let lowered = bump - size;
        let aligned = lowered - lowered % align;
        if aligned < start {
            None
        } else {
            Some(aligned)
        }
    }
}

/// A bump allocation lands on a multiple of its alignment, inside the data
/// region, and ends at or below the cursor it was cut from.
pub proof fn lemma_fit_bounds(bump: int, start: int, size: int, align: int)
    requires
        align > 0,
        size >= 0,
        fit_at(bump, start, size, align) is Some,
    ensures
        fit_at(bump, start, size, align) matches Some(p) && p % align == 0 && start <= p && p
            + size <= bump,
{
    lemma_align_down(bump - size, align, 0);
}

/// An empty chunk whose start is a multiple of the alignment has room for
/// any block no larger than the chunk.
pub proof fn lemma_fresh_fit(bump: int, start: int, chunk_size: int, size: int, align: int)
    requires
        align > 0,
        0 <= size <= chunk_size,
        start >= 0,
        start % align == 0,
        bump == start + chunk_size,
    ensures
        fit_at(bump, start, size, align) is Some,
{
    lemma_align_down(bump - size, align, start);
}

/// The state of one chunk: its data region `[start, start + size)`, the
/// downward bump cursor, the links of the two chains it belongs to, and
/// the flags word that packs the current bit, the free bit and the
/// reference count.
#[derive(Debug, Clone, Copy)]
pub struct ChunkFooter {
    /// Capacity of the data region, a power of two.
    pub size: usize,
    /// Position of the chunk in its list's order of allocation.
    pub index: usize,
    /// First address of the data region.
    pub start: usize,
    /// Bump cursor: allocations grow down from `start + size` to `start`.
    pub bump: usize,
    /// The chunk that was the head of the list before this one.
    pub next: Option<Chunk>,
    /// The chunk below this one on the free list.
    pub next_free: Option<Chunk>,
    /// Current bit, free bit and reference count.
    pub flags: u64,
}

impl ChunkFooter {
    pub open spec fn spec_refs(&self) -> u64 {
        flag_refs(self.flags)
    }

    pub open spec fn spec_free(&self) -> bool {
        flag_free(self.flags)
    }

    pub open spec fn spec_current(&self) -> bool {
        flag_current(self.flags)
    }

    pub open spec fn end(&self) -> int {
        self.start + self.size
    }

    /// The bump cursor stays inside the data region; a free chunk is neither
    /// current nor referenced, and is empty; only a free chunk has a link on
    /// the free list.
    pub open spec fn wf(&self) -> bool {
        &&& self.start <= self.bump <= self.end()
        &&& self.end() <= usize::MAX
        &&& self.spec_free() ==> !self.spec_current() && self.spec_refs() == 0 && self.bump
            == self.end()
        &&& self.next_free is Some ==> self.spec_free()
    }

    /// A fresh footer: empty, unreferenced, neither current nor free.
    pub fn new(start: usize, size: usize, index: usize, next: Option<Chunk>) -> (r: Self)
        requires
            start + size <= usize::MAX,
        ensures
            r.start == start,
            r.size == size,
            r.index == index,
            r.next == next,
            r.next_free is None,
            r.bump == start + size,
            r.spec_refs() == 0,
            !r.spec_free(),
            !r.spec_current(),
            r.wf(),
    {
        proof {
            lemma_flag_ops(0);
        }
        ChunkFooter { size, index, start, bump: start + size, next, next_free: None, flags: 0 }
    }

    /// The whole flags word.
    pub fn flags(&self) -> (r: u64)
        ensures
            r == self.flags,
    {
        self.flags
    }

    /// The reference count.
    pub fn refs(&self) -> (r: u64)
        ensures
            r == self.spec_refs(),
    {
        self.flags & REF_COUNT
    }

    /// Increments the reference count and returns the count before.
    pub fn add_ref(&mut self) -> (r: u64)
        requires
            old(self).spec_refs() < REFCOUNT_MAX,
        ensures
            r == old(self).spec_refs(),
            final(self).spec_refs() == r + 1,
            final(self).spec_free() == old(self).spec_free(),
            final(self).spec_current() == old(self).spec_current(),
            final(self).size == old(self).size,
            final(self).index == old(self).index,
            final(self).start == old(self).start,
            final(self).bump == old(self).bump,
            final(self).next == old(self).next,
            final(self).next_free == old(self).next_free,
    {
        let previous = self.refs();
        proof {
            lemma_flag_ops(self.flags);
        }
        self.flags = self.flags + 1;
        previous
    }

    /// Decrements the reference count and returns the count before.
    pub fn remove_ref(&mut self) -> (r: u64)
        requires
            old(self).spec_refs() > 0,
        ensures
            r == old(self).spec_refs(),
            final(self).spec_refs() == r - 1,
            final(self).spec_free() == old(self).spec_free(),
            final(self).spec_current() == old(self).spec_current(),
            final(self).size == old(self).size,
            final(self).index == old(self).index,
            final(self).start == old(self).start,
            final(self).bump == old(self).bump,
            final(self).next == old(self).next,
            final(self).next_free == old(self).next_free,
    {
        let previous = self.refs();
        proof {
            lemma_flag_ops(self.flags);
        }
        self.flags = self.flags - 1;
        previous
    }

    /// Whether the free bit is set.
    pub fn is_free(&self) -> (r: bool)
        ensures
            r == self.spec_free(),
    {
        self.flags & FREE_BIT != 0
    }

    /// Whether the current bit is set.
    pub fn is_current(&self) -> (r: bool)
        ensures
            r == self.spec_current(),
    {
        self.flags & CURRENT_BIT != 0
    }

    /// Flips the free bit.
    pub fn toggle_free(&mut self)
        ensures
            final(self).spec_free() == !old(self).spec_free(),
            final(self).spec_refs() == old(self).spec_refs(),
            final(self).spec_current() == old(self).spec_current(),
            final(self).size == old(self).size,
            final(self).index == old(self).index,
            final(self).start == old(self).start,
            final(self).bump == old(self).bump,
            final(self).next == old(self).next,
            final(self).next_free == old(self).next_free,
    {
        proof {
            lemma_flag_ops(self.flags);
        }
        self.flags = self.flags ^ FREE_BIT;
    }

    /// Flips the current bit.
    pub fn toggle_current(&mut self)
        ensures
            final(self).spec_current() == !old(self).spec_current(),
            final(self).spec_refs() == old(self).spec_refs(),
            final(self).spec_free() == old(self).spec_free(),
            final(self).size == old(self).size,
            final(self).index == old(self).index,
            final(self).start == old(self).start,
            final(self).bump == old(self).bump,
            final(self).next == old(self).next,
            final(self).next_free == old(self).next_free,
    {
        proof {
            lemma_flag_ops(self.flags);
        }
        self.flags = self.flags ^ CURRENT_BIT;
    }

    /// Where the next allocation of `layout` lands, if it fits.
    pub open spec fn spec_fit(&self, layout: Layout) -> Option<int> {
        fit_at(self.bump as int, self.start as int, layout.size as int, layout.align as int)
    }

    /// The address a bump allocation of `size` bytes aligned to `align`
    /// would get, or `None` where the chunk has no room for it.
    pub fn calc_pointer(&self, size: usize, align: usize) -> (r: Option<usize>)
        requires
            align > 0,
        ensures
            r matches Some(p) ==> fit_at(self.bump as int, self.start as int, size as int, align as int) == Some(p as int),
            r is None ==> fit_at(self.bump as int, self.start as int, size as int, align as int) is None,
    {
        if self.bump < size {
            return None;
        }
        let lowered = self.bump - size;
        assert(lowered % align <= lowered) by (nonlinear_arith)
            requires
                align > 0,
        ;
        let aligned = lowered - lowered % align;
        if aligned < self.start {
            return None;
        }
        Some(aligned)
    }

    /// Whether an allocation of `layout` fits in what is left of the chunk.
    pub fn can_fit(&self, layout: Layout) -> (r: bool)
        requires
            layout.align > 0,
        ensures
            r == self.spec_fit(layout) is Some,
    {
        self.calc_pointer(layout.size, layout.align).is_some()
    }

    /// Moves the bump cursor down to make room for `layout` and returns the
    /// address of the room.
    pub fn alloc_layout(&mut self, layout: Layout) -> (r: usize)
        requires
            layout.align > 0,
            old(self).spec_fit(layout) is Some,
        ensures
            old(self).spec_fit(layout) == Some(r as int),
            final(self).bump == r,
            final(self).flags == old(self).flags,
            final(self).size == old(self).size,
            final(self).index == old(self).index,
            final(self).start == old(self).start,
            final(self).next == old(self).next,
            final(self).next_free == old(self).next_free,
    {
        let p = self.calc_pointer(layout.size, layout.align);
        let p = p.unwrap();
        self.bump = p;
        p
    }

    /// Empties the chunk: the bump cursor goes back to the end of the region.
    pub fn reset_bump(&mut self)
        requires
            old(self).end() <= usize::MAX,
        ensures
            final(self).bump == old(self).end(),
            final(self).flags == old(self).flags,
            final(self).size == old(self).size,
            final(self).index == old(self).index,
            final(self).start == old(self).start,
            final(self).next == old(self).next,
            final(self).next_free == old(self).next_free,
    {
        self.bump = self.start + self.size;
    }
}

/// Two blocks cut one after the other from a chunk, with no reset between,
/// do not overlap: the second ends where the first begins, or below.
pub proof fn lemma_successive_blocks_disjoint(
    f: ChunkFooter,
    g: ChunkFooter,
    first: Layout,
    second: Layout,
    first_at: int,
    second_at: int,
)
    requires
        first.align > 0,
        second.align > 0,
        f.spec_fit(first) == Some(first_at),
        g.start == f.start,
        g.bump == first_at,
        g.spec_fit(second) == Some(second_at),
    ensures
        second_at + second.size <= first_at,
        first_at + first.size <= f.bump,
{
    lemma_fit_bounds(f.bump as int, f.start as int, first.size as int, first.align as int);
    lemma_fit_bounds(g.bump as int, g.start as int, second.size as int, second.align as int);
}

} // verus!

use vstd::arithmetic::power2::is_pow2;
use vstd::prelude::*;
use vstd::string::StringSliceAdditionalSpecFns;

pub mod chunk;
pub mod layout;
pub mod ptr;

use crate::chunk::footer::{ChunkFooter, REFCOUNT_MAX};
use crate::chunk::free_list::chunk_at;
use crate::chunk::list::{fresh_stack, INITIAL_CHUNKS_PER_CLASS, MAX_CHUNK_SIZE};
use crate::chunk::{Chunk, ChunkList};
use crate::layout::Layout;
use crate::ptr::{Boxed, Ptr};
use vstd::layout::{align_of, size_of};

verus! {

/// The chunk size of the smallest size class, a power of two.
pub const MIN_BLOCK_SIZE: usize = 256;

/// The base-two logarithm of `MIN_BLOCK_SIZE`.
pub const MIN_BLOCK_POW: u32 = 8;

/// The largest block the arena serves: the smallest class that holds it
/// still has a chunk size of at most `MAX_CHUNK_SIZE`.
pub const MAX_ALLOC_SIZE: usize = MAX_CHUNK_SIZE / 2;

/// The chunk size of class `i`: `MIN_BLOCK_SIZE * 2^i`.
pub open spec fn class_size(i: nat) -> nat
    decreases i,
{
    if i == 0 {
        MIN_BLOCK_SIZE as nat
    } else {
        2 * class_size((i - 1) as nat)
    }
}

/// The smallest class whose chunks hold `size` bytes.
pub open spec fn class_index(size: nat) -> nat
    decreases size,
{
    if size <= MIN_BLOCK_SIZE {
        0
    } else {
        1 + class_index(((size + 1) / 2) as nat)
    }
}

/// Class sizes are powers of two and grow with the class.
pub proof fn lemma_class_size(i: nat, j: nat)
    ensures
        is_pow2(class_size(i) as int),
        class_size(i) >= MIN_BLOCK_SIZE + i,
        i < j ==> class_size(i) < class_size(j),
    decreases i + j,
{
    if i == 0 {
        reveal_with_fuel(is_pow2, 10);
    } else {
        lemma_class_size((i - 1) as nat, 0);
        reveal(is_pow2);
        assert((2 * class_size((i - 1) as nat)) / 2 == class_size((i - 1) as nat));
    }
    if i < j {
        lemma_class_size(i, (j - 1) as nat);
        lemma_class_size((j - 1) as nat, 0);
    }
}

/// A size lies in class `i` exactly when it is above the chunk size of
/// class `i - 1` and at most that of class `i`.
pub proof fn lemma_class_index(size: nat, i: nat)
    requires
        size <= class_size(i),
        i == 0 || class_size((i - 1) as nat) < size,
    ensures
        class_index(size) == i,
    decreases i,
{
    if i > 0 {
        lemma_class_size((i - 1) as nat, 0);
        let half = ((size + 1) / 2) as nat;
        assert(class_size(i) == 2 * class_size((i - 1) as nat));
        assert(half <= class_size((i - 1) as nat));
        if i == 1 {
            assert(half <= MIN_BLOCK_SIZE);
            assert(class_index(half) == 0);
        } else {
            assert(class_size((i - 1) as nat) == 2 * class_size((i - 2) as nat));
            assert(class_size((i - 2) as nat) < half);
            lemma_class_index(half, (i - 1) as nat);
        }
        assert(class_index(size) == 1 + class_index(half));
    }
}

/// The chunk size of class `index`.
fn index_to_chunk_size(index: usize) -> (r: usize)
    requires
        class_size(index as nat) <= MAX_CHUNK_SIZE,
    ensures
        r == class_size(index as nat),
{
    let mut size: usize = MIN_BLOCK_SIZE;
    let mut k: usize = 0;
    while k < index
        invariant
            k <= index,
            size == class_size(k as nat),
            class_size(index as nat) <= MAX_CHUNK_SIZE,
        decreases index - k,
    {
        proof {
            lemma_class_size((k + 1) as nat, index as nat);
        }
        size = size * 2;
        k = k + 1;
    }
    size
}

/// The class of a block of `size` bytes.
fn size_to_index(size: usize) -> (r: usize)
    requires
        size <= MAX_CHUNK_SIZE,
    ensures
        r == class_index(size as nat),
        size <= class_size(r as nat),
        size <= MAX_ALLOC_SIZE ==> class_size(r as nat) <= MAX_CHUNK_SIZE,
{
    let mut index: usize = 0;
    let mut chunk_size: usize = MIN_BLOCK_SIZE;
    while chunk_size < size
        invariant
            size <= MAX_CHUNK_SIZE,
            chunk_size == class_size(index as nat),
            index == 0 ==> chunk_size == MIN_BLOCK_SIZE,
            index > 0 ==> chunk_size < 2 * size,
            index <= chunk_size,
            index == 0 || class_size((index - 1) as nat) < size,
        decreases 2 * size - chunk_size,
    {
        proof {
            lemma_class_size(index as nat, 0);
        }
        chunk_size = chunk_size * 2;
        index = index + 1;
    }
    proof {
        lemma_class_index(size as nat, index as nat);
    }
    index
}

/// One chunk list per size class, class `i` holding chunks of
/// `class_size(i)` bytes; a block goes to the smallest class that holds it.
pub struct Arena {
    pub lists: Vec<ChunkList>,
}

impl Arena {
    pub open spec fn wf(&self) -> bool {
        forall|i: int|
            0 <= i < self.lists@.len() ==> {
                &&& (#[trigger] self.lists@[i]).wf()
                &&& self.lists@[i].size == class_size(i as nat)
            }
    }

    /// The list of the class that chunk `c` belongs to.
    pub open spec fn spec_list(&self, c: Chunk) -> ChunkList {
        self.lists@[class_index(c.size as nat) as int]
    }

    /// `c` is a chunk of this arena.
    pub open spec fn holds(&self, c: Chunk) -> bool {
        &&& class_index(c.size as nat) < self.lists@.len()
        &&& self.spec_list(c).holds(c)
    }

    pub open spec fn spec_footer(&self, c: Chunk) -> ChunkFooter {
        self.spec_list(c).spec_footer(c)
    }

    /// The list can still provision a chunk and each of its chunks can still
    /// take one more reference.
    pub open spec fn list_room(list: ChunkList) -> bool {
        &&& list.len < usize::MAX
        &&& forall|j: int| 0 <= j < list.chunks@.len() ==> (#[trigger] list.chunks@[j]).spec_refs() < REFCOUNT_MAX
    }

    /// Every list has room.
    pub open spec fn has_room(&self) -> bool {
        forall|i: int| 0 <= i < self.lists@.len() ==> Self::list_room(#[trigger] self.lists@[i])
    }

    /// The list of the class that serves `layout`, if the arena has it yet,
    /// has room.
    pub open spec fn room_for(&self, layout: Layout) -> bool {
        let i = Self::class_for(layout) as int;
        i < self.lists@.len() ==> Self::list_room(self.lists@[i])
    }

    /// Whether every list can still provision a chunk and every chunk can
    /// still take one more reference.
    pub fn check_room(&self) -> (r: bool)
        ensures
            r == self.has_room(),
            r ==> forall|layout: Layout| #[trigger] self.room_for(layout),
    {
        let mut i: usize = 0;
        while i < self.lists.len()
            invariant
                i <= self.lists@.len(),
                forall|k: int|
                    0 <= k < i ==> {
                        &&& (#[trigger] self.lists@[k]).len < usize::MAX
                        &&& forall|j: int|
                            0 <= j < self.lists@[k].chunks@.len() ==> (#[trigger] self.lists@[k].chunks@[j]).spec_refs()
                                < REFCOUNT_MAX
                    },
            decreases self.lists@.len() - i,
        {
            let list = &self.lists[i];
            if list.len == usize::MAX {
                return false;
            }
            let mut j: usize = 0;
            while j < list.chunks.len()
                invariant
                    i < self.lists@.len(),
                    *list == self.lists@[i as int],
                    list.len < usize::MAX,
                    j <= list.chunks@.len(),
                    forall|m: int| 0 <= m < j ==> (#[trigger] list.chunks@[m]).spec_refs() < REFCOUNT_MAX,
                    forall|k: int|
                        0 <= k < i ==> {
                            &&& (#[trigger] self.lists@[k]).len < usize::MAX
                            &&& forall|m: int|
                                0 <= m < self.lists@[k].chunks@.len() ==> (#[trigger] self.lists@[k].chunks@[m]).spec_refs()
                                    < REFCOUNT_MAX
                        },
                decreases list.chunks@.len() - j,
            {
                if list.chunks[j].refs() >= REFCOUNT_MAX {
                    proof {
                        let l = self.lists@[i as int];
                        assert(l.chunks@[j as int].spec_refs() >= REFCOUNT_MAX);
                        assert(!Self::list_room(l));
                    }
                    return false;
                }
                j = j + 1;
            }
            i = i + 1;
        }
        true
    }

    /// The class that serves `layout`: the smallest whose chunks hold both
    /// its size and its alignment.
    pub open spec fn class_for(layout: Layout) -> nat {
        class_index(
            if layout.size >= layout.align {
                layout.size as nat
            } else {
                layout.align as nat
            },
        )
    }

    /// An arena with no size classes yet.
    pub fn new() -> (r: Self)
        ensures
            r.wf(),
            r.lists@.len() == 0,
    {
        Arena { lists: Vec::new() }
    }

    /// The chunk size of the largest class the arena has, or 0.
    pub fn max_size(&self) -> (r: usize)
        requires
            self.wf(),
        ensures
            self.lists@.len() == 0 ==> r == 0,
            self.lists@.len() > 0 ==> r == class_size((self.lists@.len() - 1) as nat),
    {
        if self.lists.len() == 0 {
            0
        } else {
            self.lists[self.lists.len() - 1].size
        }
    }

    /// Adds the next `n` size classes, each with its initial chunks.
    pub fn reserve_next(&mut self, n: usize)
        requires
            old(self).wf(),
            n > 0 ==> class_size((old(self).lists@.len() + n - 1) as nat) <= MAX_CHUNK_SIZE,
        ensures
            final(self).wf(),
            final(self).lists@.len() == old(self).lists@.len() + n,
            forall|i: int| 0 <= i < old(self).lists@.len() ==> #[trigger] final(self).lists@[i] == old(self).lists@[i],
            forall|i: int|
                old(self).lists@.len() <= i < final(self).lists@.len() ==> {
                    &&& (#[trigger] final(self).lists@[i]).is_fresh()
                    &&& final(self).lists@[i].size == class_size(i as nat)
                },
    {
        let start = self.lists.len();
        let mut k: usize = 0;
        while k < n
            invariant
                self.wf(),
                k <= n,
                start == old(self).lists@.len(),
                self.lists@.len() == start + k,
                n > 0 ==> class_size((start + n - 1) as nat) <= MAX_CHUNK_SIZE,
                forall|i: int| 0 <= i < start ==> #[trigger] self.lists@[i] == old(self).lists@[i],
                forall|i: int|
                    start <= i < self.lists@.len() ==> {
                        &&& (#[trigger] self.lists@[i]).is_fresh()
                        &&& self.lists@[i].size == class_size(i as nat)
                    },
            decreases n - k,
        {
            proof {
                lemma_class_size((start + k) as nat, (start + n - 1) as nat);
                lemma_class_size((start + n - 1) as nat, 0);
            }
            let size = index_to_chunk_size(start + k);
            proof {
                lemma_class_size((start + k) as nat, 0);
            }
            let list = ChunkList::new(size);
            let ghost before = self.lists@;
            self.lists.push(list);
            proof {
                assert forall|i: int| 0 <= i < before.len() implies #[trigger] self.lists@[i] == before[i] by {}
            }
            k = k + 1;
        }
    }

    /// The class of a block of `size` bytes, adding the classes up to it
    /// where the arena does not have them yet.
    fn list_for_size(&mut self, size: usize) -> (r: usize)
        requires
            old(self).wf(),
            size <= MAX_ALLOC_SIZE,
        ensures
            final(self).wf(),
            r == class_index(size as nat),
            size <= class_size(r as nat) <= MAX_CHUNK_SIZE,
            r < final(self).lists@.len(),
            final(self).lists@.len() == if r < old(self).lists@.len() {
                old(self).lists@.len() as int
            } else {
                r + 1
            },
            forall|i: int| 0 <= i < old(self).lists@.len() ==> #[trigger] final(self).lists@[i] == old(self).lists@[i],
            forall|i: int|
                old(self).lists@.len() <= i < final(self).lists@.len() ==> {
                    &&& (#[trigger] final(self).lists@[i]).is_fresh()
                    &&& final(self).lists@[i].size == class_size(i as nat)
                },
    {
        let index = size_to_index(size);
        proof {
            lemma_class_size(index as nat, 0);
        }
        let length = self.lists.len();
        if index < length {
            return index;
        }
        self.reserve_next(index + 1 - length);
        index
    }

    /// The reference count, before an allocation of `layout`, of the chunk
    /// the allocation is served from: that of the current chunk of its class
    /// while it has room, else 0 (a chunk off a free list, or a new one).
    pub open spec fn refs_before(&self, layout: Layout) -> u64 {
        let i = Self::class_for(layout) as int;
        if i < self.lists@.len() && self.lists@[i].current_fits(layout) {
            self.lists@[i].spec_footer(self.lists@[i].current->0).spec_refs()
        } else {
            0
        }
    }

    /// The chunk an allocation of `layout` is served from: that its class's
    /// list picks, or, for a class the arena does not have yet, the chunk on
    /// top of the new list's free list.
    pub open spec fn next_chunk(&self, layout: Layout) -> Chunk {
        let i = Self::class_for(layout) as int;
        if i < self.lists@.len() {
            self.lists@[i].next_chunk(layout)
        } else {
            chunk_at(class_size(i as nat) as usize, (INITIAL_CHUNKS_PER_CLASS - 1) as usize)
        }
    }

    /// `after` is `before` with room for `layout` cut at `addr` from chunk
    /// `c`, which holds `extra` references more than before. The arena grew
    /// its classes up to and including that of `layout`, each new one fresh;
    /// the class's list changed as one allocation changes it (a new class's
    /// list as an allocation from a fresh list); every other class is as it
    /// was.
    pub open spec fn served(
        before: Arena,
        after: Arena,
        layout: Layout,
        c: Chunk,
        addr: usize,
        extra: nat,
    ) -> bool {
        let i = Self::class_for(layout) as int;
        let n = before.lists@.len();
        let f = after.spec_footer(c);
        &&& after.wf()
        &&& after.holds(c)
        &&& class_index(c.size as nat) == i
        &&& c == before.next_chunk(layout)
        &&& after.lists@.len() == if i < n {
            n as int
        } else {
            i + 1
        }
        &&& forall|j: int| 0 <= j < n && j != i ==> #[trigger] after.lists@[j] == before.lists@[j]
        &&& forall|j: int| n <= j < i ==> (#[trigger] after.lists@[j]).is_fresh()
        &&& i < n ==> ChunkList::allocated(before.lists@[i], after.lists@[i], layout, c, addr, extra)
        &&& i >= n ==> ChunkList::fresh_allocated(after.lists@[i], layout, c, addr, extra)
        &&& addr % layout.align == 0
        &&& f.start <= addr
        &&& addr + layout.size <= f.end()
        &&& f.bump == addr
        &&& f.spec_current()
        &&& !f.spec_free()
        &&& f.spec_refs() == before.refs_before(layout) + extra
        &&& after.spec_list(c).current == Some(c)
    }

    /// One allocation followed by a reference taken on its chunk is one
    /// allocation holding one more reference.
    pub proof fn lemma_served_then_taken(
        before: Arena,
        mid: Arena,
        after: Arena,
        layout: Layout,
        c: Chunk,
        addr: usize,
        extra: nat,
    )
        requires
            Self::served(before, mid, layout, c, addr, extra),
            Self::ref_taken(mid, after, c),
        ensures
            Self::served(before, after, layout, c, addr, extra + 1),
    {
        let i = Self::class_for(layout) as int;
        if i < before.lists@.len() {
            ChunkList::lemma_allocated_then_added(before.lists@[i], mid.lists@[i], after.lists@[i], layout, c, addr, extra);
        } else {
            ChunkList::lemma_fresh_allocated_then_added(mid.lists@[i], after.lists@[i], layout, c, addr, extra);
        }
        assert forall|j: int| 0 <= j < after.lists@.len() && j != i implies #[trigger] after.lists@[j] == mid.lists@[j] by {}
    }

    /// Allocates room for `layout` in the chunk list of its class, adding
    /// the classes up to it where the arena does not have them yet.
    pub fn allocate(&mut self, layout: Layout) -> (r: Ptr<u8>)
        requires
            old(self).wf(),
            old(self).room_for(layout),
            layout.wf(),
            layout.size <= MAX_ALLOC_SIZE,
            layout.align <= MAX_ALLOC_SIZE,
        ensures
            Self::served(*old(self), *final(self), layout, r.chunk, r.addr, 0),
            old(self).refs_before(layout) < REFCOUNT_MAX,
    {
        let request = if layout.size >= layout.align {
            layout.size
        } else {
            layout.align
        };
        let index = self.list_for_size(request);
        let ghost mid = self.lists@;
        proof {
            reveal(is_pow2);
            lemma_class_size(index as nat, 0);
            if index < old(self).lists@.len() {
                assert(mid[index as int] == old(self).lists@[index as int]);
            }
            let l = mid[index as int];
            if l.current_fits(layout) {
                assert(l.chunks@[l.current->0.index as int].spec_refs() < REFCOUNT_MAX);
            }
            if !l.current_fits(layout) && l.free_list@.len() > 0 {
                assert(l.chunks@[l.free_list@[0] as int].spec_free());
            }
        }
        let ptr = self.lists[index].allocate(layout);
        proof {
            if index >= old(self).lists@.len() {
                assert(mid[index as int].current is None);
                assert(fresh_stack(0, INITIAL_CHUNKS_PER_CLASS as nat)[0] == 3) by {
                    reveal_with_fuel(fresh_stack, 2);
                }
                ChunkList::lemma_fresh_allocated(mid[index as int], self.lists@[index as int], layout, ptr.chunk, ptr.addr, 0);
            }
            assert forall|j: int| 0 <= j < self.lists@.len() && j != index implies #[trigger] self.lists@[j] == mid[j] by {}
            lemma_class_index(ptr.chunk.size as nat, index as nat);
            lemma_class_size(index as nat, 0);
            assert forall|i: int| 0 <= i < self.lists@.len() implies {
                &&& (#[trigger] self.lists@[i]).wf()
                &&& self.lists@[i].size == class_size(i as nat)
            } by {
                if i != index {
                    assert(self.lists@[i] == mid[i]);
                }
            }
        }
        ptr
    }

    /// The footer of a chunk of the arena.
    pub fn footer(&self, c: Chunk) -> (r: &ChunkFooter)
        requires
            self.wf(),
            self.holds(c),
        ensures
            *r == self.spec_footer(c),
    {
        let index = size_to_index_of_chunk(self, c);
        self.lists[index].footer(c)
    }

    /// `after` is `before` with one more reference on chunk `c`.
    pub open spec fn ref_taken(before: Arena, after: Arena, c: Chunk) -> bool {
        let f = before.spec_footer(c);
        let g = after.spec_footer(c);
        &&& after.wf()
        &&& after.holds(c)
        &&& g.spec_refs() == f.spec_refs() + 1
        &&& !g.spec_free()
        &&& g.spec_current() == f.spec_current()
        &&& g.bump == f.bump
        &&& after.lists@.len() == before.lists@.len()
        &&& after.spec_list(c).free_list@ == before.spec_list(c).free_list@
        &&& after.spec_list(c).len == before.spec_list(c).len
        &&& after.spec_list(c).current == before.spec_list(c).current
        &&& after.spec_list(c).chunks@ == before.spec_list(c).chunks@.update(c.index as int, g)
        &&& ChunkList::ref_added(before.spec_list(c), after.spec_list(c), c)
        &&& forall|i: int|
            0 <= i < before.lists@.len() && i != class_index(c.size as nat) ==> #[trigger] after.lists@[i]
                == before.lists@[i]
    }

    /// `after` is `before` with one reference on chunk `c` given back: when
    /// it was the last, the chunk is empty and, unless current, free.
    pub open spec fn ref_given(before: Arena, after: Arena, c: Chunk) -> bool {
        let f = before.spec_footer(c);
        let g = after.spec_footer(c);
        let last = f.spec_refs() == 1;
        &&& after.wf()
        &&& after.holds(c)
        &&& g.spec_refs() == f.spec_refs() - 1
        &&& g.spec_current() == f.spec_current()
        &&& g.bump == (if last {
            g.end()
        } else {
            f.bump as int
        })
        &&& g.spec_free() == (last && !f.spec_current())
        &&& after.spec_list(c).free_list@ == (if last && !f.spec_current() {
            seq![c.index].add(before.spec_list(c).free_list@)
        } else {
            before.spec_list(c).free_list@
        })
        &&& after.lists@.len() == before.lists@.len()
        &&& after.spec_list(c).len == before.spec_list(c).len
        &&& after.spec_list(c).current == before.spec_list(c).current
        &&& after.spec_list(c).chunks@ == before.spec_list(c).chunks@.update(c.index as int, g)
        &&& forall|i: int|
            0 <= i < before.lists@.len() && i != class_index(c.size as nat) ==> #[trigger] after.lists@[i]
                == before.lists@[i]
    }

    /// Takes one more reference on a chunk that is not on a free list;
    /// returns the count before.
    pub fn add_ref(&mut self, c: Chunk) -> (r: u64)
        requires
            old(self).wf(),
            old(self).holds(c),
            old(self).spec_footer(c).spec_refs() < REFCOUNT_MAX,
            !old(self).spec_footer(c).spec_free(),
        ensures
            r == old(self).spec_footer(c).spec_refs(),
            Self::ref_taken(*old(self), *final(self), c),
    {
        let index = size_to_index_of_chunk(self, c);
        let ghost mid = self.lists@;
        let previous = self.lists[index].add_ref(c);
        proof {
            assert forall|i: int| 0 <= i < self.lists@.len() implies {
                &&& (#[trigger] self.lists@[i]).wf()
                &&& self.lists@[i].size == class_size(i as nat)
            } by {
                if i != index {
                    assert(self.lists@[i] == mid[i]);
                }
            }
        }
        previous
    }

    /// Gives back one reference on a chunk; returns the count before. When
    /// the last reference goes the chunk is emptied and, unless it is the
    /// current chunk of its list, put on the free list.
    pub fn remove_ref(&mut self, c: Chunk) -> (r: u64)
        requires
            old(self).wf(),
            old(self).holds(c),
            old(self).spec_footer(c).spec_refs() > 0,
        ensures
            r == old(self).spec_footer(c).spec_refs(),
            Self::ref_given(*old(self), *final(self), c),
    {
        let index = size_to_index_of_chunk(self, c);
        let ghost mid = self.lists@;
        let previous = self.lists[index].remove_ref(c);
        proof {
            assert forall|i: int| 0 <= i < self.lists@.len() implies {
                &&& (#[trigger] self.lists@[i]).wf()
                &&& self.lists@[i].size == class_size(i as nat)
            } by {
                if i != index {
                    assert(self.lists@[i] == mid[i]);
                }
            }
        }
        previous
    }
}

/// The class of a chunk of the arena.
fn size_to_index_of_chunk(arena: &Arena, c: Chunk) -> (r: usize)
    requires
        arena.wf(),
        arena.holds(c),
    ensures
        r == class_index(c.size as nat),
        r < arena.lists@.len(),
{
    let ghost i = class_index(c.size as nat);
    proof {
        lemma_class_size(i, 0);
        assert(arena.lists@[i as int].size == c.size);
    }
    size_to_index(c.size)
}

impl Arena {
    /// What an arena must offer for a value of `n` items of type `T`.
    pub open spec fn fits_items<T>(&self, n: nat) -> bool {
        &&& self.wf()
        &&& self.room_for(Layout { size: (n * size_of::<T>()) as usize, align: align_of::<T>() as usize })
        &&& n * size_of::<T>() <= MAX_ALLOC_SIZE
        &&& align_of::<T>() <= MAX_ALLOC_SIZE
    }

    /// `after` is `before` with room for `layout` cut from the chunk of `b`,
    /// which holds one more reference than before.
    pub open spec fn placed<T>(before: Arena, after: Arena, layout: Layout, b: Boxed<T>) -> bool {
        Self::served(before, after, layout, b.ptr().chunk, b.ptr().addr, 1)
    }

    /// Allocates room for `layout` and wraps it, with one reference, around
    /// `value`.
    fn place<T>(&mut self, layout: Layout, value: T) -> (r: Boxed<T>)
        requires
            old(self).wf(),
            old(self).room_for(layout),
            layout.wf(),
            layout.size <= MAX_ALLOC_SIZE,
            layout.align <= MAX_ALLOC_SIZE,
        ensures
            Self::placed(*old(self), *final(self), layout, r),
            r.value() == value,
    {
        let ptr = self.allocate(layout);
        let ghost mid = *self;
        let b = Boxed::new(ptr.cast(), value, self);
        proof {
            Self::lemma_served_then_taken(*old(self), mid, *self, layout, ptr.chunk, ptr.addr, 0);
        }
        b
    }

    /// Allocates `n` items of type `T`, built by `items`.
    fn place_items<T>(&mut self, items: Vec<T>) -> (r: Boxed<Vec<T>>)
        requires
            old(self).fits_items::<T>(items@.len()),
        ensures
            Self::placed(
                *old(self),
                *final(self),
                Layout { size: (items@.len() * size_of::<T>()) as usize, align: align_of::<T>() as usize },
                r,
            ),
            r.value() == items,
    {
        let layout = Layout::array::<T>(items.len());
        let layout = layout.unwrap();
        self.place(layout, items)
    }

    /// Allocates room for `layout`, zeroed.
    pub fn alloc_layout(&mut self, layout: Layout) -> (r: Boxed<Vec<u8>>)
        requires
            old(self).wf(),
            old(self).room_for(layout),
            layout.wf(),
            layout.size <= MAX_ALLOC_SIZE,
            layout.align <= MAX_ALLOC_SIZE,
        ensures
            Self::placed(*old(self), *final(self), layout, r),
            r.value()@ == Seq::new(layout.size as nat, |i: int| 0u8),
    {
        let mut bytes: Vec<u8> = Vec::new();
        while bytes.len() < layout.size
            invariant
                bytes@.len() <= layout.size,
                bytes@ == Seq::new(bytes@.len(), |i: int| 0u8),
            decreases layout.size - bytes@.len(),
        {
            bytes.push(0u8);
            assert(bytes@ =~= Seq::new(bytes@.len(), |i: int| 0u8));
        }
        assert(bytes@ =~= Seq::new(layout.size as nat, |i: int| 0u8));
        self.place(layout, bytes)
    }

    /// Allocates `value`.
    pub fn alloc_value<T>(&mut self, value: T) -> (r: Boxed<T>)
        requires
            old(self).fits_items::<T>(1),
        ensures
            Self::placed(*old(self), *final(self), Layout { size: size_of::<T>() as usize, align: align_of::<T>() as usize }, r),
            r.value() == value,
    {
        let layout = Layout::new::<T>();
        self.place(layout, value)
    }

    /// Allocates `len` items, item `i` being `f(i)`.
    pub fn alloc_slice_fill_with<T, F: Fn(usize) -> T>(&mut self, len: usize, f: F) -> (r: Boxed<Vec<T>>)
        requires
            old(self).fits_items::<T>(len as nat),
            forall|i: usize| i < len ==> #[trigger] f.requires((i,)),
        ensures
            Self::placed(
                *old(self),
                *final(self),
                Layout { size: (len * size_of::<T>()) as usize, align: align_of::<T>() as usize },
                r,
            ),
            r.value()@.len() == len,
            forall|i: int| 0 <= i < len ==> f.ensures((i as usize,), #[trigger] r.value()@[i]),
    {
        let mut items: Vec<T> = Vec::new();
        let mut i: usize = 0;
        while i < len
            invariant
                i <= len,
                items@.len() == i,
                forall|k: usize| k < len ==> #[trigger] f.requires((k,)),
                forall|k: int| 0 <= k < i ==> f.ensures((k as usize,), #[trigger] items@[k]),
            decreases len - i,
        {
            let item = f(i);
            items.push(item);
            i = i + 1;
        }
        self.place_items(items)
    }

    /// Allocates a copy of `source`.
    pub fn alloc_slice_copy<T: Copy>(&mut self, source: &[T]) -> (r: Boxed<Vec<T>>)
        requires
            old(self).fits_items::<T>(source@.len()),
        ensures
            Self::placed(
                *old(self),
                *final(self),
                Layout { size: (source@.len() * size_of::<T>()) as usize, align: align_of::<T>() as usize },
                r,
            ),
            r.value()@ == source@,
    {
        let mut items: Vec<T> = Vec::new();
        let mut i: usize = 0;
        while i < source.len()
            invariant
                i <= source@.len(),
                items@ == source@.take(i as int),
            decreases source@.len() - i,
        {
            items.push(source[i]);
            i = i + 1;
            assert(items@ =~= source@.take(i as int));
        }
        assert(items@ =~= source@);
        self.place_items(items)
    }

    /// Allocates a clone of each item of `source`.
    pub fn alloc_slice_clone<T: Clone>(&mut self, source: &[T]) -> (r: Boxed<Vec<T>>)
        requires
            old(self).fits_items::<T>(source@.len()),
        ensures
            Self::placed(
                *old(self),
                *final(self),
                Layout { size: (source@.len() * size_of::<T>()) as usize, align: align_of::<T>() as usize },
                r,
            ),
            r.value()@.len() == source@.len(),
            forall|i: int| 0 <= i < source@.len() ==> cloned::<T>(source@[i], #[trigger] r.value()@[i]),
    {
        let mut items: Vec<T> = Vec::new();
        let mut i: usize = 0;
        while i < source.len()
            invariant
                i <= source@.len(),
                items@.len() == i,
                forall|k: int| 0 <= k < i ==> cloned::<T>(source@[k], #[trigger] items@[k]),
            decreases source@.len() - i,
        {
            items.push(source[i].clone());
            i = i + 1;
        }
        self.place_items(items)
    }

    /// Allocates `len` copies of `value`.
    pub fn alloc_slice_fill_copy<T: Copy>(&mut self, len: usize, value: &T) -> (r: Boxed<Vec<T>>)
        requires
            old(self).fits_items::<T>(len as nat),
        ensures
            Self::placed(
                *old(self),
                *final(self),
                Layout { size: (len * size_of::<T>()) as usize, align: align_of::<T>() as usize },
                r,
            ),
            r.value()@ == Seq::new(len as nat, |i: int| *value),
    {
        let mut items: Vec<T> = Vec::new();
        let mut i: usize = 0;
        while i < len
            invariant
                i <= len,
                items@ == Seq::new(i as nat, |k: int| *value),
            decreases len - i,
        {
            items.push(*value);
            i = i + 1;
            assert(items@ =~= Seq::new(i as nat, |k: int| *value));
        }
        self.place_items(items)
    }

    /// Allocates `len` clones of `value`.
    pub fn alloc_slice_fill_clone<T: Clone>(&mut self, len: usize, value: &T) -> (r: Boxed<Vec<T>>)
        requires
            old(self).fits_items::<T>(len as nat),
        ensures
            Self::placed(
                *old(self),
                *final(self),
                Layout { size: (len * size_of::<T>()) as usize, align: align_of::<T>() as usize },
                r,
            ),
            r.value()@.len() == len,
            forall|i: int| 0 <= i < len ==> cloned::<T>(*value, #[trigger] r.value()@[i]),
    {
        let mut items: Vec<T> = Vec::new();
        let mut i: usize = 0;
        while i < len
            invariant
                i <= len,
                items@.len() == i,
                forall|k: int| 0 <= k < i ==> cloned::<T>(*value, #[trigger] items@[k]),
            decreases len - i,
        {
            items.push(value.clone());
            i = i + 1;
        }
        self.place_items(items)
    }

    /// Allocates `len` default values.
    pub fn alloc_slice_fill_default<T: Default>(&mut self, len: usize) -> (r: Boxed<Vec<T>>)
        requires
            old(self).fits_items::<T>(len as nat),
        ensures
            Self::placed(
                *old(self),
                *final(self),
                Layout { size: (len * size_of::<T>()) as usize, align: align_of::<T>() as usize },
                r,
            ),
            r.value()@.len() == len,
            forall|i: int| 0 <= i < len ==> T::default.ensures((), #[trigger] r.value()@[i]),
    {
        let mut items: Vec<T> = Vec::new();
        let mut i: usize = 0;
        while i < len
            invariant
                i <= len,
                items@.len() == i,
                forall|k: int| 0 <= k < i ==> T::default.ensures((), #[trigger] items@[k]),
            decreases len - i,
        {
            items.push(T::default());
            i = i + 1;
        }
        self.place_items(items)
    }

    /// Allocates a copy of the text `source`.
    pub fn alloc_str(&mut self, source: &str) -> (r: Boxed<String>)
        requires
            old(self).wf(),
            old(self).room_for(Layout { size: source.spec_bytes().len() as usize, align: 1 }),
            source.spec_bytes().len() <= MAX_ALLOC_SIZE,
        ensures
            Self::placed(
                *old(self),
                *final(self),
                Layout { size: source.spec_bytes().len() as usize, align: 1 },
                r,
            ),
            r.value()@ == source@,
    {
        proof {
            reveal(is_pow2);
        }
        let layout = Layout { size: source.len(), align: 1 };
        self.place(layout, source.to_owned())
    }
}

/// The handles constructed minus the handles dropped over a run of
/// operations on one chunk, `true` standing for a construction.
pub open spec fn net_handles(ops: Seq<bool>) -> int
    decreases ops.len(),
{
    if ops.len() == 0 {
        0
    } else {
        net_handles(ops.drop_last()) + if ops.last() {
            1int
        } else {
            -1int
        }
    }
}

/// Over any run of handle constructions and drops on a chunk, its reference
/// count grows by the handles constructed minus the handles dropped.
pub proof fn lemma_refs_count_handles(states: Seq<Arena>, ops: Seq<bool>, c: Chunk)
    requires
        states.len() == ops.len() + 1,
        forall|k: int|
            0 <= k < ops.len() ==> if #[trigger] ops[k] {
                Arena::ref_taken(states[k], states[k + 1], c)
            } else {
                Arena::ref_given(states[k], states[k + 1], c)
            },
    ensures
        states.last().spec_footer(c).spec_refs() == states[0].spec_footer(c).spec_refs() + net_handles(ops),
    decreases ops.len(),
{
    if ops.len() > 0 {
        let n = ops.len() - 1;
        lemma_refs_count_handles(states.drop_last(), ops.drop_last(), c);
        assert(ops[n] == ops.last());
        assert(states.drop_last().last() == states[n]);
        assert(ops.drop_last() =~= ops.subrange(0, n));
    }
}

impl Arena {
    /// Tears the arena down: releases every chunk of every class, walking
    /// each list's chain. No chunk may still be referenced. Returns, class by
    /// class from the largest, how many chunks were released.
    pub fn drop_lists(self) -> (r: Vec<usize>)
        requires
            self.wf(),
            forall|i: int, j: int|
                0 <= i < self.lists@.len() && 0 <= j < self.lists@[i].chunks@.len() ==> (#[trigger] self.lists@[i].chunks@[j]).spec_refs() == 0,
        ensures
            r@.len() == self.lists@.len(),
            forall|k: int| 0 <= k < r@.len() ==> #[trigger] r@[k] == self.lists@[self.lists@.len() - 1 - k].len,
    {
        let ghost all = self.lists@;
        let mut lists = self.lists;
        let mut released: Vec<usize> = Vec::new();
        while lists.len() > 0
            invariant
                lists@ == all.take(lists@.len() as int),
                lists@.len() <= all.len(),
                released@.len() + lists@.len() == all.len(),
                forall|i: int| 0 <= i < all.len() ==> (#[trigger] all[i]).wf(),
                forall|i: int, j: int|
                    0 <= i < all.len() && 0 <= j < all[i].chunks@.len() ==> (#[trigger] all[i].chunks@[j]).spec_refs() == 0,
                forall|k: int| 0 <= k < released@.len() ==> #[trigger] released@[k] == all[all.len() - 1 - k].len,
            decreases lists@.len(),
        {
            let list = lists.pop().unwrap();
            proof {
                assert(list == all[lists@.len() as int]);
                assert(lists@ =~= all.take(lists@.len() as int));
            }
            let count = list.drop_chain();
            released.push(count);
        }
        released
    }
}

} // verus!

use vstd::arithmetic::power2::is_pow2;
use vstd::prelude::*;

use crate::chunk::footer::{fit_at, lemma_fit_bounds, lemma_fresh_fit, ChunkFooter, REFCOUNT_MAX};
use crate::chunk::free_list::{chunk_at, lemma_chain_extend, FreeList};
use crate::chunk::Chunk;
use crate::layout::{lemma_pow2_divides, Layout};
use crate::ptr::Ptr;

verus! {

/// The largest chunk size: twice it must still be an address.
pub const MAX_CHUNK_SIZE: usize = usize::MAX / 4 + 1;

/// How many chunks `ChunkList::new` provisions.
pub const INITIAL_CHUNKS_PER_CLASS: usize = 4;

/// The positions `lo + n - 1`, ..., `lo + 1`, `lo`: the order, top first, in
/// which `n` chunks provisioned one after another from position `lo` sit on
/// the free list.
pub open spec fn fresh_stack(lo: usize, n: nat) -> Seq<usize>
    decreases n,
{
    if n == 0 {
        Seq::empty()
    } else {
        seq![(lo + n - 1) as usize].add(fresh_stack(lo, (n - 1) as nat))
    }
}

/// The chunks of one size class. Chunk `i` is the `i`-th the list
/// provisioned; the list owns all of them, links each to the one provisioned
/// before it, keeps the reclaimable ones on its free list, and allocates
/// from at most one, the current chunk.
pub struct ChunkList {
    /// Size of each chunk.
    pub size: usize,
    /// How many chunks the list has provisioned.
    pub len: usize,
    /// The chunk provisioned last.
    pub head: Option<Chunk>,
    /// The chunk allocations are served from.
    pub current: Option<Chunk>,
    /// The reclaimable chunks.
    pub free_list: FreeList,
    /// The footers, by position.
    pub chunks: Vec<ChunkFooter>,
}

impl ChunkList {
    pub open spec fn holds(&self, c: Chunk) -> bool {
        c.size == self.size && c.index < self.chunks@.len()
    }

    pub open spec fn spec_footer(&self, c: Chunk) -> ChunkFooter {
        self.chunks@[c.index as int]
    }

    pub open spec fn link_before(&self, i: int) -> Option<Chunk> {
        if i == 0 {
            None
        } else {
            Some(chunk_at(self.size, (i - 1) as usize))
        }
    }

    /// No chunk but the one named `current` has its current bit set.
    pub open spec fn current_ok(&self) -> bool {
        match self.current {
            None => forall|i: int| 0 <= i < self.chunks@.len() ==> !(#[trigger] self.chunks@[i]).spec_current(),
            Some(c) => {
                &&& self.holds(c)
                &&& self.spec_footer(c).spec_current()
                &&& forall|i: int|
                    0 <= i < self.chunks@.len() && i != c.index ==> !(#[trigger] self.chunks@[i]).spec_current()
            },
        }
    }

    pub open spec fn wf(&self) -> bool {
        &&& is_pow2(self.size as int)
        &&& 0 < self.size <= MAX_CHUNK_SIZE
        &&& self.len == self.chunks@.len()
        &&& forall|i: int|
            0 <= i < self.chunks@.len() ==> {
                let f = #[trigger] self.chunks@[i];
                &&& f.wf()
                &&& f.size == self.size
                &&& f.index == i
                &&& f.start == self.size
                &&& f.next == self.link_before(i)
            }
        &&& self.head == (if self.len == 0 {
            None
        } else {
            Some(chunk_at(self.size, (self.len - 1) as usize))
        })
        &&& self.free_list.wf(self.chunks@, self.size)
        &&& self.current_ok()
    }

    /// The current chunk has room for `layout`.
    pub open spec fn current_fits(&self, layout: Layout) -> bool {
        self.current matches Some(c) && self.spec_footer(c).spec_fit(layout) is Some
    }

    /// The chunk the next allocation of `layout` is served from: the current
    /// chunk while it has room, else the top of the free list, else a new one.
    pub open spec fn next_chunk(&self, layout: Layout) -> Chunk {
        if self.current_fits(layout) {
            self.current->0
        } else if self.free_list@.len() > 0 {
            chunk_at(self.size, self.free_list@[0])
        } else {
            chunk_at(self.size, self.len)
        }
    }

    /// Where the bump cursor of `next_chunk(layout)` stands before the
    /// allocation: a chunk taken off the free list or provisioned is empty.
    pub open spec fn next_bump(&self, layout: Layout) -> int {
        if self.current_fits(layout) {
            self.spec_footer(self.current->0).bump as int
        } else {
            2 * self.size
        }
    }

    /// `after` is `before` with room for `layout` cut at `addr` from chunk
    /// `c`, which is `next_chunk(layout)` and now current: the room lies where
    /// the bump cursor moved down to, below the cursor it was cut from. The
    /// chunk holds `extra` references more than before (a chunk taken off the
    /// free list or provisioned had none); the length grows by one exactly
    /// when a chunk was provisioned; the free list loses its top exactly when
    /// it served the chunk; every other chunk is as it was, but for a
    /// displaced current chunk, which loses its current bit.
    pub open spec fn allocated(
        before: ChunkList,
        after: ChunkList,
        layout: Layout,
        c: Chunk,
        addr: usize,
        extra: nat,
    ) -> bool {
        let fits = before.current_fits(layout);
        let g = after.spec_footer(c);
        &&& after.wf()
        &&& after.size == before.size
        &&& c == before.next_chunk(layout)
        &&& after.current == Some(c)
        &&& fit_at(before.next_bump(layout), before.size as int, layout.size as int, layout.align as int)
            == Some(addr as int)
        &&& addr % layout.align == 0
        &&& before.size <= addr
        &&& addr + layout.size <= before.next_bump(layout) <= 2 * before.size
        &&& g.bump == addr
        &&& g.spec_current()
        &&& !g.spec_free()
        &&& g.spec_refs() == (if fits {
            before.spec_footer(c).spec_refs()
        } else {
            0
        }) + extra
        &&& after.len == before.len + (if !fits && before.free_list@.len() == 0 {
            1int
        } else {
            0int
        })
        &&& after.free_list@ == (if !fits && before.free_list@.len() > 0 {
            before.free_list@.drop_first()
        } else {
            before.free_list@
        })
        &&& forall|i: int|
            0 <= i < before.len && i != c.index ==> {
                let f = #[trigger] after.chunks@[i];
                let h = before.chunks@[i];
                &&& f.spec_refs() == h.spec_refs()
                &&& f.spec_free() == h.spec_free()
                &&& f.bump == h.bump
                &&& f.next_free == h.next_free
                &&& f.size == h.size && f.index == h.index && f.start == h.start && f.next == h.next
                &&& f.spec_current() == (h.spec_current() && before.current != Some(
                    chunk_at(before.size, i as usize),
                ))
            }
    }

    /// `after` is `before` with one more reference on chunk `c`, and nothing
    /// else changed but that chunk's count.
    pub open spec fn ref_added(before: ChunkList, after: ChunkList, c: Chunk) -> bool {
        let f = before.spec_footer(c);
        let g = after.spec_footer(c);
        &&& after.wf()
        &&& g.spec_refs() == f.spec_refs() + 1
        &&& !g.spec_free()
        &&& g.spec_current() == f.spec_current()
        &&& g.bump == f.bump
        &&& after.chunks@ == before.chunks@.update(c.index as int, g)
        &&& after.size == before.size
        &&& after.len == before.len
        &&& after.current == before.current
        &&& after.free_list@ == before.free_list@
    }

    /// A list as `new` makes it: `INITIAL_CHUNKS_PER_CLASS` chunks, all free,
    /// none current, the last provisioned on top of the free list.
    pub open spec fn is_fresh(&self) -> bool {
        &&& self.wf()
        &&& self.len == INITIAL_CHUNKS_PER_CLASS
        &&& self.current is None
        &&& self.free_list@ == fresh_stack(0, INITIAL_CHUNKS_PER_CLASS as nat)
        &&& forall|j: int| 0 <= j < self.chunks@.len() ==> (#[trigger] self.chunks@[j]).spec_free()
    }

    /// Allocating and then taking a reference on the served chunk is one
    /// allocation that holds one more reference.
    pub proof fn lemma_allocated_then_added(
        before: ChunkList,
        mid: ChunkList,
        after: ChunkList,
        layout: Layout,
        c: Chunk,
        addr: usize,
        extra: nat,
    )
        requires
            Self::allocated(before, mid, layout, c, addr, extra),
            Self::ref_added(mid, after, c),
        ensures
            Self::allocated(before, after, layout, c, addr, extra + 1),
    {
        assert forall|i: int| 0 <= i < before.len && i != c.index implies #[trigger] after.chunks@[i]
            == mid.chunks@[i] by {}
    }

    /// `after` is a list fresh from `new` with room for `layout` cut at
    /// `addr` from its chunk on top of the free list, which is now current and
    /// holds `extra` references; the other chunks are still free.
    pub open spec fn fresh_allocated(after: ChunkList, layout: Layout, c: Chunk, addr: usize, extra: nat) -> bool {
        let g = after.spec_footer(c);
        &&& after.wf()
        &&& c == chunk_at(after.size, (INITIAL_CHUNKS_PER_CLASS - 1) as usize)
        &&& after.current == Some(c)
        &&& after.len == INITIAL_CHUNKS_PER_CLASS
        &&& after.free_list@ == fresh_stack(0, (INITIAL_CHUNKS_PER_CLASS - 1) as nat)
        &&& fit_at(2 * after.size, after.size as int, layout.size as int, layout.align as int) == Some(
            addr as int,
        )
        &&& addr % layout.align == 0
        &&& after.size <= addr
        &&& addr + layout.size <= 2 * after.size
        &&& g.bump == addr
        &&& g.spec_current()
        &&& !g.spec_free()
        &&& g.spec_refs() == extra
        &&& forall|j: int| 0 <= j < after.len && j != c.index ==> (#[trigger] after.chunks@[j]).spec_free()
    }

    /// An allocation from a fresh list is served by its top chunk.
    pub proof fn lemma_fresh_allocated(
        before: ChunkList,
        after: ChunkList,
        layout: Layout,
        c: Chunk,
        addr: usize,
        extra: nat,
    )
        requires
            before.is_fresh(),
            Self::allocated(before, after, layout, c, addr, extra),
        ensures
            Self::fresh_allocated(after, layout, c, addr, extra),
    {
        reveal_with_fuel(fresh_stack, 5);
        assert(fresh_stack(0, INITIAL_CHUNKS_PER_CLASS as nat).drop_first() =~= fresh_stack(
            0,
            (INITIAL_CHUNKS_PER_CLASS - 1) as nat,
        ));
        assert forall|j: int| 0 <= j < after.len && j != c.index implies (#[trigger] after.chunks@[j]).spec_free() by {
            assert(before.chunks@[j].spec_free());
        }
    }

    /// Taking a reference on the served chunk of a fresh list's allocation.
    pub proof fn lemma_fresh_allocated_then_added(
        mid: ChunkList,
        after: ChunkList,
        layout: Layout,
        c: Chunk,
        addr: usize,
        extra: nat,
    )
        requires
            Self::fresh_allocated(mid, layout, c, addr, extra),
            Self::ref_added(mid, after, c),
        ensures
            Self::fresh_allocated(after, layout, c, addr, extra + 1),
    {
        assert forall|j: int| 0 <= j < after.len && j != c.index implies (#[trigger] after.chunks@[j]).spec_free() by {
            assert(after.chunks@[j] == mid.chunks@[j]);
        }
    }

    /// A list with `INITIAL_CHUNKS_PER_CLASS` free chunks of `size` bytes.
    pub fn new(size: usize) -> (r: Self)
        requires
            is_pow2(size as int),
            size <= MAX_CHUNK_SIZE,
        ensures
            r.wf(),
            r.size == size,
            r.len == INITIAL_CHUNKS_PER_CLASS,
            r.current is None,
            forall|i: int| 0 <= i < r.chunks@.len() ==> (#[trigger] r.chunks@[i]).spec_free(),
            r.free_list@ == fresh_stack(0, INITIAL_CHUNKS_PER_CLASS as nat),
    {
        Self::with_capacity(size, INITIAL_CHUNKS_PER_CLASS)
    }

    /// A list with `cap` free chunks of `size` bytes.
    pub fn with_capacity(size: usize, cap: usize) -> (r: Self)
        requires
            is_pow2(size as int),
            size <= MAX_CHUNK_SIZE,
        ensures
            r.wf(),
            r.size == size,
            r.len == cap,
            r.current is None,
            forall|i: int| 0 <= i < r.chunks@.len() ==> (#[trigger] r.chunks@[i]).spec_free(),
            r.free_list@ == fresh_stack(0, cap as nat),
    {
        let mut list = Self::empty(size);
        list.reserve(cap);
        assert(list.free_list@ == fresh_stack(0, cap as nat).add(Seq::<usize>::empty()));
        assert(fresh_stack(0, cap as nat).add(Seq::<usize>::empty()) =~= fresh_stack(0, cap as nat));
        list
    }

    /// A list of chunks of `size` bytes that has none yet.
    pub fn empty(size: usize) -> (r: Self)
        requires
            is_pow2(size as int),
            size <= MAX_CHUNK_SIZE,
        ensures
            r.wf(),
            r.size == size,
            r.len == 0,
            r.current is None,
            r.free_list@ == Seq::<usize>::empty(),
    {
        proof {
            reveal(is_pow2);
        }
        ChunkList {
            size,
            len: 0,
            head: None,
            current: None,
            free_list: FreeList::new(),
            chunks: Vec::new(),
        }
    }

    /// Provisions `n` more chunks and puts them on the free list, the last
    /// one on top.
    #[verifier::rlimit(100)]
    pub fn reserve(&mut self, n: usize)
        requires
            old(self).wf(),
            old(self).len + n <= usize::MAX,
        ensures
            final(self).wf(),
            final(self).size == old(self).size,
            final(self).len == old(self).len + n,
            final(self).current == old(self).current,
            final(self).free_list@ == fresh_stack(old(self).len, n as nat).add(old(self).free_list@),
            forall|i: int| 0 <= i < old(self).len ==> #[trigger] final(self).chunks@[i] == old(self).chunks@[i],
            forall|i: int| old(self).len <= i < final(self).len ==> (#[trigger] final(self).chunks@[i]).spec_free(),
    {
        let ghost lo = self.len;
        let ghost below = self.free_list@;
        let mut k: usize = 0;
        while k < n
            invariant
                self.wf(),
                k <= n,
                self.size == old(self).size,
                self.len == lo + k,
                lo == old(self).len,
                lo + n <= usize::MAX,
                below == old(self).free_list@,
                self.current == old(self).current,
                self.free_list@ == fresh_stack(lo, k as nat).add(below),
                forall|i: int| 0 <= i < lo ==> #[trigger] self.chunks@[i] == old(self).chunks@[i],
                forall|i: int| lo <= i < self.len ==> (#[trigger] self.chunks@[i]).spec_free(),
            decreases n - k,
        {
            let ghost prev = self.chunks@;
            self.allocate_chunk();
            proof {
                assert forall|i: int| lo <= i < self.len implies (#[trigger] self.chunks@[i]).spec_free() by {
                    if i < prev.len() {
                        assert(self.chunks@[i] == prev[i]);
                    }
                }
                assert forall|i: int| 0 <= i < lo implies #[trigger] self.chunks@[i] == old(self).chunks@[i] by {
                    assert(self.chunks@[i] == prev[i]);
                }
                assert(fresh_stack(lo, (k + 1) as nat) == seq![(lo + k) as usize].add(
                    fresh_stack(lo, k as nat),
                ));
                assert(seq![(lo + k) as usize].add(fresh_stack(lo, k as nat).add(below)) =~= seq![
                    (lo + k) as usize,
                ].add(fresh_stack(lo, k as nat)).add(below));
            }
            k = k + 1;
        }
    }

    /// Provisions one chunk: it becomes the head of the list and the top of
    /// the free list.
    fn allocate_chunk(&mut self) -> (r: Chunk)
        requires
            old(self).wf(),
            old(self).len < usize::MAX,
        ensures
            final(self).wf(),
            r == chunk_at(old(self).size, old(self).len),
            final(self).size == old(self).size,
            final(self).len == old(self).len + 1,
            final(self).current == old(self).current,
            final(self).free_list@ == seq![old(self).len].add(old(self).free_list@),
            final(self).chunks@.drop_last() == old(self).chunks@,
            final(self).chunks@[old(self).len as int].spec_free(),
            forall|i: int| 0 <= i < old(self).len ==> #[trigger] final(self).chunks@[i] == old(self).chunks@[i],
    {
        let index = self.len;
        let footer = ChunkFooter::new(self.size, self.size, index, self.head);
        let ghost before = self.chunks@;
        self.chunks.push(footer);
        let chunk = Chunk { size: self.size, index };
        proof {
            lemma_chain_extend(before, self.free_list@, self.size, footer);
            assert(self.chunks@ == before.push(footer));
        }
        let pushed = self.free_list.push(&mut self.chunks, chunk);
        proof {
            assert(pushed is Ok);
        }
        self.head = Some(chunk);
        self.len = index + 1;
        proof {
            assert(self.chunks@.drop_last() =~= before);
            assert forall|i: int| 0 <= i < self.chunks@.len() && i != index implies #[trigger] self.chunks@[i]
                == before[i] by {}
        }
        chunk
    }

    /// Takes the top of the free list, provisioning a chunk first where the
    /// free list is empty.
    fn pop_or_alloc(&mut self) -> (r: Chunk)
        requires
            old(self).wf(),
            old(self).free_list@.len() > 0 || old(self).len < usize::MAX,
        ensures
            final(self).wf(),
            final(self).size == old(self).size,
            final(self).current == old(self).current,
            r.size == old(self).size,
            old(self).free_list@.len() > 0 ==> {
                &&& r.index == old(self).free_list@[0]
                &&& final(self).len == old(self).len
                &&& final(self).free_list@ == old(self).free_list@.drop_first()
            },
            old(self).free_list@.len() == 0 ==> {
                &&& r.index == old(self).len
                &&& final(self).len == old(self).len + 1
                &&& final(self).free_list@ == old(self).free_list@
            },
            r.index < final(self).len,
            !final(self).spec_footer(r).spec_free(),
            !final(self).spec_footer(r).spec_current(),
            final(self).spec_footer(r).spec_refs() == 0,
            final(self).spec_footer(r).bump == 2 * old(self).size,
            forall|i: int|
                0 <= i < old(self).len && i != r.index ==> #[trigger] final(self).chunks@[i]
                    == old(self).chunks@[i],
    {
        if self.free_list.peek().is_none() {
            self.allocate_chunk();
        }
        let ghost mid = self.chunks@;
        let ghost stack = self.free_list@;
        assert(stack.len() > 0);
        assert(mid[stack[0] as int].spec_free());
        let popped = self.free_list.pop(&mut self.chunks, Ghost(self.size));
        let chunk = popped.unwrap();
        proof {
            let i = chunk.index as int;
            assert forall|j: int| 0 <= j < self.chunks@.len() && j != i implies #[trigger] self.chunks@[j]
                == mid[j] by {}
            assert(!mid[i].spec_current());
        }
        chunk
    }

    /// Returns the chunk to allocate `layout` from: the current chunk while
    /// it has room; else the current bit moves to a chunk taken off the free
    /// list, or provisioned where the free list is empty.
    fn get_current(&mut self, layout: Layout) -> (r: Chunk)
        requires
            old(self).wf(),
            layout.wf(),
            layout.size <= old(self).size,
            layout.align <= old(self).size,
            old(self).len < usize::MAX,
        ensures
            final(self).wf(),
            final(self).size == old(self).size,
            r == old(self).next_chunk(layout),
            final(self).current == Some(r),
            final(self).spec_footer(r).bump == old(self).next_bump(layout),
            final(self).spec_footer(r).spec_refs() == (if old(self).current_fits(layout) {
                old(self).spec_footer(r).spec_refs()
            } else {
                0
            }),
            final(self).spec_footer(r).spec_fit(layout) is Some,
            final(self).len == old(self).len + (if !old(self).current_fits(layout)
                && old(self).free_list@.len() == 0 {
                1int
            } else {
                0int
            }),
            final(self).free_list@ == (if !old(self).current_fits(layout)
                && old(self).free_list@.len() > 0 {
                old(self).free_list@.drop_first()
            } else {
                old(self).free_list@
            }),
            old(self).current_fits(layout) ==> final(self).chunks@ == old(self).chunks@,
            !old(self).current_fits(layout) ==> forall|i: int|
                0 <= i < old(self).len && i != r.index ==> {
                    let f = #[trigger] final(self).chunks@[i];
                    let g = old(self).chunks@[i];
                    &&& f.spec_refs() == g.spec_refs()
                    &&& f.spec_free() == g.spec_free()
                    &&& f.bump == g.bump
                    &&& f.next_free == g.next_free
                    &&& f.size == g.size && f.index == g.index && f.start == g.start && f.next == g.next
                    &&& f.spec_current() == (g.spec_current() && old(self).current != Some(
                        chunk_at(old(self).size, i as usize),
                    ))
                },
    {
        proof {
            reveal(is_pow2);
        }
        let ghost start_chunks = self.chunks@;
        match self.current {
            Some(current) => {
                if self.chunks[current.index].can_fit(layout) {
                    return current;
                }
                let mut f = self.chunks[current.index];
                f.toggle_current();
                self.chunks.set(current.index, f);
                self.current = None;
                proof {
                    assert(self.free_list.wf(self.chunks@, self.size)) by {
                        assert forall|k: int| 0 <= k < self.free_list@.len() implies #[trigger] self.free_list@[k]
                            != current.index by {
                            assert(start_chunks[self.free_list@[k] as int].spec_free());
                        }
                        assert(self.chunks@ == start_chunks.update(current.index as int, f));
                        assert forall|j: usize| j < self.chunks@.len() && #[trigger] self.chunks@[j as int].spec_free() implies self.free_list@.contains(j) by {
                            assert(start_chunks[j as int].spec_free());
                        }
                    }
                }
            },
            None => {},
        }
        let ghost mid = self.chunks@;
        let chunk = self.pop_or_alloc();
        let mut f = self.chunks[chunk.index];
        f.toggle_current();
        self.chunks.set(chunk.index, f);
        self.current = Some(chunk);
        proof {
            lemma_pow2_divides(layout.align as int, self.size as int);
            lemma_fresh_fit(f.bump as int, f.start as int, f.size as int, layout.size as int, layout.align as int);
        }
        chunk
    }

    /// Allocates room for `layout` and returns its address. The caller sees
    /// to it that an empty chunk of this list has room for the layout.
    pub fn allocate(&mut self, layout: Layout) -> (r: Ptr<u8>)
        requires
            old(self).wf(),
            layout.wf(),
            layout.size <= old(self).size,
            layout.align <= old(self).size,
            old(self).len < usize::MAX,
        ensures
            Self::allocated(*old(self), *final(self), layout, r.chunk, r.addr, 0),
    {
        proof {
            reveal(is_pow2);
        }
        let chunk = self.get_current(layout);
        let ghost mid = self.chunks@;
        let mut f = self.chunks[chunk.index];
        let addr = f.alloc_layout(layout);
        self.chunks.set(chunk.index, f);
        proof {
            lemma_fit_bounds(mid[chunk.index as int].bump as int, self.size as int, layout.size as int, layout.align as int);
            assert(self.chunks@ == mid.update(chunk.index as int, f));
            assert forall|j: usize| j < self.chunks@.len() && #[trigger] self.chunks@[j as int].spec_free() implies self.free_list@.contains(j) by {
                assert(mid[j as int].spec_free());
            }
            assert forall|k: int| 0 <= k < self.free_list@.len() implies #[trigger] self.free_list@[k]
                != chunk.index by {
                assert(mid[self.free_list@[k] as int].spec_free());
            }
        }
        Ptr::new(chunk, addr)
    }

    /// The footer of a chunk of this list.
    pub fn footer(&self, c: Chunk) -> (r: &ChunkFooter)
        requires
            self.holds(c),
        ensures
            *r == self.spec_footer(c),
    {
        &self.chunks[c.index]
    }

    /// The chunk the next allocation would be taken from when the current
    /// chunk has no room: the top of the free list.
    pub fn free_top(&self) -> (r: Option<Chunk>)
        ensures
            r == self.free_list.top,
    {
        self.free_list.peek()
    }

    /// Takes one more reference on a chunk that is not on the free list;
    /// returns the count before.
    pub fn add_ref(&mut self, c: Chunk) -> (r: u64)
        requires
            old(self).wf(),
            old(self).holds(c),
            old(self).spec_footer(c).spec_refs() < REFCOUNT_MAX,
            !old(self).spec_footer(c).spec_free(),
        ensures
            final(self).wf(),
            r == old(self).spec_footer(c).spec_refs(),
            final(self).spec_footer(c).spec_refs() == r + 1,
            !final(self).spec_footer(c).spec_free(),
            final(self).spec_footer(c).spec_current() == old(self).spec_footer(c).spec_current(),
            final(self).spec_footer(c).bump == old(self).spec_footer(c).bump,
            final(self).chunks@ == old(self).chunks@.update(c.index as int, final(self).spec_footer(c)),
            final(self).size == old(self).size,
            final(self).len == old(self).len,
            final(self).current == old(self).current,
            final(self).free_list@ == old(self).free_list@,
            Self::ref_added(*old(self), *final(self), c),
    {
        let ghost before = self.chunks@;
        let mut f = self.chunks[c.index];
        let previous = f.add_ref();
        self.chunks.set(c.index, f);
        proof {
            assert forall|j: usize| j < self.chunks@.len() && #[trigger] self.chunks@[j as int].spec_free() implies self.free_list@.contains(j) by {
                assert(before[j as int].spec_free());
            }
            assert forall|k: int| 0 <= k < self.free_list@.len() implies #[trigger] self.free_list@[k]
                != c.index by {
                assert(before[self.free_list@[k] as int].spec_free());
            }
        }
        previous
    }

    /// Gives back one reference on a chunk; returns the count before. When
    /// the last reference goes the chunk is emptied and, unless it is the
    /// current chunk, put on the free list.
    pub fn remove_ref(&mut self, c: Chunk) -> (r: u64)
        requires
            old(self).wf(),
            old(self).holds(c),
            old(self).spec_footer(c).spec_refs() > 0,
        ensures
            final(self).wf(),
            r == old(self).spec_footer(c).spec_refs(),
            final(self).spec_footer(c).spec_refs() == r - 1,
            final(self).spec_footer(c).spec_current() == old(self).spec_footer(c).spec_current(),
            final(self).spec_footer(c).bump == (if r == 1 {
                2 * old(self).size
            } else {
                old(self).spec_footer(c).bump as int
            }),
            final(self).spec_footer(c).spec_free() == (r == 1 && !old(self).spec_footer(c).spec_current()),
            final(self).free_list@ == (if r == 1 && !old(self).spec_footer(c).spec_current() {
                seq![c.index].add(old(self).free_list@)
            } else {
                old(self).free_list@
            }),
            final(self).chunks@ == old(self).chunks@.update(c.index as int, final(self).spec_footer(c)),
            final(self).size == old(self).size,
            final(self).len == old(self).len,
            final(self).current == old(self).current,
    {
        let ghost before = self.chunks@;
        let mut f = self.chunks[c.index];
        let previous = f.remove_ref();
        if previous == 1 {
            f.reset_bump();
        }
        self.chunks.set(c.index, f);
        proof {
            assert forall|j: usize| j < self.chunks@.len() && #[trigger] self.chunks@[j as int].spec_free() implies self.free_list@.contains(j) by {
                assert(before[j as int].spec_free());
            }
            assert forall|k: int| 0 <= k < self.free_list@.len() implies #[trigger] self.free_list@[k]
                != c.index by {
                assert(before[self.free_list@[k] as int].spec_free());
            }
        }
        if previous == 1 && !f.is_current() {
            let pushed = self.free_list.push(&mut self.chunks, c);
            proof {
                assert(pushed is Ok);
            }
        }
        previous
    }

    /// Releases every chunk of the list, walking the chain from the head;
    /// returns how many were released. No chunk may still be referenced.
    pub fn drop_chain(self) -> (r: usize)
        requires
            self.wf(),
            forall|i: int| 0 <= i < self.chunks@.len() ==> (#[trigger] self.chunks@[i]).spec_refs() == 0,
        ensures
            r == self.len,
    {
        let mut released: usize = 0;
        let mut next = self.head;
        while next.is_some()
            invariant
                self.len == self.chunks@.len(),
                forall|i: int|
                    0 <= i < self.chunks@.len() ==> (#[trigger] self.chunks@[i]).next == self.link_before(i),
                released <= self.len,
                next == (if released == self.len {
                    None
                } else {
                    Some(chunk_at(self.size, (self.len - 1 - released) as usize))
                }),
            decreases self.len - released,
        {
            let chunk = next.unwrap();
            assert(self.chunks@[chunk.index as int].next == self.link_before(chunk.index as int));
            let f = &self.chunks[chunk.index];
            next = f.next;
            released = released + 1;
        }
        released
    }
}

/// A chunk of a well-formed list is on the free list exactly when its free
/// bit is set, and a free chunk is neither current nor referenced, and is
/// empty.
pub proof fn lemma_free_chunks_are_idle(list: ChunkList, c: Chunk)
    requires
        list.wf(),
        list.holds(c),
    ensures
        list.free_list@.contains(c.index) == list.spec_footer(c).spec_free(),
        list.spec_footer(c).spec_free() ==> {
            &&& !list.spec_footer(c).spec_current()
            &&& list.spec_footer(c).spec_refs() == 0
            &&& list.spec_footer(c).bump == list.spec_footer(c).end()
        },
{
    if list.free_list@.contains(c.index) {
        let k = choose|k: int| 0 <= k < list.free_list@.len() && list.free_list@[k] == c.index;
        assert(list.chunks@[list.free_list@[k] as int].spec_free());
    }
}

/// A well-formed list has at most one chunk with its current bit set.
pub proof fn lemma_at_most_one_current(list: ChunkList, a: Chunk, b: Chunk)
    requires
        list.wf(),
        list.holds(a),
        list.holds(b),
        list.spec_footer(a).spec_current(),
        list.spec_footer(b).spec_current(),
    ensures
        a == b,
{
    assert(list.chunks@[a.index as int].spec_current());
    assert(list.chunks@[b.index as int].spec_current());
}

} // verus!

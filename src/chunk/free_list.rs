use vstd::prelude::*;

use crate::chunk::footer::ChunkFooter;
use crate::chunk::Chunk;

verus! {

/// Why a chunk cannot go onto its free list.
#[derive(Debug, Clone, Copy, PartialEq, Eq, Structural)]
pub enum FreeError {
    /// The chunk is already on the free list.
    AlreadyFree,
    /// The chunk is the one its list allocates from.
    IsCurrent,
    /// The chunk still has this many live handles.
    HasReferences(u64),
}

/// What pushing a chunk in this state onto its free list gives.
pub open spec fn push_outcome(f: ChunkFooter) -> Result<(), FreeError> {
    if f.spec_free() {
        Err(FreeError::AlreadyFree)
    } else if f.spec_current() {
        Err(FreeError::IsCurrent)
    } else if f.spec_refs() != 0 {
        Err(FreeError::HasReferences(f.spec_refs()))
    } else {
        Ok(())
    }
}

/// The handle of the chunk at `index` in a list of chunks of `size` bytes.
pub open spec fn chunk_at(size: usize, index: usize) -> Chunk {
    Chunk { size, index }
}

/// The free-list link that the chunk at position `k` of `stack` must hold.
pub open spec fn link_below(stack: Seq<usize>, size: usize, k: int) -> Option<Chunk> {
    if k + 1 < stack.len() {
        Some(chunk_at(size, stack[k + 1]))
    } else {
        None
    }
}

/// `stack` lists, top first, the chunks whose free bit is set, and each of
/// them links to the one below it.
pub open spec fn free_chain(chunks: Seq<ChunkFooter>, stack: Seq<usize>, size: usize) -> bool {
    &&& stack.no_duplicates()
    &&& forall|k: int|
        0 <= k < stack.len() ==> {
            &&& #[trigger] stack[k] < chunks.len()
            &&& chunks[stack[k] as int].spec_free()
            &&& chunks[stack[k] as int].next_free == link_below(stack, size, k)
        }
    &&& forall|i: usize|
        i < chunks.len() && #[trigger] chunks[i as int].spec_free() ==> stack.contains(i)
}

/// Taking the top off a free chain, and clearing its free bit and link,
/// leaves a free chain.
proof fn lemma_pop_chain(
    before: Seq<ChunkFooter>,
    after: Seq<ChunkFooter>,
    stack: Seq<usize>,
    size: usize,
)
    requires
        free_chain(before, stack, size),
        stack.len() > 0,
        stack[0] < before.len(),
        after.len() == before.len(),
        after == before.update(stack[0] as int, after[stack[0] as int]),
        !after[stack[0] as int].spec_free(),
    ensures
        free_chain(after, stack.drop_first(), size),
{
    let top = stack[0];
    let rest = stack.drop_first();
    assert forall|k: int| 0 <= k < rest.len() implies {
        &&& #[trigger] rest[k] < after.len()
        &&& after[rest[k] as int].spec_free()
        &&& after[rest[k] as int].next_free == link_below(rest, size, k)
    } by {
        assert(rest[k] == stack[k + 1]);
        assert(stack[k + 1] != stack[0]);
        assert(link_below(rest, size, k) == link_below(stack, size, k + 1));
    }
    assert forall|j: usize| j < after.len() && #[trigger] after[j as int].spec_free() implies rest.contains(
        j,
    ) by {
        assert(j != top);
        assert(after[j as int] == before[j as int]);
        assert(stack.contains(j));
        let k = choose|k: int| 0 <= k < stack.len() && stack[k] == j;
        assert(k != 0);
        assert(rest[k - 1] == j);
    }
}

/// A chunk appended without its free bit leaves a free chain intact.
pub proof fn lemma_chain_extend(chunks: Seq<ChunkFooter>, stack: Seq<usize>, size: usize, f: ChunkFooter)
    requires
        free_chain(chunks, stack, size),
        !f.spec_free(),
    ensures
        free_chain(chunks.push(f), stack, size),
{
    let longer = chunks.push(f);
    assert forall|k: int| 0 <= k < stack.len() implies {
        &&& #[trigger] stack[k] < longer.len()
        &&& longer[stack[k] as int].spec_free()
        &&& longer[stack[k] as int].next_free == link_below(stack, size, k)
    } by {
        assert(longer[stack[k] as int] == chunks[stack[k] as int]);
    }
    assert forall|j: usize| j < longer.len() && #[trigger] longer[j as int].spec_free() implies stack.contains(j) by {
        assert(j < chunks.len());
        assert(longer[j as int] == chunks[j as int]);
    }
}

/// The top of an intrusive LIFO stack of reclaimable chunks, threaded
/// through the chunks' `next_free` links.
pub struct FreeList {
    pub top: Option<Chunk>,
    /// The positions of the chunks on the stack, top first.
    pub stack: Ghost<Seq<usize>>,
}

impl FreeList {
    pub open spec fn view(&self) -> Seq<usize> {
        self.stack@
    }

    pub open spec fn wf(&self, chunks: Seq<ChunkFooter>, size: usize) -> bool {
        &&& self.top == (if self@.len() == 0 {
            None
        } else {
            Some(chunk_at(size, self@[0]))
        })
        &&& free_chain(chunks, self@, size)
    }

    /// What `pop` does: nothing on an empty stack; else the top chunk
    /// leaves the stack with its free bit and its link cleared.
    pub open spec fn pop_effect(
        before: FreeList,
        chunks_before: Seq<ChunkFooter>,
        after: FreeList,
        chunks_after: Seq<ChunkFooter>,
        size: usize,
        r: Option<Chunk>,
    ) -> bool {
        &&& before@.len() == 0 ==> r is None && after@ == before@ && chunks_after == chunks_before
        &&& before@.len() > 0 ==> {
            let i = before@[0] as int;
            let f = chunks_before[i];
            let g = chunks_after[i];
            &&& r == Some(chunk_at(size, before@[0]))
            &&& after@ == before@.drop_first()
            &&& chunks_after == chunks_before.update(i, g)
            &&& !g.spec_free() && !g.spec_current() && g.spec_refs() == 0
            &&& g.next_free is None
            &&& g.size == f.size && g.index == f.index && g.start == f.start
            &&& g.bump == f.bump && g.next == f.next
        }
    }

    /// What `push` does: a chunk that may be pushed goes on top, free and
    /// empty, linked to the old top; any other is refused and nothing
    /// changes.
    pub open spec fn push_effect(
        before: FreeList,
        chunks_before: Seq<ChunkFooter>,
        after: FreeList,
        chunks_after: Seq<ChunkFooter>,
        chunk: Chunk,
        r: Result<(), FreeError>,
    ) -> bool {
        &&& r == push_outcome(chunks_before[chunk.index as int])
        &&& r is Err ==> after@ == before@ && chunks_after == chunks_before
        &&& r is Ok ==> {
            let i = chunk.index as int;
            let f = chunks_before[i];
            let g = chunks_after[i];
            &&& after@ == seq![chunk.index].add(before@)
            &&& chunks_after == chunks_before.update(i, g)
            &&& g.spec_free() && !g.spec_current() && g.spec_refs() == 0
            &&& g.next_free == before.top
            &&& g.size == f.size && g.index == f.index && g.start == f.start
            &&& g.bump == f.end() && g.next == f.next
        }
    }

    /// An empty free list.
    pub fn new() -> (r: Self)
        ensures
            r@ == Seq::<usize>::empty(),
            r.top is None,
    {
        FreeList { top: None, stack: Ghost(Seq::empty()) }
    }

    /// The chunk on top, if any.
    pub fn peek(&self) -> (r: Option<Chunk>)
        ensures
            r == self.top,
    {
        self.top
    }

    /// Says whether a chunk in this state may be pushed, and if not, why.
    pub fn can_push(chunk: &ChunkFooter) -> (r: Result<(), FreeError>)
        ensures
            r == push_outcome(*chunk),
    {
        if chunk.is_free() {
            return Err(FreeError::AlreadyFree);
        }
        if chunk.is_current() {
            return Err(FreeError::IsCurrent);
        }
        let refs = chunk.refs();
        if refs != 0 {
            return Err(FreeError::HasReferences(refs));
        }
        Ok(())
    }

    /// Takes the top chunk off the stack and clears its free bit.
    pub fn pop(&mut self, chunks: &mut Vec<ChunkFooter>, size: Ghost<usize>) -> (r: Option<Chunk>)
        requires
            old(self).wf(old(chunks)@, size@),
            forall|i: int| 0 <= i < old(chunks)@.len() ==> (#[trigger] old(chunks)@[i]).wf(),
        ensures
            final(chunks)@.len() == old(chunks)@.len(),
            final(self).wf(final(chunks)@, size@),
            forall|i: int| 0 <= i < final(chunks)@.len() ==> (#[trigger] final(chunks)@[i]).wf(),
            Self::pop_effect(*old(self), old(chunks)@, *final(self), final(chunks)@, size@, r),
    {
        let popped = self.top;
        match popped {
            None => None,
            Some(c) => {
                let ghost stack = self.stack@;
                let ghost i = stack[0];
                assert(c.index == i);
                let mut f = chunks[c.index];
                assert(f.spec_free());
                let next_free = f.next_free;
                f.next_free = None;
                f.toggle_free();
                chunks.set(c.index, f);
                self.top = next_free;
                self.stack = Ghost(stack.drop_first());
                proof {
                    lemma_pop_chain(old(chunks)@, chunks@, stack, size@);
                }
                popped
            },
        }
    }

    /// Pushes a chunk whose free bit, current bit and reference count are
    /// all clear, sets its free bit and empties it; any other chunk is
    /// refused.
    pub fn push(&mut self, chunks: &mut Vec<ChunkFooter>, chunk: Chunk) -> (r: Result<
        (),
        FreeError,
    >)
        requires
            old(self).wf(old(chunks)@, chunk.size),
            chunk.index < old(chunks)@.len(),
            forall|i: int| 0 <= i < old(chunks)@.len() ==> (#[trigger] old(chunks)@[i]).wf(),
        ensures
            r == push_outcome(old(chunks)@[chunk.index as int]),
            final(chunks)@.len() == old(chunks)@.len(),
            final(self).wf(final(chunks)@, chunk.size),
            forall|i: int| 0 <= i < final(chunks)@.len() ==> (#[trigger] final(chunks)@[i]).wf(),
            Self::push_effect(*old(self), old(chunks)@, *final(self), final(chunks)@, chunk, r),
    {
        let mut f = chunks[chunk.index];
        let check = Self::can_push(&f);
        if check.is_err() {
            return check;
        }
        let ghost stack = self.stack@;
        let ghost size = chunk.size;
        f.next_free = self.top;
        f.toggle_free();
        f.reset_bump();
        chunks.set(chunk.index, f);
        self.top = Some(chunk);
        self.stack = Ghost(seq![chunk.index].add(stack));
        proof {
            let new_stack = seq![chunk.index].add(stack);
            let i = chunk.index as int;
            assert(!stack.contains(chunk.index));
            assert forall|k: int| 0 <= k < new_stack.len() implies {
                &&& #[trigger] new_stack[k] < chunks@.len()
                &&& chunks@[new_stack[k] as int].spec_free()
                &&& chunks@[new_stack[k] as int].next_free == link_below(new_stack, size, k)
            } by {
                if k > 0 {
                    assert(new_stack[k] == stack[k - 1]);
                }
            }
            assert forall|j: usize|
                j < chunks@.len() && #[trigger] chunks@[j as int].spec_free() implies new_stack.contains(
                j,
            ) by {
                if j != chunk.index {
                    let k = choose|k: int| 0 <= k < stack.len() && stack[k] == j;
                    assert(new_stack[k + 1] == j);
                } else {
                    assert(new_stack[0] == j);
                }
            }
            assert(new_stack.no_duplicates()) by {
                assert forall|a: int, b: int|
                    0 <= a < new_stack.len() && 0 <= b < new_stack.len() && a != b implies new_stack[a]
                    != new_stack[b] by {
                    if a > 0 && b > 0 {
                        assert(new_stack[a] == stack[a - 1]);
                        assert(new_stack[b] == stack[b - 1]);
                    } else if a == 0 {
                        assert(new_stack[b] == stack[b - 1]);
                    } else {
                        assert(new_stack[a] == stack[a - 1]);
                    }
                }
            }
        }
        Ok(())
    }
}

/// Freeing a chunk right after popping it restores the free list: the same
/// stack, the same top, and the chunk free, empty and linked as before.
pub proof fn lemma_pop_then_free(
    list0: FreeList,
    chunks0: Seq<ChunkFooter>,
    list1: FreeList,
    chunks1: Seq<ChunkFooter>,
    list2: FreeList,
    chunks2: Seq<ChunkFooter>,
    size: usize,
    popped: Option<Chunk>,
    freed: Result<(), FreeError>,
)
    requires
        list0.wf(chunks0, size),
        forall|i: int| 0 <= i < chunks0.len() ==> (#[trigger] chunks0[i]).wf(),
        list1.wf(chunks1, size),
        FreeList::pop_effect(list0, chunks0, list1, chunks1, size, popped),
        popped is Some,
        FreeList::push_effect(list1, chunks1, list2, chunks2, popped->0, freed),
        list2.wf(chunks2, size),
    ensures
        freed is Ok,
        list2@ == list0@,
        list2.top == list0.top,
        chunks2.len() == chunks0.len(),
        forall|i: int| 0 <= i < chunks0.len() && i != list0@[0] ==> #[trigger] chunks2[i] == chunks0[i],
        chunks2[list0@[0] as int].spec_free(),
        chunks2[list0@[0] as int].bump == chunks0[list0@[0] as int].bump,
        chunks2[list0@[0] as int].next_free == chunks0[list0@[0] as int].next_free,
{
    let i = list0@[0] as int;
    assert(list0@.len() > 0);
    assert(chunks0[i].spec_free());
    assert(list2@ =~= list0@);
    assert(chunks0[i].next_free == link_below(list0@, size, 0));
    assert(list1.top == (if list1@.len() == 0 {
        None
    } else {
        Some(chunk_at(size, list1@[0]))
    }));
    if list1@.len() > 0 {
        assert(list1@[0] == list0@[1]);
    }
}

} // verus!

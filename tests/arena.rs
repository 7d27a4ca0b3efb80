use chunk_arena::chunk::{Chunk, ChunkList, FreeError, FreeList};
use chunk_arena::layout::Layout;
use chunk_arena::ptr::{Boxed, Ref, RefMut};
use chunk_arena::{Arena, MIN_BLOCK_SIZE};

fn block32() -> Layout {
    Layout { size: 32, align: 8 }
}

#[test]
fn pow() {
    let mut arena = Arena::new();
    for _ in 0..2 {
        let boxes: Vec<_> = (0..10)
            .map(|_| arena.alloc_slice_fill_copy(128, &0xFF_u8))
            .collect();
        for b in boxes {
            assert_eq!(b.get().len(), 128);
            assert!(b.get().iter().all(|&x| x == 0xFF));
            b.release(&mut arena);
        }
        assert_eq!(arena.lists[0].len, 5);
    }
    assert_eq!(arena.drop_lists(), vec![5]);
}

#[test]
fn single_allocation_cycle_current_path() {
    let mut arena = Arena::new();
    let h = arena.alloc_value(0xDEADBEEF_u32);
    assert_eq!(*h.get(), 0xDEADBEEF);
    let chunk = h.as_ptr().chunk();
    assert_eq!(arena.footer(chunk).refs(), 1);
    h.release(&mut arena);
    let f = arena.footer(chunk);
    assert_eq!(f.refs(), 0);
    assert!(f.is_current());
    assert!(!f.is_free());
    assert_eq!(f.bump, f.start + f.size);
}

#[test]
fn current_chunk_exhaustion() {
    assert_eq!(MIN_BLOCK_SIZE, 256);
    let mut arena = Arena::new();
    let mut handles = Vec::new();
    for i in 0..8u64 {
        handles.push(arena.alloc_value([i; 4]));
    }
    let first = handles[0].as_ptr().chunk();
    for (i, h) in handles.iter().enumerate() {
        assert_eq!(h.as_ptr().chunk(), first);
        if i > 0 {
            assert_eq!(h.as_raw() + 32, handles[i - 1].as_raw());
        }
    }
    let ninth = arena.alloc_value([9u64; 4]);
    assert_ne!(ninth.as_ptr().chunk(), first);
    let f = arena.footer(first);
    assert!(!f.is_current());
    assert!(!f.is_free());
    assert_eq!(f.refs(), 8);
    assert!(arena.footer(ninth.as_ptr().chunk()).is_current());
}

#[test]
fn reclamation_after_current_displacement() {
    let mut arena = Arena::new();
    let mut handles = Vec::new();
    for i in 0..8u64 {
        handles.push(arena.alloc_value([i; 4]));
    }
    let first = handles[0].as_ptr().chunk();
    let ninth = arena.alloc_value([9u64; 4]);
    for h in handles {
        h.release(&mut arena);
    }
    let f = arena.footer(first);
    assert_eq!(f.refs(), 0);
    assert_eq!(f.bump, f.start + f.size);
    assert!(f.is_free());
    assert_eq!(arena.lists[0].free_top(), Some(first));
    ninth.release(&mut arena);
}

#[test]
fn free_list_lifo() {
    let mut list = ChunkList::new(256);
    assert_eq!(list.len, 4);
    assert_eq!(list.free_top(), Some(Chunk { size: 256, index: 3 }));
    let whole = Layout { size: 256, align: 8 };
    let p = list.allocate(whole);
    assert_eq!(p.chunk().index, 3);
    list.add_ref(p.chunk());
    let q = list.allocate(whole);
    assert_eq!(q.chunk().index, 2);
    list.add_ref(q.chunk());
    list.remove_ref(p.chunk());
    assert_eq!(list.free_top(), Some(p.chunk()));
    list.remove_ref(q.chunk());
    let r = list.allocate(whole);
    // the current chunk was emptied when its last reference went
    assert_eq!(r.chunk().index, 2);
    list.add_ref(r.chunk());
    let s = list.allocate(block32());
    assert_eq!(s.chunk().index, 3);
    assert_eq!(list.len, 4);
}

#[test]
fn refcount_sharing() {
    let mut arena = Arena::new();
    let b = arena.alloc_value(77u64);
    let chunk = b.as_ptr().chunk();
    let addr = b.as_raw();
    let r = b.into_ref();
    let c1 = r.clone_in(&mut arena);
    let c2 = r.clone_in(&mut arena);
    let c3 = r.clone_in(&mut arena);
    assert_eq!(arena.footer(chunk).refs(), 4);
    r.release(&mut arena);
    c1.release(&mut arena);
    assert_eq!(arena.footer(chunk).refs(), 2);
    assert_eq!(*c2.get(), 77);
    assert_eq!(*c3.get(), 77);
    assert_eq!(c2.as_raw(), addr);
    c2.release(&mut arena);
    c3.release(&mut arena);
    assert_eq!(arena.footer(chunk).refs(), 0);
}

#[test]
fn double_free_rejection() {
    let mut list = ChunkList::new(256);
    let p = list.allocate(block32());
    let x = p.chunk();
    list.add_ref(x);
    list.add_ref(x);
    assert_eq!(x.free(&mut list), Err(FreeError::IsCurrent));
    let q = list.allocate(Layout { size: 256, align: 8 });
    assert_ne!(q.chunk(), x);
    assert_eq!(x.free(&mut list), Err(FreeError::HasReferences(2)));
    list.remove_ref(x);
    assert_eq!(x.free(&mut list), Err(FreeError::HasReferences(1)));
    list.remove_ref(x);
    // the last reference put it on the free list already
    assert_eq!(x.free(&mut list), Err(FreeError::AlreadyFree));
    let y = q.chunk();
    list.add_ref(y);
    let z = list.allocate(Layout { size: 256, align: 8 });
    list.add_ref(z.chunk());
    // y is displaced, referenced once; hand the reference back by hand
    assert_eq!(y.free(&mut list), Err(FreeError::HasReferences(1)));
}

#[test]
fn manual_free_twice() {
    let mut list = ChunkList::new(256);
    let p = list.allocate(block32());
    let x = p.chunk();
    // displace x without ever taking a reference on it
    let q = list.allocate(Layout { size: 256, align: 8 });
    assert_ne!(q.chunk(), x);
    assert_eq!(x.free(&mut list), Ok(()));
    assert_eq!(x.free(&mut list), Err(FreeError::AlreadyFree));
    let f = list.footer(x);
    assert!(f.is_free());
    assert_eq!(f.bump, f.start + f.size);
}

#[test]
fn pop_then_push_restores_free_list() {
    let mut list = ChunkList::new(256);
    let top = list.free_top();
    let mut fl = FreeList::new();
    assert_eq!(fl.peek(), None);
    std::mem::swap(&mut fl, &mut list.free_list);
    std::mem::swap(&mut fl, &mut list.free_list);
    let p = list.allocate(block32());
    assert_eq!(Some(p.chunk()), top);
    let q = list.allocate(Layout { size: 256, align: 8 });
    assert_eq!(p.chunk().free(&mut list), Ok(()));
    assert_eq!(list.free_top(), top);
    assert_eq!(q.chunk().index, 2);
}

#[test]
fn conversions_keep_the_count() {
    let mut arena = Arena::new();
    let b = arena.alloc_value(5u16);
    let chunk = b.as_ptr().chunk();
    let addr = b.as_raw();
    let r = b.into_ref();
    assert_eq!(arena.footer(chunk).refs(), 1);
    let m = RefMut::from_box(Boxed::from_mut(RefMut::from_ptr(r.as_ptr(), *r.get())));
    assert_eq!(arena.footer(chunk).refs(), 1);
    assert_eq!(m.as_raw(), addr);
    let back = Ref::from_mut(m);
    assert_eq!(*back.get(), 5);
    back.release(&mut arena);
    assert_eq!(arena.footer(chunk).refs(), 0);
    let _ = r.leak();
}

#[test]
fn pointers_are_aligned_and_inside() {
    let mut list = ChunkList::new(512);
    let layouts = [
        Layout { size: 3, align: 1 },
        Layout { size: 8, align: 8 },
        Layout { size: 5, align: 16 },
        Layout { size: 64, align: 64 },
    ];
    let mut prev: Option<(usize, usize)> = None;
    for l in layouts.iter() {
        let p = list.allocate(*l);
        let f = list.footer(p.chunk());
        assert_eq!(p.as_raw() % l.align, 0);
        assert!(p.as_raw() >= f.start);
        assert!(p.as_raw() + l.size <= f.start + f.size);
        if let Some((a, s)) = prev {
            assert!(p.as_raw() + l.size <= a || a + s <= p.as_raw());
        }
        prev = Some((p.as_raw(), l.size));
    }
    // first block: 1024 - 3 = 1021; then 1021 - 8 = 1013 -> 1008; 1008 - 5 = 1003 -> 992; 992 - 64 = 928 -> 896
    assert_eq!(prev, Some((896, 64)));
}

#[test]
fn size_classes() {
    let mut arena = Arena::new();
    assert_eq!(arena.max_size(), 0);
    let b = arena.alloc_layout(Layout { size: 300, align: 4 });
    assert_eq!(b.get().len(), 300);
    assert!(b.get().iter().all(|&x| x == 0));
    assert_eq!(b.as_ptr().chunk().size, 512);
    assert_eq!(arena.max_size(), 512);
    assert_eq!(arena.lists.len(), 2);
    let big_align = arena.alloc_layout(Layout { size: 8, align: 1024 });
    assert_eq!(big_align.as_ptr().chunk().size, 1024);
    assert_eq!(big_align.as_raw() % 1024, 0);
    arena.reserve_next(1);
    assert_eq!(arena.max_size(), 2048);
    b.release(&mut arena);
    big_align.release(&mut arena);
}

#[test]
fn slices_and_strings() {
    let mut arena = Arena::new();
    let s = arena.alloc_str("hello");
    assert_eq!(s.get().as_str(), "hello");
    let c = arena.alloc_slice_copy(&[1u32, 2, 3]);
    assert_eq!(c.get(), &vec![1, 2, 3]);
    let k = arena.alloc_slice_clone(&[String::from("a"), String::from("b")]);
    assert_eq!(k.get(), &vec![String::from("a"), String::from("b")]);
    let f = arena.alloc_slice_fill_clone(2, &String::from("x"));
    assert_eq!(f.get(), &vec![String::from("x"), String::from("x")]);
    let d = arena.alloc_slice_fill_default::<u8>(4);
    assert_eq!(d.get(), &vec![0u8; 4]);
    let w = arena.alloc_slice_fill_with(4, |i| i * 10);
    assert_eq!(w.get(), &vec![0, 10, 20, 30]);
    s.release(&mut arena);
    c.release(&mut arena);
    k.release(&mut arena);
    f.release(&mut arena);
    d.release(&mut arena);
    w.release(&mut arena);
}

#[test]
fn uninit_slot() {
    let mut arena = Arena::new();
    let slot = arena.alloc_value(std::mem::MaybeUninit::<u64>::uninit());
    let addr = slot.as_raw();
    let v = slot.init_with(42u64);
    assert_eq!(*v.get(), 42);
    assert_eq!(v.as_raw(), addr);
    v.release(&mut arena);
}

#[test]
fn layouts() {
    let l = Layout::new::<u32>();
    assert_eq!(l, Layout { size: 4, align: 4 });
    assert_eq!(Layout::array::<u16>(5), Some(Layout { size: 10, align: 2 }));
    assert_eq!(Layout::array::<u64>(usize::MAX), None);
}

#[test]
fn teardown_releases_every_chunk() {
    let mut list = ChunkList::with_capacity(256, 2);
    let p = list.allocate(block32());
    list.add_ref(p.chunk());
    list.reserve(3);
    assert_eq!(list.len, 5);
    list.remove_ref(p.chunk());
    assert_eq!(list.drop_chain(), 5);
}

#[test]
fn flags_word() {
    let mut list = ChunkList::empty(256);
    assert_eq!(list.len, 0);
    assert_eq!(list.free_top(), None);
    let p = list.allocate(block32());
    assert_eq!(list.len, 1);
    list.add_ref(p.chunk());
    let f = list.footer(p.chunk());
    assert_eq!(f.flags(), (1u64 << 63) | 1);
    assert!(f.is_current());
    assert_eq!(FreeList::can_push(f), Err(FreeError::IsCurrent));
}

#[test]
fn room_and_pointer_counts() {
    let mut arena = Arena::new();
    assert!(arena.check_room());
    let b = arena.alloc_value(1u8);
    assert!(arena.check_room());
    let p = b.as_ptr();
    assert_eq!(p.add_ref(&mut arena), 1);
    assert_eq!(p.remove_ref(&mut arena), 2);
    assert_eq!(arena.footer(p.chunk()).refs(), 1);
    b.release(&mut arena);
    assert_eq!(arena.footer(p.chunk()).refs(), 0);
}

#[test]
fn footer_flag_toggles() {
    let mut f = chunk_arena::chunk::ChunkFooter::new(256, 256, 0, None);
    assert_eq!(f.bump, 512);
    assert_eq!(f.flags(), 0);
    f.toggle_free();
    assert!(f.is_free());
    assert_eq!(f.flags(), 1u64 << 62);
    f.toggle_free();
    f.toggle_current();
    assert!(f.is_current() && !f.is_free());
    assert_eq!(f.add_ref(), 0);
    assert_eq!(f.add_ref(), 1);
    assert_eq!(f.remove_ref(), 2);
    assert_eq!(f.refs(), 1);
    assert!(f.can_fit(Layout { size: 256, align: 256 }));
    assert!(!f.can_fit(Layout { size: 257, align: 1 }));
    assert_eq!(f.calc_pointer(10, 4), Some(500));
    assert_eq!(f.alloc_layout(Layout { size: 10, align: 4 }), 500);
    f.reset_bump();
    assert_eq!(f.bump, 512);
}

#[test]
fn single_allocation_cycle_displaced_path() {
    let mut arena = Arena::new();
    let h = arena.alloc_value(0xDEADBEEF_u32);
    let c = h.as_ptr().chunk();
    let g = arena.alloc_value([0u8; 256]);
    assert_ne!(g.as_ptr().chunk(), c);
    h.release(&mut arena);
    let f = arena.footer(c);
    assert_eq!(f.refs(), 0);
    assert_eq!(f.bump, f.start + f.size);
    assert!(!f.is_current());
    assert!(f.is_free());
    assert_eq!(arena.lists[0].free_top(), Some(c));
    g.release(&mut arena);
}

#[test]
fn arena_free_list_lifo() {
    let mut arena = Arena::new();
    let h1 = arena.alloc_value([0u8; 256]);
    let h2 = arena.alloc_value([0u8; 256]);
    let d = h1.as_ptr().chunk();
    assert_eq!(d.index, 3);
    assert_eq!(h2.as_ptr().chunk().index, 2);
    h1.release(&mut arena);
    let h3 = arena.alloc_value([0u8; 256]);
    assert_eq!(h3.as_ptr().chunk(), d);
    assert_eq!(arena.lists[0].len, 4);
    h2.release(&mut arena);
    h3.release(&mut arena);
}

#[test]
fn classes_grow_up_to_the_one_served() {
    let mut arena = Arena::new();
    let b = arena.alloc_layout(Layout { size: 1000, align: 8 });
    assert_eq!(b.as_ptr().chunk().size, 1024);
    assert_eq!(arena.lists.len(), 3);
    for (i, l) in arena.lists.iter().enumerate() {
        assert_eq!(l.size, 256 << i);
        assert_eq!(l.len, 4);
    }
    let small = arena.alloc_value(1u8);
    assert_eq!(arena.lists.len(), 3);
    b.release(&mut arena);
    small.release(&mut arena);
    assert_eq!(arena.drop_lists(), vec![4, 4, 4]);
}

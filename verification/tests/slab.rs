use slab_heap::extent::Extent;
use slab_heap::layout::is_power_of_two;
use slab_heap::{Layout, LayoutError, OutOfMemory, Slab};

#[test]
fn fresh_class_hands_out_blocks_from_the_lowest_up() {
    let mut slab = Slab::new(0x1000, 1024, 256);
    assert_eq!(slab.block_size(), 256);
    assert_eq!(slab.free_blocks(), 4);
    assert_eq!(slab.allocate(), Ok(0x1000));
    assert_eq!(slab.allocate(), Ok(0x1100));
    assert_eq!(slab.allocate(), Ok(0x1200));
    assert_eq!(slab.allocate(), Ok(0x1300));
    assert_eq!(slab.free_blocks(), 0);
    assert_eq!(slab.allocate(), Err(OutOfMemory));
    assert_eq!(slab.free_blocks(), 0);
}

#[test]
fn class_of_one_block() {
    let mut slab = Slab::new(4096, 4096, 4096);
    assert_eq!(slab.free_blocks(), 1);
    assert_eq!(slab.allocate(), Ok(4096));
    assert_eq!(slab.allocate(), Err(OutOfMemory));
    slab.deallocate(4096);
    assert_eq!(slab.allocate(), Ok(4096));
}

#[test]
fn blocks_of_one_word() {
    let word = std::mem::size_of::<usize>();
    let mut slab = Slab::new(16 * word, 3 * word, word);
    assert_eq!(slab.allocate(), Ok(16 * word));
    assert_eq!(slab.allocate(), Ok(17 * word));
    assert_eq!(slab.allocate(), Ok(18 * word));
    assert_eq!(slab.allocate(), Err(OutOfMemory));
}

#[test]
fn class_at_the_top_of_the_address_space() {
    let start = usize::MAX - 255;
    let mut slab = Slab::new(start, 192, 64);
    assert_eq!(slab.allocate(), Ok(start));
    assert_eq!(slab.allocate(), Ok(start + 64));
    assert_eq!(slab.allocate(), Ok(start + 128));
    assert_eq!(slab.allocate(), Err(OutOfMemory));
    assert!(!slab.owns(start + 192));
}

#[test]
fn freed_block_becomes_the_head() {
    let mut slab = Slab::new(0, 512, 64);
    let a = slab.allocate().unwrap();
    let b = slab.allocate().unwrap();
    let c = slab.allocate().unwrap();
    assert_eq!((a, b, c), (0, 64, 128));
    slab.deallocate(b);
    assert_eq!(slab.free_blocks(), 6);
    slab.deallocate(a);
    assert_eq!(slab.allocate(), Ok(a));
    assert_eq!(slab.allocate(), Ok(b));
    assert_eq!(slab.allocate(), Ok(192));
}

#[test]
fn class_tells_its_blocks_and_which_are_handed_out() {
    let mut slab = Slab::new(0x2000, 256, 64);
    assert!(slab.owns(0x2000));
    assert!(slab.owns(0x20c0));
    assert!(!slab.owns(0x2100));
    assert!(!slab.owns(0x1fc0));
    assert!(!slab.owns(0x2001));
    assert!(!slab.owns(0x2020));
    assert!(!slab.is_allocated(0x2000));
    let ptr = slab.allocate().unwrap();
    assert!(slab.is_allocated(ptr));
    assert!(!slab.is_allocated(ptr + 64));
    assert!(!slab.is_allocated(ptr + 1));
    assert!(!slab.is_allocated(0x2100));
    slab.deallocate(ptr);
    assert!(!slab.is_allocated(ptr));
}

#[test]
fn grown_class_puts_the_new_blocks_first() {
    let mut slab = Slab::new(0x1000, 128, 64);
    assert_eq!(slab.allocate(), Ok(0x1000));
    assert!(slab.can_grow(0x8000, 192));
    slab.grow(0x8000, 192);
    assert_eq!(slab.free_blocks(), 4);
    assert!(slab.owns(0x8080));
    assert!(!slab.owns(0x80c0));
    assert_eq!(slab.allocate(), Ok(0x8000));
    assert_eq!(slab.allocate(), Ok(0x8040));
    assert_eq!(slab.allocate(), Ok(0x8080));
    assert_eq!(slab.allocate(), Ok(0x1040));
    assert_eq!(slab.allocate(), Err(OutOfMemory));
    slab.deallocate(0x8040);
    slab.deallocate(0x1000);
    assert_eq!(slab.allocate(), Ok(0x1000));
    assert_eq!(slab.allocate(), Ok(0x8040));
}

#[test]
fn class_grows_twice_and_below_its_first_range() {
    let mut slab = Slab::new(0x4000, 64, 64);
    slab.grow(0x1000, 64);
    slab.grow(0x2000, 128);
    assert_eq!(slab.allocate(), Ok(0x2000));
    assert_eq!(slab.allocate(), Ok(0x2040));
    assert_eq!(slab.allocate(), Ok(0x1000));
    assert_eq!(slab.allocate(), Ok(0x4000));
    assert_eq!(slab.allocate(), Err(OutOfMemory));
}

#[test]
fn class_refuses_ranges_it_cannot_take() {
    let slab = Slab::new(0x1000, 256, 64);
    assert!(!slab.can_grow(0x1000, 64));
    assert!(!slab.can_grow(0x10c0, 128));
    assert!(!slab.can_grow(0x0fc0, 128));
    assert!(!slab.can_grow(0x0f00, 0x400));
    assert!(!slab.can_grow(0x2000, 0));
    assert!(!slab.can_grow(0x2000, 96));
    assert!(!slab.can_grow(0x2020, 64));
    assert!(!slab.can_grow(usize::MAX - 63, 128));
    assert!(slab.can_grow(0x1100, 64));
    assert!(slab.can_grow(0x0fc0, 64));
    assert!(slab.can_grow(0, 64));
    assert!(slab.is_disjoint_from(&Extent { start: 0x1100, length: 1 }));
    assert!(!slab.is_disjoint_from(&Extent { start: 0x10ff, length: 1 }));
}

#[test]
fn free_and_allocated_blocks_make_up_the_class() {
    let mut slab = Slab::new(0x1000, 512, 64);
    slab.grow(0x3000, 256);
    let slots: Vec<usize> =
        (0..8).map(|i| 0x1000 + i * 64).chain((0..4).map(|i| 0x3000 + i * 64)).collect();
    let mut held = Vec::new();
    for round in 0..40 {
        if round % 3 == 2 {
            if let Some(ptr) = held.pop() {
                slab.deallocate(ptr);
            }
        } else if let Ok(ptr) = slab.allocate() {
            assert!(!held.contains(&ptr));
            held.push(ptr);
        }
        let allocated = slots.iter().filter(|s| slab.is_allocated(**s)).count();
        assert_eq!(allocated, held.len());
        assert_eq!(allocated + slab.free_blocks(), slots.len());
        assert!(slots.iter().all(|s| slab.owns(*s)));
        assert!(held.iter().all(|p| slab.is_allocated(*p)));
        assert!(slab.free_blocks() <= slots.len());
    }
}

#[test]
fn extents_tell_overlap_from_touching() {
    let a = Extent { start: 100, length: 50 };
    assert!(a.is_disjoint(&Extent { start: 150, length: 10 }));
    assert!(a.is_disjoint(&Extent { start: 50, length: 50 }));
    assert!(!a.is_disjoint(&Extent { start: 149, length: 1 }));
    assert!(!a.is_disjoint(&Extent { start: 0, length: 101 }));
    assert!(!a.is_disjoint(&Extent { start: 110, length: 10 }));
    assert!(!a.is_disjoint(&Extent { start: 0, length: 1000 }));
    assert!(!a.is_disjoint(&a));
    assert!(a.is_disjoint(&Extent { start: 100, length: 0 }));
    assert!(!a.is_disjoint(&Extent { start: 120, length: 0 }));
    assert!(Extent { start: 100, length: 0 }.is_disjoint(&a));
    assert!(a.is_disjoint(&Extent { start: usize::MAX, length: usize::MAX }));
}

#[test]
fn extents_tell_where_blocks_start() {
    let e = Extent { start: 128, length: 256 };
    assert!(e.is_aligned_to(64));
    assert!(e.is_aligned_to(128));
    assert!(!e.is_aligned_to(256));
    assert!(!e.is_aligned_to(0));
    assert!(!e.is_aligned_to(96));
    assert!(!Extent { start: 128, length: 0 }.is_aligned_to(64));
    assert!(!Extent { start: usize::MAX - 63, length: 64 }.is_aligned_to(64));
    assert!(Extent { start: usize::MAX - 127, length: 64 }.is_aligned_to(64));
    assert!(e.starts_block(64, 128));
    assert!(e.starts_block(64, 320));
    assert!(!e.starts_block(64, 384));
    assert!(!e.starts_block(64, 64));
    assert!(!e.starts_block(64, 129));
    assert!(!e.starts_block(128, 192));
}

#[test]
fn powers_of_two_are_told_apart() {
    for e in 0..usize::BITS {
        assert!(is_power_of_two(1 << e));
    }
    for n in [0, 3, 5, 6, 7, 9, 12, 96, 4095, 4097, usize::MAX, usize::MAX - 1] {
        assert!(!is_power_of_two(n), "{}", n);
    }
}

#[test]
fn layout_keeps_size_and_alignment() {
    let layout = Layout::from_size_align(48, 128).unwrap();
    assert_eq!(layout.size(), 48);
    assert_eq!(layout.align(), 128);
    let empty = Layout::from_size_align(0, 1).unwrap();
    assert_eq!((empty.size(), empty.align()), (0, 1));
    let top = Layout::from_size_align(usize::MAX, 1 << (usize::BITS - 1)).unwrap();
    assert_eq!((top.size(), top.align()), (usize::MAX, 1 << (usize::BITS - 1)));
}

#[test]
fn layout_needs_a_power_of_two() {
    assert_eq!(Layout::from_size_align(8, 0), Err(LayoutError));
    assert_eq!(Layout::from_size_align(8, 3), Err(LayoutError));
    assert_eq!(Layout::from_size_align(8, 48), Err(LayoutError));
    assert_eq!(Layout::from_size_align(0, usize::MAX), Err(LayoutError));
    assert!(Layout::from_size_align(8, 1).is_ok());
    assert!(Layout::from_size_align(8, 4096).is_ok());
}

#[test]
fn head_is_what_the_next_allocation_takes() {
    let mut slab = Slab::new(0x1000, 128, 64);
    assert_eq!(slab.head(), Some(0x1000));
    assert_eq!(slab.head(), Some(0x1000));
    assert_eq!(slab.free_blocks(), 2);
    assert_eq!(slab.allocate(), Ok(0x1000));
    assert_eq!(slab.head(), Some(0x1040));
    assert_eq!(slab.allocate(), Ok(0x1040));
    assert_eq!(slab.head(), None);
    slab.deallocate(0x1000);
    assert_eq!(slab.head(), Some(0x1000));
}

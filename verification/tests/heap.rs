use slab_heap::{
    Allocation, Extent, Heap, HeapAllocator, Layout, OutOfMemory, MIN_HEAP_SIZE, MIN_SLAB_SIZE,
    NUM_OF_SLABS,
};

const HEAP_SIZE: usize = 8 * 4096;
const BIG_HEAP_SIZE: usize = HEAP_SIZE * 10;

const CLASSES: [HeapAllocator; 7] = [
    HeapAllocator::Slab64,
    HeapAllocator::Slab128,
    HeapAllocator::Slab256,
    HeapAllocator::Slab512,
    HeapAllocator::Slab1024,
    HeapAllocator::Slab2048,
    HeapAllocator::Slab4096,
];

/// A buffer with room for `size` bytes from a page boundary on, and the
/// address of that boundary.
fn page_aligned_space(size: usize) -> (Vec<u8>, usize) {
    let buffer = vec![0u8; size + 4096];
    let addr = buffer.as_ptr() as usize;
    let start = (addr + 4095) / 4096 * 4096;
    (buffer, start)
}

fn layout(size: usize, align: usize) -> Layout {
    Layout::from_size_align(size, align).unwrap()
}

fn block(heap: &mut Heap, size: usize, align: usize) -> usize {
    match heap.allocate(layout(size, align)) {
        Ok(Allocation::Block(ptr)) => ptr,
        other => panic!("no block: {:?}", other),
    }
}

fn free_blocks(heap: &Heap, which: HeapAllocator) -> usize {
    heap.class_ref(which).unwrap().free_blocks()
}

#[test]
fn new_heap() {
    let (_space, start) = page_aligned_space(HEAP_SIZE);
    let heap = Heap::new(start, HEAP_SIZE);
    for (i, which) in CLASSES.iter().enumerate() {
        let slab = heap.class_ref(*which).unwrap();
        let block_size = which.block_size().unwrap();
        assert_eq!(slab.block_size(), block_size);
        assert_eq!(slab.free_blocks(), 4096 / block_size);
        assert!(slab.owns(start + i * 4096));
        assert!(!slab.owns(start + (i + 1) * 4096));
    }
    assert!(heap.class_ref(HeapAllocator::Large).is_none());
    assert_eq!(heap.large_region(), Extent { start: start + 7 * 4096, length: 4096 });
}

#[test]
fn new_big_heap() {
    let (_space, start) = page_aligned_space(BIG_HEAP_SIZE);
    let heap = Heap::new(start, BIG_HEAP_SIZE);
    let part = BIG_HEAP_SIZE / 8;
    assert_eq!(part, 40960);
    for (i, which) in CLASSES.iter().enumerate() {
        let slab = heap.class_ref(*which).unwrap();
        assert_eq!(slab.free_blocks(), part / which.block_size().unwrap());
        assert!(slab.owns(start + i * part));
        assert!(slab.owns(start + (i + 1) * part - which.block_size().unwrap()));
        assert!(!slab.owns(start + (i + 1) * part));
    }
    assert_eq!(heap.large_region(), Extent { start: start + 7 * part, length: part });
}

#[test]
fn allocate_one_4096_block() {
    let (_space, start) = page_aligned_space(BIG_HEAP_SIZE);
    let mut heap = Heap::new(start, BIG_HEAP_SIZE);
    let base_size = std::mem::size_of::<u64>();
    let base_align = std::mem::align_of::<u64>();

    let layout = Layout::from_size_align(base_size * 512, base_align).unwrap();

    let x = heap.allocate(layout.clone()).unwrap();
    let ptr = match x {
        Allocation::Block(ptr) => ptr,
        Allocation::Large => panic!("a request of 4096 bytes belongs to a class"),
    };
    assert_eq!(ptr, start + 6 * (BIG_HEAP_SIZE / 8));
    assert!(heap.is_allocated(ptr, &layout));

    heap.deallocate(ptr, layout.clone());
    assert!(!heap.is_allocated(ptr, &layout));
    assert_eq!(free_blocks(&heap, HeapAllocator::Slab4096), 10);
}

#[test]
fn constants_fit_together() {
    assert_eq!(NUM_OF_SLABS, 8);
    assert_eq!(MIN_SLAB_SIZE, 4096);
    assert_eq!(MIN_HEAP_SIZE, 32768);
}

#[test]
fn small_request_comes_from_the_first_page() {
    let (_space, a) = page_aligned_space(HEAP_SIZE);
    let mut heap = Heap::new(a, HEAP_SIZE);
    let ptr = block(&mut heap, 8, 8);
    assert!(a <= ptr && ptr < a + 4096);
    assert_eq!(ptr % 64, 0);
    assert_eq!(ptr, a);
}

#[test]
fn page_block_is_reused_ten_times_and_once_more() {
    let (_space, start) = page_aligned_space(BIG_HEAP_SIZE);
    let mut heap = Heap::new(start, BIG_HEAP_SIZE);
    let l = layout(4096, 8);
    assert_eq!(Heap::layout_to_allocator(&l), HeapAllocator::Slab4096);
    let mut first = None;
    for _ in 0..10 {
        let ptr = block(&mut heap, 4096, 8);
        assert_eq!(*first.get_or_insert(ptr), ptr);
        heap.deallocate(ptr, l);
    }
    let ptr = block(&mut heap, 4096, 8);
    assert_eq!(Some(ptr), first);
}

#[test]
fn alignment_moves_a_short_request_up_a_class() {
    let (_space, start) = page_aligned_space(HEAP_SIZE);
    let mut heap = Heap::new(start, HEAP_SIZE);
    let l = layout(48, 128);
    assert_eq!(Heap::layout_to_allocator(&l), HeapAllocator::Slab128);
    let ptr = block(&mut heap, 48, 128);
    assert_eq!(ptr % 128, 0);
    assert_eq!(ptr, start + 4096);
    assert_eq!(free_blocks(&heap, HeapAllocator::Slab64), 64);
    assert_eq!(free_blocks(&heap, HeapAllocator::Slab128), 31);
}

#[test]
fn long_request_is_left_to_the_large_allocator() {
    let (_space, start) = page_aligned_space(HEAP_SIZE);
    let mut heap = Heap::new(start, HEAP_SIZE);
    let long = layout(8192, 8);
    assert_eq!(Heap::layout_to_allocator(&long), HeapAllocator::Large);
    assert_eq!(heap.allocate(long), Ok(Allocation::Large));
    for which in CLASSES {
        assert_eq!(free_blocks(&heap, which), 4096 / which.block_size().unwrap());
    }
    assert_eq!(heap.allocate(layout(64, 64)), Ok(Allocation::Block(start)));
    heap.deallocate(0, long);
    assert_eq!(free_blocks(&heap, HeapAllocator::Slab64), 63);
}

#[test]
fn class_is_exhausted_after_its_last_block() {
    let (_space, start) = page_aligned_space(HEAP_SIZE);
    let mut heap = Heap::new(start, HEAP_SIZE);
    let l = layout(64, 64);
    let k = 4096 / 64;
    let mut blocks = Vec::new();
    for i in 0..k {
        assert_eq!(heap.allocate(l), Ok(Allocation::Block(start + i * 64)));
        blocks.push(start + i * 64);
    }
    assert_eq!(heap.allocate(l), Err(OutOfMemory));
    assert_eq!(heap.allocate(l), Err(OutOfMemory));
    assert_eq!(free_blocks(&heap, HeapAllocator::Slab64), 0);
    heap.deallocate(blocks[17], l);
    assert_eq!(heap.allocate(l), Ok(Allocation::Block(blocks[17])));
    assert_eq!(heap.allocate(l), Err(OutOfMemory));
}

#[test]
fn every_class_is_exhausted_after_its_share() {
    let (_space, start) = page_aligned_space(BIG_HEAP_SIZE);
    let mut heap = Heap::new(start, BIG_HEAP_SIZE);
    for which in CLASSES {
        let size = which.block_size().unwrap();
        let k = BIG_HEAP_SIZE / 8 / size;
        for _ in 0..k {
            assert!(matches!(heap.allocate(layout(size, 8)), Ok(Allocation::Block(_))));
        }
        assert_eq!(heap.allocate(layout(size, 8)), Err(OutOfMemory));
    }
}

#[test]
fn routing_follows_the_table() {
    let cases = [
        (0, 1, HeapAllocator::Slab64),
        (1, 1, HeapAllocator::Slab64),
        (64, 64, HeapAllocator::Slab64),
        (65, 1, HeapAllocator::Slab128),
        (8, 128, HeapAllocator::Slab128),
        (128, 128, HeapAllocator::Slab128),
        (129, 64, HeapAllocator::Slab256),
        (256, 256, HeapAllocator::Slab256),
        (257, 8, HeapAllocator::Slab512),
        (512, 512, HeapAllocator::Slab512),
        (513, 8, HeapAllocator::Slab1024),
        (1024, 1024, HeapAllocator::Slab1024),
        (1025, 8, HeapAllocator::Slab2048),
        (2048, 2048, HeapAllocator::Slab2048),
        (2049, 8, HeapAllocator::Slab4096),
        (8, 4096, HeapAllocator::Slab4096),
        (4096, 4096, HeapAllocator::Slab4096),
        (4097, 1, HeapAllocator::Large),
        (8192, 8, HeapAllocator::Large),
        (1 << 20, 4096, HeapAllocator::Large),
    ];
    for (size, align, which) in cases {
        assert_eq!(Heap::layout_to_allocator(&layout(size, align)), which, "{} {}", size, align);
    }
}

#[test]
fn short_request_with_a_long_alignment_stays_in_the_last_class() {
    assert_eq!(Heap::layout_to_allocator(&layout(8, 8192)), HeapAllocator::Slab4096);
    assert_eq!(Heap::layout_to_allocator(&layout(4096, 1 << 16)), HeapAllocator::Slab4096);
}

#[test]
fn routing_picks_a_class_that_fits() {
    let mut align = 1;
    while align <= 4096 {
        for size in [0, 1, 63, 64, 65, 100, 128, 200, 256, 500, 512, 1000, 1024, 2048, 3000, 4096]
        {
            let which = Heap::layout_to_allocator(&layout(size, align));
            let block_size = which.block_size().unwrap();
            assert!(block_size >= size && block_size >= align);
            assert_eq!(which, Heap::layout_to_allocator(&layout(size, align)));
        }
        align *= 2;
    }
}

#[test]
fn block_sizes_double_from_64() {
    let mut expected = 64;
    for which in CLASSES {
        assert_eq!(which.block_size(), Some(expected));
        expected *= 2;
    }
    assert_eq!(HeapAllocator::Large.block_size(), None);
}

#[test]
fn usable_size_is_the_block_or_the_request() {
    let (_space, start) = page_aligned_space(HEAP_SIZE);
    let heap = Heap::new(start, HEAP_SIZE);
    assert_eq!(heap.usable_size(&layout(8, 8)), (8, 64));
    assert_eq!(heap.usable_size(&layout(64, 64)), (64, 64));
    assert_eq!(heap.usable_size(&layout(48, 128)), (48, 128));
    assert_eq!(heap.usable_size(&layout(300, 8)), (300, 512));
    assert_eq!(heap.usable_size(&layout(4096, 8)), (4096, 4096));
    assert_eq!(heap.usable_size(&layout(4097, 8)), (4097, 4097));
    assert_eq!(heap.usable_size(&layout(8192, 8)), (8192, 8192));
}

#[test]
fn returned_blocks_are_aligned_and_inside_their_class() {
    let (_space, start) = page_aligned_space(BIG_HEAP_SIZE);
    let mut heap = Heap::new(start, BIG_HEAP_SIZE);
    let part = BIG_HEAP_SIZE / 8;
    let mut align = 1;
    while align <= 4096 {
        for size in [1, 64, 65, 700, 4096] {
            let l = layout(size, align);
            let which = Heap::layout_to_allocator(&l);
            let index = CLASSES.iter().position(|c| *c == which).unwrap();
            let ptr = block(&mut heap, size, align);
            assert_eq!(ptr % align, 0);
            assert_eq!(ptr % which.block_size().unwrap(), 0);
            assert!(start + index * part <= ptr);
            assert!(ptr + which.block_size().unwrap() <= start + (index + 1) * part);
            assert!(heap.class_ref(which).unwrap().owns(ptr));
            heap.deallocate(ptr, l);
        }
        align *= 2;
    }
}

#[test]
fn pairs_leave_every_class_as_it_was() {
    let (_space, start) = page_aligned_space(BIG_HEAP_SIZE);
    let mut heap = Heap::new(start, BIG_HEAP_SIZE);
    let before: Vec<usize> = CLASSES.iter().map(|c| free_blocks(&heap, *c)).collect();
    let requests = [(8, 8), (48, 128), (200, 8), (512, 512), (4096, 8), (64, 64), (1000, 2)];
    let mut held = Vec::new();
    for (size, align) in requests {
        held.push((block(&mut heap, size, align), layout(size, align)));
    }
    held.push((block(&mut heap, 8, 8), layout(8, 8)));
    held.swap(0, 3);
    for (ptr, l) in held {
        assert!(heap.is_allocated(ptr, &l));
        heap.deallocate(ptr, l);
        assert!(!heap.is_allocated(ptr, &l));
    }
    let after: Vec<usize> = CLASSES.iter().map(|c| free_blocks(&heap, *c)).collect();
    assert_eq!(before, after);
    for (i, which) in CLASSES.iter().enumerate() {
        let size = which.block_size().unwrap();
        let slab = heap.class_ref(*which).unwrap();
        let mut addr = start + i * (BIG_HEAP_SIZE / 8);
        while addr < start + (i + 1) * (BIG_HEAP_SIZE / 8) {
            assert!(slab.owns(addr) && !slab.is_allocated(addr));
            addr += size;
        }
    }
}

#[test]
fn block_given_back_last_is_taken_first() {
    let (_space, start) = page_aligned_space(HEAP_SIZE);
    let mut heap = Heap::new(start, HEAP_SIZE);
    let l = layout(100, 4);
    let a = block(&mut heap, 100, 4);
    let b = block(&mut heap, 100, 4);
    let c = block(&mut heap, 100, 4);
    assert_eq!((a, b, c), (start + 4096, start + 4096 + 128, start + 4096 + 256));
    heap.deallocate(a, l);
    heap.deallocate(c, l);
    assert_eq!(block(&mut heap, 100, 4), c);
    assert_eq!(block(&mut heap, 100, 4), a);
    assert_eq!(block(&mut heap, 100, 4), start + 4096 + 384);
    assert!(heap.is_allocated(b, &l));
}

#[test]
fn is_allocated_knows_blocks_by_their_class() {
    let (_space, start) = page_aligned_space(HEAP_SIZE);
    let mut heap = Heap::new(start, HEAP_SIZE);
    let ptr = block(&mut heap, 64, 64);
    assert!(heap.is_allocated(ptr, &layout(64, 64)));
    assert!(heap.is_allocated(ptr, &layout(1, 1)));
    assert!(!heap.is_allocated(ptr, &layout(128, 8)));
    assert!(!heap.is_allocated(ptr + 1, &layout(64, 64)));
    assert!(!heap.is_allocated(ptr + 64, &layout(64, 64)));
    assert!(!heap.is_allocated(ptr, &layout(8192, 8)));
    assert!(!heap.is_allocated(0, &layout(64, 64)));
}

#[test]
fn grown_class_hands_out_the_new_blocks_first() {
    let (_space, start) = page_aligned_space(HEAP_SIZE);
    let (_more, extra) = page_aligned_space(8192);
    let mut heap = Heap::new(start, HEAP_SIZE);
    let first = block(&mut heap, 2048, 8);
    assert_eq!(first, start + 5 * 4096);
    assert!(heap.can_grow(extra, 8192, HeapAllocator::Slab2048));
    heap.grow(extra, 8192, HeapAllocator::Slab2048);
    assert_eq!(free_blocks(&heap, HeapAllocator::Slab2048), 5);
    for i in 0..4 {
        assert_eq!(block(&mut heap, 2048, 8), extra + i * 2048);
    }
    assert_eq!(block(&mut heap, 2048, 8), start + 5 * 4096 + 2048);
    assert_eq!(heap.allocate(layout(2048, 8)), Err(OutOfMemory));
    assert!(heap.class_ref(HeapAllocator::Slab2048).unwrap().owns(extra + 6144));
    assert!(!heap.class_ref(HeapAllocator::Slab4096).unwrap().owns(extra));
}

#[test]
fn large_region_grows_at_its_end_only() {
    let start = 0x40_0000;
    let mut heap = Heap::new(start, HEAP_SIZE);
    let end = start + HEAP_SIZE;
    assert_eq!(heap.large_region(), Extent { start: end - 4096, length: 4096 });
    assert!(!heap.can_grow(end + 4096, 4096, HeapAllocator::Large));
    assert!(!heap.can_grow(end - 4096, 4096, HeapAllocator::Large));
    assert!(!heap.can_grow(end, usize::MAX - end + 1, HeapAllocator::Large));
    assert!(heap.can_grow(end, 12288, HeapAllocator::Large));
    heap.grow(end, 12288, HeapAllocator::Large);
    assert_eq!(heap.large_region(), Extent { start: end - 4096, length: 16384 });
    assert!(!heap.can_grow(end, 4096, HeapAllocator::Large));
    assert!(!heap.can_grow(end + 8192, 4096, HeapAllocator::Slab64));
    assert!(heap.can_grow(end + 12288, 4096, HeapAllocator::Slab64));
    for which in CLASSES {
        assert_eq!(free_blocks(&heap, which), 4096 / which.block_size().unwrap());
    }
}

#[test]
fn growth_is_refused_where_it_would_break_the_heap() {
    let start = 0x40_0000;
    let mut heap = Heap::new(start, HEAP_SIZE);
    let beyond = start + HEAP_SIZE;
    assert!(!heap.can_grow(start, 4096, HeapAllocator::Slab64));
    assert!(!heap.can_grow(start + 4096, 4096, HeapAllocator::Slab64));
    assert!(!heap.can_grow(start + 7 * 4096, 4096, HeapAllocator::Slab64));
    assert!(!heap.can_grow(beyond - 64, 128, HeapAllocator::Slab64));
    assert!(!heap.can_grow(beyond + 32, 64, HeapAllocator::Slab64));
    assert!(!heap.can_grow(beyond, 100, HeapAllocator::Slab64));
    assert!(!heap.can_grow(beyond, 0, HeapAllocator::Slab64));
    assert!(!heap.can_grow(beyond + 2048, 4096, HeapAllocator::Slab4096));
    assert!(!heap.can_grow(usize::MAX - 63, 64, HeapAllocator::Slab64));
    assert!(!heap.can_grow(start - 64, 128, HeapAllocator::Slab128));
    assert!(heap.can_grow(beyond, 64, HeapAllocator::Slab64));
    assert!(heap.can_grow(start - 128, 128, HeapAllocator::Slab128));
    heap.grow(beyond, 64, HeapAllocator::Slab64);
    assert!(!heap.can_grow(beyond, 64, HeapAllocator::Slab64));
    assert!(!heap.can_grow(beyond, 4096, HeapAllocator::Slab4096));
    assert!(!heap.can_grow(beyond, 4096, HeapAllocator::Large));
    assert!(heap.can_grow(beyond + 64, 64, HeapAllocator::Slab64));
    assert_eq!(heap.allocate(layout(1, 1)), Ok(Allocation::Block(beyond)));
}

#[test]
fn memadvise_changes_nothing() {
    let start = 0x10_0000;
    let mut heap = Heap::new(start, HEAP_SIZE);
    slab_heap::memadvise();
    assert_eq!(heap.allocate(layout(8, 8)), Ok(Allocation::Block(start)));
}

#[test]
fn heap_ranges_are_told_from_others() {
    assert!(Heap::is_valid_range(0, 32768));
    assert!(Heap::is_valid_range(4096, 32768));
    assert!(Heap::is_valid_range(0x10_0000, 10 * 32768));
    assert!(!Heap::is_valid_range(0x10_0000, 0));
    assert!(!Heap::is_valid_range(0x10_0000, 4096));
    assert!(!Heap::is_valid_range(0x10_0000, 32768 + 4096));
    assert!(!Heap::is_valid_range(0x10_0000 + 64, 32768));
    assert!(!Heap::is_valid_range(0x10_0000 + 2048, 65536));
    let top = usize::MAX - 4095;
    assert!(!Heap::is_valid_range(top, 32768));
    assert!(!Heap::is_valid_range(top - 32768 + 4096, 32768));
    assert!(Heap::is_valid_range(top - 32768, 32768));
}

#[test]
fn heap_at_the_bottom_of_the_address_space() {
    let mut heap = Heap::new(0, HEAP_SIZE);
    assert_eq!(heap.allocate(layout(1, 1)), Ok(Allocation::Block(0)));
    assert_eq!(heap.allocate(layout(1, 1)), Ok(Allocation::Block(64)));
    assert!(heap.is_allocated(0, &layout(1, 1)));
    heap.deallocate(0, layout(1, 1));
    assert_eq!(heap.allocate(layout(64, 1)), Ok(Allocation::Block(0)));
}

#[test]
fn block_is_given_only_where_it_is_aligned_as_asked() {
    let mut heap = Heap::new(4096, HEAP_SIZE);
    let l = layout(8, 8192);
    assert_eq!(Heap::layout_to_allocator(&l), HeapAllocator::Slab4096);
    assert!(heap.class_ref(HeapAllocator::Slab4096).unwrap().owns(28672));
    assert_eq!(heap.class_ref(HeapAllocator::Slab4096).unwrap().head(), Some(28672));
    assert_eq!(heap.allocate(l), Err(OutOfMemory));
    assert_eq!(free_blocks(&heap, HeapAllocator::Slab4096), 1);
    assert!(!heap.is_allocated(28672, &l));
    assert_eq!(heap.allocate(layout(8, 4096)), Ok(Allocation::Block(28672)));
    assert_eq!(heap.class_ref(HeapAllocator::Slab4096).unwrap().head(), None);
    assert_eq!(heap.allocate(l), Err(OutOfMemory));
}

#[test]
fn alignments_above_a_page_are_met_or_refused() {
    let start = 1 << 20;
    let mut heap = Heap::new(start, BIG_HEAP_SIZE);
    let part = BIG_HEAP_SIZE / 8;
    let first = start + 6 * part;
    assert_eq!(first % 8192, 0);
    assert_eq!(first % 16384, 0);
    assert_ne!(first % 32768, 0);
    assert_eq!(heap.allocate(layout(8, 32768)), Err(OutOfMemory));
    assert_eq!(heap.allocate(layout(4096, 1 << 40)), Err(OutOfMemory));
    assert_eq!(free_blocks(&heap, HeapAllocator::Slab4096), 10);
    let l = layout(100, 16384);
    assert_eq!(heap.allocate(l), Ok(Allocation::Block(first)));
    assert_eq!(heap.allocate(l), Err(OutOfMemory));
    assert_eq!(heap.allocate(layout(100, 8192)), Err(OutOfMemory));
    assert_eq!(free_blocks(&heap, HeapAllocator::Slab4096), 9);
    assert_eq!(heap.allocate(layout(4096, 4096)), Ok(Allocation::Block(first + 4096)));
    assert_eq!(heap.allocate(layout(100, 8192)), Ok(Allocation::Block(first + 8192)));
    heap.deallocate(first, l);
    assert_eq!(heap.allocate(l), Ok(Allocation::Block(first)));
    let mut align = 8192;
    while align <= 1 << 20 {
        for size in [1, 64, 700, 4096] {
            match heap.allocate(layout(size, align)) {
                Ok(Allocation::Block(ptr)) => {
                    assert_eq!(ptr % align, 0);
                    assert!(first <= ptr && ptr + 4096 <= first + part);
                    heap.deallocate(ptr, layout(size, align));
                }
                Ok(Allocation::Large) => panic!("a short request belongs to a class"),
                Err(OutOfMemory) => {
                    let head = heap.class_ref(HeapAllocator::Slab4096).unwrap().head();
                    assert!(head.map_or(true, |ptr| ptr % align != 0));
                }
            }
        }
        align *= 2;
    }
}

#[test]
fn shares_lie_side_by_side() {
    let start = 0x30_0000;
    let part = BIG_HEAP_SIZE / 8;
    let mut next = start;
    for which in CLASSES {
        let share = Heap::share(start, BIG_HEAP_SIZE, which);
        assert_eq!(share, Extent { start: next, length: part });
        next += part;
    }
    let large = Heap::share(start, BIG_HEAP_SIZE, HeapAllocator::Large);
    assert_eq!(large, Extent { start: start + 7 * part, length: part });
    assert_eq!(large.start + large.length, start + BIG_HEAP_SIZE);
    assert_eq!(Heap::new(start, BIG_HEAP_SIZE).large_region(), large);
    assert_eq!(
        Heap::share(0, HEAP_SIZE, HeapAllocator::Slab512),
        Extent { start: 3 * 4096, length: 4096 }
    );
}

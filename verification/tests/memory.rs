//! The memory core end to end: frame issuance over a boot memory map,
//! mapping and translation, the heap free list, and heap initialization.

use rustai_os::memory::frame_allocator::BootInfoFrameAllocator;
use rustai_os::memory::frame_allocator::MemoryRegion;
use rustai_os::memory::heap_allocator::HeapAllocator;
use rustai_os::memory::heap_allocator::FreeBlock;
use rustai_os::memory::heap_allocator::init_heap;
use rustai_os::memory::heap_allocator::HEAP_SIZE;
use rustai_os::memory::heap_allocator::HEAP_START;
use rustai_os::memory::paging::create_mapping;
use rustai_os::memory::paging::MapToError;
use rustai_os::memory::paging::PageFlags;
use rustai_os::memory::init;
use rustai_os::memory::translate_addr;

fn small_map() -> Vec<MemoryRegion> {
    vec![
        MemoryRegion { start: 0x1000, end: 0x4000, usable: true },
        MemoryRegion { start: 0x4000, end: 0x6000, usable: false },
        MemoryRegion { start: 0x8000, end: 0xa000, usable: true },
    ]
}

fn free_total_of(heap: &HeapAllocator) -> u64 {
    let mut total: u64 = 0;
    for b in &heap.free {
        total += b.size;
    }
    total
}

#[test]
fn exactly_n_frames_then_absence() {
    // 3 + 2 usable frames in the map: five successes, then absence.
    let mut fa = BootInfoFrameAllocator::init(small_map());
    let mut issued: Vec<u64> = Vec::new();
    for _ in 0..5 {
        let f = fa.allocate_frame().expect("a usable frame remains");
        issued.push(f);
    }
    assert_eq!(issued, vec![0x1000, 0x2000, 0x3000, 0x8000, 0x9000]);
    assert_eq!(fa.allocate_frame(), None);
    assert_eq!(fa.allocate_frame(), None);
}

#[test]
fn issued_frames_are_distinct() {
    let mut fa = BootInfoFrameAllocator::init(small_map());
    let mut issued: Vec<u64> = Vec::new();
    while let Some(f) = fa.allocate_frame() {
        issued.push(f);
    }
    let mut sorted = issued.clone();
    sorted.sort();
    sorted.dedup();
    assert_eq!(sorted.len(), issued.len());
}

#[test]
fn exhausted_allocator_never_returns_reserved_addresses() {
    let mut fa = BootInfoFrameAllocator::init(small_map());
    let mut count = 0;
    while let Some(f) = fa.allocate_frame() {
        // Never inside the reserved region [0x4000, 0x6000).
        assert!(!(0x4000 <= f && f < 0x6000));
        count += 1;
    }
    assert_eq!(count, 5);
    // The call after the last usable frame yields absence, not an address.
    assert_eq!(fa.allocate_frame(), None);
}

#[test]
fn translate_returns_frame_base_plus_offset() {
    let mut mapper = init(0);
    let mut fa = BootInfoFrameAllocator::init(vec![MemoryRegion {
        start: 0x10_0000,
        end: 0x20_0000,
        usable: true,
    }]);
    let page: u64 = 0x5000_0000;
    let frame: u64 = 0x10_0000;
    let flags = PageFlags { present: true, writable: true };
    create_mapping(page, frame, flags, &mut mapper, &mut fa).expect("mapping installs");
    // Any address inside the page translates to frame base + offset.
    assert_eq!(translate_addr(&mapper, page), Some(frame));
    assert_eq!(translate_addr(&mapper, page + 0xFFF), Some(frame + 0xFFF));
    assert_eq!(translate_addr(&mapper, page + 0x123), Some(frame + 0x123));
}

#[test]
fn translate_absent_top_level_entry_is_absence() {
    let mapper = init(0);
    assert_eq!(translate_addr(&mapper, 0xdead_b000), None);
    assert_eq!(translate_addr(&mapper, 0), None);
}

#[test]
fn mapping_one_page_leaves_others_untouched() {
    let mut mapper = init(0);
    let mut fa = BootInfoFrameAllocator::init(vec![MemoryRegion {
        start: 0x10_0000,
        end: 0x20_0000,
        usable: true,
    }]);
    let flags = PageFlags { present: true, writable: true };
    create_mapping(0x4000_0000, 0xAB_C000, flags, &mut mapper, &mut fa).unwrap();
    create_mapping(0x4000_1000, 0xAB_D000, flags, &mut mapper, &mut fa).unwrap();
    assert_eq!(translate_addr(&mapper, 0x4000_0000), Some(0xAB_C000));
    assert_eq!(translate_addr(&mapper, 0x4000_1000), Some(0xAB_D000));
    assert_eq!(translate_addr(&mapper, 0x4000_2000), None);
}

#[test]
fn mapping_twice_reports_already_mapped() {
    let mut mapper = init(0);
    let mut fa = BootInfoFrameAllocator::init(vec![MemoryRegion {
        start: 0x10_0000,
        end: 0x20_0000,
        usable: true,
    }]);
    let flags = PageFlags { present: true, writable: true };
    create_mapping(0x4000_0000, 0xAB_C000, flags, &mut mapper, &mut fa).unwrap();
    assert_eq!(
        create_mapping(0x4000_0000, 0xAB_D000, flags, &mut mapper, &mut fa),
        Err(MapToError::PageAlreadyMapped(0xAB_C000))
    );
}

#[test]
fn mapping_without_frames_reports_exhaustion() {
    let mut mapper = init(0);
    let mut fa = BootInfoFrameAllocator::init(vec![]);
    let flags = PageFlags { present: true, writable: true };
    assert_eq!(
        create_mapping(0x4000_0000, 0xAB_C000, flags, &mut mapper, &mut fa),
        Err(MapToError::FrameAllocationFailed)
    );
}

#[test]
fn alloc_dealloc_preserves_free_total_a_thousand_times() {
    let mut heap = HeapAllocator::new();
    heap.init(HEAP_START, HEAP_SIZE);
    let total_before = free_total_of(&heap);
    assert_eq!(total_before, HEAP_SIZE);
    for _ in 0..1000 {
        let p = heap.allocate_first_fit(64, 8).expect("the heap has room");
        heap.deallocate(p, 64);
        // The round trip never shrinks the available free space.
        assert_eq!(free_total_of(&heap), total_before);
    }
}

#[test]
fn first_fit_reuses_the_freed_middle_block() {
    let mut heap = HeapAllocator::new();
    heap.init(HEAP_START, HEAP_SIZE);
    let a = heap.allocate_first_fit(128, 8).unwrap();
    let b = heap.allocate_first_fit(128, 8).unwrap();
    let c = heap.allocate_first_fit(128, 8).unwrap();
    assert!(a < b && b < c);
    heap.deallocate(b, 128);
    // The next same-size request must land exactly on the freed block.
    let again = heap.allocate_first_fit(128, 8).unwrap();
    assert_eq!(again, b);
}

#[test]
fn alloc_respects_alignment_and_splits() {
    let mut heap = HeapAllocator::new();
    heap.init(HEAP_START, HEAP_SIZE);
    let p = heap.allocate_first_fit(10, 4096).unwrap();
    assert_eq!(p % 4096, 0);
    // No fit: a request larger than the heap is refused.
    assert_eq!(heap.allocate_first_fit(HEAP_SIZE * 2, 8), None);
}

#[test]
fn heap_region_constants() {
    assert_eq!(HEAP_START, 0x4444_4444_0000);
    assert_eq!(HEAP_SIZE, 1024 * 1024);
}

#[test]
fn init_heap_maps_the_region_and_seeds_the_allocator() {
    let mut mapper = init(0);
    let mut fa = BootInfoFrameAllocator::init(vec![MemoryRegion {
        start: 0x100_0000,
        end: 0x900_0000,
        usable: true,
    }]);
    let mut heap = HeapAllocator::new();
    init_heap(&mut mapper, &mut fa, &mut heap).expect("enough frames for the heap");
    assert!(heap.initialized);
    assert_eq!(heap.free, vec![FreeBlock { addr: HEAP_START, size: HEAP_SIZE }]);
    // Every heap page is mapped; addresses outside stay unmapped.
    assert!(translate_addr(&mapper, HEAP_START).is_some());
    assert!(translate_addr(&mapper, HEAP_START + HEAP_SIZE - 1).is_some());
    assert_eq!(translate_addr(&mapper, HEAP_START + HEAP_SIZE), None);
}

#[test]
fn init_heap_backs_each_page_with_its_own_frame() {
    let mut mapper = init(0);
    let mut fa = BootInfoFrameAllocator::init(vec![MemoryRegion {
        start: 0x100_0000,
        end: 0x900_0000,
        usable: true,
    }]);
    let mut heap = HeapAllocator::new();
    init_heap(&mut mapper, &mut fa, &mut heap).expect("enough frames for the heap");
    // 256 page frames plus the three interior tables of the first walk.
    assert_eq!(fa.next, 259);
    let mut frames: Vec<u64> = (0..256u64)
        .map(|i| translate_addr(&mapper, HEAP_START + 4096 * i).expect("mapped"))
        .collect();
    frames.sort();
    frames.dedup();
    assert_eq!(frames.len(), 256);
}

#[test]
fn allocated_run_is_disjoint_from_the_free_list() {
    let mut heap = HeapAllocator::new();
    heap.init(HEAP_START, HEAP_SIZE);
    let _ = heap.allocate_first_fit(100, 8).unwrap();
    let p = heap.allocate_first_fit(64, 32).unwrap();
    assert!(heap.free.iter().all(|b| b.addr + b.size <= p || p + 64 <= b.addr));
    heap.deallocate(p, 64);
    // The free list never holds two overlapping blocks.
    for (i, a) in heap.free.iter().enumerate() {
        for (j, b) in heap.free.iter().enumerate() {
            if i != j {
                assert!(a.addr + a.size <= b.addr || b.addr + b.size <= a.addr);
            }
        }
    }
}

#[test]
fn init_heap_without_frames_fails_and_leaves_the_allocator_alone() {
    let mut mapper = init(0);
    let mut fa = BootInfoFrameAllocator::init(vec![MemoryRegion {
        start: 0x100_0000,
        end: 0x100_3000,
        usable: true,
    }]);
    let mut heap = HeapAllocator::new();
    assert_eq!(
        init_heap(&mut mapper, &mut fa, &mut heap),
        Err(MapToError::FrameAllocationFailed)
    );
    assert!(!heap.initialized);
}

use rust_os::allocator::{heap_step, HeapAction};
use rust_os::allocator::{init_heap, HEAP_PAGES, HEAP_START};
use rust_os::memory::{
    create_example_mapping, init, BootInfoFrameAllocator, MemoryRegion, MemoryRegionType,
    PhysFrame,
};
use rust_os::paging::{
    FrameStore, MapToError, Page, PageTableMapper, PhysicalMemory, PRESENT, WRITABLE,
};

const ROOT: u64 = 0x1000;

fn source(start: u64, end: u64) -> BootInfoFrameAllocator {
    BootInfoFrameAllocator::init(vec![MemoryRegion {
        start,
        end,
        region_type: MemoryRegionType::Usable,
    }])
}

fn mapper() -> PageTableMapper<FrameStore> {
    init(FrameStore::new(), ROOT)
}

#[test]
fn translate_unmapped_is_none() {
    let m = mapper();
    assert_eq!(m.translate_addr(0), None);
    assert_eq!(m.translate_addr(0xdead_beef), None);
    assert_eq!(m.translate_addr(u64::MAX), None);
}

#[test]
fn offset_base_translates_to_physical_zero() {
    let offset: u64 = 0x1000_0000_0000;
    let mut m = mapper();
    let mut alloc = source(0x10_0000, 0x20_0000);
    for k in 0..4u64 {
        let page = Page::containing_address(offset + k * 4096);
        let frame = PhysFrame::containing_address(k * 4096);
        assert_eq!(m.map_to(page, frame, PRESENT + WRITABLE, &mut alloc), Ok(()));
    }
    assert_eq!(m.translate_addr(offset), Some(0));
    assert_eq!(m.translate_addr(offset + 0x2345), Some(0x2345));
    assert_eq!(m.translate_addr(offset + 4 * 4096), None);
}

#[test]
fn map_then_translate_reaches_frame() {
    let mut m = mapper();
    let mut alloc = source(0x10_0000, 0x20_0000);
    let page = Page::containing_address(0xdead_b000);
    let frame = PhysFrame::containing_address(0x5_0000);
    assert_eq!(m.map_to(page, frame, PRESENT + WRITABLE, &mut alloc), Ok(()));
    assert_eq!(m.translate_addr(0xdead_b123), Some(0x5_0123));
    assert_eq!(m.translate_addr(0xdead_c000), None);
    // three intermediate tables were taken from the frame source
    assert_eq!(alloc.allocate_frame(), Some(PhysFrame { start: 0x10_3000 }));
}

#[test]
fn map_flushes_the_page() {
    let mut m = mapper();
    let mut alloc = source(0x10_0000, 0x20_0000);
    let page = Page::containing_address(0x40_0000);
    let frame = PhysFrame::containing_address(0x9000);
    assert_eq!(m.map_to(page, frame, WRITABLE, &mut alloc), Ok(()));
    assert_eq!(m.physical_memory().flushed_pages(), vec![0x40_0000]);
}

#[test]
fn leaf_entry_holds_frame_and_flags() {
    let mut m = mapper();
    let mut alloc = source(0x10_0000, 0x20_0000);
    let page = Page::containing_address(0x40_0000);
    assert_eq!(m.map_to(page, PhysFrame { start: 0x9000 }, WRITABLE, &mut alloc), Ok(()));
    // level-4 entry 0 links the first fresh table, present and writable
    assert_eq!(m.physical_memory().read_entry(ROOT, 0), 0x10_0000 + 3);
    // the leaf lies in the third fresh table, at index 0
    assert_eq!(m.physical_memory().read_entry(0x10_2000, 0), 0x9000 + 3);
}

#[test]
fn second_map_of_page_is_refused() {
    let mut m = mapper();
    let mut alloc = source(0x10_0000, 0x20_0000);
    let page = Page::containing_address(0x7000_0000);
    assert_eq!(m.map_to(page, PhysFrame { start: 0x8000 }, PRESENT, &mut alloc), Ok(()));
    assert_eq!(
        m.map_to(page, PhysFrame { start: 0xa000 }, PRESENT, &mut alloc),
        Err(MapToError::PageAlreadyMapped(PhysFrame { start: 0x8000 }))
    );
    assert_eq!(m.translate_addr(0x7000_0010), Some(0x8010));
}

#[test]
fn map_without_frames_fails() {
    let mut m = mapper();
    let mut alloc = source(0x10_0000, 0x10_2000);
    let page = Page::containing_address(0x7000_0000);
    assert_eq!(
        m.map_to(page, PhysFrame { start: 0x8000 }, PRESENT, &mut alloc),
        Err(MapToError::FrameAllocationFailed)
    );
    assert_eq!(m.translate_addr(0x7000_0000), None);
    assert!(m.physical_memory().flushed_pages().is_empty());
}

#[test]
fn example_mapping_targets_vga_buffer() {
    let mut m = mapper();
    let mut alloc = source(0x10_0000, 0x20_0000);
    let page = Page::containing_address(0xdeadbeaf000);
    assert_eq!(create_example_mapping(page, &mut m, &mut alloc), Ok(()));
    assert_eq!(m.translate_addr(0xdeadbeaf010), Some(0xb8010));
}

#[test]
fn heap_bootstrap_maps_region_once() {
    let mut m = mapper();
    let mut alloc = source(0x10_0000, 0x20_0000);
    assert_eq!(init_heap(&mut m, &mut alloc), Ok(()));
    for k in 0..HEAP_PAGES {
        assert!(m.translate_addr(HEAP_START + k * 4096 + 8).is_some());
    }
    assert_eq!(m.translate_addr(HEAP_START + HEAP_PAGES * 4096), None);
    assert_eq!(m.physical_memory().flushed_pages().len(), HEAP_PAGES as usize);
    match init_heap(&mut m, &mut alloc) {
        Err(MapToError::PageAlreadyMapped(_)) => {}
        other => panic!("expected an already-mapped failure, got {:?}", other),
    }
}

#[test]
fn heap_bootstrap_without_frames_fails() {
    let mut m = mapper();
    let mut alloc = source(0x10_0000, 0x10_4000);
    assert_eq!(init_heap(&mut m, &mut alloc), Err(MapToError::FrameAllocationFailed));
}

#[test]
fn page_containing_address_rounds_down() {
    assert_eq!(Page::containing_address(0x1234_5678).start_address(), 0x1234_5000);
}

#[test]
fn heap_step_walks_pages_then_stops() {
    assert_eq!(heap_step(0, Ok(())), HeapAction::MapPage(Page { start: HEAP_START }));
    assert_eq!(heap_step(3, Ok(())), HeapAction::MapPage(Page { start: HEAP_START + 3 * 4096 }));
    assert_eq!(heap_step(HEAP_PAGES, Ok(())), HeapAction::Done);
    assert_eq!(
        heap_step(2, Err(MapToError::FrameAllocationFailed)),
        HeapAction::Fail(MapToError::FrameAllocationFailed)
    );
}

#[test]
fn exhausted_source_then_map_fails_cleanly() {
    let mut m = mapper();
    let mut alloc = source(0x10_0000, 0x10_1000);
    assert_eq!(alloc.allocate_frame(), Some(PhysFrame { start: 0x10_0000 }));
    assert_eq!(alloc.allocate_frame(), None);
    let page = Page::containing_address(0x40_0000);
    assert_eq!(
        m.map_to(page, PhysFrame { start: 0x9000 }, PRESENT, &mut alloc),
        Err(MapToError::FrameAllocationFailed)
    );
    assert_eq!(m.translate_addr(0x40_0000), None);
}

#[test]
fn one_gib_page_translates_within_page() {
    let mut mem = FrameStore::new();
    mem.write_entry(ROOT, 0, 0x2000 + 3);
    mem.write_entry(0x2000, 0, 0x4000_0000 + 0x83);
    let m = init(mem, ROOT);
    assert_eq!(m.translate_addr(0x1234_5678), Some(0x5234_5678));
}

#[test]
fn two_mib_page_translates_within_page() {
    let mut mem = FrameStore::new();
    mem.write_entry(ROOT, 0, 0x2000 + 3);
    mem.write_entry(0x2000, 0, 0x3000 + 3);
    mem.write_entry(0x3000, 1, 0x60_0000 + 0x83);
    let m = init(mem, ROOT);
    assert_eq!(m.translate_addr(0x20_1234), Some(0x60_1234));
    assert_eq!(m.translate_addr(0x40_0000), None);
}

#[test]
fn map_under_large_page_is_refused() {
    let mut mem = FrameStore::new();
    mem.write_entry(ROOT, 0, 0x2000 + 3);
    mem.write_entry(0x2000, 0, 0x3000 + 3);
    mem.write_entry(0x3000, 1, 0x60_0000 + 0x83);
    let mut m = init(mem, ROOT);
    let mut alloc = source(0x10_0000, 0x20_0000);
    let page = Page::containing_address(0x20_5000);
    assert_eq!(
        m.map_to(page, PhysFrame { start: 0x9000 }, PRESENT, &mut alloc),
        Err(MapToError::ParentEntryHugePage)
    );
    assert_eq!(alloc.allocate_frame(), Some(PhysFrame { start: 0x10_0000 }));
}

#[test]
fn map_accepts_no_execute_flag() {
    let mut m = mapper();
    let mut alloc = source(0x10_0000, 0x20_0000);
    let page = Page::containing_address(0x40_0000);
    let flags = PRESENT + WRITABLE + (1u64 << 63);
    assert_eq!(m.map_to(page, PhysFrame { start: 0x9000 }, flags, &mut alloc), Ok(()));
    assert_eq!(m.translate_addr(0x40_0042), Some(0x9042));
    assert_eq!(m.physical_memory().read_entry(0x10_2000, 0), 0x9000 + 3 + (1u64 << 63));
}

#[test]
fn heap_bootstrap_with_exactly_enough_frames() {
    let mut m = mapper();
    let mut alloc = source(0x10_0000, 0x10_0000 + 28 * 4096);
    assert_eq!(init_heap(&mut m, &mut alloc), Ok(()));
    assert_eq!(alloc.allocate_frame(), None);
}

#[test]
fn heap_bootstrap_one_frame_short_fails() {
    let mut m = mapper();
    let mut alloc = source(0x10_0000, 0x10_0000 + 27 * 4096);
    assert_eq!(init_heap(&mut m, &mut alloc), Err(MapToError::FrameAllocationFailed));
}

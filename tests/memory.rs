use rust_os::memory::{
    phys_to_virt, BootInfoFrameAllocator, MemoryRegion, MemoryRegionType, PhysFrame,
};

fn region(start: u64, end: u64, region_type: MemoryRegionType) -> MemoryRegion {
    MemoryRegion { start, end, region_type }
}

#[test]
fn frames_come_from_usable_regions_in_order() {
    let map = vec![
        region(0, 4096, MemoryRegionType::Usable),
        region(4096, 8192, MemoryRegionType::Reserved),
        region(8192, 16384, MemoryRegionType::Usable),
    ];
    let mut alloc = BootInfoFrameAllocator::init(map);
    assert_eq!(alloc.allocate_frame(), Some(PhysFrame { start: 0 }));
    assert_eq!(alloc.allocate_frame(), Some(PhysFrame { start: 8192 }));
    assert_eq!(alloc.allocate_frame(), Some(PhysFrame { start: 12288 }));
    assert_eq!(alloc.allocate_frame(), None);
    assert_eq!(alloc.allocate_frame(), None);
}

#[test]
fn no_frame_inside_reserved_region() {
    let map = vec![
        region(0, 4096, MemoryRegionType::Usable),
        region(4096, 8192, MemoryRegionType::Reserved),
        region(8192, 16384, MemoryRegionType::Usable),
    ];
    let mut alloc = BootInfoFrameAllocator::init(map);
    while let Some(f) = alloc.allocate_frame() {
        assert!(!(4096..8192).contains(&f.start_address()));
    }
}

#[test]
fn empty_map_gives_no_frame() {
    let mut alloc = BootInfoFrameAllocator::init(Vec::new());
    assert_eq!(alloc.allocate_frame(), None);
}

#[test]
fn only_usable_kind_counts() {
    let map = vec![
        region(0, 8192, MemoryRegionType::Kernel),
        region(8192, 12288, MemoryRegionType::InUse),
        region(0x10000, 0x11000, MemoryRegionType::Usable),
    ];
    let mut alloc = BootInfoFrameAllocator::init(map);
    assert_eq!(alloc.allocate_frame(), Some(PhysFrame { start: 0x10000 }));
    assert_eq!(alloc.allocate_frame(), None);
}

#[test]
fn unaligned_region_start_is_rounded_down() {
    let map = vec![region(0x1010, 0x3000, MemoryRegionType::Usable)];
    let alloc = BootInfoFrameAllocator::init(map);
    assert_eq!(alloc.usable_frame(0), Some(PhysFrame { start: 0x1000 }));
    assert_eq!(alloc.usable_frame(1), Some(PhysFrame { start: 0x2000 }));
    assert_eq!(alloc.usable_frame(2), None);
}

#[test]
fn usable_frame_by_index_spans_regions() {
    let map = vec![
        region(0x1000, 0x3000, MemoryRegionType::Usable),
        region(0x3000, 0x5000, MemoryRegionType::Reserved),
        region(0x5000, 0x7000, MemoryRegionType::Usable),
    ];
    let alloc = BootInfoFrameAllocator::init(map);
    assert_eq!(alloc.usable_frame(2), Some(PhysFrame { start: 0x5000 }));
    assert_eq!(alloc.usable_frame(3), Some(PhysFrame { start: 0x6000 }));
    assert_eq!(alloc.usable_frame(4), None);
}

#[test]
fn containing_address_rounds_down() {
    assert_eq!(PhysFrame::containing_address(0xb8123), PhysFrame { start: 0xb8000 });
    assert_eq!(PhysFrame::containing_address(0x2000).start_address(), 0x2000);
}

#[test]
fn phys_to_virt_adds_offset() {
    assert_eq!(phys_to_virt(0x1000_0000_0000, 0x5000), Some(0x1000_0000_5000));
    assert_eq!(phys_to_virt(u64::MAX, 1), None);
}

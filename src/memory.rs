//! Physical frames and the boot-supplied memory map.
use vstd::prelude::*;
use crate::paging::{
    MapToError, Page, PageTableMapper, PhysicalMemory, PRESENT, WRITABLE, entry_addr, fresh_for,
    leaf_entry, missing_tables, new_tables_zeroed, only_fills, translate, huge_entry,
};

verus! {

/// Size of a physical frame and of a virtual page, in bytes.
pub const PAGE_SIZE: u64 = 4096;

/// Physical addresses have at most 52 significant bits.
pub const PHYS_ADDR_LIMIT: u64 = 0x10_0000_0000_0000;

/// `addr` rounded down to the start of its 4 KiB frame.
pub open spec fn align_down(addr: int) -> int {
    addr - addr % 4096
}

/// Relies on x86_64's `PhysFrame::<Size4KiB>::containing_address`, which rounds
/// the address down to a multiple of 4096; `PhysAddr::new` panics on an address
/// with any of the bits 52 to 63 set.
#[verifier::external_body]
fn frame_start_containing(addr: u64) -> (r: u64)
    requires
        addr < PHYS_ADDR_LIMIT,
    ensures
        r == align_down(addr as int),
{
    x86_64::structures::paging::PhysFrame::<x86_64::structures::paging::Size4KiB>::containing_address(
        x86_64::PhysAddr::new(addr),
    ).start_address().as_u64()
}

/// A 4 KiB physical frame, named by its start address.
#[derive(Clone, Copy, Debug, PartialEq, Eq, Structural)]
pub struct PhysFrame {
    pub start: u64,
}

impl PhysFrame {
    pub open spec fn wf(&self) -> bool {
        self.start % 4096 == 0 && self.start < PHYS_ADDR_LIMIT
    }

    /// The frame that holds the physical address `addr`.
    pub fn containing_address(addr: u64) -> (r: PhysFrame)
        requires
            addr < PHYS_ADDR_LIMIT,
        ensures
            r.start == align_down(addr as int),
            r.wf(),
    {
        PhysFrame { start: frame_start_containing(addr) }
    }

    pub fn start_address(&self) -> (r: u64)
        ensures
            r == self.start,
    {
        self.start
    }
}

/// The kind of a region of the boot memory map.
#[derive(Clone, Copy, Debug, PartialEq, Eq, Structural)]
pub enum MemoryRegionType {
    Usable,
    InUse,
    Reserved,
    AcpiReclaimable,
    AcpiNvs,
    BadMemory,
    Kernel,
    KernelStack,
    PageTable,
    Bootloader,
    FrameZero,
    Empty,
    BootInfo,
    Package,
}

/// One region of the boot memory map: the physical addresses `start..end`.
#[derive(Clone, Copy, Debug, PartialEq, Eq, Structural)]
pub struct MemoryRegion {
    pub start: u64,
    pub end: u64,
    pub region_type: MemoryRegionType,
}

impl MemoryRegion {
    /// Every address of the region is a physical address.
    pub open spec fn wf(&self) -> bool {
        self.end <= PHYS_ADDR_LIMIT
    }

    /// How many frame starts the region yields when stepped by the frame size.
    pub open spec fn frame_count(&self) -> nat {
        if self.end > self.start {
            ((self.end - self.start + 4095) / 4096) as nat
        } else {
            0
        }
    }

    /// The frames of the region: one for each address `start + 4096 * j` below `end`.
    pub open spec fn frames(&self) -> Seq<u64> {
        Seq::new(self.frame_count(), |j: int| align_down(self.start + 4096 * j) as u64)
    }

    pub open spec fn is_usable(&self) -> bool {
        self.region_type == MemoryRegionType::Usable
    }
}

/// The usable frames of a memory map, region after region, in map order.
pub open spec fn usable_frames(map: Seq<MemoryRegion>) -> Seq<u64>
    decreases map.len(),
{
    if map.len() == 0 {
        Seq::empty()
    } else {
        let last = map.last();
        usable_frames(map.drop_last()) + if last.is_usable() {
            last.frames()
        } else {
            Seq::empty()
        }
    }
}

pub open spec fn map_wf(map: Seq<MemoryRegion>) -> bool {
    forall|i: int| 0 <= i < map.len() ==> #[trigger] map[i].wf()
}

proof fn lemma_usable_frames_step(map: Seq<MemoryRegion>, i: int)
    requires
        0 <= i < map.len(),
    ensures
        usable_frames(map.take(i + 1)) == usable_frames(map.take(i)) + if map[i].is_usable() {
            map[i].frames()
        } else {
            Seq::empty()
        },
{
    assert(map.take(i + 1).drop_last() =~= map.take(i));
}

/// A frame source that hands out the usable frames of the boot memory map one
/// after the other and never hands out a frame twice.
pub struct BootInfoFrameAllocator {
    memory_map: Vec<MemoryRegion>,
    next: usize,
}

impl BootInfoFrameAllocator {
    pub closed spec fn memory_map(&self) -> Seq<MemoryRegion> {
        self.memory_map@
    }

    /// How many frames have been asked for so far.
    pub closed spec fn next(&self) -> nat {
        self.next as nat
    }

    /// The frames that this source hands out, in order.
    pub open spec fn frames(&self) -> Seq<u64> {
        usable_frames(self.memory_map())
    }

    /// How many frames are left to hand out.
    pub open spec fn remaining(&self) -> nat {
        if self.next() < self.frames().len() {
            (self.frames().len() - self.next()) as nat
        } else {
            0
        }
    }

    pub open spec fn wf(&self) -> bool {
        &&& map_wf(self.memory_map())
        &&& self.frames().len() <= usize::MAX
    }

    /// Creates a frame source over `memory_map`. The caller vouches that every
    /// region marked usable is really unused.
    pub fn init(memory_map: Vec<MemoryRegion>) -> (r: BootInfoFrameAllocator)
        requires
            map_wf(memory_map@),
            usable_frames(memory_map@).len() <= usize::MAX,
        ensures
            r.memory_map() == memory_map@,
            r.next() == 0,
            r.wf(),
    {
        BootInfoFrameAllocator { memory_map, next: 0 }
    }

    /// The `n`-th usable frame of the memory map, or `None` if there are no
    /// more than `n` of them. The frames are derived afresh on every call.
    pub fn usable_frame(&self, n: usize) -> (r: Option<PhysFrame>)
        requires
            map_wf(self.memory_map()),
        ensures
            r == (if n < self.frames().len() {
                Some(PhysFrame { start: self.frames()[n as int] })
            } else {
                None::<PhysFrame>
            }),
    {
        let map = &self.memory_map;
        let mut rest: u64 = n as u64;
        let mut i: usize = 0;
        while i < map.len()
            invariant
                map@ == self.memory_map(),
                map_wf(map@),
                0 <= i <= map.len(),
                rest + usable_frames(map@.take(i as int)).len() == n,
            decreases map.len() - i,
        {
            let region = map[i];
            proof {
                lemma_usable_frames_step(map@, i as int);
                assert(region.wf());
            }
            if region.region_type == MemoryRegionType::Usable {
                let count: u64 = if region.end > region.start {
                    (region.end - region.start + 4095) / 4096
                } else {
                    0
                };
                assert(count == region.frame_count());
                if rest < count {
                    let addr: u64 = region.start + 4096 * rest;
                    let frame = PhysFrame::containing_address(addr);
                    proof {
                        let pre = usable_frames(map@.take(i as int));
                        let whole = usable_frames(map@);
                        lemma_usable_frames_prefix(map@, i as int + 1);
                        assert(whole.take(pre.len() + count) =~= usable_frames(map@.take(i + 1)));
                        assert(whole[n as int] == usable_frames(map@.take(i + 1))[n as int]);
                    }
                    return Some(frame);
                }
                rest = rest - count;
            }
            i = i + 1;
        }
        assert(map@.take(i as int) =~= map@);
        None
    }

    /// Whether a usable frame is left at the cursor.
    pub fn has_frame(&self) -> (r: bool)
        requires
            self.wf(),
        ensures
            r == (self.next() < self.frames().len()),
    {
        self.usable_frame(self.next).is_some()
    }

    /// Hands out the usable frame at the cursor, or `None` once all have been
    /// handed out, and advances the cursor either way.
    pub fn allocate_frame(&mut self) -> (r: Option<PhysFrame>)
        requires
            old(self).wf(),
            old(self).next() < usize::MAX,
        ensures
            final(self).wf(),
            final(self).memory_map() == old(self).memory_map(),
            final(self).next() == old(self).next() + 1,
            r == (if old(self).next() < old(self).frames().len() {
                Some(PhysFrame { start: old(self).frames()[old(self).next() as int] })
            } else {
                None::<PhysFrame>
            }),

    {
        let frame = self.usable_frame(self.next);
        self.next = self.next + 1;
        frame
    }
}

/// Every region starts on a frame boundary.
#[verifier::opaque]
pub open spec fn regions_aligned(map: Seq<MemoryRegion>) -> bool {
    forall|i: int| 0 <= i < map.len() ==> #[trigger] map[i].start % 4096 == 0
}

/// `addr` lies inside a region of the map marked usable.
#[verifier::opaque]
pub open spec fn in_usable_region(map: Seq<MemoryRegion>, addr: u64) -> bool {
    exists|i: int| 0 <= i < map.len() && #[trigger] map[i].is_usable() && map[i].start <= addr < map[i].end
}

/// The frame at the cursor, which `allocate_frame` hands out next, lies in a
/// region marked usable when the regions start on frame boundaries: no frame
/// of a reserved region is ever handed out.
pub proof fn lemma_next_frame_usable(alloc: BootInfoFrameAllocator)
    requires
        regions_aligned(alloc.memory_map()),
        alloc.next() < alloc.frames().len(),
    ensures
        in_usable_region(alloc.memory_map(), alloc.frames()[alloc.next() as int]),
{
    reveal(regions_aligned);
    reveal(in_usable_region);
    lemma_usable_frame_in_usable_region(alloc.memory_map(), alloc.next() as int);
}

/// A cursor position, capped at the number of frames.
pub open spec fn capped(n: nat, len: nat) -> int {
    if n < len {
        n as int
    } else {
        len as int
    }
}

/// The frames that `before` hands out until it becomes `after`.
#[verifier::opaque]
pub open spec fn taken(before: BootInfoFrameAllocator, after: BootInfoFrameAllocator) -> Seq<u64> {
    let len = before.frames().len();
    before.frames().subrange(capped(before.next(), len), capped(after.next(), len))
}

/// A frame is among those taken exactly when it stands at a cursor position
/// passed between the two states.
pub proof fn lemma_taken(before: BootInfoFrameAllocator, after: BootInfoFrameAllocator)
    requires
        before.frames() == after.frames(),
        before.next() <= after.next(),
    ensures
        forall|t: u64|
            #[trigger] taken(before, after).contains(t) <==> exists|k: int|
                before.next() <= k < after.next() && k < before.frames().len() && before.frames()[k] == t,
        before.next() == after.next() ==> taken(before, after).len() == 0,
{
    reveal(taken);
    let fs = before.frames();
    let lo = capped(before.next(), fs.len());
    let hi = capped(after.next(), fs.len());
    assert forall|t: u64|
        #[trigger] taken(before, after).contains(t) <==> exists|k: int|
            before.next() <= k < after.next() && k < fs.len() && fs[k] == t by {
        if taken(before, after).contains(t) {
            let j = choose|j: int| 0 <= j < hi - lo && fs.subrange(lo, hi)[j] == t;
            assert(fs[lo + j] == t);
        }
        if exists|k: int| before.next() <= k < after.next() && k < fs.len() && fs[k] == t {
            let k = choose|k: int| before.next() <= k < after.next() && k < fs.len() && fs[k] == t;
            assert(fs.subrange(lo, hi)[k - lo] == t);
        }
    }
}

/// The usable frames of a prefix of the map are a prefix of those of the map.
proof fn lemma_usable_frames_prefix(map: Seq<MemoryRegion>, k: int)
    requires
        0 <= k <= map.len(),
    ensures
        usable_frames(map).take(usable_frames(map.take(k)).len() as int) == usable_frames(
            map.take(k),
        ),
        usable_frames(map.take(k)).len() <= usable_frames(map).len(),
    decreases map.len() - k,
{
    if k == map.len() {
        assert(map.take(k) =~= map);
        assert(usable_frames(map).take(usable_frames(map).len() as int) =~= usable_frames(map));
    } else {
        lemma_usable_frames_prefix(map, k + 1);
        lemma_usable_frames_step(map, k);
        let a = usable_frames(map.take(k));
        let b = usable_frames(map.take(k + 1));
        assert(b.take(a.len() as int) =~= a);
        assert(usable_frames(map).take(a.len() as int) =~= b.take(a.len() as int));
    }
}

/// Every usable frame is a 4 KiB-aligned physical address.
pub proof fn lemma_usable_frame_wf(map: Seq<MemoryRegion>, n: int)
    requires
        map_wf(map),
        0 <= n < usable_frames(map).len(),
    ensures
        usable_frames(map)[n] % 4096 == 0,
        usable_frames(map)[n] < PHYS_ADDR_LIMIT,
    decreases map.len(),
{
    let pre = usable_frames(map.drop_last());
    let last = map.last();
    assert(map_wf(map.drop_last())) by {
        assert forall|i: int| 0 <= i < map.drop_last().len() implies #[trigger] map.drop_last()[i].wf() by {
            assert(map[i].wf());
        }
    }
    if n < pre.len() {
        lemma_usable_frame_wf(map.drop_last(), n);
    } else {
        assert(last.wf());
        let j = n - pre.len();
        let a = last.start + 4096 * j;
        assert(a < last.end);
        assert(align_down(a) % 4096 == 0) by (nonlinear_arith)
            requires a >= 0;
    }
}

/// The virtual address at which the physical address `phys` can be read,
/// given that all of physical memory is mapped at `physical_memory_offset`;
/// `None` where the sum leaves the address space.
pub fn phys_to_virt(physical_memory_offset: u64, phys: u64) -> (r: Option<u64>)
    ensures
        r == (if physical_memory_offset + phys <= u64::MAX {
            Some((physical_memory_offset + phys) as u64)
        } else {
            None::<u64>
        }),
{
    physical_memory_offset.checked_add(phys)
}

/// Takes the one handle on the active hierarchy, whose level-4 table lies in
/// `level_4_frame`, reached through `memory`. Consuming `memory` makes the
/// handle the only way to the tables.
pub fn init<M: PhysicalMemory>(memory: M, level_4_frame: u64) -> (r: PageTableMapper<M>)
    requires
        level_4_frame % 4096 == 0,
        level_4_frame < PHYS_ADDR_LIMIT,
    ensures
        r.memory() == memory,
        r.root() == level_4_frame,
        r.wf(),
{
    PageTableMapper::new(memory, level_4_frame)
}

/// Physical address of the VGA text buffer.
pub const VGA_BUFFER: u64 = 0xb8000;

/// Maps `page` to the frame of the VGA text buffer, writable.
pub fn create_example_mapping<M: PhysicalMemory>(
    page: Page,
    mapper: &mut PageTableMapper<M>,
    frame_allocator: &mut BootInfoFrameAllocator,
) -> (r: Result<(), MapToError>)
    requires
        page.wf(),
        old(mapper).wf(),
        old(frame_allocator).wf(),
        old(frame_allocator).next() + 3 <= usize::MAX,
    ensures
        final(mapper).wf(),
        final(mapper).root() == old(mapper).root(),
        final(frame_allocator).wf(),
        final(frame_allocator).memory_map() == old(frame_allocator).memory_map(),
        old(frame_allocator).next() <= final(frame_allocator).next() <= old(frame_allocator).next() + 3,
        only_fills(&old(mapper).memory(), &final(mapper).memory(), taken(*old(frame_allocator), *final(frame_allocator))),
        r is Ok ==> final(mapper).memory().flushed() == old(mapper).memory().flushed().push(page.start),
        r is Err ==> final(mapper).memory().flushed() == old(mapper).memory().flushed(),
        leaf_entry(&old(mapper).memory(), old(mapper).root(), page.start) matches Some(e) ==> {
            &&& r == Err::<(), MapToError>(MapToError::PageAlreadyMapped(PhysFrame { start: entry_addr(e) }))
            &&& final(mapper).memory() == old(mapper).memory()
            &&& final(frame_allocator).next() == old(frame_allocator).next()
        },
        huge_entry(&old(mapper).memory(), old(mapper).root(), page.start) is Some ==> {
            &&& r == Err::<(), MapToError>(MapToError::ParentEntryHugePage)
            &&& final(mapper).memory() == old(mapper).memory()
        },
        fresh_for(&old(mapper).memory(), old(mapper).root(), *old(frame_allocator), page.start)
            && huge_entry(&old(mapper).memory(), old(mapper).root(), page.start) is None
            && leaf_entry(&old(mapper).memory(), old(mapper).root(), page.start).is_none() ==> {
            &&& r is Ok <==> missing_tables(&old(mapper).memory(), old(mapper).root(), page.start)
                <= old(frame_allocator).remaining()
            &&& r is Err ==> r == Err::<(), MapToError>(MapToError::FrameAllocationFailed)
            &&& r is Err ==> leaf_entry(&final(mapper).memory(), final(mapper).root(), page.start).is_none()
            &&& r is Ok ==> final(frame_allocator).next() == old(frame_allocator).next() + missing_tables(
                &old(mapper).memory(),
                old(mapper).root(),
                page.start,
            )
            &&& r is Ok ==> new_tables_zeroed(
                &final(mapper).memory(),
                final(mapper).root(),
                page.start,
                missing_tables(&old(mapper).memory(), old(mapper).root(), page.start),
            )
            &&& r is Ok ==> leaf_entry(&final(mapper).memory(), final(mapper).root(), page.start)
                == Some((VGA_BUFFER + PRESENT + WRITABLE) as u64)
            &&& r is Ok ==> forall|a: u64|
                align_down(a as int) == page.start ==> #[trigger] translate(
                    &final(mapper).memory(),
                    final(mapper).root(),
                    a,
                ) == Some((VGA_BUFFER + a % 4096) as u64)
        },
{
    let frame = PhysFrame::containing_address(VGA_BUFFER);
    mapper.map_to(page, frame, PRESENT + WRITABLE, frame_allocator)
}

/// Every frame that the source hands out lies inside a region marked usable,
/// provided the regions start on frame boundaries; so none lies in a region
/// of another kind that no usable region overlaps.
pub proof fn lemma_usable_frame_in_usable_region(map: Seq<MemoryRegion>, n: int)
    requires
        0 <= n < usable_frames(map).len(),
        forall|i: int| 0 <= i < map.len() ==> #[trigger] map[i].start % 4096 == 0,
    ensures
        exists|i: int|
            0 <= i < map.len() && #[trigger] map[i].is_usable() && map[i].start <= usable_frames(map)[n]
                < map[i].end,
    decreases map.len(),
{
    let pre = usable_frames(map.drop_last());
    let last_i = map.len() - 1;
    assert forall|i: int| 0 <= i < map.drop_last().len() implies #[trigger] map.drop_last()[i].start % 4096 == 0 by {
        assert(map[i].start % 4096 == 0);
    }
    if n < pre.len() {
        lemma_usable_frame_in_usable_region(map.drop_last(), n);
        let i = choose|i: int|
            0 <= i < map.drop_last().len() && #[trigger] map.drop_last()[i].is_usable()
                && map.drop_last()[i].start <= pre[n] < map.drop_last()[i].end;
        assert(map[i] == map.drop_last()[i]);
        assert(map[i].is_usable());
    } else {
        let last = map[last_i];
        assert(last.start % 4096 == 0);
        let j = n - pre.len();
        let a = last.start + 4096 * j;
        assert(a < last.end);
        assert(a % 4096 == 0) by (nonlinear_arith)
            requires a == last.start + 4096 * j, last.start % 4096 == 0, j >= 0;
        assert(usable_frames(map)[n] == a);
        assert(map[last_i].is_usable());
    }
}

/// The regions start on frame boundaries and follow one another without
/// overlapping.
pub open spec fn map_sorted(map: Seq<MemoryRegion>) -> bool {
    &&& forall|i: int| 0 <= i < map.len() ==> #[trigger] map[i].start % 4096 == 0
    &&& forall|i: int, j: int| 0 <= i < j < map.len() ==> #[trigger] map[i].end <= #[trigger] map[j].start
}

/// On a map whose regions are aligned, ordered and disjoint, the frames come
/// out in strictly ascending order, so no frame is ever handed out twice.
pub proof fn lemma_usable_frames_ascending(map: Seq<MemoryRegion>)
    requires
        map_sorted(map),
    ensures
        forall|a: int, b: int|
            0 <= a < b < usable_frames(map).len() ==> #[trigger] usable_frames(map)[a]
                < #[trigger] usable_frames(map)[b],
    decreases map.len(),
{
    if map.len() > 0 {
        let init = map.drop_last();
        let last_i = map.len() - 1;
        let last = map[last_i];
        assert(map_sorted(init)) by {
            assert forall|i: int| 0 <= i < init.len() implies #[trigger] init[i].start % 4096 == 0 by {
                assert(map[i].start % 4096 == 0);
            }
            assert forall|i: int, j: int| 0 <= i < j < init.len() implies #[trigger] init[i].end
                <= #[trigger] init[j].start by {
                assert(map[i].end <= map[j].start);
            }
        }
        lemma_usable_frames_ascending(init);
        let pre = usable_frames(init);
        let whole = usable_frames(map);
        assert(last.start % 4096 == 0);
        assert forall|a: int| 0 <= a < pre.len() implies #[trigger] pre[a] < last.start by {
            lemma_usable_frame_in_usable_region(init, a);
            let i = choose|i: int|
                0 <= i < init.len() && #[trigger] init[i].is_usable() && init[i].start <= pre[a]
                    < init[i].end;
            assert(map[i].end <= map[last_i].start);
        }
        assert forall|j: int| 0 <= j < last.frame_count() implies #[trigger] last.frames()[j]
            == last.start + 4096 * j by {
            let x = last.start + 4096 * j;
            assert(x % 4096 == 0) by (nonlinear_arith)
                requires x == last.start + 4096 * j, last.start % 4096 == 0, j >= 0;
        }
        assert forall|a: int, b: int| 0 <= a < b < whole.len() implies #[trigger] whole[a]
            < #[trigger] whole[b] by {
            if b >= pre.len() {
                assert(whole[b] == last.frames()[b - pre.len()]);
                if a >= pre.len() {
                    assert(whole[a] == last.frames()[a - pre.len()]);
                } else {
                    assert(whole[a] == pre[a]);
                }
            } else {
                assert(whole[a] == pre[a]);
                assert(whole[b] == pre[b]);
            }
        }
    }
}

} // verus!

//! Heap bootstrap: maps the fixed virtual region that the global allocator
//! is then given.
use vstd::prelude::*;
use crate::memory::{BootInfoFrameAllocator, PhysFrame, taken, lemma_taken, align_down};
use crate::paging::{
    MapToError, Page, PageTableMapper, PhysicalMemory, PRESENT, WRITABLE, entry_addr, fresh_for,
    leaf_entry, on_path, lemma_walk_kept, index_of, level_1_table, level_2_table, level_3_table,
    is_present, missing_tables, translate, lemma_same_page, huge_entry, only_fills, changes_on_walk, new_tables_zeroed, lemma_entry_addr,
};

verus! {

/// First virtual address of the heap.
pub const HEAP_START: u64 = 0x4444_4444_0000;

/// Size of the heap in bytes.
pub const HEAP_SIZE: u64 = 100 * 1024;

/// Number of pages in the heap region.
pub const HEAP_PAGES: u64 = 25;

/// The start addresses of the heap's pages, in ascending order.
pub open spec fn heap_pages() -> Seq<u64> {
    Seq::new(HEAP_PAGES as nat, |k: int| (HEAP_START + 4096 * k) as u64)
}

/// Every page of the heap region is mapped.
pub open spec fn heap_mapped<M: PhysicalMemory>(m: &M, root: u64) -> bool {
    forall|j: int| 0 <= j < HEAP_PAGES ==> #[trigger] leaf_entry(m, root, heap_pages()[j]).is_some()
}

/// No page of the heap region is mapped.
pub open spec fn heap_unmapped<M: PhysicalMemory>(m: &M, root: u64) -> bool {
    forall|j: int| 0 <= j < HEAP_PAGES ==> #[trigger] leaf_entry(m, root, heap_pages()[j]).is_none()
}

/// The heap pages lie in one level-1 table: they share the entries of the
/// upper levels and use consecutive level-1 entries.
proof fn lemma_heap_indices(j: int)
    requires
        0 <= j < HEAP_PAGES,
    ensures
        index_of(heap_pages()[j], 4) == index_of(HEAP_START, 4),
        index_of(heap_pages()[j], 3) == index_of(HEAP_START, 3),
        index_of(heap_pages()[j], 2) == index_of(HEAP_START, 2),
        index_of(heap_pages()[j], 1) == 64 + j,
        index_of(HEAP_START, 1) == 64,
{
    let x = heap_pages()[j] as int;
    assert(x == 0x4444_4444_0000 + 4096 * j);
    assert(x / 4096 == 0x4_4444_4440 + j);
    assert(x / 0x20_0000 == 0x222_2222);
    assert(x / 0x4000_0000 == 0x1_1111);
    assert(x / 0x80_0000_0000 == 0x88);
}

/// The walk of the heap region after `k` of its pages are mapped: it passes
/// `t3`, `t2` and `t1`; the first `k` heap entries of `t1` are present and
/// the others are not; and no frame from cursor `next` on is one of its tables.
pub open spec fn heap_tables<M: PhysicalMemory>(
    m: &M,
    root: u64,
    t3: u64,
    t2: u64,
    t1: u64,
    k: int,
    fs: Seq<u64>,
    next: int,
) -> bool {
    &&& level_3_table(m, root, HEAP_START) == Some(t3)
    &&& level_2_table(m, root, HEAP_START) == Some(t2)
    &&& level_1_table(m, root, HEAP_START) == Some(t1)
    &&& forall|j: int| 0 <= j < k ==> #[trigger] is_present(m.entry(t1, 64 + j))
    &&& forall|j: int| k <= j < HEAP_PAGES ==> !#[trigger] is_present(m.entry(t1, 64 + j))
    &&& forall|i: int| next <= i < fs.len() ==> !on_path(m, root, HEAP_START, #[trigger] fs[i])
}

/// The heap page `j` is walked through the same tables as the first one.
proof fn lemma_heap_page_walk<M: PhysicalMemory>(m: &M, root: u64, j: int)
    requires
        0 <= j < HEAP_PAGES,
    ensures
        level_3_table(m, root, heap_pages()[j]) == level_3_table(m, root, HEAP_START),
        level_2_table(m, root, heap_pages()[j]) == level_2_table(m, root, HEAP_START),
        level_1_table(m, root, heap_pages()[j]) == level_1_table(m, root, HEAP_START),
        forall|t: u64| #[trigger] on_path(m, root, heap_pages()[j], t) == on_path(m, root, HEAP_START, t),
        index_of(heap_pages()[j], 1) == 64 + j,
{
    lemma_heap_indices(j);
}

/// Before mapping heap page `k` (not the first): the page is unmapped, its
/// tables all exist, and the frames still to come are fresh for it.
proof fn lemma_heap_step_ready<M: PhysicalMemory>(
    m: &M,
    root: u64,
    t3: u64,
    t2: u64,
    t1: u64,
    k: int,
    a: BootInfoFrameAllocator,
    n0: int,
)
    requires
        1 <= k < HEAP_PAGES,
        heap_tables(m, root, t3, t2, t1, k, a.frames(), a.next() - 1),
        n0 <= a.next(),
        forall|i: int, j: int|
            n0 <= i < a.frames().len() && n0 <= j < a.frames().len() && i != j ==> #[trigger] a.frames()[i]
                != #[trigger] a.frames()[j],
    ensures
        fresh_for(m, root, a, heap_pages()[k]),
        leaf_entry(m, root, heap_pages()[k]).is_none(),
        missing_tables(m, root, heap_pages()[k]) == 0,
{
    lemma_heap_page_walk(m, root, k);
    let fs = a.frames();
    assert forall|i: int| a.next() <= i < fs.len() implies !on_path(m, root, heap_pages()[k], #[trigger] fs[i]) by {
        assert(!on_path(m, root, HEAP_START, fs[i]));
    }
    assert(!is_present(m.entry(t1, 64 + k)));
}

/// After mapping heap page `k` (not the first) through tables that all
/// existed: only its leaf changed.
proof fn lemma_heap_step_done<M: PhysicalMemory>(
    before: &M,
    after: &M,
    root: u64,
    t3: u64,
    t2: u64,
    t1: u64,
    k: int,
    fs: Seq<u64>,
    fresh: Seq<u64>,
    next: int,
)
    requires
        1 <= k < HEAP_PAGES,
        root % 4096 == 0,
        root < crate::memory::PHYS_ADDR_LIMIT,
        heap_tables(before, root, t3, t2, t1, k, fs, next),
        fresh.len() == 0,
        only_fills(before, after, fresh),
        changes_on_walk(before, after, fresh, root, heap_pages()[k]),
        leaf_entry(after, root, heap_pages()[k]).is_some(),
    ensures
        heap_tables(after, root, t3, t2, t1, k + 1, fs, next),
{
    lemma_heap_page_walk(before, root, k);
    lemma_heap_page_walk(after, root, k);
    let i4 = index_of(HEAP_START, 4);
    let i3 = index_of(HEAP_START, 3);
    let i2 = index_of(HEAP_START, 2);
    lemma_entry_addr(before.entry(root, i4));
    lemma_entry_addr(before.entry(t3, i3));
    lemma_entry_addr(before.entry(t2, i2));
    assert(!fresh.contains(root) && !fresh.contains(t3) && !fresh.contains(t2) && !fresh.contains(t1));
    assert(after.entry(root, i4) == before.entry(root, i4));
    assert(after.entry(t3, i3) == before.entry(t3, i3));
    assert(after.entry(t2, i2) == before.entry(t2, i2));
    assert forall|j: int| 0 <= j < HEAP_PAGES && j != k implies #[trigger] after.entry(t1, 64 + j) == before.entry(t1, 64 + j) by {
        lemma_heap_indices(j);
    }
    assert forall|j: int| 0 <= j < k + 1 implies #[trigger] is_present(after.entry(t1, 64 + j)) by {
        if j != k {
            assert(after.entry(t1, 64 + j) == before.entry(t1, 64 + j));
        }
    }
    assert forall|j: int| k + 1 <= j < HEAP_PAGES implies !#[trigger] is_present(after.entry(t1, 64 + j)) by {
        assert(after.entry(t1, 64 + j) == before.entry(t1, 64 + j));
    }
    assert forall|i: int| next <= i < fs.len() implies !on_path(after, root, HEAP_START, #[trigger] fs[i]) by {
        assert(!on_path(before, root, HEAP_START, fs[i]));
    }
}

/// After mapping the first heap page into a region that was unmapped: the
/// walk's tables are fixed, no other heap entry of the level-1 table is
/// present, and no frame still to come is one of the walk's tables.
proof fn lemma_heap_first_done<M: PhysicalMemory>(
    before: &M,
    after: &M,
    root: u64,
    a: BootInfoFrameAllocator,
    b: BootInfoFrameAllocator,
)
    requires
        root % 4096 == 0,
        root < crate::memory::PHYS_ADDR_LIMIT,
        a.frames() == b.frames(),
        a.next() <= b.next(),
        fresh_for(before, root, a, HEAP_START),
        heap_unmapped(before, root),
        only_fills(before, after, taken(a, b)),
        changes_on_walk(before, after, taken(a, b), root, HEAP_START),
        new_tables_zeroed(after, root, HEAP_START, missing_tables(before, root, HEAP_START)),
        b.next() == a.next() + missing_tables(before, root, HEAP_START),
        leaf_entry(after, root, HEAP_START).is_some(),
        forall|t: u64|
            #[trigger] on_path(after, root, HEAP_START, t) ==> on_path(before, root, HEAP_START, t)
                || taken(a, b).contains(t),
    ensures
        heap_tables(
            after,
            root,
            level_3_table(after, root, HEAP_START).unwrap(),
            level_2_table(after, root, HEAP_START).unwrap(),
            level_1_table(after, root, HEAP_START).unwrap(),
            1,
            b.frames(),
            b.next() as int,
        ),
{
    lemma_taken(a, b);
    lemma_heap_indices(0);
    let fs = a.frames();
    let t1 = level_1_table(after, root, HEAP_START).unwrap();
    let miss = missing_tables(before, root, HEAP_START);
    if miss == 0 {
        let i4 = index_of(HEAP_START, 4);
        let i3 = index_of(HEAP_START, 3);
        let i2 = index_of(HEAP_START, 2);
        let o3 = level_3_table(before, root, HEAP_START).unwrap();
        let o2 = level_2_table(before, root, HEAP_START).unwrap();
        lemma_entry_addr(before.entry(root, i4));
        lemma_entry_addr(before.entry(o3, i3));
        lemma_entry_addr(before.entry(o2, i2));
        assert(after.entry(root, i4) == before.entry(root, i4));
        assert(after.entry(o3, i3) == before.entry(o3, i3));
        assert(after.entry(o2, i2) == before.entry(o2, i2));
        assert(level_1_table(before, root, HEAP_START) == Some(t1));
        assert forall|j: int| 1 <= j < HEAP_PAGES implies !#[trigger] is_present(after.entry(t1, 64 + j)) by {
            lemma_heap_page_walk(before, root, j);
            assert(leaf_entry(before, root, heap_pages()[j]).is_none());
            lemma_heap_indices(j);
        }
    } else {
        assert forall|j: int| 1 <= j < HEAP_PAGES implies !#[trigger] is_present(after.entry(t1, 64 + j)) by {
            assert(after.entry(t1, 64 + j) == 0);
        }
    }
    assert forall|j: int| 0 <= j < 1 implies #[trigger] is_present(after.entry(t1, 64 + j)) by {}
    assert forall|i: int| b.next() <= i < fs.len() implies !on_path(after, root, HEAP_START, #[trigger] fs[i]) by {
        assert(!on_path(before, root, HEAP_START, fs[i]));
        if taken(a, b).contains(fs[i]) {
            let k = choose|k: int| a.next() <= k < b.next() && k < fs.len() && fs[k] == fs[i];
            assert(fs[k] != fs[i]);
        }
    }
}

/// The `k`-th page of the heap.
pub fn heap_page(k: u64) -> (r: Page)
    requires
        k < HEAP_PAGES,
    ensures
        r.start == heap_pages()[k as int],
        r.wf(),
{
    Page { start: HEAP_START + 4096 * k }
}

/// What the heap bootstrap does next.
#[derive(Clone, Copy, Debug, PartialEq, Eq, Structural)]
pub enum HeapAction {
    /// Take a fresh frame and map this page to it, writable.
    MapPage(Page),
    /// Every page is mapped: hand the region to the allocator.
    Done,
    /// Stop with this error.
    Fail(MapToError),
}

/// One decision of the heap bootstrap, for a caller that maps the pages
/// itself: `mapped` pages are done and `last` is the outcome of the latest
/// step. The first error stops the bootstrap; otherwise the pages are mapped
/// in ascending order.
pub fn heap_step(mapped: u64, last: Result<(), MapToError>) -> (r: HeapAction)
    requires
        mapped <= HEAP_PAGES,
    ensures
        r == (match last {
            Err(e) => HeapAction::Fail(e),
            Ok(()) => if mapped < HEAP_PAGES {
                HeapAction::MapPage(Page { start: heap_pages()[mapped as int] })
            } else {
                HeapAction::Done
            },
        }),
{
    match last {
        Err(e) => HeapAction::Fail(e),
        Ok(()) => if mapped < HEAP_PAGES {
            HeapAction::MapPage(heap_page(mapped))
        } else {
            HeapAction::Done
        },
    }
}

/// Maps every page of the heap region to a fresh frame, writable. Fails with
/// the error of the first page that cannot be mapped: no frame left, or a page
/// already mapped.
#[verifier::rlimit(100)]
pub fn init_heap<M: PhysicalMemory>(
    mapper: &mut PageTableMapper<M>,
    frame_allocator: &mut BootInfoFrameAllocator,
) -> (r: Result<(), MapToError>)
    requires
        old(mapper).wf(),
        old(frame_allocator).wf(),
        old(frame_allocator).next() + 4 * HEAP_PAGES <= usize::MAX,
    ensures
        final(mapper).wf(),
        final(mapper).root() == old(mapper).root(),
        final(frame_allocator).wf(),
        final(frame_allocator).memory_map() == old(frame_allocator).memory_map(),
        r is Ok ==> final(mapper).memory().flushed() == old(mapper).memory().flushed() + heap_pages(),
        fresh_for(&old(mapper).memory(), old(mapper).root(), *old(frame_allocator), HEAP_START) && r is Ok
            ==> leaf_entry(&final(mapper).memory(), final(mapper).root(), HEAP_START).is_some(),
        fresh_for(&old(mapper).memory(), old(mapper).root(), *old(frame_allocator), HEAP_START)
            && huge_entry(&old(mapper).memory(), old(mapper).root(), HEAP_START) is None
            && heap_unmapped(&old(mapper).memory(), old(mapper).root())
            && old(frame_allocator).remaining() >= HEAP_PAGES + missing_tables(&old(mapper).memory(), old(mapper).root(), HEAP_START) ==> {
            &&& r is Ok
            &&& heap_mapped(&final(mapper).memory(), final(mapper).root())
            &&& forall|a: u64|
                HEAP_START <= a < HEAP_START + HEAP_SIZE ==> #[trigger] translate(
                    &final(mapper).memory(),
                    final(mapper).root(),
                    a,
                ).is_some()
        },
        leaf_entry(&old(mapper).memory(), old(mapper).root(), HEAP_START) matches Some(e) ==> {
            &&& final(mapper).memory() == old(mapper).memory()
            &&& if old(frame_allocator).next() < old(frame_allocator).frames().len() {
                r == Err::<(), MapToError>(MapToError::PageAlreadyMapped(PhysFrame { start: entry_addr(e) }))
            } else {
                r == Err::<(), MapToError>(MapToError::FrameAllocationFailed)
            }
        },
{
    let first = Page::containing_address(HEAP_START);
    let last = Page::containing_address(HEAP_START + HEAP_SIZE - 1);
    assert(first.start == HEAP_START);
    assert(last.start == HEAP_START + 4096 * (HEAP_PAGES - 1));
    let ghost flushed0 = mapper.memory().flushed();
    let ghost root = mapper.root();
    let ghost fs = frame_allocator.frames();
    let ghost n0 = frame_allocator.next() as int;
    let ghost fresh0 = fresh_for(&mapper.memory(), root, *frame_allocator, HEAP_START);
    let ghost h0 = fresh0 && huge_entry(&mapper.memory(), root, HEAP_START) is None && heap_unmapped(
        &mapper.memory(),
        root,
    ) && frame_allocator.remaining() >= HEAP_PAGES + missing_tables(&mapper.memory(), root, HEAP_START);
    let ghost mut t3g: u64 = 0;
    let ghost mut t2g: u64 = 0;
    let ghost mut t1g: u64 = 0;
    let mut k: u64 = 0;
    while k < HEAP_PAGES
        invariant
            0 <= k <= HEAP_PAGES,
            mapper.wf(),
            mapper.root() == old(mapper).root(),
            frame_allocator.wf(),
            frame_allocator.memory_map() == old(frame_allocator).memory_map(),
            mapper.memory().flushed() == flushed0 + heap_pages().take(k as int),
            first.start == HEAP_START,
            k == 0 ==> mapper.memory() == old(mapper).memory() && *frame_allocator == *old(frame_allocator),
            k > 0 ==> leaf_entry(&old(mapper).memory(), old(mapper).root(), HEAP_START).is_none(),
            root == old(mapper).root(),
            fs == frame_allocator.frames(),
            n0 == old(frame_allocator).next(),
            n0 + 4 * HEAP_PAGES <= usize::MAX,
            n0 <= frame_allocator.next() <= n0 + 4 * k,
            fresh0 == fresh_for(&old(mapper).memory(), root, *old(frame_allocator), HEAP_START),
            fresh0 && k > 0 ==> leaf_entry(&mapper.memory(), root, HEAP_START).is_some(),
            fresh0 && k > 0 ==> forall|t: u64, i: int|
                #[trigger] on_path(&mapper.memory(), root, HEAP_START, t) && frame_allocator.next() <= i
                    < fs.len() ==> #[trigger] fs[i] != t,
            h0 == (fresh0 && huge_entry(&old(mapper).memory(), root, HEAP_START) is None && heap_unmapped(
                &old(mapper).memory(),
                root,
            ) && old(frame_allocator).remaining() >= HEAP_PAGES + missing_tables(&old(mapper).memory(), root, HEAP_START)),
            h0 && k > 0 ==> frame_allocator.next() + (HEAP_PAGES - k) <= fs.len(),
            h0 && k == 0 ==> frame_allocator.next() == n0,
            h0 && k > 0 ==> heap_tables(&mapper.memory(), root, t3g, t2g, t1g, k as int, fs, frame_allocator.next() as int),
        decreases HEAP_PAGES - k,
    {
        let page = heap_page(k);
        let frame = match frame_allocator.allocate_frame() {
            Some(f) => f,
            None => return Err(MapToError::FrameAllocationFailed),
        };
        proof {
            crate::memory::lemma_usable_frame_wf(
                frame_allocator.memory_map(),
                frame_allocator.next() - 1,
            );
        }
        let ghost m_before = mapper.memory();
        let ghost a_before = *frame_allocator;
        let ghost nb = frame_allocator.next() as int;
        proof {
            if fresh0 && k == 0 {
                assert(fresh_for(&m_before, root, a_before, HEAP_START));
                assert(heap_pages()[0] == HEAP_START);
            }
            if h0 && k == 0 {
                assert(leaf_entry(&m_before, root, HEAP_START).is_none());
            }
            if h0 && k > 0 {
                lemma_heap_step_ready(&m_before, root, t3g, t2g, t1g, k as int, a_before, n0);
            }
        }
        match mapper.map_to(page, frame, PRESENT + WRITABLE, frame_allocator) {
            Ok(()) => {},
            Err(e) => return Err(e),
        }
        proof {
            if h0 && k == 0 {
                lemma_heap_first_done(&m_before, &mapper.memory(), root, a_before, *frame_allocator);
                t3g = level_3_table(&mapper.memory(), root, HEAP_START).unwrap();
                t2g = level_2_table(&mapper.memory(), root, HEAP_START).unwrap();
                t1g = level_1_table(&mapper.memory(), root, HEAP_START).unwrap();
            }
            if h0 && k > 0 {
                lemma_taken(a_before, *frame_allocator);
                lemma_heap_step_done(
                    &m_before,
                    &mapper.memory(),
                    root,
                    t3g,
                    t2g,
                    t1g,
                    k as int,
                    fs,
                    taken(a_before, *frame_allocator),
                    frame_allocator.next() as int,
                );
            }
            let na = frame_allocator.next() as int;
            let sub = taken(a_before, *frame_allocator);
            lemma_taken(a_before, *frame_allocator);
            if fresh0 && k == 0 {
                assert forall|t: u64, i: int|
                    #[trigger] on_path(&mapper.memory(), root, HEAP_START, t) && na <= i < fs.len()
                        implies #[trigger] fs[i] != t by {
                    if sub.contains(t) {
                        let j = choose|j: int| nb <= j < na && j < fs.len() && fs[j] == t;
                    }
                }
            } else if fresh0 {
                assert forall|t: u64| #[trigger] on_path(&m_before, root, HEAP_START, t) implies !sub.contains(t) by {
                    if sub.contains(t) {
                        let j = choose|j: int| nb <= j < na && j < fs.len() && fs[j] == t;
                    }
                }
                lemma_walk_kept(&m_before, &mapper.memory(), sub, root, HEAP_START);
            }
        }
        assert(heap_pages().take(k + 1) =~= heap_pages().take(k as int).push(page.start));
        k = k + 1;
    }
    assert(heap_pages().take(HEAP_PAGES as int) =~= heap_pages());
    proof {
        if h0 {
            assert forall|j: int| 0 <= j < HEAP_PAGES implies #[trigger] leaf_entry(
                &mapper.memory(),
                root,
                heap_pages()[j],
            ).is_some() by {
                lemma_heap_page_walk(&mapper.memory(), root, j);
                assert(is_present(mapper.memory().entry(t1g, 64 + j)));
            }
            assert forall|a: u64| HEAP_START <= a < HEAP_START + HEAP_SIZE implies #[trigger] translate(
                &mapper.memory(),
                root,
                a,
            ).is_some() by {
                let j = (a - HEAP_START) / 4096;
                assert(align_down(a as int) == heap_pages()[j as int]);
                lemma_same_page(a, heap_pages()[j as int]);
                assert(leaf_entry(&mapper.memory(), root, heap_pages()[j as int]).is_some());
            }
        }
    }
    Ok(())
}

} // verus!

//! The four-level page-table hierarchy: walking it to translate an address,
//! and installing new mappings with fresh intermediate tables.
use vstd::prelude::*;
use crate::memory::{BootInfoFrameAllocator, PhysFrame, PHYS_ADDR_LIMIT, align_down, taken, lemma_taken};

verus! {

broadcast use vstd::std_specs::hash::group_hash_axioms;

/// Bit 0 of an entry: the entry refers to a frame.
pub const PRESENT: u64 = 1;

/// Bit 1 of an entry: writes through the mapping are allowed.
pub const WRITABLE: u64 = 2;

/// Number of entries in a page table.
pub const ENTRY_COUNT: usize = 512;

/// A frame that can hold a page table, and an index into it.
pub open spec fn slot(frame: u64, index: int) -> bool {
    frame % 4096 == 0 && frame < PHYS_ADDR_LIMIT && 0 <= index < 512
}

pub open spec fn is_present(entry: u64) -> bool {
    entry % 2 == 1
}

pub open spec fn is_writable(entry: u64) -> bool {
    (entry / 2) % 2 == 1
}

/// The physical address that an entry refers to: its bits 12 to 51.
pub open spec fn entry_addr(entry: u64) -> u64 {
    (entry % 0x10_0000_0000_0000 - entry % 4096) as u64
}

/// The bytes of virtual address covered by one entry of a table at `level`.
pub open spec fn level_span(level: int) -> int {
    if level == 1 {
        4096
    } else if level == 2 {
        0x20_0000
    } else if level == 3 {
        0x4000_0000
    } else {
        0x80_0000_0000
    }
}

/// The 9-bit index that `addr` selects in a table at `level` (1 to 4).
pub open spec fn index_of(addr: u64, level: int) -> int {
    (addr as int / level_span(level)) % 512
}

/// Physical memory as the page-table walker sees it: tables of 512 eight-byte
/// entries, one table per 4 KiB frame, and the translations flushed so far.
pub trait PhysicalMemory {
    /// Entry `index` of the table held in `frame`.
    spec fn entry(&self, frame: u64, index: int) -> u64;

    /// The pages whose cached translation was flushed, in order.
    spec fn flushed(&self) -> Seq<u64>;

    fn read_entry(&self, frame: u64, index: usize) -> (r: u64)
        requires
            slot(frame, index as int),
        ensures
            r == self.entry(frame, index as int),
    ;

    fn write_entry(&mut self, frame: u64, index: usize, value: u64)
        requires
            slot(frame, index as int),
        ensures
            forall|f: u64, i: int|
                slot(f, i) ==> #[trigger] final(self).entry(f, i) == if f == frame && i
                    == index {
                    value
                } else {
                    old(self).entry(f, i)
                },
            final(self).flushed() == old(self).flushed(),
    ;

    /// Drops any cached translation of the page that starts at `page`.
    fn flush_page(&mut self, page: u64)
        ensures
            forall|f: u64, i: int| slot(f, i) ==> #[trigger] final(self).entry(f, i) == old(self).entry(f, i),
            final(self).flushed() == old(self).flushed().push(page),
    ;
}

/// Bit 7 of an entry at level 3 or 2: it maps a large page itself.
pub open spec fn is_huge(entry: u64) -> bool {
    (entry / 128) % 2 == 1
}

/// An entry at `level` that refers to a table of the next level: present,
/// and not mapping a large page (level 4 has no large pages).
pub open spec fn is_table_link(entry: u64, level: int) -> bool {
    is_present(entry) && (level == 4 || !is_huge(entry))
}

/// The table that the entry of `table` for `addr` at `level` refers to.
pub open spec fn next_table<M: PhysicalMemory>(m: &M, table: u64, addr: u64, level: int) -> Option<u64> {
    let e = m.entry(table, index_of(addr, level));
    if is_table_link(e, level) {
        Some(entry_addr(e))
    } else {
        None
    }
}

/// The present large-page entry on the walk of `addr`, with its level, if
/// the walk ends in one (at level 3 for 1 GiB, at level 2 for 2 MiB).
pub open spec fn huge_entry<M: PhysicalMemory>(m: &M, root: u64, addr: u64) -> Option<(u64, int)> {
    match level_3_table(m, root, addr) {
        Some(t3) => {
            let e3 = m.entry(t3, index_of(addr, 3));
            if is_present(e3) && is_huge(e3) {
                Some((e3, 3))
            } else {
                match level_2_table(m, root, addr) {
                    Some(t2) => {
                        let e2 = m.entry(t2, index_of(addr, 2));
                        if is_present(e2) && is_huge(e2) {
                            Some((e2, 2))
                        } else {
                            None
                        }
                    },
                    None => None,
                }
            }
        },
        None => None,
    }
}

pub open spec fn level_3_table<M: PhysicalMemory>(m: &M, root: u64, addr: u64) -> Option<u64> {
    next_table(m, root, addr, 4)
}

pub open spec fn level_2_table<M: PhysicalMemory>(m: &M, root: u64, addr: u64) -> Option<u64> {
    match level_3_table(m, root, addr) {
        Some(t) => next_table(m, t, addr, 3),
        None => None,
    }
}

pub open spec fn level_1_table<M: PhysicalMemory>(m: &M, root: u64, addr: u64) -> Option<u64> {
    match level_2_table(m, root, addr) {
        Some(t) => next_table(m, t, addr, 2),
        None => None,
    }
}

/// The present level-1 entry that maps `addr`, if the walk gets that far.
pub open spec fn leaf_entry<M: PhysicalMemory>(m: &M, root: u64, addr: u64) -> Option<u64> {
    match level_1_table(m, root, addr) {
        Some(t) => {
            let e = m.entry(t, index_of(addr, 1));
            if is_present(e) {
                Some(e)
            } else {
                None
            }
        },
        None => None,
    }
}

/// Physical memory held in ordinary memory: the eight-byte words written so
/// far, by physical address, and a record of the flushed pages. Words never
/// written read as zero.
pub struct FrameStore {
    words: std::collections::HashMap<u64, u64>,
    flushes: Vec<u64>,
}

proof fn lemma_slot_address(f: u64, i: int, g: u64, j: int)
    requires
        slot(f, i),
        slot(g, j),
        f + 8 * i == g + 8 * j,
    ensures
        f == g,
        i == j,
{
    assert(f == g) by (nonlinear_arith)
        requires f % 4096 == 0, g % 4096 == 0, 0 <= i < 512, 0 <= j < 512, f + 8 * i == g + 8 * j;
}

impl FrameStore {
    /// A memory in which every word reads as zero.
    pub fn new() -> (r: FrameStore)
        ensures
            forall|f: u64, i: int| slot(f, i) ==> #[trigger] r.entry(f, i) == 0,
            r.flushed() == Seq::<u64>::empty(),
    {
        FrameStore { words: std::collections::HashMap::new(), flushes: Vec::new() }
    }
}

impl FrameStore {
    /// The pages whose translation was flushed, oldest first.
    pub fn flushed_pages(&self) -> (r: Vec<u64>)
        ensures
            r@ == self.flushed(),
    {
        self.flushes.clone()
    }
}

impl PhysicalMemory for FrameStore {
    closed spec fn entry(&self, frame: u64, index: int) -> u64 {
        let a = (frame + 8 * index) as u64;
        if self.words@.contains_key(a) {
            self.words@[a]
        } else {
            0
        }
    }

    closed spec fn flushed(&self) -> Seq<u64> {
        self.flushes@
    }

    fn read_entry(&self, frame: u64, index: usize) -> (r: u64) {
        let a: u64 = frame + 8 * index as u64;
        match self.words.get(&a) {
            Some(v) => *v,
            None => 0,
        }
    }

    fn write_entry(&mut self, frame: u64, index: usize, value: u64) {
        let a: u64 = frame + 8 * index as u64;
        self.words.insert(a, value);
        assert forall|f: u64, i: int| slot(f, i) implies #[trigger] self.entry(f, i) == if f == frame
            && i == index {
            value
        } else {
            old(self).entry(f, i)
        } by {
            if f + 8 * i == a {
                lemma_slot_address(f, i, frame, index as int);
            }
        }
    }

    fn flush_page(&mut self, page: u64) {
        self.flushes.push(page);
    }
}

/// The physical address that `addr` is mapped to, if it is mapped.
pub open spec fn translate<M: PhysicalMemory>(m: &M, root: u64, addr: u64) -> Option<u64> {
    match huge_entry(m, root, addr) {
        Some((e, level)) => {
            let span = level_span(level);
            Some((entry_addr(e) as int - entry_addr(e) as int % span + addr as int % span) as u64)
        },
        None => match leaf_entry(m, root, addr) {
            Some(e) => Some((entry_addr(e) + addr % 4096) as u64),
            None => None,
        },
    }
}

/// How many intermediate tables are missing on the walk of `addr`.
pub open spec fn missing_tables<M: PhysicalMemory>(m: &M, root: u64, addr: u64) -> nat {
    if level_3_table(m, root, addr).is_none() {
        3
    } else if level_2_table(m, root, addr).is_none() {
        2
    } else if level_1_table(m, root, addr).is_none() {
        1
    } else {
        0
    }
}

/// `frame` is one of the tables that the walk of `addr` passes through.
pub open spec fn on_path<M: PhysicalMemory>(m: &M, root: u64, addr: u64, frame: u64) -> bool {
    ||| frame == root
    ||| level_3_table(m, root, addr) == Some(frame)
    ||| level_2_table(m, root, addr) == Some(frame)
    ||| level_1_table(m, root, addr) == Some(frame)
}

/// The frames that `alloc` has yet to hand out are pairwise distinct, and none
/// of them holds a table on the walk of `addr`.
pub open spec fn fresh_for<M: PhysicalMemory>(
    m: &M,
    root: u64,
    alloc: BootInfoFrameAllocator,
    addr: u64,
) -> bool {
    let fs = alloc.frames();
    &&& forall|i: int, j: int|
        alloc.next() <= i < fs.len() && alloc.next() <= j < fs.len() && i != j ==> #[trigger] fs[i]
            != #[trigger] fs[j]
    &&& forall|i: int| alloc.next() <= i < fs.len() ==> !on_path(m, root, addr, #[trigger] fs[i])
}

/// The entries that differ between `before` and `after` were either not
/// present before or lie in one of the frames `fresh`.
pub open spec fn only_fills<M: PhysicalMemory>(before: &M, after: &M, fresh: Seq<u64>) -> bool {
    forall|f: u64, i: int|
        slot(f, i) && #[trigger] after.entry(f, i) != before.entry(f, i) ==> !is_present(
            before.entry(f, i),
        ) || fresh.contains(f)
}

/// The tables created for the walk of `addr` (the last `created` of its three
/// lower levels) hold zero in every entry but the one the walk uses.
pub open spec fn new_tables_zeroed<M: PhysicalMemory>(m: &M, root: u64, addr: u64, created: nat) -> bool {
    &&& created >= 1 ==> (level_1_table(m, root, addr) matches Some(t) && forall|i: int|
        0 <= i < 512 && i != index_of(addr, 1) ==> #[trigger] m.entry(t, i) == 0)
    &&& created >= 2 ==> (level_2_table(m, root, addr) matches Some(t) && forall|i: int|
        0 <= i < 512 && i != index_of(addr, 2) ==> #[trigger] m.entry(t, i) == 0)
    &&& created >= 3 ==> (level_3_table(m, root, addr) matches Some(t) && forall|i: int|
        0 <= i < 512 && i != index_of(addr, 3) ==> #[trigger] m.entry(t, i) == 0)
}

/// Every entry that differs between `before` and `after` lies in one of the
/// frames `fresh`, or is the entry that the walk of `addr` reads at its level.
pub open spec fn changes_on_walk<M: PhysicalMemory>(before: &M, after: &M, fresh: Seq<u64>, root: u64, addr: u64) -> bool {
    forall|f: u64, i: int|
        slot(f, i) && #[trigger] after.entry(f, i) != before.entry(f, i) ==> {
            ||| fresh.contains(f)
            ||| f == root && i == index_of(addr, 4)
            ||| level_3_table(after, root, addr) == Some(f) && i == index_of(addr, 3)
            ||| level_2_table(after, root, addr) == Some(f) && i == index_of(addr, 2)
            ||| level_1_table(after, root, addr) == Some(f) && i == index_of(addr, 1)
        }
}

/// `flags` with the present bit set.
pub open spec fn with_present(flags: u64) -> u64 {
    if flags % 2 == 1 {
        flags
    } else {
        (flags + 1) as u64
    }
}

proof fn lemma_only_fills_trans<M: PhysicalMemory>(
    a: &M,
    b: &M,
    c: &M,
    x: BootInfoFrameAllocator,
    y: BootInfoFrameAllocator,
    z: BootInfoFrameAllocator,
)
    requires
        x.frames() == y.frames(),
        y.frames() == z.frames(),
        x.next() <= y.next() <= z.next(),
        only_fills(a, b, taken(x, y)),
        only_fills(b, c, taken(y, z)),
    ensures
        only_fills(a, c, taken(x, z)),
{
    lemma_taken(x, y);
    lemma_taken(y, z);
    lemma_taken(x, z);
    assert forall|f: u64, i: int|
        slot(f, i) && #[trigger] c.entry(f, i) != a.entry(f, i) implies !is_present(a.entry(f, i))
        || taken(x, z).contains(f) by {
        if b.entry(f, i) != a.entry(f, i) {
            if taken(x, y).contains(f) {
                let k = choose|k: int| x.next() <= k < y.next() && k < x.frames().len() && x.frames()[k] == f;
            }
        } else {
            if taken(y, z).contains(f) {
                let k = choose|k: int| y.next() <= k < z.next() && k < y.frames().len() && y.frames()[k] == f;
            }
        }
    }
}

/// Addresses of one page select the same entry at every level.
pub proof fn lemma_same_page(a: u64, page_start: u64)
    requires
        align_down(a as int) == page_start,
    ensures
        forall|level: int| 1 <= level <= 4 ==> #[trigger] index_of(a, level) == index_of(page_start, level),
{
    let x = a as int;
    let y = page_start as int;
    assert(x / 4096 == y / 4096);
    assert forall|level: int| 1 <= level <= 4 implies #[trigger] index_of(a, level) == index_of(page_start, level) by {
        let k = level_span(level) / 4096;
        assert(level_span(level) == 4096 * k);
        vstd::arithmetic::div_mod::lemma_div_denominator(x, 4096, k);
        vstd::arithmetic::div_mod::lemma_div_denominator(y, 4096, k);
    }
}

/// Once the walk of a page ends in an entry for `frame`, every address of the
/// page translates to the same offset in `frame`.
pub proof fn lemma_translate_in_page<M: PhysicalMemory>(m: &M, root: u64, page_start: u64, frame: u64, flags: u64)
    requires
        page_start % 4096 == 0,
        frame % 4096 == 0,
        frame < PHYS_ADDR_LIMIT,
        flags_fit(flags),
        leaf_entry(m, root, page_start) == Some((frame + flags) as u64),
    ensures
        forall|a: u64|
            align_down(a as int) == page_start ==> #[trigger] translate(m, root, a) == Some(
                (frame + a % 4096) as u64,
            ),
{
    lemma_table_entry(frame, flags);
    assert forall|a: u64| align_down(a as int) == page_start implies #[trigger] translate(m, root, a)
        == Some((frame + a % 4096) as u64) by {
        lemma_same_page(a, page_start);
        assert(leaf_entry(m, root, a) == leaf_entry(m, root, page_start));
    }
}

/// A walk whose tables were none of the frames handed out is not disturbed by
/// a change that only fills entries: it passes the same tables and ends in the
/// same entry.
pub proof fn lemma_walk_kept<M: PhysicalMemory>(before: &M, after: &M, fresh: Seq<u64>, root: u64, addr: u64)
    requires
        root % 4096 == 0,
        root < PHYS_ADDR_LIMIT,
        only_fills(before, after, fresh),
        leaf_entry(before, root, addr).is_some(),
        forall|t: u64| #[trigger] on_path(before, root, addr, t) ==> !fresh.contains(t),
    ensures
        leaf_entry(after, root, addr) == leaf_entry(before, root, addr),
        forall|t: u64| #[trigger] on_path(after, root, addr, t) == on_path(before, root, addr, t),
{
    assert(on_path(before, root, addr, root));
    let t3 = level_3_table(before, root, addr).unwrap();
    lemma_entry_addr(before.entry(root, index_of(addr, 4)));
    assert(on_path(before, root, addr, t3));
    assert(after.entry(root, index_of(addr, 4)) == before.entry(root, index_of(addr, 4)));
    let t2 = level_2_table(before, root, addr).unwrap();
    lemma_entry_addr(before.entry(t3, index_of(addr, 3)));
    assert(on_path(before, root, addr, t2));
    assert(after.entry(t3, index_of(addr, 3)) == before.entry(t3, index_of(addr, 3)));
    let t1 = level_1_table(before, root, addr).unwrap();
    lemma_entry_addr(before.entry(t2, index_of(addr, 2)));
    assert(on_path(before, root, addr, t1));
    assert(after.entry(t2, index_of(addr, 2)) == before.entry(t2, index_of(addr, 2)));
    lemma_entry_addr(before.entry(t1, index_of(addr, 1)));
    assert(after.entry(t1, index_of(addr, 1)) == before.entry(t1, index_of(addr, 1)));
}

/// A virtual page of 4 KiB, named by its start address.
#[derive(Clone, Copy, Debug, PartialEq, Eq, Structural)]
pub struct Page {
    pub start: u64,
}

/// Virtual addresses are canonical: bits 48 to 63 copy bit 47.
pub open spec fn is_canonical(addr: u64) -> bool {
    addr < 0x8000_0000_0000 || addr >= 0xffff_8000_0000_0000
}

/// Relies on x86_64's `Page::<Size4KiB>::containing_address`, which rounds the
/// address down to a multiple of 4096; `VirtAddr::new` panics on an address
/// that is not canonical.
#[verifier::external_body]
fn page_start_containing(addr: u64) -> (r: u64)
    requires
        is_canonical(addr),
    ensures
        r == align_down(addr as int),
{
    x86_64::structures::paging::Page::<x86_64::structures::paging::Size4KiB>::containing_address(
        x86_64::VirtAddr::new(addr),
    ).start_address().as_u64()
}

impl Page {
    pub open spec fn wf(&self) -> bool {
        self.start % 4096 == 0 && is_canonical(self.start)
    }

    /// The page that holds the virtual address `addr`.
    pub fn containing_address(addr: u64) -> (r: Page)
        requires
            is_canonical(addr),
        ensures
            r.start == align_down(addr as int),
            r.wf(),
    {
        Page { start: page_start_containing(addr) }
    }

    pub fn start_address(&self) -> (r: u64)
        ensures
            r == self.start,
    {
        self.start
    }
}

/// Why a mapping could not be installed.
#[derive(Clone, Copy, Debug, PartialEq, Eq, Structural)]
pub enum MapToError {
    /// No frame was left for an intermediate table.
    FrameAllocationFailed,
    /// The page is already mapped, to the frame given.
    PageAlreadyMapped(PhysFrame),
    /// An entry on the walk maps a large page where a table was expected.
    ParentEntryHugePage,
}

fn index_for(addr: u64, level: u64) -> (r: usize)
    requires
        1 <= level <= 4,
    ensures
        r == index_of(addr, level as int),
        r < 512,
{
    let span: u64 = if level == 1 {
        4096
    } else if level == 2 {
        0x20_0000
    } else if level == 3 {
        0x4000_0000
    } else {
        0x80_0000_0000
    };
    ((addr / span) % 512) as usize
}

pub proof fn lemma_entry_addr(e: u64)
    ensures
        entry_addr(e) % 4096 == 0,
        entry_addr(e) < PHYS_ADDR_LIMIT,
{
    let a = e as int % 0x10_0000_0000_0000;
    assert(a % 4096 == e as int % 4096) by (nonlinear_arith)
        requires a == e as int % 0x10_0000_0000_0000;
    assert((a - a % 4096) % 4096 == 0) by (nonlinear_arith)
        requires a >= 0;
}

/// Flags fit beside a frame address: bits 12 to 51 are clear.
pub open spec fn flags_fit(flags: u64) -> bool {
    flags % 0x10_0000_0000_0000 < 4096
}

proof fn lemma_low_bits(g: int, lo: int)
    requires
        g % 4096 == 0,
        g >= 0,
        0 <= lo < 4096,
    ensures
        (g + lo) % 4096 == lo,
        (g + lo) % 2 == lo % 2,
        ((g + lo) / 2) % 2 == (lo / 2) % 2,
        ((g + lo) / 128) % 2 == (lo / 128) % 2,
{
    let e = g + lo;
    assert(e % 4096 == lo) by (nonlinear_arith)
        requires g % 4096 == 0, lo < 4096, e == g + lo, g >= 0, lo >= 0;
    assert(e % 2 == lo % 2) by (nonlinear_arith)
        requires g % 4096 == 0, e == g + lo, g >= 0, lo >= 0;
    assert((e / 2) % 2 == (lo / 2) % 2) by (nonlinear_arith)
        requires g % 4096 == 0, e == g + lo, g >= 0, lo >= 0;
    assert((e / 128) % 2 == (lo / 128) % 2) by (nonlinear_arith)
        requires g % 4096 == 0, e == g + lo, g >= 0, lo >= 0;
}

proof fn lemma_table_entry(f: u64, flags: u64)
    requires
        f % 4096 == 0,
        f < PHYS_ADDR_LIMIT,
        flags_fit(flags),
    ensures
        f + flags <= u64::MAX,
        entry_addr((f + flags) as u64) == f,
        is_present((f + flags) as u64) == (flags % 2 == 1),
        is_writable((f + flags) as u64) == ((flags / 2) % 2 == 1),
        is_huge((f + flags) as u64) == ((flags / 128) % 2 == 1),
{
    let p: int = 0x10_0000_0000_0000;
    let lo = flags as int % p;
    let q = flags as int / p;
    assert(flags == p * q + lo) by (nonlinear_arith)
        requires p > 0, lo == flags as int % p, q == flags as int / p;
    assert(q <= 4095) by (nonlinear_arith)
        requires flags == p * q + lo, flags <= 0xffff_ffff_ffff_ffff, p == 0x10_0000_0000_0000, lo >= 0;
    let h = p * q;
    assert(h % 4096 == 0 && h >= 0) by (nonlinear_arith)
        requires h == p * q, p == 0x10_0000_0000_0000, q >= 0;
    let e = f + flags;
    assert(e == f + lo + h);
    assert(f + lo < p);
    assert(e % p == f + lo) by (nonlinear_arith)
        requires e == f + lo + p * q, 0 <= f + lo < p, q >= 0, p > 0;
    assert((f + h) % 4096 == 0);
    lemma_low_bits(f + h, lo);
    lemma_low_bits(h, lo);
}

fn entry_addr_of(e: u64) -> (r: u64)
    ensures
        r == entry_addr(e),
        r % 4096 == 0,
        r < PHYS_ADDR_LIMIT,
{
    proof {
        lemma_entry_addr(e);
    }
    let a = e % PHYS_ADDR_LIMIT;
    assert(a % 4096 == e % 4096) by (nonlinear_arith)
        requires a == e as int % 0x10_0000_0000_0000;
    a - e % 4096
}

/// The one handle on the active page-table hierarchy, reached through a
/// physical-memory capability.
pub struct PageTableMapper<M: PhysicalMemory> {
    memory: M,
    level_4_frame: u64,
}

impl<M: PhysicalMemory> PageTableMapper<M> {
    pub closed spec fn memory(&self) -> M {
        self.memory
    }

    /// The frame of the level-4 table.
    pub closed spec fn root(&self) -> u64 {
        self.level_4_frame
    }

    pub open spec fn wf(&self) -> bool {
        self.root() % 4096 == 0 && self.root() < PHYS_ADDR_LIMIT
    }

    /// Takes the hierarchy whose level-4 table lies in `level_4_frame`.
    pub fn new(memory: M, level_4_frame: u64) -> (r: Self)
        requires
            level_4_frame % 4096 == 0,
            level_4_frame < PHYS_ADDR_LIMIT,
        ensures
            r.memory() == memory,
            r.root() == level_4_frame,
            r.wf(),
    {
        PageTableMapper { memory, level_4_frame }
    }

    /// Hands the physical-memory capability back.
    pub fn into_memory(self) -> (r: M)
        ensures
            r == self.memory(),
    {
        self.memory
    }

    /// The physical-memory capability, for reading.
    pub fn physical_memory(&self) -> (r: &M)
        ensures
            *r == self.memory(),
    {
        &self.memory
    }

    pub fn level_4_frame(&self) -> (r: u64)
        ensures
            r == self.root(),
    {
        self.level_4_frame
    }

    fn next_table_of(&self, table: u64, addr: u64, level: u64) -> (r: Option<u64>)
        requires
            table % 4096 == 0,
            table < PHYS_ADDR_LIMIT,
            1 <= level <= 4,
        ensures
            r == next_table(&self.memory(), table, addr, level as int),
            r matches Some(t) ==> t % 4096 == 0 && t < PHYS_ADDR_LIMIT,
    {
        let e = self.memory.read_entry(table, index_for(addr, level));
        if e % 2 == 1 && (level == 4 || (e / 128) % 2 == 0) {
            Some(entry_addr_of(e))
        } else {
            None
        }
    }

    /// The address within the large page that `entry` maps, `span` bytes long.
    fn large_page_addr(entry: u64, addr: u64, span: u64) -> (r: u64)
        requires
            span == 0x4000_0000 || span == 0x20_0000,
        ensures
            r == entry_addr(entry) as int - entry_addr(entry) as int % (span as int) + addr as int % (span as int),
    {
        let base = entry_addr_of(entry);
        base - base % span + addr % span
    }

    /// The physical address that `addr` is mapped to, or `None` as soon as a
    /// level of the walk has no present entry.
    pub fn translate_addr(&self, addr: u64) -> (r: Option<u64>)
        requires
            self.wf(),
        ensures
            r == translate(&self.memory(), self.root(), addr),
    {
        let t3 = match self.next_table_of(self.level_4_frame, addr, 4) {
            Some(t) => t,
            None => return None,
        };
        let e3 = self.memory.read_entry(t3, index_for(addr, 3));
        if e3 % 2 == 1 && (e3 / 128) % 2 == 1 {
            return Some(Self::large_page_addr(e3, addr, 0x4000_0000));
        }
        let t2 = match self.next_table_of(t3, addr, 3) {
            Some(t) => t,
            None => return None,
        };
        let e2 = self.memory.read_entry(t2, index_for(addr, 2));
        if e2 % 2 == 1 && (e2 / 128) % 2 == 1 {
            return Some(Self::large_page_addr(e2, addr, 0x20_0000));
        }
        let t1 = match self.next_table_of(t2, addr, 2) {
            Some(t) => t,
            None => return None,
        };
        let e = self.memory.read_entry(t1, index_for(addr, 1));
        if e % 2 == 1 {
            let frame = entry_addr_of(e);
            Some(frame + addr % 4096)
        } else {
            None
        }
    }

    /// Writes zero into every entry of `frame`.
    fn zero_frame(&mut self, frame: u64)
        requires
            frame % 4096 == 0,
            frame < PHYS_ADDR_LIMIT,
        ensures
            final(self).root() == old(self).root(),
            final(self).memory().flushed() == old(self).memory().flushed(),
            forall|f: u64, i: int|
                slot(f, i) ==> #[trigger] final(self).memory().entry(f, i) == if f == frame {
                    0
                } else {
                    old(self).memory().entry(f, i)
                },
    {
        let mut k: usize = 0;
        while k < ENTRY_COUNT
            invariant
                frame % 4096 == 0,
                frame < PHYS_ADDR_LIMIT,
                k <= 512,
                self.root() == old(self).root(),
                self.memory().flushed() == old(self).memory().flushed(),
                forall|f: u64, i: int|
                    slot(f, i) ==> #[trigger] self.memory().entry(f, i) == if f == frame && i < k {
                        0
                    } else {
                        old(self).memory().entry(f, i)
                    },
            decreases 512 - k,
        {
            self.memory.write_entry(frame, k, 0);
            k = k + 1;
        }
    }

    /// The table that entry `index` of `table` refers to; where that entry is
    /// not present, a fresh frame is taken from `alloc`, zeroed and linked in.
    fn create_next_table(
        &mut self,
        table: u64,
        index: usize,
        level: u64,
        alloc: &mut BootInfoFrameAllocator,
    ) -> (r: Result<u64, MapToError>)
        requires
            slot(table, index as int),
            2 <= level <= 4,
            old(alloc).wf(),
            old(alloc).next() < usize::MAX,
        ensures
            final(self).root() == old(self).root(),
            final(self).memory().flushed() == old(self).memory().flushed(),
            final(alloc).wf(),
            final(alloc).memory_map() == old(alloc).memory_map(),
            r matches Ok(t) ==> t % 4096 == 0 && t < PHYS_ADDR_LIMIT,
            only_fills(
                &old(self).memory(),
                &final(self).memory(),
                taken(*old(alloc), *final(alloc)),
            ),
            ({
                let e = old(self).memory().entry(table, index as int);
                let fs = old(alloc).frames();
                let n = old(alloc).next();
                if is_table_link(e, level as int) {
                    &&& r == Ok::<u64, MapToError>(entry_addr(e))
                    &&& final(self).memory() == old(self).memory()
                    &&& final(alloc).next() == n
                } else if is_present(e) {
                    &&& r == Err::<u64, MapToError>(MapToError::ParentEntryHugePage)
                    &&& final(self).memory() == old(self).memory()
                    &&& final(alloc).next() == n
                } else if n < fs.len() {
                    &&& r == Ok::<u64, MapToError>(fs[n as int])
                    &&& final(alloc).next() == n + 1
                    &&& forall|f: u64, i: int|
                        slot(f, i) ==> #[trigger] final(self).memory().entry(f, i) == if f == table
                            && i == index {
                            (fs[n as int] + PRESENT + WRITABLE) as u64
                        } else if f == fs[n as int] {
                            0
                        } else {
                            old(self).memory().entry(f, i)
                        }
                } else {
                    &&& r == Err::<u64, MapToError>(MapToError::FrameAllocationFailed)
                    &&& final(self).memory() == old(self).memory()
                    &&& final(alloc).next() == n
                }
            }),
    {
        let e = self.memory.read_entry(table, index);
        proof {
            lemma_taken(*old(alloc), *old(alloc));
        }
        if e % 2 == 1 {
            if level == 4 || (e / 128) % 2 == 0 {
                return Ok(entry_addr_of(e));
            } else {
                return Err(MapToError::ParentEntryHugePage);
            }
        }
        if !alloc.has_frame() {
            return Err(MapToError::FrameAllocationFailed);
        }
        match alloc.allocate_frame() {
            None => Err(MapToError::FrameAllocationFailed),
            Some(frame) => {
                let f = frame.start;
                proof {
                    crate::memory::lemma_usable_frame_wf(old(alloc).memory_map(), old(alloc).next() as int);
                }
                self.zero_frame(f);
                self.memory.write_entry(table, index, f + PRESENT + WRITABLE);
                proof {
                    lemma_taken(*old(alloc), *alloc);
                    assert(taken(*old(alloc), *alloc).contains(f));
                }
                Ok(f)
            },
        }
    }


    /// Maps `page` to `frame` with `flags` (any flags whose bits 12 to 51 are
    /// clear; the present bit is always set), creating missing intermediate
    /// tables from frames of `alloc` (present and writable), and then flushes
    /// the cached translation of `page`. A large page on the walk refuses the
    /// mapping.
    ///
    /// Three details differ from x86_64's mapper, on points where either
    /// choice serves: an already-mapped page reports the frame it is mapped
    /// to, not the frame asked for; a leaf entry counts as taken only when it
    /// is present, not whenever it is non-zero; and new intermediate tables
    /// are always present and writable, where x86_64 copies the leaf's
    /// present, writable and user bits into them and into existing parents.
    #[verifier::rlimit(100)]
    #[verifier::spinoff_prover]
    pub fn map_to(
        &mut self,
        page: Page,
        frame: PhysFrame,
        flags: u64,
        alloc: &mut BootInfoFrameAllocator,
    ) -> (r: Result<(), MapToError>)
        requires
            old(self).wf(),
            page.wf(),
            frame.wf(),
            flags_fit(flags),
            old(alloc).wf(),
            old(alloc).next() + 3 <= usize::MAX,
        ensures
            final(self).wf(),
            final(self).root() == old(self).root(),
            final(alloc).wf(),
            final(alloc).memory_map() == old(alloc).memory_map(),
            old(alloc).next() <= final(alloc).next() <= old(alloc).next() + 3,
            only_fills(
                &old(self).memory(),
                &final(self).memory(),
                taken(*old(alloc), *final(alloc)),
            ),
            r is Ok ==> final(self).memory().flushed() == old(self).memory().flushed().push(page.start),
            r is Err ==> final(self).memory().flushed() == old(self).memory().flushed(),
            leaf_entry(&old(self).memory(), old(self).root(), page.start) matches Some(e) ==> {
                &&& r == Err::<(), MapToError>(MapToError::PageAlreadyMapped(PhysFrame { start: entry_addr(e) }))
                &&& final(self).memory() == old(self).memory()
                &&& final(alloc).next() == old(alloc).next()
            },
            huge_entry(&old(self).memory(), old(self).root(), page.start) is Some ==> {
                &&& r == Err::<(), MapToError>(MapToError::ParentEntryHugePage)
                &&& final(self).memory() == old(self).memory()
                &&& final(alloc).next() == old(alloc).next()
            },
            fresh_for(&old(self).memory(), old(self).root(), *old(alloc), page.start)
                && huge_entry(&old(self).memory(), old(self).root(), page.start) is None
                && leaf_entry(&old(self).memory(), old(self).root(), page.start).is_none() ==> {
                &&& r is Ok <==> missing_tables(&old(self).memory(), old(self).root(), page.start)
                    <= old(alloc).remaining()
                &&& r is Err ==> r == Err::<(), MapToError>(MapToError::FrameAllocationFailed)
                &&& r is Err ==> leaf_entry(&final(self).memory(), final(self).root(), page.start).is_none()
                &&& r is Ok ==> final(alloc).next() == old(alloc).next() + missing_tables(
                    &old(self).memory(),
                    old(self).root(),
                    page.start,
                )
                &&& r is Ok ==> changes_on_walk(
                    &old(self).memory(),
                    &final(self).memory(),
                    taken(*old(alloc), *final(alloc)),
                    final(self).root(),
                    page.start,
                )
                &&& r is Ok ==> new_tables_zeroed(
                    &final(self).memory(),
                    final(self).root(),
                    page.start,
                    missing_tables(&old(self).memory(), old(self).root(), page.start),
                )
                &&& r is Ok ==> leaf_entry(&final(self).memory(), final(self).root(), page.start)
                    == Some((frame.start + with_present(flags)) as u64)
                &&& r is Ok ==> is_writable((frame.start + with_present(flags)) as u64) == ((flags / 2)
                    % 2 == 1)
                &&& r is Ok ==> forall|a: u64|
                    align_down(a as int) == page.start ==> #[trigger] translate(
                        &final(self).memory(),
                        final(self).root(),
                        a,
                    ) == Some((frame.start + a % 4096) as u64)
                &&& r is Ok ==> forall|t: u64|
                    #[trigger] on_path(&final(self).memory(), final(self).root(), page.start, t)
                        ==> on_path(&old(self).memory(), old(self).root(), page.start, t)
                        || taken(*old(alloc), *final(alloc)).contains(t)
            },
    {
        let addr = page.start;
        let root = self.level_4_frame;
        let ghost m0 = self.memory();
        let ghost a0 = *alloc;
        let ghost fs = alloc.frames();
        let ghost n0 = alloc.next() as int;
        let ghost fresh = fresh_for(&m0, root, a0, addr);
        let i4 = index_for(addr, 4);
        let i3 = index_for(addr, 3);
        let i2 = index_for(addr, 2);
        let i1 = index_for(addr, 1);
        proof {
            if fresh && n0 < fs.len() {
                assert(!on_path(&m0, root, addr, fs[n0]));
            }
            if fresh && n0 + 1 < fs.len() {
                assert(!on_path(&m0, root, addr, fs[n0 + 1]));
                assert(fs[n0] != fs[n0 + 1]);
            }
            if fresh && n0 + 2 < fs.len() {
                assert(!on_path(&m0, root, addr, fs[n0 + 2]));
                assert(fs[n0] != fs[n0 + 2]);
                assert(fs[n0 + 1] != fs[n0 + 2]);
            }
        }
        let t3 = match self.create_next_table(root, i4, 4, alloc) {
            Ok(t) => t,
            Err(e) => {
                return Err(e);
            },
        };
        let ghost m1 = self.memory();
        let ghost n1 = alloc.next() as int;
        let ghost a1 = *alloc;
        proof {
            lemma_table_entry(t3, 3);
            if fresh && n1 == n0 + 1 {
                assert(m1.entry(t3, i3 as int) == 0);
            }
        }
        let t2 = match self.create_next_table(t3, i3, 3, alloc) {
            Ok(t) => t,
            Err(e) => {
                proof {
                    lemma_only_fills_trans(&m0, &m1, &self.memory(), a0, a1, *alloc);
                }
                return Err(e);
            },
        };
        let ghost m2 = self.memory();
        let ghost n2 = alloc.next() as int;
        let ghost a2 = *alloc;
        proof {
            lemma_table_entry(t2, 3);
            lemma_only_fills_trans(&m0, &m1, &m2, a0, a1, a2);
            if fresh && n2 == n1 + 1 {
                assert(m2.entry(t2, i2 as int) == 0);
            }
        }
        let t1 = match self.create_next_table(t2, i2, 2, alloc) {
            Ok(t) => t,
            Err(e) => {
                proof {
                    lemma_only_fills_trans(&m0, &m2, &self.memory(), a0, a2, *alloc);
                }
                return Err(e);
            },
        };
        let ghost m3 = self.memory();
        let ghost n3 = alloc.next() as int;
        let ghost a3 = *alloc;
        proof {
            lemma_table_entry(t1, 3);
            lemma_only_fills_trans(&m0, &m2, &m3, a0, a2, a3);
            if fresh && n3 == n2 + 1 {
                assert(m3.entry(t1, i1 as int) == 0);
            }
        }
        let e = self.memory.read_entry(t1, i1);
        if e % 2 == 1 {
            return Err(MapToError::PageAlreadyMapped(PhysFrame { start: entry_addr_of(e) }));
        }
        let leaf_flags: u64 = if flags % 2 == 1 {
            flags
        } else {
            flags + 1
        };
        proof {
            if flags % 2 == 0 {
                let p: int = 0x10_0000_0000_0000;
                let x = flags as int;
                assert((x + 1) % p == x % p + 1) by (nonlinear_arith)
                    requires x % 2 == 0, p == 0x10_0000_0000_0000, x % p < 4096, x >= 0;
                assert(((flags + 1) / 2) % 2 == (flags / 2) % 2) by (nonlinear_arith)
                    requires flags % 2 == 0, flags >= 0;
            }
            lemma_table_entry(frame.start, leaf_flags);
        }
        self.memory.write_entry(t1, i1, frame.start + leaf_flags);
        let ghost m4 = self.memory();
        self.memory.flush_page(addr);
        proof {
            lemma_table_entry(frame.start, leaf_flags);
            lemma_taken(a3, a3);
            assert(only_fills(&m3, &m4, taken(a3, a3)));
            lemma_only_fills_trans(&m0, &m3, &m4, a0, a3, a3);
            assert(only_fills(&m4, &self.memory(), taken(a3, a3)));
            lemma_only_fills_trans(&m0, &m4, &self.memory(), a0, a3, a3);
            lemma_taken(a0, a3);
            if fresh && leaf_entry(&m0, root, addr).is_none() {
                assert(leaf_entry(&self.memory(), root, addr) == Some((frame.start + leaf_flags) as u64));
                lemma_translate_in_page(&self.memory(), root, addr, frame.start, leaf_flags);
                if n1 == n0 + 1 {
                    assert(taken(a0, a3).contains(t3));
                }
                if n2 == n1 + 1 {
                    assert(taken(a0, a3).contains(t2));
                }
                if n3 == n2 + 1 {
                    assert(taken(a0, a3).contains(t1));
                }
                assert(level_3_table(&self.memory(), root, addr) == Some(t3));
                assert(level_2_table(&self.memory(), root, addr) == Some(t2));
                assert(level_1_table(&self.memory(), root, addr) == Some(t1));
            }
        }
        Ok(())
    }

}

} // verus!

//! The descriptor table and the backup stack used for double faults.
use vstd::prelude::*;

verus! {

/// Slot of the interrupt stack table that holds the double-fault stack.
pub const DOUBLE_FAULT_IST_INDEX: u16 = 0;

/// Size in bytes of the double-fault stack.
pub const STACK_SIZE: u64 = 4096 * 5;

/// Top of the backup stack that starts at `stack_start`: stacks grow down,
/// so the stack table records the end of the region.
pub fn double_fault_stack_top(stack_start: u64) -> (r: Option<u64>)
    ensures
        r == (if stack_start + STACK_SIZE <= u64::MAX {
            Some((stack_start + STACK_SIZE) as u64)
        } else {
            None::<u64>
        }),
{
    stack_start.checked_add(STACK_SIZE)
}

/// A segment selector: the descriptor's index in the table and the
/// requested privilege level, as the processor reads them.
pub open spec fn selector_value(index: u16, rpl: u16) -> u16 {
    (index * 8 + rpl) as u16
}

/// The selectors the descriptor table hands out: the kernel code segment
/// first (index 1, after the null descriptor), then the task-state segment.
#[derive(Clone, Copy, Debug, PartialEq, Eq, Structural)]
pub struct Selectors {
    pub code_selector: u16,
    pub tss_selector: u16,
}

/// Relies on x86_64's `SegmentSelector::new`: the selector with index
/// `index` at privilege level 0, that is `index << 3`.
#[verifier::external_body]
fn kernel_segment_selector(index: u16) -> (r: u16)
    requires
        index < 8192,
    ensures
        r == selector_value(index, 0),
{
    x86_64::structures::gdt::SegmentSelector::new(index, x86_64::PrivilegeLevel::Ring0).0
}

/// The selectors of a table that holds the kernel code segment and then the
/// task-state segment, both at privilege level 0.
pub fn selectors() -> (r: Selectors)
    ensures
        r.code_selector == selector_value(1, 0),
        r.tss_selector == selector_value(2, 0),
{
    Selectors { code_selector: kernel_segment_selector(1), tss_selector: kernel_segment_selector(2) }
}

} // verus!

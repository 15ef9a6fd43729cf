//! Core of a small x86_64 kernel: the frame source and page-table walker of
//! the virtual-memory subsystem, and the decision logic of the trap and
//! interrupt-controller subsystem.
//!
//! Everything that touches the processor directly (loading tables, port I/O,
//! reading control registers) stays with the caller; this crate decides what
//! to load, which controller to acknowledge and which frames to hand out.
use vstd::prelude::*;

pub mod memory;
pub mod paging;
pub mod allocator;
pub mod gdt;
pub mod interrupts;
pub mod keyboard;

verus! {

/// Exit codes that the emulator's debug-exit device turns into a status.
#[derive(Clone, Copy, Debug, PartialEq, Eq, Structural)]
pub enum QemuExitCode {
    Success,
    Failed,
}

impl QemuExitCode {
    pub open spec fn spec_code(self) -> u32 {
        match self {
            QemuExitCode::Success => 0x10,
            QemuExitCode::Failed => 0x11,
        }
    }

    /// The value written to the debug-exit port.
    pub fn code(self) -> (r: u32)
        ensures
            r == self.spec_code(),
    {
        match self {
            QemuExitCode::Success => 0x10,
            QemuExitCode::Failed => 0x11,
        }
    }
}

/// A test that the kernel's test runner can run.
pub trait Testable {
    fn run(&self);
}

/// Runs every test in order; a test that fails does not return, so reaching
/// the end means success.
pub fn test_runner<T: Testable>(tests: &[T]) -> (r: QemuExitCode)
    ensures
        r == QemuExitCode::Success,
{
    let mut i: usize = 0;
    while i < tests.len()
        invariant
            i <= tests@.len(),
        decreases tests@.len() - i,
    {
        tests[i].run();
        i = i + 1;
    }
    QemuExitCode::Success
}

} // verus!

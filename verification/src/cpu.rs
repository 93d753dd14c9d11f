//! Saved execution state of one process: the full general-purpose register
//! set plus instruction pointer, flag register and segment selectors —
//! exactly the values needed to resume execution.

use vstd::prelude::*;

verus! {

/// The flag-register value a fresh process starts with: interrupts enabled.
pub const INITIAL_RFLAGS: u64 = 0x202;

/// Kernel code segment selector.
pub const KERNEL_CODE_SEGMENT: u64 = 0x08;

/// Kernel data/stack segment selector.
pub const KERNEL_DATA_SEGMENT: u64 = 0x10;

/// A full register snapshot, sufficient to resume execution.
#[derive(Clone, Copy, Debug, PartialEq, Eq, Structural)]
pub struct CpuState {
    pub rax: u64,
    pub rbx: u64,
    pub rcx: u64,
    pub rdx: u64,
    pub rsi: u64,
    pub rdi: u64,
    pub rbp: u64,
    pub rsp: u64,
    pub r8: u64,
    pub r9: u64,
    pub r10: u64,
    pub r11: u64,
    pub r12: u64,
    pub r13: u64,
    pub r14: u64,
    pub r15: u64,
    pub rip: u64,
    pub rflags: u64,
    pub cs: u64,
    pub ss: u64,
}

impl CpuState {
    /// Whether every general-purpose register is zero.
    pub open spec fn gp_zeroed(self) -> bool {
        &&& self.rax == 0
        &&& self.rbx == 0
        &&& self.rcx == 0
        &&& self.rdx == 0
        &&& self.rsi == 0
        &&& self.rdi == 0
        &&& self.rbp == 0
        &&& self.r8 == 0
        &&& self.r9 == 0
        &&& self.r10 == 0
        &&& self.r11 == 0
        &&& self.r12 == 0
        &&& self.r13 == 0
        &&& self.r14 == 0
        &&& self.r15 == 0
    }

    /// The snapshot a fresh process starts from: zeroed general-purpose
    /// registers, the entry point as instruction pointer, the top of its
    /// kernel stack as stack pointer, interrupts enabled, kernel segments.
    pub open spec fn is_initial_for(self, entry_point: u64, stack_top: u64) -> bool {
        &&& self.gp_zeroed()
        &&& self.rsp == stack_top
        &&& self.rip == entry_point
        &&& self.rflags == INITIAL_RFLAGS
        &&& self.cs == KERNEL_CODE_SEGMENT
        &&& self.ss == KERNEL_DATA_SEGMENT
    }

    pub fn new(
        rax: u64, rbx: u64, rcx: u64, rdx: u64,
        rsi: u64, rdi: u64, rbp: u64, rsp: u64,
        r8: u64, r9: u64, r10: u64, r11: u64,
        r12: u64, r13: u64, r14: u64, r15: u64,
        rip: u64, rflags: u64, cs: u64, ss: u64,
    ) -> (r: CpuState)
        ensures
            r == (CpuState {
                rax, rbx, rcx, rdx, rsi, rdi, rbp, rsp,
                r8, r9, r10, r11, r12, r13, r14, r15,
                rip, rflags, cs, ss,
            }),
    {
        CpuState {
            rax, rbx, rcx, rdx, rsi, rdi, rbp, rsp,
            r8, r9, r10, r11, r12, r13, r14, r15,
            rip, rflags, cs, ss,
        }
    }

    /// The state of the kernel's own bootstrap context: all registers zero,
    /// interrupts enabled, kernel segment selectors.
    pub fn default() -> (r: CpuState)
        ensures
            r.is_initial_for(0, 0),
    {
        CpuState {
            rax: 0, rbx: 0, rcx: 0, rdx: 0,
            rsi: 0, rdi: 0, rbp: 0, rsp: 0,
            r8: 0, r9: 0, r10: 0, r11: 0,
            r12: 0, r13: 0, r14: 0, r15: 0,
            rip: 0,
            rflags: INITIAL_RFLAGS,
            cs: KERNEL_CODE_SEGMENT,
            ss: KERNEL_DATA_SEGMENT,
        }
    }

    /// The snapshot a new process is created with.
    pub fn initial(entry_point: u64, stack_top: u64) -> (r: CpuState)
        ensures
            r.is_initial_for(entry_point, stack_top),
    {
        CpuState::new(
            0, 0, 0, 0, 0, 0, 0, stack_top,
            0, 0, 0, 0, 0, 0, 0, 0,
            entry_point,
            INITIAL_RFLAGS,
            KERNEL_CODE_SEGMENT,
            KERNEL_DATA_SEGMENT,
        )
    }
}

} // verus!

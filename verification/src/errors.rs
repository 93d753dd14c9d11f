//! Error kinds of the process core.  Every fallible operation returns its
//! error to the immediate caller; none are swallowed.

use vstd::prelude::*;

verus! {

/// Failures of frame allocation and address-space construction.
#[derive(Clone, Copy, Debug, PartialEq, Eq, Structural)]
pub enum MemoryError {
    /// Physical frames or heap space are exhausted.
    OutOfMemory,
    /// The frame allocator was used before it received the boot memory map.
    NotInitialized,
    /// A region description that cannot be mapped as given.
    InvalidMemoryLayout,
    /// Installing a mapping in a process page table failed; reported by
    /// the hardware-facing installer that carries a built address space
    /// onto the real page tables.
    MappingFailed,
}

/// Failures of registry and scheduler operations.
#[derive(Clone, Copy, Debug, PartialEq, Eq, Structural)]
pub enum ProcessError {
    /// Frame or heap exhaustion while building the process's memory.
    OutOfMemory,
    /// The registry already holds the maximum number of active processes.
    ProcessTableFull,
    /// No record with the given pid exists.
    ProcessNotFound,
    /// A pid that cannot be used in this context, e.g. a nonexistent parent.
    InvalidPid,
    /// An illegal lifecycle transition, notably a second `Running` process.
    InvalidState,
}

impl MemoryError {
    /// A short human-readable description of the error.
    pub fn describe(&self) -> (r: &'static str)
        ensures
            r@.len() > 0,
    {
        let s = match self {
            MemoryError::OutOfMemory => "out of memory",
            MemoryError::NotInitialized => "frame allocator not initialized",
            MemoryError::InvalidMemoryLayout => "invalid memory layout",
            MemoryError::MappingFailed => "mapping failed",
        };
        proof {
            reveal_strlit("out of memory");
            reveal_strlit("frame allocator not initialized");
            reveal_strlit("invalid memory layout");
            reveal_strlit("mapping failed");
        }
        s
    }
}

impl ProcessError {
    /// A short human-readable description of the error.
    pub fn describe(&self) -> (r: &'static str)
        ensures
            r@.len() > 0,
    {
        let s = match self {
            ProcessError::OutOfMemory => "out of memory",
            ProcessError::ProcessTableFull => "process table full",
            ProcessError::ProcessNotFound => "process not found",
            ProcessError::InvalidPid => "invalid pid",
            ProcessError::InvalidState => "invalid state transition",
        };
        proof {
            reveal_strlit("out of memory");
            reveal_strlit("process table full");
            reveal_strlit("process not found");
            reveal_strlit("invalid pid");
            reveal_strlit("invalid state transition");
        }
        s
    }
}

} // verus!

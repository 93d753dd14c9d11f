//! Process and scheduling core of a small single-CPU kernel.
//!
//! The crate models the machine-facing parts of the kernel as plain data
//! (physical frames, virtual addresses and saved register sets are `u64`
//! values) and verifies the logic that manipulates them: physical-frame
//! allocation, per-process address-space construction, the process registry
//! with its lifecycle rules, the FIFO round-robin scheduler and the decision
//! logic of the context-switch engine.  The raw register and page-table
//! writes that realise those decisions on hardware live outside this crate.

pub mod cpu;
pub mod errors;
pub mod memory;
pub mod address_space;
pub mod process;
pub mod scheduler;
pub mod switch;
pub mod laws;

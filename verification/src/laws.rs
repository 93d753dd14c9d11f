//! Registry-wide laws: properties that hold of every well-formed registry,
//! stated once and proved, so callers need not re-derive them from the
//! individual operation contracts.

use vstd::prelude::*;
use crate::process::{lemma_pid_index_unique, lemma_sorted_distinct, stacks_disjoint, stacks_ok,
    ProcessManager, ProcessState};

verus! {

/// Issued pids stay strictly below the pid counter.  A successful creation
/// returns the counter's value and bumps it, and no operation ever lowers
/// it, so over any sequence of calls the returned pids strictly increase
/// and a pid is never reused — not even after its process is killed.
pub proof fn lemma_issued_pids_below_counter(pm: ProcessManager, pid: u64)
    requires
        pm.wf(),
        pm.contains_pid(pid),
    ensures
        pid < pm.next_pid,
{
    let i = pm.idx_of(pid);
    assert(0 <= i < pm.table().len() && pm.table()[i].pid == pid);
}

/// At most one record is `Running` at any time, and it is exactly the one
/// the current-running query reports.
pub proof fn lemma_single_running(pm: ProcessManager, i: int, j: int)
    requires
        pm.wf(),
        0 <= i < pm.table().len(),
        0 <= j < pm.table().len(),
        pm.table()[i].state == ProcessState::Running,
        pm.table()[j].state == ProcessState::Running,
    ensures
        i == j,
        pm.current_pid == Some(pm.table()[i].pid),
{
    lemma_sorted_distinct(pm);
    assert(pm.current_pid == Some(pm.table()[i].pid));
    assert(pm.current_pid == Some(pm.table()[j].pid));
    lemma_pid_index_unique(pm, i, j);
}

/// Pid 0 — the kernel's own bootstrap context — never terminates, whatever
/// the table holds.
pub proof fn lemma_pid0_immortal(pm: ProcessManager)
    requires
        pm.wf(),
        pm.contains_pid(0),
    ensures
        pm.state_of(0) != ProcessState::Terminated,
{
}

/// The stacks of two distinct created processes never overlap: each one's
/// kernel and user ranges are whole, nonzero and disjoint from both ranges
/// of the other.
pub proof fn lemma_stack_ranges_disjoint(pm: ProcessManager, p: u64, q: u64)
    requires
        pm.wf(),
        pm.contains_pid(p),
        pm.contains_pid(q),
        p != q,
        p != 0,
        q != 0,
    ensures
        stacks_ok(pm.record_of(p)),
        stacks_ok(pm.record_of(q)),
        stacks_disjoint(pm.record_of(p), pm.record_of(q)),
        pm.record_of(p).kernel_stack > 0,
        pm.record_of(p).user_stack > 0,
{
    lemma_sorted_distinct(pm);
    let i = pm.idx_of(p);
    let j = pm.idx_of(q);
    assert(0 <= i < pm.table().len() && pm.table()[i].pid == p);
    assert(0 <= j < pm.table().len() && pm.table()[j].pid == q);
    assert(i != j);
    assert(stacks_disjoint(pm.table()[i], pm.table()[j]));
}

} // verus!

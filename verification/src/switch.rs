//! The context-switch engine's decision logic.
//!
//! Two interchangeable transfer mechanisms share it.  On the interrupt path
//! the timer trap hands in the outgoing register snapshot lifted from the
//! trap frame; [`do_switch`] stores it in the outgoing record, asks the
//! scheduler for the next pid, and hands back the snapshot to write into
//! the trap frame — the hardware interrupt return then performs the actual
//! transfer.  On the cooperative path the yielding process pushes its
//! registers onto its own kernel stack; [`cooperative_switch`] stores the
//! resulting stack pointer and hands back the incoming process's stored one
//! for the mirror-image restore.  When the scheduler would only re-pick the
//! process already running, both paths skip all save and restore work and
//! resume unchanged — a correctness requirement, not an optimization.
//! The raw register moves, stack writes and the interrupt return itself
//! cannot be expressed here; they stay with the unverified glue around the
//! kernel.

use vstd::prelude::*;
use crate::cpu::CpuState;
use crate::process::{lemma_sorted_distinct, lemma_update_record_wf, ProcessBlock,
    ProcessManager, ProcessState};

verus! {

/// Timer ticks a process runs before the scheduler reconsiders.
pub const SCHEDULING_QUANTUM: u64 = 18;

/// The per-boot tick counter of the interrupt path: only every
/// `SCHEDULING_QUANTUM`-th tick actually triggers a reschedule;
/// intermediate ticks only acknowledge the interrupt.
pub struct TimerState {
    pub ticks_since_reschedule: u64,
}

impl TimerState {
    pub open spec fn wf(self) -> bool {
        self.ticks_since_reschedule < SCHEDULING_QUANTUM
    }

    pub fn new() -> (r: TimerState)
        ensures
            r.wf(),
            r.ticks_since_reschedule == 0,
    {
        TimerState { ticks_since_reschedule: 0 }
    }

    /// Count one timer tick; true exactly on every
    /// `SCHEDULING_QUANTUM`-th call, when the caller must reschedule.
    pub fn tick(&mut self) -> (reschedule: bool)
        requires
            old(self).wf(),
        ensures
            final(self).wf(),
            reschedule == (old(self).ticks_since_reschedule + 1 == SCHEDULING_QUANTUM),
            final(self).ticks_since_reschedule == if reschedule {
                0u64
            } else {
                (old(self).ticks_since_reschedule + 1) as u64
            },
    {
        let next = self.ticks_since_reschedule + 1;
        if next == SCHEDULING_QUANTUM {
            self.ticks_since_reschedule = 0;
            true
        } else {
            self.ticks_since_reschedule = next;
            false
        }
    }
}

impl ProcessManager {
    /// Store a register snapshot in the record carrying `pid`, changing
    /// nothing else.
    pub(crate) fn store_cpu_state(&mut self, pid: u64, snapshot: &CpuState)
        requires
            old(self).wf(),
            old(self).contains_pid(pid),
        ensures
            final(self).wf(),
            final(self).table() == old(self).table().update(
                old(self).idx_of(pid),
                (ProcessBlock { cpu_state: *snapshot, ..old(self).record_of(pid) }),
            ),
            final(self).queue() == old(self).queue(),
            final(self).current_pid == old(self).current_pid,
            final(self).next_pid == old(self).next_pid,
            final(self).clock == old(self).clock,
            final(self).active_count == old(self).active_count,
    {
        proof {
            lemma_sorted_distinct(*self);
        }
        let idx = match self.find_index(pid) {
            Some(i) => i,
            // Unreachable: the caller guarantees the record exists.
            None => {
                return ;
            },
        };
        let mut rec = self.processes.remove(idx);
        rec.cpu_state = *snapshot;
        self.processes.insert(idx, rec);
        proof {
            assert(self.table() =~= old(self).table().update(
                idx as int,
                (ProcessBlock { cpu_state: *snapshot, ..old(self).record_of(pid) }),
            ));
            lemma_update_record_wf(
                *old(self),
                *self,
                idx as int,
                (ProcessBlock { cpu_state: *snapshot, ..old(self).record_of(pid) }),
            );
        }
    }

    /// Store a stack pointer to resume from in the record carrying `pid`,
    /// changing nothing else.
    pub(crate) fn store_saved_stack_pointer(&mut self, pid: u64, sp: u64)
        requires
            old(self).wf(),
            old(self).contains_pid(pid),
        ensures
            final(self).wf(),
            final(self).table() == old(self).table().update(
                old(self).idx_of(pid),
                (ProcessBlock { saved_stack_pointer: sp, ..old(self).record_of(pid) }),
            ),
            final(self).queue() == old(self).queue(),
            final(self).current_pid == old(self).current_pid,
            final(self).next_pid == old(self).next_pid,
            final(self).clock == old(self).clock,
            final(self).active_count == old(self).active_count,
    {
        proof {
            lemma_sorted_distinct(*self);
        }
        let idx = match self.find_index(pid) {
            Some(i) => i,
            // Unreachable: the caller guarantees the record exists.
            None => {
                return ;
            },
        };
        let mut rec = self.processes.remove(idx);
        rec.saved_stack_pointer = sp;
        self.processes.insert(idx, rec);
        proof {
            assert(self.table() =~= old(self).table().update(
                idx as int,
                (ProcessBlock { saved_stack_pointer: sp, ..old(self).record_of(pid) }),
            ));
            lemma_update_record_wf(
                *old(self),
                *self,
                idx as int,
                (ProcessBlock { saved_stack_pointer: sp, ..old(self).record_of(pid) }),
            );
        }
    }
}

/// What one interrupt-path reschedule does to the registry: nothing when
/// nothing else is runnable (the trap resumes the interrupted context
/// unchanged), otherwise the outgoing snapshot is stored in the demoted
/// record, the queue head is promoted, and its stored snapshot comes back
/// to be loaded into the trap frame.
pub open spec fn switch_step(
    pre: ProcessManager,
    post: ProcessManager,
    outgoing: CpuState,
    r: Option<CpuState>,
) -> bool {
    if pre.queue().len() == 0 {
        &&& r is None
        &&& post.table() == pre.table()
        &&& post.queue() == pre.queue()
        &&& post.current_pid == pre.current_pid
    } else {
        let h = pre.queue()[0];
        &&& r == Some(pre.record_of(h).cpu_state)
        &&& post.current_pid == Some(h)
        &&& post.contains_pid(h)
        &&& post.state_of(h) == ProcessState::Running
        &&& post.record_of(h).cpu_state == pre.record_of(h).cpu_state
        &&& (pre.current_pid is Some ==> ({
            let c = pre.current_pid->0;
            &&& post.queue() == pre.queue().drop_first().push(c)
            &&& post.contains_pid(c)
            &&& post.state_of(c) == ProcessState::Ready
            &&& post.record_of(c).cpu_state == outgoing
        }))
        &&& (pre.current_pid is None ==> post.queue() == pre.queue().drop_first())
        &&& post.table().len() == pre.table().len()
        &&& (forall|i: int|
            0 <= i < pre.table().len() && (#[trigger] pre.table()[i]).pid != h && (
            pre.current_pid is Some ==> pre.table()[i].pid != pre.current_pid->0)
                ==> post.table()[i] == pre.table()[i])
    }
}

/// One reschedule on the interrupt path.
///
/// `outgoing` is the full machine state of the interrupted context, lifted
/// from the trap frame and registers by the trap handler.  `None` means
/// resume it unchanged (nothing else is runnable — the redundant
/// self-switch is skipped entirely, saving nothing); `Some(next)` means the
/// outgoing state is now durably stored in its record and `next` must be
/// written into the trap frame and registers before the interrupt return.
pub fn do_switch(pm: &mut ProcessManager, outgoing: &CpuState) -> (r: Option<CpuState>)
    requires
        old(pm).wf(),
    ensures
        final(pm).wf(),
        final(pm).next_pid == old(pm).next_pid,
        final(pm).clock == old(pm).clock,
        final(pm).active_count == old(pm).active_count,
        switch_step(*old(pm), *final(pm), *outgoing, r),
{
    let ghost pre = *pm;
    let prev = pm.current_pid;
    if pm.ready_queue.len() == 0 {
        return None;
    }
    let next = pm.schedule();
    let h = match next {
        Some(h) => h,
        // Unreachable: with a nonempty queue, a head is always picked.
        None => {
            return None;
        },
    };
    let ghost mid = *pm;
    proof {
        lemma_sorted_distinct(pre);
        lemma_switch_mid_facts(pre, mid, h);
    }
    if let Some(c) = prev {
        pm.store_cpu_state(c, outgoing);
        proof {
            crate::process::lemma_lookup_update(
                mid.table(),
                mid.idx_of(c),
                (ProcessBlock { cpu_state: *outgoing, ..mid.record_of(c) }),
                h,
            );
            crate::process::lemma_lookup_update(
                mid.table(),
                mid.idx_of(c),
                (ProcessBlock { cpu_state: *outgoing, ..mid.record_of(c) }),
                c,
            );
        }
    }
    proof {
        lemma_untouched_records(pre, *pm, h);
    }
    let rec = match pm.get(h) {
        Ok(rec) => rec,
        // Unreachable: the promoted head always has a record.
        Err(_) => {
            return None;
        },
    };
    let snapshot = rec.cpu_state;
    Some(snapshot)
}

/// Slots holding neither the promoted head nor the demoted process are the
/// same records they were before the switch.
proof fn lemma_untouched_records(pre: ProcessManager, post: ProcessManager, h: u64)
    requires
        pre.wf(),
        pre.queue().len() > 0,
        h == pre.queue()[0],
        post.table().len() == pre.table().len(),
        forall|i: int|
            0 <= i < post.table().len() && i != pre.idx_of(h) && (pre.current_pid is Some
                ==> i != pre.idx_of(pre.current_pid->0)) ==> #[trigger] post.table()[i]
                == pre.table()[i],
    ensures
        forall|i: int|
            0 <= i < pre.table().len() && (#[trigger] pre.table()[i]).pid != h && (
            pre.current_pid is Some ==> pre.table()[i].pid != pre.current_pid->0)
                ==> post.table()[i] == pre.table()[i],
{
    lemma_sorted_distinct(pre);
    let t = pre.table();
    assert forall|i: int|
        0 <= i < t.len() && (#[trigger] t[i]).pid != h && (pre.current_pid is Some
            ==> t[i].pid != pre.current_pid->0) implies post.table()[i] == t[i] by {
        assert(t[pre.idx_of(h)].pid == h);
        if pre.current_pid is Some {
            let c = pre.current_pid->0;
            assert(t[pre.idx_of(c)].pid == c);
        }
    }
}

/// After one `schedule` decision that picked the queue head `h`, the
/// registry relates to its pre-state as the switch relations need: `h` is
/// Running with its context intact, the demoted process (if any) is Ready
/// with its context intact, and the queue rotated.
proof fn lemma_switch_mid_facts(pre: ProcessManager, mid: ProcessManager, h: u64)
    requires
        pre.wf(),
        mid.wf(),
        pre.queue().len() > 0,
        h == pre.queue()[0],
        pre.current_pid is None ==> mid.table() == pre.table().update(
            pre.idx_of(h),
            (ProcessBlock { state: ProcessState::Running, ..pre.record_of(h) }),
        ) && mid.queue() == pre.queue().drop_first(),
        pre.current_pid is Some ==> mid.table() == pre.table().update(
            pre.idx_of(pre.current_pid->0),
            (ProcessBlock { state: ProcessState::Ready, ..pre.record_of(pre.current_pid->0) }),
        ).update(
            pre.idx_of(h),
            (ProcessBlock { state: ProcessState::Running, ..pre.record_of(h) }),
        ) && mid.queue() == pre.queue().drop_first().push(pre.current_pid->0),
        mid.current_pid == Some(h),
    ensures
        mid.contains_pid(h),
        mid.idx_of(h) == pre.idx_of(h),
        mid.record_of(h) == (ProcessBlock { state: ProcessState::Running, ..pre.record_of(h) }),
        pre.current_pid is Some ==> ({
            let c = pre.current_pid->0;
            &&& c != h
            &&& mid.contains_pid(c)
            &&& mid.idx_of(c) == pre.idx_of(c)
            &&& mid.record_of(c) == (ProcessBlock {
                state: ProcessState::Ready,
                ..pre.record_of(c)
            })
        }),
{
    lemma_sorted_distinct(pre);
    let t = pre.table();
    let hidx = pre.idx_of(h);
    assert(pre.contains_pid(h) && pre.state_of(h) == ProcessState::Ready);
    assert(0 <= hidx < t.len() && t[hidx].pid == h);
    if pre.current_pid is None {
        crate::process::lemma_lookup_update(
            t,
            hidx,
            (ProcessBlock { state: ProcessState::Running, ..pre.record_of(h) }),
            h,
        );
    } else {
        let c = pre.current_pid->0;
        assert(pre.contains_pid(c) && pre.state_of(c) == ProcessState::Running);
        assert(c != h);
        let cidx = pre.idx_of(c);
        let t1 = t.update(cidx, (ProcessBlock { state: ProcessState::Ready, ..pre.record_of(c) }));
        crate::process::lemma_lookup_update(
            t,
            cidx,
            (ProcessBlock { state: ProcessState::Ready, ..pre.record_of(c) }),
            h,
        );
        crate::process::lemma_lookup_update(
            t,
            cidx,
            (ProcessBlock { state: ProcessState::Ready, ..pre.record_of(c) }),
            c,
        );
        assert(forall|i: int, j: int|
            0 <= i < j < t1.len() ==> (#[trigger] t1[i]).pid != (#[trigger] t1[j]).pid);
        assert(t1[hidx].pid == h);
        crate::process::lemma_lookup_update(
            t1,
            hidx,
            (ProcessBlock { state: ProcessState::Running, ..pre.record_of(h) }),
            h,
        );
        crate::process::lemma_lookup_update(
            t1,
            hidx,
            (ProcessBlock { state: ProcessState::Running, ..pre.record_of(h) }),
            c,
        );
        assert(t1[hidx] == t[hidx]);
        assert(crate::process::seq_idx_of(t1, h) == hidx) by {
            let k = crate::process::seq_idx_of(t1, h);
            assert(0 <= k < t1.len() && t1[k].pid == h);
            if k < hidx {
                assert(t1[k].pid != t1[hidx].pid);
            } else if hidx < k {
                assert(t1[hidx].pid != t1[k].pid);
            }
        }
        assert(crate::process::seq_idx_of(t1, c) == cidx) by {
            let k = crate::process::seq_idx_of(t1, c);
            assert(0 <= k < t1.len() && t1[k].pid == c);
            if k < cidx {
                assert(t1[k].pid != t1[cidx].pid);
            } else if cidx < k {
                assert(t1[cidx].pid != t1[k].pid);
            }
        }
    }
}


/// What one cooperative yield does to the registry: nothing when nothing
/// else is runnable, otherwise the captured stack pointer is stored in the
/// demoted record, the queue head is promoted, and its stored stack pointer
/// comes back for the restore.
pub open spec fn yield_step(
    pre: ProcessManager,
    post: ProcessManager,
    saved_stack_pointer: u64,
    r: Option<u64>,
) -> bool {
    if pre.queue().len() == 0 {
        &&& r is None
        &&& post.table() == pre.table()
        &&& post.queue() == pre.queue()
        &&& post.current_pid == pre.current_pid
    } else {
        let h = pre.queue()[0];
        &&& r == Some(pre.record_of(h).saved_stack_pointer)
        &&& post.current_pid == Some(h)
        &&& post.contains_pid(h)
        &&& post.state_of(h) == ProcessState::Running
        &&& post.record_of(h).saved_stack_pointer == pre.record_of(h).saved_stack_pointer
        &&& (pre.current_pid is Some ==> ({
            let c = pre.current_pid->0;
            &&& post.queue() == pre.queue().drop_first().push(c)
            &&& post.contains_pid(c)
            &&& post.state_of(c) == ProcessState::Ready
            &&& post.record_of(c).saved_stack_pointer == saved_stack_pointer
        }))
        &&& (pre.current_pid is None ==> post.queue() == pre.queue().drop_first())
        &&& post.table().len() == pre.table().len()
        &&& (forall|i: int|
            0 <= i < pre.table().len() && (#[trigger] pre.table()[i]).pid != h && (
            pre.current_pid is Some ==> pre.table()[i].pid != pre.current_pid->0)
                ==> post.table()[i] == pre.table()[i])
    }
}

/// One reschedule on the cooperative stack-swap path.
///
/// The yielding process has pushed its registers onto its own kernel stack
/// and captured the resulting stack pointer; `None` means resume the caller
/// (nothing else is runnable, nothing was saved), `Some(sp)` means the
/// capture is stored in the outgoing record and the incoming process's
/// registers must be popped back off its own stack at `sp`.
pub fn cooperative_switch(pm: &mut ProcessManager, saved_stack_pointer: u64) -> (r: Option<u64>)
    requires
        old(pm).wf(),
    ensures
        final(pm).wf(),
        final(pm).next_pid == old(pm).next_pid,
        final(pm).clock == old(pm).clock,
        final(pm).active_count == old(pm).active_count,
        yield_step(*old(pm), *final(pm), saved_stack_pointer, r),
{
    let ghost pre = *pm;
    let prev = pm.current_pid;
    if pm.ready_queue.len() == 0 {
        return None;
    }
    let next = pm.schedule();
    let h = match next {
        Some(h) => h,
        // Unreachable: with a nonempty queue, a head is always picked.
        None => {
            return None;
        },
    };
    let ghost mid = *pm;
    proof {
        lemma_sorted_distinct(pre);
        lemma_switch_mid_facts(pre, mid, h);
    }
    if let Some(c) = prev {
        pm.store_saved_stack_pointer(c, saved_stack_pointer);
        proof {
            crate::process::lemma_lookup_update(
                mid.table(),
                mid.idx_of(c),
                (ProcessBlock { saved_stack_pointer, ..mid.record_of(c) }),
                h,
            );
            crate::process::lemma_lookup_update(
                mid.table(),
                mid.idx_of(c),
                (ProcessBlock { saved_stack_pointer, ..mid.record_of(c) }),
                c,
            );
        }
    }
    proof {
        lemma_untouched_records(pre, *pm, h);
    }
    let rec = match pm.get(h) {
        Ok(rec) => rec,
        // Unreachable: the promoted head always has a record.
        Err(_) => {
            return None;
        },
    };
    let sp = rec.saved_stack_pointer;
    Some(sp)
}

/// The 16 words a fresh kernel stack is primed with, in the order they are
/// written going downward from the top: the entry point (consumed by the
/// final return of the restore sequence), six zeroed registers, the frame
/// pointer slot, and eight more zeroed registers.
pub open spec fn initial_stack_words(stack_top: u64, entry_point: u64) -> Seq<u64> {
    seq![
        entry_point,
        0u64,
        0u64,
        0u64,
        0u64,
        0u64,
        0u64,
        (stack_top - 16) as u64,
        0u64,
        0u64,
        0u64,
        0u64,
        0u64,
        0u64,
        0u64,
        0u64,
    ]
}

/// Prime a fresh kernel stack for its first cooperative resume: word `k`
/// of the result belongs at address `stack_top - 8 * (k + 1)`, and the
/// returned stack pointer — `stack_top` minus the 128 bytes the words
/// occupy — is what the record's `saved_stack_pointer` starts from.  The
/// caller performs the actual memory writes.
pub fn setup_initial_stack(stack_top: u64, entry_point: u64) -> (r: (Vec<u64>, u64))
    requires
        stack_top >= 128,
    ensures
        r.0@ == initial_stack_words(stack_top, entry_point),
        r.1 == stack_top - 128,
{
    let mut words: Vec<u64> = Vec::new();
    words.push(entry_point);
    words.push(0);
    words.push(0);
    words.push(0);
    words.push(0);
    words.push(0);
    words.push(0);
    words.push(stack_top - 16);
    words.push(0);
    words.push(0);
    words.push(0);
    words.push(0);
    words.push(0);
    words.push(0);
    words.push(0);
    words.push(0);
    proof {
        assert(words@ =~= initial_stack_words(stack_top, entry_point));
    }
    (words, stack_top - 128)
}

/// The single entry point for the trap/interrupt collaborator, invoked on
/// every timer tick with the interrupted context's machine state.
///
/// Intermediate ticks within the quantum only count and return `None`
/// at once — the caller acknowledges the interrupt controller and resumes.
/// Every `SCHEDULING_QUANTUM`-th tick performs one interrupt-path
/// reschedule, as [`do_switch`] describes.
pub fn timer_tick(pm: &mut ProcessManager, timer: &mut TimerState, outgoing: &CpuState) -> (r:
    Option<CpuState>)
    requires
        old(pm).wf(),
        old(timer).wf(),
    ensures
        final(pm).wf(),
        final(timer).wf(),
        final(pm).next_pid == old(pm).next_pid,
        final(pm).clock == old(pm).clock,
        final(pm).active_count == old(pm).active_count,
        final(timer).ticks_since_reschedule == (
        if old(timer).ticks_since_reschedule + 1 == SCHEDULING_QUANTUM {
            0u64
        } else {
            (old(timer).ticks_since_reschedule + 1) as u64
        }),
        old(timer).ticks_since_reschedule + 1 != SCHEDULING_QUANTUM ==> r is None && *final(pm)
            == *old(pm),
        old(timer).ticks_since_reschedule + 1 == SCHEDULING_QUANTUM ==> switch_step(
            *old(pm),
            *final(pm),
            *outgoing,
            r,
        ),
{
    if timer.tick() {
        do_switch(pm, outgoing)
    } else {
        None
    }
}

} // verus!

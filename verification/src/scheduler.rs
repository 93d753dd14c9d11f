//! The scheduler: strict FIFO round robin over the ready queue, no
//! priority weighting, one decision in O(queue length at most).
//!
//! The state machine per process is `New → Ready → Running → {Ready |
//! Waiting | Terminated}`, with `Waiting → Ready` on an external wake
//! (nothing transitions into `Waiting` yet) and `Terminated` absorbing.

use vstd::prelude::*;
use crate::process::{lemma_lookup_update, lemma_sorted_distinct, ProcessBlock, ProcessManager,
    ProcessState};

verus! {

impl ProcessManager {
    /// Demote the running record, if any, to `Ready` and append its pid to
    /// the tail of the ready queue, clearing the running cache.
    pub(crate) fn demote_current(&mut self)
        requires
            old(self).wf(),
        ensures
            final(self).wf(),
            final(self).current_pid is None,
            final(self).next_pid == old(self).next_pid,
            final(self).clock == old(self).clock,
            final(self).active_count == old(self).active_count,
            old(self).current_pid is None ==> *final(self) == *old(self),
            old(self).current_pid is Some ==> ({
                let c = old(self).current_pid->0;
                &&& final(self).table() == old(self).table().update(
                    old(self).idx_of(c),
                    (ProcessBlock { state: ProcessState::Ready, ..old(self).record_of(c) }),
                )
                &&& final(self).queue() == old(self).queue().push(c)
            }),
    {
        let c = match self.current_pid {
            Some(c) => c,
            None => {
                return ;
            },
        };
        let ghost pre = *self;
        let res = self.set_state(c, ProcessState::Ready);
        proof {
            assert(res is Ok);
        }
        let ghost mid = *self;
        self.ready_queue.push(c);
        proof {
            lemma_sorted_distinct(pre);
            // The pushed pid names the just-demoted Ready record; nothing
            // else in the queue changed, and the running pid was never
            // queued while it ran.
            assert forall|k: int| 0 <= k < self.queue().len() implies self.contains_pid(
                #[trigger] self.queue()[k],
            ) && self.state_of(self.queue()[k]) == ProcessState::Ready by {
                if k < mid.queue().len() {
                    assert(self.queue()[k] == mid.queue()[k]);
                } else {
                    assert(self.queue()[k] == c);
                    lemma_lookup_update(
                        pre.table(),
                        pre.idx_of(c),
                        (ProcessBlock { state: ProcessState::Ready, ..pre.record_of(c) }),
                        c,
                    );
                    assert(mid.contains_pid(c) && mid.state_of(c) == ProcessState::Ready);
                }
            }
            assert forall|k: int, l: int| 0 <= k < l < self.queue().len() implies self.queue()[k]
                != self.queue()[l] by {
                if l == mid.queue().len() as int {
                    assert(self.queue()[l] == c);
                    assert(mid.queue()[k] == pre.queue()[k]);
                    if pre.queue()[k] == c {
                        assert(pre.state_of(c) == ProcessState::Ready);
                        assert(pre.state_of(c) == ProcessState::Running);
                    }
                }
            }
        }
    }

    /// Pop the head of the ready queue, promote it to `Running` and record
    /// it as the current pid; `None` when nothing is ready.  Only called
    /// while nothing is running.
    pub(crate) fn dispatch_head(&mut self) -> (r: Option<u64>)
        requires
            old(self).wf(),
            old(self).current_pid is None,
        ensures
            final(self).wf(),
            final(self).next_pid == old(self).next_pid,
            final(self).clock == old(self).clock,
            final(self).active_count == old(self).active_count,
            old(self).queue().len() == 0 ==> r is None && *final(self) == *old(self),
            old(self).queue().len() > 0 ==> ({
                let h = old(self).queue()[0];
                &&& r == Some(h)
                &&& final(self).current_pid == Some(h)
                &&& final(self).queue() == old(self).queue().drop_first()
                &&& final(self).table() == old(self).table().update(
                    old(self).idx_of(h),
                    (ProcessBlock { state: ProcessState::Running, ..old(self).record_of(h) }),
                )
            }),
    {
        if self.ready_queue.len() == 0 {
            return None;
        }
        let ghost pre = *self;
        let h = self.ready_queue.remove(0);
        proof {
            assert(self.queue() == pre.queue().drop_first());
            // Dropping the head leaves a well-formed queue.
            assert forall|k: int| 0 <= k < self.queue().len() implies self.contains_pid(
                #[trigger] self.queue()[k],
            ) && self.state_of(self.queue()[k]) == ProcessState::Ready by {
                assert(self.queue()[k] == pre.queue()[k + 1]);
            }
            assert forall|k: int, l: int| 0 <= k < l < self.queue().len() implies self.queue()[k]
                != self.queue()[l] by {
                assert(self.queue()[k] == pre.queue()[k + 1]);
                assert(self.queue()[l] == pre.queue()[l + 1]);
            }
            assert(self.wf());
        }
        let ghost mid = *self;
        let res = self.set_state(h, ProcessState::Running);
        proof {
            assert(res is Ok);
            // The head was Ready, hence no longer queued after the pop, so
            // promoting it removed nothing further.
            assert(!(exists|k: int|
                0 <= k < mid.queue().len() && mid.queue()[k] == h)) by {
                if exists|k: int| 0 <= k < mid.queue().len() && mid.queue()[k] == h {
                    let k = choose|k: int| 0 <= k < mid.queue().len() && mid.queue()[k] == h;
                    assert(pre.queue()[k + 1] == h);
                    assert(pre.queue()[0] != pre.queue()[k + 1]);
                }
            }
            assert(self.queue() == mid.queue());
        }
        Some(h)
    }

    /// One round-robin decision (the queue-based variant): demote the
    /// running process, if any, to the tail of the ready queue, then hand
    /// the CPU to the queue's head.
    ///
    /// Returns the pid that should now run: the head if one was queued,
    /// the previously running pid unchanged when nothing else is runnable
    /// (the redundant self-switch the context-switch engine must skip), or
    /// `None` when nothing has ever run and nothing is ready.
    pub fn schedule(&mut self) -> (r: Option<u64>)
        requires
            old(self).wf(),
        ensures
            final(self).wf(),
            final(self).next_pid == old(self).next_pid,
            final(self).clock == old(self).clock,
            final(self).active_count == old(self).active_count,
            old(self).current_pid is None && old(self).queue().len() == 0 ==> r is None
                && *final(self) == *old(self),
            old(self).current_pid is None && old(self).queue().len() > 0 ==> ({
                let h = old(self).queue()[0];
                &&& r == Some(h)
                &&& final(self).current_pid == Some(h)
                &&& final(self).queue() == old(self).queue().drop_first()
                &&& final(self).table() == old(self).table().update(
                    old(self).idx_of(h),
                    (ProcessBlock { state: ProcessState::Running, ..old(self).record_of(h) }),
                )
            }),
            old(self).current_pid is Some && old(self).queue().len() == 0 ==> r == old(
                self,
            ).current_pid && final(self).table() == old(self).table() && final(self).queue()
                == old(self).queue() && final(self).current_pid == old(self).current_pid,
            old(self).current_pid is Some && old(self).queue().len() > 0 ==> ({
                let c = old(self).current_pid->0;
                let h = old(self).queue()[0];
                &&& r == Some(h)
                &&& final(self).current_pid == Some(h)
                &&& final(self).queue() == old(self).queue().drop_first().push(c)
                &&& final(self).table() == old(self).table().update(
                    old(self).idx_of(c),
                    (ProcessBlock { state: ProcessState::Ready, ..old(self).record_of(c) }),
                ).update(
                    old(self).idx_of(h),
                    (ProcessBlock { state: ProcessState::Running, ..old(self).record_of(h) }),
                )
            }),
    {
        let ghost pre = *self;
        let prev = self.current_pid;
        self.demote_current();
        let ghost mid = *self;
        let picked = self.dispatch_head();
        proof {
            lemma_sorted_distinct(pre);
            if pre.current_pid is Some {
                let c = pre.current_pid->0;
                let cidx = pre.idx_of(c);
                let b2 = ProcessBlock { state: ProcessState::Ready, ..pre.record_of(c) };
                if pre.queue().len() == 0 {
                    // Redundant self-switch: the demoted pid is popped right
                    // back and ends Running again — the registry is as it was.
                    assert(mid.queue() =~= seq![c]);
                    assert(mid.queue()[0] == c);
                    lemma_lookup_update(pre.table(), cidx, b2, c);
                    assert(mid.idx_of(c) == cidx);
                    assert(mid.record_of(c) == b2);
                    assert(self.table() =~= pre.table()) by {
                        assert(self.table() == mid.table().update(
                            cidx,
                            (ProcessBlock { state: ProcessState::Running, ..b2 }),
                        ));
                        assert((ProcessBlock { state: ProcessState::Running, ..b2 })
                            == pre.record_of(c));
                    }
                    assert(self.queue() =~= pre.queue());
                } else {
                    let h = pre.queue()[0];
                    assert(mid.queue()[0] == h);
                    assert(h != c) by {
                        if h == c {
                            assert(pre.state_of(c) == ProcessState::Ready);
                            assert(pre.state_of(c) == ProcessState::Running);
                        }
                    }
                    lemma_lookup_update(pre.table(), cidx, b2, h);
                    assert(mid.idx_of(h) == pre.idx_of(h));
                    assert(mid.record_of(h) == pre.record_of(h));
                    assert(self.queue() =~= pre.queue().drop_first().push(c));
                }
            }
        }
        match picked {
            Some(h) => Some(h),
            None => prev,
        }
    }
}

/// The low-granularity scheduler entry point: the same FIFO policy over
/// the shared registry as [`ProcessManager::schedule`], under the
/// dispatch-centred return convention — the pid a `Ready` record was
/// actually promoted for, or `None` when nothing is ready and the running
/// process (if any) simply keeps the CPU.
pub fn primitive_scheduler(pm: &mut ProcessManager) -> (r: Option<u64>)
    requires
        old(pm).wf(),
    ensures
        final(pm).wf(),
        final(pm).next_pid == old(pm).next_pid,
        final(pm).clock == old(pm).clock,
        final(pm).active_count == old(pm).active_count,
        old(pm).queue().len() == 0 ==> r is None && *final(pm) == *old(pm),
        old(pm).queue().len() > 0 && old(pm).current_pid is None ==> ({
            let h = old(pm).queue()[0];
            &&& r == Some(h)
            &&& final(pm).current_pid == Some(h)
            &&& final(pm).queue() == old(pm).queue().drop_first()
            &&& final(pm).table() == old(pm).table().update(
                old(pm).idx_of(h),
                (ProcessBlock { state: ProcessState::Running, ..old(pm).record_of(h) }),
            )
        }),
        old(pm).queue().len() > 0 && old(pm).current_pid is Some ==> ({
            let c = old(pm).current_pid->0;
            let h = old(pm).queue()[0];
            &&& r == Some(h)
            &&& final(pm).current_pid == Some(h)
            &&& final(pm).queue() == old(pm).queue().drop_first().push(c)
            &&& final(pm).table() == old(pm).table().update(
                old(pm).idx_of(c),
                (ProcessBlock { state: ProcessState::Ready, ..old(pm).record_of(c) }),
            ).update(
                old(pm).idx_of(h),
                (ProcessBlock { state: ProcessState::Running, ..old(pm).record_of(h) }),
            )
        }),
{
    if pm.ready_queue.len() == 0 {
        return None;
    }
    let ghost pre = *pm;
    pm.demote_current();
    let ghost mid = *pm;
    let picked = pm.dispatch_head();
    proof {
        lemma_sorted_distinct(pre);
        if pre.current_pid is Some {
            let c = pre.current_pid->0;
            let cidx = pre.idx_of(c);
            let b2 = ProcessBlock { state: ProcessState::Ready, ..pre.record_of(c) };
            let h = pre.queue()[0];
            assert(mid.queue()[0] == h);
            assert(h != c) by {
                if h == c {
                    assert(pre.state_of(c) == ProcessState::Ready);
                    assert(pre.state_of(c) == ProcessState::Running);
                }
            }
            lemma_lookup_update(pre.table(), cidx, b2, h);
            assert(mid.idx_of(h) == pre.idx_of(h));
            assert(mid.record_of(h) == pre.record_of(h));
            assert(pm.queue() =~= pre.queue().drop_first().push(c));
        }
    }
    picked
}

} // verus!

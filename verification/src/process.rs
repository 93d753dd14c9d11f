//! The process registry: the authoritative table of process records, pid
//! allocation, lookup, parent/child indexing and lifecycle transitions.
//!
//! The registry is one explicit state value, created at boot and passed to
//! everything that needs it.  Its invariants hold after every operation:
//! at most one record is `Running` (and the cached current pid points at
//! it), every queued pid names a `Ready` record and appears once, pids
//! increase strictly and are never reused, the active count never exceeds
//! the table capacity, pid 0 — the kernel's own bootstrap context — is
//! never `Terminated`, and the stack ranges of live processes never
//! overlap.

use vstd::prelude::*;
use crate::address_space::{AddressSpace, address_space_ok, FRAMES_PER_ADDRESS_SPACE,
    PAGE_TABLE_ENTRIES, create_address_space};
use crate::cpu::CpuState;
use crate::errors::ProcessError;
use crate::memory::{BootInfoFrameAllocator, KERNEL_STACK_SIZE, MemoryRegion, StackAllocator,
    USER_STACK_SIZE};

verus! {

/// The lifecycle states of a process.  `New → Ready → Running` and back to
/// `Ready`, or on to `Waiting` or `Terminated`; `Terminated` is absorbing.
#[derive(Clone, Copy, Debug, PartialEq, Eq, Structural)]
pub enum ProcessState {
    New,
    Ready,
    Running,
    Waiting,
    Terminated,
}

/// Most processes the registry will hold at one time.
pub const MAX_PROCESSES: usize = 1024;

/// One process record.
#[derive(Debug)]
pub struct ProcessBlock {
    /// Unique, monotonically increasing, never reused.
    pub pid: u64,
    pub state: ProcessState,
    /// Informational only under the FIFO policy.
    pub priority: u8,
    /// The pid of the creating process, if one was named; it referred to a
    /// live record at creation time.
    pub parent_pid: Option<u64>,
    pub cpu_state: CpuState,
    pub address_space: AddressSpace,
    /// Top (exclusive) of the exclusively owned 8 KiB kernel stack;
    /// 0 for pid 0, which runs on the boot stack.
    pub kernel_stack: u64,
    /// Top (exclusive) of the exclusively owned 16 KiB user stack;
    /// 0 for pid 0.
    pub user_stack: u64,
    /// Stack pointer to resume from on the cooperative switch path.
    pub saved_stack_pointer: u64,
    /// Monotonic creation counter, not wall-clock.
    pub creation_time: u64,
}

impl ProcessBlock {
    pub fn get_pid(&self) -> (r: u64)
        ensures
            r == self.pid,
    {
        self.pid
    }

    pub fn get_state(&self) -> (r: ProcessState)
        ensures
            r == self.state,
    {
        self.state
    }

    pub fn set_state(&mut self, state: ProcessState)
        ensures
            *final(self) == (ProcessBlock { state, ..*old(self) }),
    {
        self.state = state;
    }
}

/// Low end of a record's kernel stack range.
pub open spec fn kstack_lo(b: ProcessBlock) -> int {
    b.kernel_stack - KERNEL_STACK_SIZE
}

/// Low end of a record's user stack range.
pub open spec fn ustack_lo(b: ProcessBlock) -> int {
    b.user_stack - USER_STACK_SIZE
}

/// Whether the half-open ranges `[lo1, hi1)` and `[lo2, hi2)` are disjoint.
pub open spec fn ranges_disjoint(lo1: int, hi1: int, lo2: int, hi2: int) -> bool {
    hi1 <= lo2 || hi2 <= lo1
}

/// A created process's stacks: whole ranges, and the kernel range disjoint
/// from the user range.
pub open spec fn stacks_ok(b: ProcessBlock) -> bool {
    &&& b.kernel_stack >= KERNEL_STACK_SIZE
    &&& b.user_stack >= USER_STACK_SIZE
    &&& ranges_disjoint(kstack_lo(b), b.kernel_stack as int, ustack_lo(b), b.user_stack as int)
}

/// No stack range of `a` overlaps a stack range of `b`.
pub open spec fn stacks_disjoint(a: ProcessBlock, b: ProcessBlock) -> bool {
    &&& ranges_disjoint(kstack_lo(a), a.kernel_stack as int, kstack_lo(b), b.kernel_stack as int)
    &&& ranges_disjoint(kstack_lo(a), a.kernel_stack as int, ustack_lo(b), b.user_stack as int)
    &&& ranges_disjoint(ustack_lo(a), a.user_stack as int, kstack_lo(b), b.kernel_stack as int)
    &&& ranges_disjoint(ustack_lo(a), a.user_stack as int, ustack_lo(b), b.user_stack as int)
}

/// How many records of `s` are not `Terminated`.
pub open spec fn active_in(s: Seq<ProcessBlock>) -> nat
    decreases s.len(),
{
    if s.len() == 0 {
        0
    } else {
        active_in(s.drop_last()) + if s.last().state != ProcessState::Terminated {
            1nat
        } else {
            0nat
        }
    }
}

/// Whether some record of `s` carries `pid`.
pub open spec fn seq_contains_pid(s: Seq<ProcessBlock>, pid: u64) -> bool {
    exists|i: int| 0 <= i < s.len() && (#[trigger] s[i]).pid == pid
}

/// The index of the record carrying `pid`.
pub open spec fn seq_idx_of(s: Seq<ProcessBlock>, pid: u64) -> int {
    choose|i: int| 0 <= i < s.len() && (#[trigger] s[i]).pid == pid
}

/// The registry.  One value of this type is the process-wide singleton,
/// created at boot; all mutation goes through its methods (the caller is
/// responsible for taking the single scheduler lock with interrupts
/// disabled before touching it outside interrupt context).
pub struct ProcessManager {
    /// The records, ordered by strictly increasing pid.
    pub processes: Vec<ProcessBlock>,
    /// FIFO queue of pids eligible to run next; every entry names a `Ready`
    /// record, no entry repeats.
    pub ready_queue: Vec<u64>,
    /// The pid of the one `Running` record, if any.
    pub current_pid: Option<u64>,
    /// The next pid to issue; starts at 1 and only grows.  Pid 0 is
    /// reserved for the kernel's bootstrap context.
    pub next_pid: u64,
    /// How many records are not `Terminated`.
    pub active_count: usize,
    /// Monotonic creation clock.
    pub clock: u64,
}

impl ProcessManager {
    pub open spec fn table(self) -> Seq<ProcessBlock> {
        self.processes@
    }

    pub open spec fn queue(self) -> Seq<u64> {
        self.ready_queue@
    }

    pub open spec fn contains_pid(self, pid: u64) -> bool {
        seq_contains_pid(self.table(), pid)
    }

    pub open spec fn idx_of(self, pid: u64) -> int {
        seq_idx_of(self.table(), pid)
    }

    pub open spec fn record_of(self, pid: u64) -> ProcessBlock {
        self.table()[self.idx_of(pid)]
    }

    pub open spec fn state_of(self, pid: u64) -> ProcessState {
        self.record_of(pid).state
    }

    /// A record exists for `pid` and has not terminated.
    pub open spec fn is_live(self, pid: u64) -> bool {
        self.contains_pid(pid) && self.state_of(pid) != ProcessState::Terminated
    }

    /// A requested parent either was not named or names a live record.
    pub open spec fn parent_ok(self, parent_pid: Option<u64>) -> bool {
        match parent_pid {
            None => true,
            Some(p) => self.is_live(p),
        }
    }

    /// Room for one more active process.
    pub open spec fn has_capacity(self) -> bool {
        self.active_count < MAX_PROCESSES
    }

    /// The registry's invariants; they hold after every operation.
    pub open spec fn wf(self) -> bool {
        let t = self.table();
        let q = self.queue();
        &&& (forall|i: int, j: int|
            0 <= i < j < t.len() ==> (#[trigger] t[i]).pid < (#[trigger] t[j]).pid)
        &&& (forall|i: int| 0 <= i < t.len() ==> (#[trigger] t[i]).pid < self.next_pid)
        &&& 1 <= self.next_pid
        &&& self.clock < self.next_pid
        &&& (forall|k: int|
            0 <= k < q.len()
                ==> self.contains_pid(#[trigger] q[k])
                    && self.state_of(q[k]) == ProcessState::Ready)
        &&& (forall|k: int, l: int| 0 <= k < l < q.len() ==> q[k] != q[l])
        &&& (match self.current_pid {
            Some(c) => self.contains_pid(c) && self.state_of(c) == ProcessState::Running,
            None => true,
        })
        &&& (forall|i: int|
            0 <= i < t.len() && (#[trigger] t[i]).state == ProcessState::Running
                ==> self.current_pid == Some(t[i].pid))
        &&& self.active_count == active_in(t)
        &&& self.active_count <= MAX_PROCESSES
        &&& (self.contains_pid(0) ==> self.state_of(0) != ProcessState::Terminated)
        &&& (forall|i: int|
            0 <= i < t.len() && (#[trigger] t[i]).pid == 0
                ==> t[i].kernel_stack == 0 && t[i].user_stack == 0)
        &&& (forall|i: int|
            0 <= i < t.len() && (#[trigger] t[i]).pid != 0 ==> stacks_ok(t[i]))
        &&& (forall|i: int, j: int|
            0 <= i < t.len() && 0 <= j < t.len() && i != j && (#[trigger] t[i]).pid != 0
                && (#[trigger] t[j]).pid != 0 ==> stacks_disjoint(t[i], t[j]))
    }

    /// Every created record's stack ranges lie below the stack arena's
    /// cursor: what `create_process` needs to keep new stacks disjoint from
    /// all existing ones.
    pub open spec fn stacks_below(self, sa: StackAllocator) -> bool {
        forall|i: int|
            0 <= i < self.table().len() && (#[trigger] self.table()[i]).pid != 0
                ==> self.table()[i].kernel_stack <= sa.next && self.table()[i].user_stack
                    <= sa.next
    }

    /// Pids name records uniquely (a consequence of the strict pid order).
    pub open spec fn pids_distinct(self) -> bool {
        forall|i: int, j: int|
            0 <= i < j < self.table().len()
                ==> (#[trigger] self.table()[i]).pid != (#[trigger] self.table()[j]).pid
    }
}

/// Two table indices carrying the same pid are the same index.
pub proof fn lemma_pid_index_unique(pm: ProcessManager, i: int, j: int)
    requires
        pm.pids_distinct(),
        0 <= i < pm.table().len(),
        0 <= j < pm.table().len(),
        pm.table()[i].pid == pm.table()[j].pid,
    ensures
        i == j,
{
}

/// A strictly pid-ordered table has distinct pids.
pub proof fn lemma_sorted_distinct(pm: ProcessManager)
    requires
        forall|i: int, j: int|
            0 <= i < j < pm.table().len()
                ==> (#[trigger] pm.table()[i]).pid < (#[trigger] pm.table()[j]).pid,
    ensures
        pm.pids_distinct(),
{
}

/// Appending a record adds its activity to the active count.
pub proof fn lemma_active_in_push(s: Seq<ProcessBlock>, b: ProcessBlock)
    ensures
        active_in(s.push(b)) == active_in(s) + if b.state != ProcessState::Terminated {
            1int
        } else {
            0int
        },
{
    assert(s.push(b).drop_last() =~= s);
    assert(s.push(b).last() == b);
}

/// Replacing the record at `i` adjusts the active count by the difference
/// of the two records' activity.
pub proof fn lemma_active_in_update(s: Seq<ProcessBlock>, i: int, b: ProcessBlock)
    requires
        0 <= i < s.len(),
    ensures
        active_in(s.update(i, b)) == active_in(s) - (
        if s[i].state != ProcessState::Terminated {
            1int
        } else {
            0int
        }) + (
        if b.state != ProcessState::Terminated {
            1int
        } else {
            0int
        }),
    decreases s.len(),
{
    if i == s.len() - 1 {
        assert(s.update(i, b).drop_last() =~= s.drop_last());
        assert(s.update(i, b).last() == b);
    } else {
        assert(s.update(i, b).drop_last() =~= s.drop_last().update(i, b));
        assert(s.update(i, b).last() == s.last());
        lemma_active_in_update(s.drop_last(), i, b);
    }
}

/// Removing the record at `i` subtracts its activity from the active count.
pub proof fn lemma_active_in_remove(s: Seq<ProcessBlock>, i: int)
    requires
        0 <= i < s.len(),
    ensures
        active_in(s.remove(i)) == active_in(s) - (
        if s[i].state != ProcessState::Terminated {
            1int
        } else {
            0int
        }),
    decreases s.len(),
{
    if i == s.len() - 1 {
        assert(s.remove(i) =~= s.drop_last());
    } else {
        assert(s.remove(i).drop_last() =~= s.drop_last().remove(i));
        assert(s.remove(i).last() == s.last());
        lemma_active_in_remove(s.drop_last(), i);
    }
}

impl ProcessManager {
    /// An empty registry: no records, nothing queued, nothing running,
    /// the pid counter at 1.
    pub fn new() -> (r: ProcessManager)
        ensures
            r.wf(),
            r.table().len() == 0,
            r.queue().len() == 0,
            r.current_pid is None,
            r.next_pid == 1,
            r.active_count == 0,
            r.clock == 0,
    {
        let r = ProcessManager {
            processes: Vec::new(),
            ready_queue: Vec::new(),
            current_pid: None,
            next_pid: 1,
            active_count: 0,
            clock: 0,
        };
        proof {
            assert(active_in(r.table()) == 0);
        }
        r
    }

    /// The index of the record carrying `pid`, by linear scan.
    pub(crate) fn find_index(&self, pid: u64) -> (r: Option<usize>)
        requires
            self.pids_distinct(),
        ensures
            match r {
                Some(i) => i < self.table().len() && self.table()[i as int].pid == pid
                    && self.contains_pid(pid) && self.idx_of(pid) == i,
                None => !self.contains_pid(pid),
            },
    {
        let n = self.processes.len();
        let mut i: usize = 0;
        while i < n
            invariant
                i <= n,
                n == self.table().len(),
                self.pids_distinct(),
                forall|j: int| 0 <= j < i as int ==> (#[trigger] self.table()[j]).pid != pid,
            decreases n - i,
        {
            if self.processes[i].pid == pid {
                proof {
                    let k = seq_idx_of(self.table(), pid);
                    assert(0 <= k < self.table().len() && self.table()[k].pid == pid);
                    lemma_pid_index_unique(*self, k, i as int);
                }
                return Some(i);
            }
            i = i + 1;
        }
        None
    }

    /// Look a record up by pid.
    pub fn get(&self, pid: u64) -> (r: Result<&ProcessBlock, ProcessError>)
        requires
            self.wf(),
        ensures
            match r {
                Ok(b) => self.contains_pid(pid) && *b == self.record_of(pid),
                Err(e) => e == ProcessError::ProcessNotFound && !self.contains_pid(pid),
            },
    {
        proof {
            lemma_sorted_distinct(*self);
        }
        match self.find_index(pid) {
            Some(i) => Ok(&self.processes[i]),
            None => Err(ProcessError::ProcessNotFound),
        }
    }

    /// Install the kernel's own bootstrap context as pid 0: running, on the
    /// boot stack (it owns no allocated stacks), under the boot page table.
    /// Part of boot-time initialization, before any process is created.
    pub fn init_kernel_process(&mut self, boot_page_table_root: u64)
        requires
            old(self).wf(),
            old(self).table().len() == 0,
        ensures
            final(self).wf(),
            final(self).table().len() == 1,
            is_kernel_record(final(self).table()[0], boot_page_table_root),
            final(self).contains_pid(0),
            final(self).record_of(0) == final(self).table()[0],
            final(self).current_pid == Some(0u64),
            final(self).queue() == old(self).queue(),
            final(self).next_pid == old(self).next_pid,
            final(self).clock == old(self).clock,
            final(self).active_count == 1,
    {
        let record = ProcessBlock {
            pid: 0,
            state: ProcessState::Running,
            priority: 1,
            parent_pid: None,
            cpu_state: CpuState::default(),
            address_space: AddressSpace {
                page_table_root: boot_page_table_root,
                top_entries: Vec::new(),
                code: crate::address_space::Region { base: 0, size: 0, flags: 0 },
                data: crate::address_space::Region { base: 0, size: 0, flags: 0 },
                heap: crate::address_space::Region { base: 0, size: 0, flags: 0 },
                stack: crate::address_space::Region { base: 0, size: 0, flags: 0 },
                mappings: Vec::new(),
            },
            kernel_stack: 0,
            user_stack: 0,
            saved_stack_pointer: 0,
            creation_time: 0,
        };
        proof {
            lemma_active_in_push(self.table(), record);
        }
        self.processes.push(record);
        self.current_pid = Some(0);
        self.active_count = 1;
    }
}

/// The index of the first occurrence of `x` in `q`.
pub open spec fn queue_first_index_of(q: Seq<u64>, x: u64) -> int {
    choose|k: int| 0 <= k < q.len() && q[k] == x
}

/// `q` with one occurrence of `x` removed, if it holds one.
pub open spec fn queue_remove(q: Seq<u64>, x: u64) -> Seq<u64> {
    if exists|k: int| 0 <= k < q.len() && q[k] == x {
        q.remove(queue_first_index_of(q, x))
    } else {
        q
    }
}

/// Replacing the record at `idx` by one with the same pid changes no
/// lookup: membership, index and (for other pids) the record found are all
/// preserved.
pub proof fn lemma_lookup_update(t: Seq<ProcessBlock>, idx: int, b: ProcessBlock, p: u64)
    requires
        0 <= idx < t.len(),
        b.pid == t[idx].pid,
        forall|i: int, j: int|
            0 <= i < j < t.len() ==> (#[trigger] t[i]).pid != (#[trigger] t[j]).pid,
    ensures
        seq_contains_pid(t.update(idx, b), p) <==> seq_contains_pid(t, p),
        seq_contains_pid(t, p) ==> seq_idx_of(t.update(idx, b), p) == seq_idx_of(t, p),
        seq_contains_pid(t, p) && seq_idx_of(t, p) != idx
            ==> t.update(idx, b)[seq_idx_of(t, p)] == t[seq_idx_of(t, p)],
{
    let u = t.update(idx, b);
    assert(forall|i: int| 0 <= i < u.len() ==> (#[trigger] u[i]).pid == t[i].pid);
    if seq_contains_pid(t, p) {
        let i = seq_idx_of(t, p);
        assert(0 <= i < t.len() && t[i].pid == p);
        assert(u[i].pid == p);
        assert(seq_contains_pid(u, p));
        let k = seq_idx_of(u, p);
        assert(0 <= k < u.len() && u[k].pid == p);
        assert(t[k].pid == p);
        if k < i {
            assert(t[k].pid != t[i].pid);
        } else if i < k {
            assert(t[i].pid != t[k].pid);
        }
    }
    if seq_contains_pid(u, p) {
        let k = seq_idx_of(u, p);
        assert(t[k].pid == p);
        assert(seq_contains_pid(t, p));
    }
}

impl ProcessManager {
    /// Replace the state of the record at `idx`, leaving everything else of
    /// the record and of the registry as it was.
    fn set_state_at(&mut self, idx: usize, s: ProcessState)
        requires
            idx < old(self).table().len(),
        ensures
            final(self).table() == old(self).table().update(
                idx as int,
                (ProcessBlock { state: s, ..old(self).table()[idx as int] }),
            ),
            final(self).ready_queue == old(self).ready_queue,
            final(self).current_pid == old(self).current_pid,
            final(self).next_pid == old(self).next_pid,
            final(self).active_count == old(self).active_count,
            final(self).clock == old(self).clock,
    {
        let mut rec = self.processes.remove(idx);
        rec.state = s;
        self.processes.insert(idx, rec);
        proof {
            assert(self.table() =~= old(self).table().update(
                idx as int,
                (ProcessBlock { state: s, ..old(self).table()[idx as int] }),
            ));
        }
    }

    /// Drop `pid` from the ready queue if it is queued; everything else of
    /// the registry stays as it was.
    #[verifier::loop_isolation(false)]
    fn remove_from_queue(&mut self, pid: u64)
        requires
            forall|k: int, l: int|
                0 <= k < l < old(self).queue().len()
                    ==> old(self).queue()[k] != old(self).queue()[l],
        ensures
            final(self).queue() == queue_remove(old(self).queue(), pid),
            final(self).processes == old(self).processes,
            final(self).current_pid == old(self).current_pid,
            final(self).next_pid == old(self).next_pid,
            final(self).active_count == old(self).active_count,
            final(self).clock == old(self).clock,
    {
        let n = self.ready_queue.len();
        let mut i: usize = 0;
        while i < n
            invariant
                i <= n,
                *self == *old(self),
                forall|j: int| 0 <= j < i as int ==> old(self).queue()[j] != pid,
            decreases n - i,
        {
            if self.ready_queue[i] == pid {
                self.ready_queue.remove(i);
                proof {
                    let q0 = old(self).queue();
                    assert(q0[i as int] == pid);
                    let k = queue_first_index_of(q0, pid);
                    assert(0 <= k < q0.len() && q0[k] == pid);
                    if k < i as int {
                        assert(q0[k] != q0[i as int]);
                    } else if (i as int) < k {
                        assert(q0[i as int] != q0[k]);
                    }
                }
                return;
            }
            i = i + 1;
        }
        proof {
            assert(!exists|k: int|
                0 <= k < old(self).queue().len() && old(self).queue()[k] == pid);
        }
    }

    /// Whether the record at `pid` may move to state `s`: only one record
    /// may be `Running` at a time, `Terminated` is absorbing, and pid 0 —
    /// the kernel's bootstrap context — is immortal.
    pub open spec fn set_state_allowed(self, pid: u64, s: ProcessState) -> bool {
        &&& (s == ProcessState::Running ==> self.current_pid is None || self.current_pid
            == Some(pid))
        &&& (self.state_of(pid) == ProcessState::Terminated ==> s == ProcessState::Terminated)
        &&& (pid == 0 ==> s != ProcessState::Terminated)
    }

    /// Move the record at `pid` to state `s`.
    ///
    /// Fails with `ProcessNotFound` when no record carries `pid`, and with
    /// `InvalidState` — changing nothing — when a different record is
    /// already `Running`, when the record has terminated, or when the
    /// target is `Terminated` for pid 0.  On success only that record's
    /// state changes; the pid leaves the ready queue unless the new state
    /// is `Ready`, and the cached running pid follows the transition.
    pub fn set_state(&mut self, pid: u64, new_state: ProcessState) -> (r: Result<
        (),
        ProcessError,
    >)
        requires
            old(self).wf(),
        ensures
            final(self).wf(),
            final(self).next_pid == old(self).next_pid,
            final(self).clock == old(self).clock,
            !old(self).contains_pid(pid) ==> r == Err::<(), ProcessError>(
                ProcessError::ProcessNotFound,
            ) && *final(self) == *old(self),
            old(self).contains_pid(pid) && !old(self).set_state_allowed(pid, new_state)
                ==> r == Err::<(), ProcessError>(ProcessError::InvalidState) && *final(self)
                == *old(self),
            old(self).contains_pid(pid) && old(self).set_state_allowed(pid, new_state) ==> {
                &&& r == Ok::<(), ProcessError>(())
                &&& final(self).table() == old(self).table().update(
                    old(self).idx_of(pid),
                    (ProcessBlock { state: new_state, ..old(self).record_of(pid) }),
                )
                &&& final(self).queue() == (if new_state == ProcessState::Ready {
                    old(self).queue()
                } else {
                    queue_remove(old(self).queue(), pid)
                })
                &&& final(self).current_pid == (if new_state == ProcessState::Running {
                    Some(pid)
                } else if old(self).current_pid == Some(pid) {
                    None::<u64>
                } else {
                    old(self).current_pid
                })
                &&& final(self).active_count == old(self).active_count - (
                if old(self).state_of(pid) != ProcessState::Terminated && new_state
                    == ProcessState::Terminated {
                    1int
                } else {
                    0int
                })
                &&& final(self).contains_pid(pid)
                &&& final(self).record_of(pid) == (ProcessBlock {
                    state: new_state,
                    ..old(self).record_of(pid)
                })
                &&& (forall|p: u64|
                    #[trigger] old(self).contains_pid(p) ==> final(self).contains_pid(p))
                &&& (forall|p: u64|
                    #[trigger] final(self).contains_pid(p) ==> old(self).contains_pid(p))
                &&& (forall|p: u64|
                    #[trigger] old(self).contains_pid(p) && p != pid ==> final(self).record_of(p)
                        == old(self).record_of(p))
            },
    {
        proof {
            lemma_sorted_distinct(*self);
        }
        let idx = match self.find_index(pid) {
            Some(i) => i,
            None => {
                return Err(ProcessError::ProcessNotFound);
            },
        };
        let cur_state = self.processes[idx].get_state();
        let pid_is_current = match self.current_pid {
            Some(c) => c == pid,
            None => false,
        };
        let other_running = match self.current_pid {
            Some(c) => c != pid,
            None => false,
        };
        if new_state == ProcessState::Running && other_running {
            return Err(ProcessError::InvalidState);
        }
        if cur_state == ProcessState::Terminated && new_state != ProcessState::Terminated {
            return Err(ProcessError::InvalidState);
        }
        if pid == 0 && new_state == ProcessState::Terminated {
            return Err(ProcessError::InvalidState);
        }
        let ghost pre = *self;
        let ghost updated = ProcessBlock { state: new_state, ..pre.record_of(pid) };
        proof {
            lemma_active_in_update(pre.table(), idx as int, updated);
        }
        self.set_state_at(idx, new_state);
        if !(new_state == ProcessState::Ready) {
            self.remove_from_queue(pid);
        }
        if new_state == ProcessState::Running {
            self.current_pid = Some(pid);
        } else if pid_is_current {
            self.current_pid = None;
        }
        if cur_state != ProcessState::Terminated && new_state == ProcessState::Terminated {
            self.active_count = self.active_count - 1;
        }
        proof {
            lemma_set_state_wf(pre, *self, pid, new_state);
        }
        Ok(())
    }
}

/// After a permitted state change, the queue entries still name Ready
/// records, once each.
#[verifier::rlimit(60)]
proof fn lemma_set_state_wf_queue(
    pre: ProcessManager,
    post: ProcessManager,
    pid: u64,
    s: ProcessState,
)
    requires
        pre.wf(),
        pre.contains_pid(pid),
        pre.set_state_allowed(pid, s),
        post.table() == pre.table().update(
            pre.idx_of(pid),
            (ProcessBlock { state: s, ..pre.record_of(pid) }),
        ),
        post.queue() == (if s == ProcessState::Ready {
            pre.queue()
        } else {
            queue_remove(pre.queue(), pid)
        }),
    ensures
        forall|k: int|
            0 <= k < post.queue().len() ==> post.contains_pid(#[trigger] post.queue()[k])
                && post.state_of(post.queue()[k]) == ProcessState::Ready,
        forall|k: int, l: int|
            0 <= k < l < post.queue().len() ==> post.queue()[k] != post.queue()[l],
{
    let t = pre.table();
    let u = post.table();
    let idx = pre.idx_of(pid);
    let b2 = ProcessBlock { state: s, ..pre.record_of(pid) };
    lemma_sorted_distinct(pre);
    assert(0 <= idx < t.len() && t[idx].pid == pid);
    assert forall|k: int| 0 <= k < post.queue().len() implies post.contains_pid(
        #[trigger] post.queue()[k],
    ) && post.state_of(post.queue()[k]) == ProcessState::Ready by {
        let q = pre.queue();
        let qp = post.queue();
        if s == ProcessState::Ready {
            let p = q[k];
            lemma_lookup_update(t, idx, b2, p);
            assert(pre.contains_pid(p) && pre.state_of(p) == ProcessState::Ready);
            if pre.idx_of(p) == idx {
                assert(post.record_of(p) == u[idx]);
            } else {
                assert(post.record_of(p) == t[pre.idx_of(p)]);
            }
        } else {
            if exists|j: int| 0 <= j < q.len() && q[j] == pid {
                let j0 = queue_first_index_of(q, pid);
                assert(0 <= j0 < q.len() && q[j0] == pid);
                assert(qp == q.remove(j0));
                let k_orig = if k < j0 {
                    k
                } else {
                    k + 1
                };
                assert(qp[k] == q[k_orig]);
                let p = qp[k];
                lemma_lookup_update(t, idx, b2, p);
                assert(pre.contains_pid(p) && pre.state_of(p) == ProcessState::Ready);
                assert(p != pid) by {
                    if k_orig < j0 {
                        assert(q[k_orig] != q[j0]);
                    } else if j0 < k_orig {
                        assert(q[j0] != q[k_orig]);
                    }
                }
                assert(pre.idx_of(p) != idx);
                assert(post.record_of(p) == t[pre.idx_of(p)]);
            } else {
                assert(qp == q);
                let p = q[k];
                lemma_lookup_update(t, idx, b2, p);
                assert(p != pid);
                assert(pre.idx_of(p) != idx);
                assert(post.record_of(p) == t[pre.idx_of(p)]);
            }
        }
    }
    assert forall|k: int, l: int| 0 <= k < l < post.queue().len() implies post.queue()[k]
        != post.queue()[l] by {
        let q = pre.queue();
        if s != ProcessState::Ready && exists|j: int| 0 <= j < q.len() && q[j] == pid {
            let j0 = queue_first_index_of(q, pid);
            let k_orig = if k < j0 {
                k
            } else {
                k + 1
            };
            let l_orig = if l < j0 {
                l
            } else {
                l + 1
            };
            assert(post.queue()[k] == q[k_orig] && post.queue()[l] == q[l_orig]);
            assert(q[k_orig] != q[l_orig]);
        }
    }
}

/// After a permitted state change, carried out as `set_state` carries it
/// out, the registry invariants hold again.
#[verifier::rlimit(60)]
proof fn lemma_set_state_wf(pre: ProcessManager, post: ProcessManager, pid: u64, s: ProcessState)
    requires
        pre.wf(),
        pre.contains_pid(pid),
        pre.set_state_allowed(pid, s),
        post.table() == pre.table().update(
            pre.idx_of(pid),
            (ProcessBlock { state: s, ..pre.record_of(pid) }),
        ),
        post.queue() == (if s == ProcessState::Ready {
            pre.queue()
        } else {
            queue_remove(pre.queue(), pid)
        }),
        post.current_pid == (if s == ProcessState::Running {
            Some(pid)
        } else if pre.current_pid == Some(pid) {
            None::<u64>
        } else {
            pre.current_pid
        }),
        post.next_pid == pre.next_pid,
        post.clock == pre.clock,
        post.active_count == pre.active_count - (
        if pre.state_of(pid) != ProcessState::Terminated && s == ProcessState::Terminated {
            1int
        } else {
            0int
        }),
    ensures
        post.wf(),
        post.contains_pid(pid),
        post.record_of(pid) == (ProcessBlock { state: s, ..pre.record_of(pid) }),
        forall|p: u64| #[trigger] pre.contains_pid(p) ==> post.contains_pid(p),
        forall|p: u64| #[trigger] post.contains_pid(p) ==> pre.contains_pid(p),
        forall|p: u64|
            #[trigger] pre.contains_pid(p) && p != pid ==> post.record_of(p) == pre.record_of(p),
{
    let t = pre.table();
    let u = post.table();
    let idx = pre.idx_of(pid);
    let b2 = ProcessBlock { state: s, ..pre.record_of(pid) };
    lemma_sorted_distinct(pre);
    assert(0 <= idx < t.len() && t[idx].pid == pid);
    lemma_lookup_update(t, idx, b2, pid);
    assert(post.record_of(pid) == b2);
    assert forall|p: u64| #[trigger] pre.contains_pid(p) implies post.contains_pid(p) by {
        lemma_lookup_update(t, idx, b2, p);
    }
    assert forall|p: u64| #[trigger] post.contains_pid(p) implies pre.contains_pid(p) by {
        lemma_lookup_update(t, idx, b2, p);
    }
    assert forall|p: u64|
        #[trigger] pre.contains_pid(p) && p != pid implies post.record_of(p) == pre.record_of(
        p,
    ) by {
        lemma_lookup_update(t, idx, b2, p);
        assert(pre.idx_of(p) != idx);
    }
    assert(0 <= idx < t.len() && t[idx].pid == pid);
    assert(forall|i: int| 0 <= i < u.len() ==> (#[trigger] u[i]).pid == t[i].pid);
    assert(forall|i: int| 0 <= i < u.len() && i != idx ==> #[trigger] u[i] == t[i]);
    lemma_active_in_update(t, idx, b2);
    // Queue entries still name Ready records, once each.
    lemma_set_state_wf_queue(pre, post, pid, s);
    // The cached running pid points at the one Running record.
    match post.current_pid {
        Some(c) => {
            lemma_lookup_update(t, idx, b2, c);
            assert(post.contains_pid(c));
            if c == pid {
                assert(s == ProcessState::Running);
                assert(post.record_of(c) == u[idx]);
            } else {
                assert(pre.current_pid == Some(c));
                assert(pre.idx_of(c) != idx);
                assert(post.record_of(c) == t[pre.idx_of(c)]);
            }
        },
        None => {},
    }
    assert forall|i: int|
        0 <= i < u.len() && (#[trigger] u[i]).state == ProcessState::Running implies post
        .current_pid == Some(u[i].pid) by {
        if i != idx {
            assert(u[i] == t[i]);
            assert(pre.current_pid == Some(t[i].pid));
            let c = t[i].pid;
            assert(c != pid) by {
                if c == pid {
                    lemma_pid_index_unique(pre, idx, i);
                }
            }
            if s == ProcessState::Running {
                assert(pre.current_pid is None || pre.current_pid == Some(pid));
                assert(false);
            } else if pre.current_pid == Some(pid) {
                assert(false);
            }
        }
    }
    // Pid 0 stays immortal; stack geometry is untouched.
    if post.contains_pid(0) {
        lemma_lookup_update(t, idx, b2, 0);
        assert(pre.contains_pid(0));
        if pre.idx_of(0) == idx {
            assert(pid == 0);
            assert(post.record_of(0) == u[idx]);
        } else {
            assert(post.record_of(0) == t[pre.idx_of(0)]);
            assert(pre.state_of(0) != ProcessState::Terminated);
        }
    }
    assert forall|i: int, j: int|
        0 <= i < u.len() && 0 <= j < u.len() && i != j && (#[trigger] u[i]).pid != 0 && (
        #[trigger] u[j]).pid != 0 implies stacks_disjoint(u[i], u[j]) by {
        assert(stacks_disjoint(t[i], t[j]));
        assert(u[i].kernel_stack == t[i].kernel_stack && u[i].user_stack == t[i].user_stack);
        assert(u[j].kernel_stack == t[j].kernel_stack && u[j].user_stack == t[j].user_stack);
    }
}

/// Removing the record at `idx` removes its pid from the table and leaves
/// every other lookup intact.
pub proof fn lemma_lookup_remove(t: Seq<ProcessBlock>, idx: int, p: u64)
    requires
        0 <= idx < t.len(),
        forall|i: int, j: int|
            0 <= i < j < t.len() ==> (#[trigger] t[i]).pid != (#[trigger] t[j]).pid,
    ensures
        !seq_contains_pid(t.remove(idx), t[idx].pid),
        p != t[idx].pid ==> (seq_contains_pid(t.remove(idx), p) <==> seq_contains_pid(t, p)),
        p != t[idx].pid && seq_contains_pid(t, p) ==> t.remove(idx)[seq_idx_of(
            t.remove(idx),
            p,
        )] == t[seq_idx_of(t, p)],
{
    let u = t.remove(idx);
    assert(forall|i: int| 0 <= i < idx ==> u[i] == t[i]);
    assert(forall|i: int| idx <= i < u.len() ==> u[i] == t[i + 1]);
    if seq_contains_pid(u, t[idx].pid) {
        let k = seq_idx_of(u, t[idx].pid);
        assert(0 <= k < u.len() && u[k].pid == t[idx].pid);
        if k < idx {
            assert(t[k].pid != t[idx].pid);
        } else {
            assert(t[idx].pid != t[k + 1].pid);
        }
    }
    if p != t[idx].pid && seq_contains_pid(t, p) {
        let i = seq_idx_of(t, p);
        assert(0 <= i < t.len() && t[i].pid == p);
        assert(i != idx);
        if i < idx {
            assert(u[i].pid == p);
        } else {
            assert(u[i - 1].pid == p);
        }
        assert(seq_contains_pid(u, p));
        let k = seq_idx_of(u, p);
        assert(0 <= k < u.len() && u[k].pid == p);
        let k_orig = if k < idx {
            k
        } else {
            k + 1
        };
        assert(t[k_orig].pid == p);
        if k_orig < i {
            assert(t[k_orig].pid != t[i].pid);
        } else if i < k_orig {
            assert(t[i].pid != t[k_orig].pid);
        }
        assert(u[k] == t[i]);
    }
    if p != t[idx].pid && seq_contains_pid(u, p) {
        let k = seq_idx_of(u, p);
        let k_orig = if k < idx {
            k
        } else {
            k + 1
        };
        assert(t[k_orig].pid == p);
        assert(seq_contains_pid(t, p));
    }
}

impl ProcessManager {
    /// Terminate and fully erase the record at `pid`: the slot is removed,
    /// the pid leaves the ready queue and the current-running cache, and
    /// the active count drops.  The pid is never reassigned (the pid
    /// counter never rewinds), and the process's stack and address-space
    /// memory is intentionally not reclaimed — a documented limitation.
    ///
    /// Killing pid 0 — the kernel's own bootstrap context — is forbidden
    /// and silently a no-op, whatever the table holds.  Killing an unknown
    /// pid fails with `ProcessNotFound`.
    pub fn kill(&mut self, pid: u64) -> (r: Result<(), ProcessError>)
        requires
            old(self).wf(),
        ensures
            final(self).wf(),
            final(self).next_pid == old(self).next_pid,
            final(self).clock == old(self).clock,
            pid == 0 ==> r == Ok::<(), ProcessError>(()) && *final(self) == *old(self),
            pid != 0 && !old(self).contains_pid(pid) ==> r == Err::<(), ProcessError>(
                ProcessError::ProcessNotFound,
            ) && *final(self) == *old(self),
            pid != 0 && old(self).contains_pid(pid) ==> {
                &&& r == Ok::<(), ProcessError>(())
                &&& final(self).table() == old(self).table().remove(old(self).idx_of(pid))
                &&& !final(self).contains_pid(pid)
                &&& final(self).queue() == queue_remove(old(self).queue(), pid)
                &&& final(self).current_pid == (if old(self).current_pid == Some(pid) {
                    None::<u64>
                } else {
                    old(self).current_pid
                })
                &&& final(self).active_count == old(self).active_count - (
                if old(self).state_of(pid) != ProcessState::Terminated {
                    1int
                } else {
                    0int
                })
                &&& (forall|p: u64|
                    #[trigger] old(self).contains_pid(p) && p != pid ==> final(self).contains_pid(
                        p,
                    ) && final(self).record_of(p) == old(self).record_of(p))
                &&& (forall|p: u64|
                    #[trigger] final(self).contains_pid(p) ==> old(self).contains_pid(p) && p
                        != pid)
            },
    {
        if pid == 0 {
            return Ok(());
        }
        proof {
            lemma_sorted_distinct(*self);
        }
        let idx = match self.find_index(pid) {
            Some(i) => i,
            None => {
                return Err(ProcessError::ProcessNotFound);
            },
        };
        let ghost pre = *self;
        proof {
            lemma_active_in_remove(pre.table(), idx as int);
        }
        let removed = self.processes.remove(idx);
        if !(removed.get_state() == ProcessState::Terminated) {
            self.active_count = self.active_count - 1;
        }
        self.remove_from_queue(pid);
        let clear_current = match self.current_pid {
            Some(c) => c == pid,
            None => false,
        };
        if clear_current {
            self.current_pid = None;
        }
        proof {
            lemma_kill_wf(pre, *self, pid);
        }
        Ok(())
    }
}

/// After a full erasure, the surviving queue entries still name Ready
/// records, once each.
#[verifier::rlimit(60)]
proof fn lemma_kill_wf_queue(pre: ProcessManager, post: ProcessManager, pid: u64)
    requires
        pre.wf(),
        pre.contains_pid(pid),
        pid != 0,
        post.table() == pre.table().remove(pre.idx_of(pid)),
        post.queue() == queue_remove(pre.queue(), pid),
    ensures
        forall|k: int|
            0 <= k < post.queue().len() ==> post.contains_pid(#[trigger] post.queue()[k])
                && post.state_of(post.queue()[k]) == ProcessState::Ready,
        forall|k: int, l: int|
            0 <= k < l < post.queue().len() ==> post.queue()[k] != post.queue()[l],
{
    let t = pre.table();
    let idx = pre.idx_of(pid);
    lemma_sorted_distinct(pre);
    assert(0 <= idx < t.len() && t[idx].pid == pid);
    assert forall|k: int| 0 <= k < post.queue().len() implies post.contains_pid(
        #[trigger] post.queue()[k],
    ) && post.state_of(post.queue()[k]) == ProcessState::Ready by {
        let q = pre.queue();
        let qp = post.queue();
        if exists|j: int| 0 <= j < q.len() && q[j] == pid {
            let j0 = queue_first_index_of(q, pid);
            assert(0 <= j0 < q.len() && q[j0] == pid);
            let k_orig = if k < j0 {
                k
            } else {
                k + 1
            };
            assert(qp[k] == q[k_orig]);
            let p = qp[k];
            assert(pre.contains_pid(p) && pre.state_of(p) == ProcessState::Ready);
            assert(p != pid) by {
                if k_orig < j0 {
                    assert(q[k_orig] != q[j0]);
                } else if j0 < k_orig {
                    assert(q[j0] != q[k_orig]);
                }
            }
            lemma_lookup_remove(t, idx, p);
            assert(post.record_of(p) == t[pre.idx_of(p)]);
        } else {
            assert(qp == q);
            let p = q[k];
            assert(pre.contains_pid(p) && pre.state_of(p) == ProcessState::Ready);
            assert(p != pid);
            lemma_lookup_remove(t, idx, p);
            assert(post.record_of(p) == t[pre.idx_of(p)]);
        }
    }
    assert forall|k: int, l: int| 0 <= k < l < post.queue().len() implies post.queue()[k]
        != post.queue()[l] by {
        let q = pre.queue();
        if exists|j: int| 0 <= j < q.len() && q[j] == pid {
            let j0 = queue_first_index_of(q, pid);
            let k_orig = if k < j0 {
                k
            } else {
                k + 1
            };
            let l_orig = if l < j0 {
                l
            } else {
                l + 1
            };
            assert(post.queue()[k] == q[k_orig] && post.queue()[l] == q[l_orig]);
            assert(q[k_orig] != q[l_orig]);
        }
    }
}

/// After a full erasure, carried out as `kill` carries it out, the registry
/// invariants hold again.
#[verifier::rlimit(60)]
proof fn lemma_kill_wf(pre: ProcessManager, post: ProcessManager, pid: u64)
    requires
        pre.wf(),
        pre.contains_pid(pid),
        pid != 0,
        post.table() == pre.table().remove(pre.idx_of(pid)),
        post.queue() == queue_remove(pre.queue(), pid),
        post.current_pid == (if pre.current_pid == Some(pid) {
            None::<u64>
        } else {
            pre.current_pid
        }),
        post.next_pid == pre.next_pid,
        post.clock == pre.clock,
        post.active_count == pre.active_count - (
        if pre.state_of(pid) != ProcessState::Terminated {
            1int
        } else {
            0int
        }),
    ensures
        post.wf(),
        !post.contains_pid(pid),
        forall|p: u64|
            #[trigger] pre.contains_pid(p) && p != pid ==> post.contains_pid(p)
                && post.record_of(p) == pre.record_of(p),
        forall|p: u64| #[trigger] post.contains_pid(p) ==> pre.contains_pid(p) && p != pid,
{
    let t = pre.table();
    let u = post.table();
    let idx = pre.idx_of(pid);
    lemma_sorted_distinct(pre);
    assert forall|p: u64|
        #[trigger] pre.contains_pid(p) && p != pid implies post.contains_pid(p)
            && post.record_of(p) == pre.record_of(p) by {
        lemma_lookup_remove(t, idx, p);
    }
    assert forall|p: u64| #[trigger] post.contains_pid(p) implies pre.contains_pid(p) && p
        != pid by {
        lemma_lookup_remove(t, idx, p);
        if p == pid {
            assert(!seq_contains_pid(t.remove(idx), t[idx].pid));
        }
    }
    assert(0 <= idx < t.len() && t[idx].pid == pid);
    assert(forall|i: int| 0 <= i < idx ==> u[i] == t[i]);
    assert(forall|i: int| idx <= i < u.len() ==> u[i] == t[i + 1]);
    lemma_active_in_remove(t, idx);
    lemma_lookup_remove(t, idx, pid);
    // Strict pid order survives dropping one slot.
    assert forall|i: int, j: int| 0 <= i < j < u.len() implies (#[trigger] u[i]).pid < (
    #[trigger] u[j]).pid by {
        let i_orig = if i < idx {
            i
        } else {
            i + 1
        };
        let j_orig = if j < idx {
            j
        } else {
            j + 1
        };
        assert(t[i_orig].pid < t[j_orig].pid);
    }
    // Queue entries still name Ready records, once each.
    lemma_kill_wf_queue(pre, post, pid);
    // The cached running pid still points at the one Running record.
    match post.current_pid {
        Some(c) => {
            assert(c != pid);
            assert(pre.contains_pid(c) && pre.state_of(c) == ProcessState::Running);
            lemma_lookup_remove(t, idx, c);
            assert(post.record_of(c) == t[pre.idx_of(c)]);
        },
        None => {},
    }
    assert forall|i: int|
        0 <= i < u.len() && (#[trigger] u[i]).state == ProcessState::Running implies post
        .current_pid == Some(u[i].pid) by {
        let i_orig = if i < idx {
            i
        } else {
            i + 1
        };
        assert(u[i] == t[i_orig]);
        assert(pre.current_pid == Some(t[i_orig].pid));
        assert(t[i_orig].pid != pid) by {
            if i_orig < idx {
                assert(t[i_orig].pid != t[idx].pid);
            } else {
                assert(t[idx].pid != t[i_orig].pid);
            }
        }
    }
    // Pid 0, if present, is untouched by removing another pid.
    if post.contains_pid(0) {
        lemma_lookup_remove(t, idx, 0);
        assert(pre.contains_pid(0));
        assert(post.record_of(0) == t[pre.idx_of(0)]);
    }
    // Stack geometry only loses one participant.
    assert forall|i: int, j: int|
        0 <= i < u.len() && 0 <= j < u.len() && i != j && (#[trigger] u[i]).pid != 0 && (
        #[trigger] u[j]).pid != 0 implies stacks_disjoint(u[i], u[j]) by {
        let i_orig = if i < idx {
            i
        } else {
            i + 1
        };
        let j_orig = if j < idx {
            j
        } else {
            j + 1
        };
        assert(u[i] == t[i_orig] && u[j] == t[j_orig]);
        assert(stacks_disjoint(t[i_orig], t[j_orig]));
    }
}

/// Whether one more process can be built from these allocators: room for a
/// kernel and a user stack in the arena, and enough frames for an address
/// space.
pub open spec fn alloc_ok(fa: BootInfoFrameAllocator, sa: StackAllocator) -> bool {
    &&& sa.next as int + KERNEL_STACK_SIZE as int + USER_STACK_SIZE as int <= sa.end as int
    &&& fa.can_take(FRAMES_PER_ADDRESS_SPACE as nat)
}

/// The record a successful creation installs: `Ready`, freshly stacked,
/// with a zeroed register snapshot pointing at the entry point and the top
/// of its kernel stack, under a fully built private address space.
pub open spec fn is_created_record(
    b: ProcessBlock,
    pid: u64,
    parent_pid: Option<u64>,
    priority: u8,
    entry_point: u64,
    sa0: StackAllocator,
    kernel_table: Seq<u64>,
    map: Seq<MemoryRegion>,
    time: u64,
) -> bool {
    &&& b.pid == pid
    &&& b.state == ProcessState::Ready
    &&& b.priority == priority
    &&& b.parent_pid == parent_pid
    &&& b.kernel_stack as int == sa0.next as int + KERNEL_STACK_SIZE as int
    &&& b.user_stack as int == sa0.next as int + KERNEL_STACK_SIZE as int
        + USER_STACK_SIZE as int
    &&& b.cpu_state.is_initial_for(entry_point, b.kernel_stack)
    &&& b.saved_stack_pointer == 0
    &&& b.creation_time == time
    &&& address_space_ok(b.address_space, kernel_table, map)
}

/// Appending a record with a fresh pid keeps every other lookup intact and
/// makes the new pid found at the last slot.
pub proof fn lemma_lookup_push(t: Seq<ProcessBlock>, b: ProcessBlock, p: u64)
    requires
        forall|i: int, j: int|
            0 <= i < j < t.len() ==> (#[trigger] t[i]).pid != (#[trigger] t[j]).pid,
        forall|i: int| 0 <= i < t.len() ==> (#[trigger] t[i]).pid != b.pid,
    ensures
        seq_contains_pid(t.push(b), p) <==> (seq_contains_pid(t, p) || p == b.pid),
        seq_contains_pid(t, p) && p != b.pid ==> t.push(b)[seq_idx_of(t.push(b), p)]
            == t[seq_idx_of(t, p)],
        seq_idx_of(t.push(b), b.pid) == t.len(),
        t.push(b)[seq_idx_of(t.push(b), b.pid)] == b,
{
    let u = t.push(b);
    assert(forall|i: int| 0 <= i < t.len() ==> u[i] == t[i]);
    assert(u[t.len() as int] == b);
    assert(seq_contains_pid(u, b.pid));
    let kb = seq_idx_of(u, b.pid);
    assert(0 <= kb < u.len() && u[kb].pid == b.pid);
    if kb < t.len() {
        assert(t[kb].pid == b.pid);
    }
    if seq_contains_pid(t, p) && p != b.pid {
        let i = seq_idx_of(t, p);
        assert(0 <= i < t.len() && t[i].pid == p);
        assert(u[i].pid == p);
        assert(seq_contains_pid(u, p));
        let k = seq_idx_of(u, p);
        assert(0 <= k < u.len() && u[k].pid == p);
        assert(k < t.len());
        if k < i {
            assert(t[k].pid != t[i].pid);
        } else if i < k {
            assert(t[i].pid != t[k].pid);
        }
    }
    if seq_contains_pid(u, p) && p != b.pid {
        let k = seq_idx_of(u, p);
        assert(k < t.len());
        assert(seq_contains_pid(t, p));
    }
}

impl ProcessManager {
    /// Create a process: validate the parent, check capacity, reserve its
    /// two stacks, build its private address space, and install the record
    /// — `Ready` and queued — under the next pid.
    ///
    /// Creation is all-or-nothing for the registry: a nonexistent or
    /// terminated parent fails with `InvalidPid`, a full table with
    /// `ProcessTableFull`, and frame or arena exhaustion with `OutOfMemory`,
    /// each leaving the registry unchanged.  Stack blocks and frames drawn
    /// before a failure are not returned (allocation never rewinds); no
    /// half-built process ever becomes visible.
    pub fn create_process(
        &mut self,
        parent_pid: Option<u64>,
        priority: u8,
        entry_point: u64,
        fa: &mut BootInfoFrameAllocator,
        sa: &mut StackAllocator,
        kernel_table: &Vec<u64>,
    ) -> (r: Result<u64, ProcessError>)
        requires
            old(self).wf(),
            old(fa).wf(),
            old(fa).initialized,
            old(sa).wf(),
            kernel_table@.len() == PAGE_TABLE_ENTRIES,
            old(self).next_pid < u64::MAX,
            old(self).stacks_below(*old(sa)),
        ensures
            final(self).wf(),
            final(fa).wf(),
            final(fa).initialized,
            final(fa).memory_map@ == old(fa).memory_map@,
            forall|g: u64| old(fa).owns(g) ==> final(fa).owns(g),
            final(sa).wf(),
            final(sa).start == old(sa).start,
            final(sa).end == old(sa).end,
            final(sa).next >= old(sa).next,
            final(self).stacks_below(*final(sa)),
            !old(self).parent_ok(parent_pid) ==> r == Err::<u64, ProcessError>(
                ProcessError::InvalidPid,
            ) && *final(self) == *old(self) && *final(fa) == *old(fa) && *final(sa) == *old(sa),
            old(self).parent_ok(parent_pid) && !old(self).has_capacity() ==> r == Err::<
                u64,
                ProcessError,
            >(ProcessError::ProcessTableFull) && *final(self) == *old(self) && *final(fa)
                == *old(fa) && *final(sa) == *old(sa),
            old(self).parent_ok(parent_pid) && old(self).has_capacity() && !alloc_ok(
                *old(fa),
                *old(sa),
            ) ==> r == Err::<u64, ProcessError>(ProcessError::OutOfMemory) && *final(self)
                == *old(self),
            old(self).parent_ok(parent_pid) && old(self).has_capacity() && alloc_ok(
                *old(fa),
                *old(sa),
            ) ==> {
                &&& r == Ok::<u64, ProcessError>(old(self).next_pid)
                &&& final(self).next_pid == old(self).next_pid + 1
                &&& final(self).clock == old(self).clock + 1
                &&& final(self).active_count == old(self).active_count + 1
                &&& final(self).current_pid == old(self).current_pid
                &&& final(self).table().len() == old(self).table().len() + 1
                &&& final(self).table() == old(self).table().push(final(self).table().last())
                &&& is_created_record(
                    final(self).table().last(),
                    old(self).next_pid,
                    parent_pid,
                    priority,
                    entry_point,
                    *old(sa),
                    kernel_table@,
                    old(fa).memory_map@,
                    old(self).clock,
                )
                &&& final(self).contains_pid(old(self).next_pid)
                &&& final(self).record_of(old(self).next_pid) == final(self).table().last()
                &&& final(self).queue() == old(self).queue().push(old(self).next_pid)
                &&& *final(fa) == old(fa).take_n(FRAMES_PER_ADDRESS_SPACE as nat)
                &&& final(sa).next as int == old(sa).next as int + KERNEL_STACK_SIZE as int
                    + USER_STACK_SIZE as int
                &&& (forall|p: u64|
                    #[trigger] old(self).contains_pid(p) ==> final(self).contains_pid(p)
                        && final(self).record_of(p) == old(self).record_of(p))
                &&& (forall|p: u64|
                    #[trigger] final(self).contains_pid(p) ==> old(self).contains_pid(p) || p
                        == old(self).next_pid)
            },
    {
        let parent_valid = match parent_pid {
            None => true,
            Some(p) => {
                proof {
                    lemma_sorted_distinct(*self);
                }
                match self.find_index(p) {
                    Some(i) => !(self.processes[i].get_state() == ProcessState::Terminated),
                    None => false,
                }
            },
        };
        if !parent_valid {
            return Err(ProcessError::InvalidPid);
        }
        if !(self.active_count < MAX_PROCESSES) {
            return Err(ProcessError::ProcessTableFull);
        }
        let kernel_stack = match sa.allocate_kernel_stack() {
            Some(top) => top,
            None => {
                return Err(ProcessError::OutOfMemory);
            },
        };
        let user_stack = match sa.allocate_user_stack() {
            Some(top) => top,
            None => {
                return Err(ProcessError::OutOfMemory);
            },
        };
        let aspace = match create_address_space(fa, kernel_table) {
            Ok(a) => a,
            Err(_) => {
                return Err(ProcessError::OutOfMemory);
            },
        };
        let pid = self.next_pid;
        let record = ProcessBlock {
            pid,
            state: ProcessState::Ready,
            priority,
            parent_pid,
            cpu_state: CpuState::initial(entry_point, kernel_stack),
            address_space: aspace,
            kernel_stack,
            user_stack,
            saved_stack_pointer: 0,
            creation_time: self.clock,
        };
        let ghost pre = *self;
        proof {
            lemma_active_in_push(pre.table(), record);
        }
        self.processes.push(record);
        self.ready_queue.push(pid);
        self.next_pid = self.next_pid + 1;
        self.clock = self.clock + 1;
        self.active_count = self.active_count + 1;
        proof {
            lemma_create_wf(pre, *self, *old(sa));
        }
        Ok(pid)
    }
}

/// After an installation, carried out as `create_process` carries it out,
/// the registry invariants hold again and the new stacks are disjoint from
/// every existing stack.
#[verifier::rlimit(60)]
proof fn lemma_create_wf(pre: ProcessManager, post: ProcessManager, sa0: StackAllocator)
    requires
        pre.wf(),
        pre.next_pid < u64::MAX,
        pre.stacks_below(sa0),
        post.table().len() == pre.table().len() + 1,
        post.table() == pre.table().push(post.table().last()),
        ({
            let b = post.table().last();
            &&& b.pid == pre.next_pid
            &&& b.state == ProcessState::Ready
            &&& b.kernel_stack as int == sa0.next as int + KERNEL_STACK_SIZE as int
            &&& b.user_stack as int == sa0.next as int + KERNEL_STACK_SIZE as int
                + USER_STACK_SIZE as int
        }),
        post.queue() == pre.queue().push(pre.next_pid),
        post.current_pid == pre.current_pid,
        post.next_pid == pre.next_pid + 1,
        post.clock == pre.clock + 1,
        post.active_count == pre.active_count + 1,
        pre.active_count < MAX_PROCESSES,
    ensures
        post.wf(),
        post.contains_pid(pre.next_pid),
        post.record_of(pre.next_pid) == post.table().last(),
        forall|p: u64|
            #[trigger] pre.contains_pid(p) ==> post.contains_pid(p) && post.record_of(p)
                == pre.record_of(p),
        forall|p: u64|
            #[trigger] post.contains_pid(p) ==> pre.contains_pid(p) || p == pre.next_pid,
{
    let t = pre.table();
    let u = post.table();
    let b = u.last();
    let pid = pre.next_pid;
    lemma_sorted_distinct(pre);
    assert(forall|i: int| 0 <= i < t.len() ==> u[i] == t[i]);
    assert(forall|i: int| 0 <= i < t.len() ==> (#[trigger] t[i]).pid != b.pid);
    lemma_lookup_push(t, b, pid);
    lemma_active_in_push(t, b);
    assert forall|p: u64|
        #[trigger] pre.contains_pid(p) implies post.contains_pid(p) && post.record_of(p)
            == pre.record_of(p) by {
        lemma_lookup_push(t, b, p);
        assert(p != pid);
    }
    assert forall|p: u64| #[trigger] post.contains_pid(p) implies pre.contains_pid(p) || p
        == pre.next_pid by {
        lemma_lookup_push(t, b, p);
    }
    // Queue entries still name Ready records, once each; the new pid was
    // never queued before.
    assert forall|k: int| 0 <= k < post.queue().len() implies post.contains_pid(
        #[trigger] post.queue()[k],
    ) && post.state_of(post.queue()[k]) == ProcessState::Ready by {
        if k < pre.queue().len() {
            let p = pre.queue()[k];
            assert(pre.contains_pid(p) && pre.state_of(p) == ProcessState::Ready);
            assert(p != pid);
            lemma_lookup_push(t, b, p);
            assert(post.record_of(p) == t[pre.idx_of(p)]);
        } else {
            assert(post.queue()[k] == pid);
            assert(post.record_of(pid) == b);
        }
    }
    assert forall|k: int, l: int| 0 <= k < l < post.queue().len() implies post.queue()[k]
        != post.queue()[l] by {
        if l == pre.queue().len() as int {
            let p = pre.queue()[k];
            assert(pre.contains_pid(p));
            assert(p < pre.next_pid);
        }
    }
    // The cached running pid is untouched; the new record is Ready.
    match post.current_pid {
        Some(c) => {
            assert(pre.contains_pid(c) && pre.state_of(c) == ProcessState::Running);
            assert(c != pid);
            lemma_lookup_push(t, b, c);
            assert(post.record_of(c) == t[pre.idx_of(c)]);
        },
        None => {},
    }
    assert forall|i: int|
        0 <= i < u.len() && (#[trigger] u[i]).state == ProcessState::Running implies post
        .current_pid == Some(u[i].pid) by {
        if i < t.len() {
            assert(u[i] == t[i]);
        }
    }
    // Pid 0, if present, is untouched.
    if post.contains_pid(0) {
        lemma_lookup_push(t, b, 0);
        assert(pre.contains_pid(0));
        assert(post.record_of(0) == t[pre.idx_of(0)]);
    }
    // The fresh stacks sit above every existing stack range.
    assert forall|i: int, j: int|
        0 <= i < u.len() && 0 <= j < u.len() && i != j && (#[trigger] u[i]).pid != 0 && (
        #[trigger] u[j]).pid != 0 implies stacks_disjoint(u[i], u[j]) by {
        if i < t.len() && j < t.len() {
            assert(stacks_disjoint(t[i], t[j]));
        } else if i < t.len() {
            assert(u[j] == b);
            assert(t[i].kernel_stack <= sa0.next && t[i].user_stack <= sa0.next);
        } else {
            assert(u[i] == b);
            assert(t[j].kernel_stack <= sa0.next && t[j].user_stack <= sa0.next);
        }
    }
}

impl ProcessManager {
    /// The pid of the record that is currently `Running`, if any.
    pub fn current_running(&self) -> (r: Option<u64>)
        ensures
            r == self.current_pid,
    {
        self.current_pid
    }

    /// How many records have not terminated.
    pub fn active_process_count(&self) -> (r: usize)
        ensures
            r == self.active_count,
    {
        self.active_count
    }

    /// How many processes were ever created, from the monotonic pid
    /// counter; unlike the active count it never decreases.
    pub fn total_created(&self) -> (r: u64)
        requires
            self.wf(),
        ensures
            r as int == self.next_pid - 1,
    {
        self.next_pid - 1
    }

    /// The pids of all live (not terminated) records, in ascending order.
    #[verifier::loop_isolation(false)]
    pub fn live_pids(&self) -> (r: Vec<u64>)
        requires
            self.wf(),
        ensures
            forall|k: int| 0 <= k < r@.len() ==> self.is_live(#[trigger] r@[k]),
            forall|p: u64| #[trigger] self.is_live(p) ==> r@.contains(p),
            forall|k: int, l: int| 0 <= k < l < r@.len() ==> r@[k] < r@[l],
    {
        proof {
            lemma_sorted_distinct(*self);
        }
        let n = self.processes.len();
        let mut out: Vec<u64> = Vec::new();
        let mut i: usize = 0;
        while i < n
            invariant
                i <= n,
                forall|k: int| 0 <= k < out@.len() ==> self.is_live(#[trigger] out@[k]),
                forall|j: int|
                    0 <= j < i as int && (#[trigger] self.table()[j]).state
                        != ProcessState::Terminated ==> out@.contains(self.table()[j].pid),
                forall|k: int|
                    0 <= k < out@.len() ==> exists|j: int|
                        0 <= j < i as int && (#[trigger] self.table()[j]).pid == #[trigger] out@[k],
                forall|k: int, l: int| 0 <= k < l < out@.len() ==> out@[k] < out@[l],
            decreases n - i,
        {
            let ghost i0 = i as int;
            let ghost out0 = out@;
            let live = !(self.processes[i].get_state() == ProcessState::Terminated);
            if live {
                let p = self.processes[i].get_pid();
                proof {
                    let k = self.idx_of(p);
                    assert(0 <= k < n && self.table()[k].pid == p);
                    lemma_pid_index_unique(*self, k, i as int);
                    assert(self.is_live(p));
                }
                out.push(p);
            }
            i = i + 1;
            proof {
                assert forall|j: int|
                    0 <= j < i as int && (#[trigger] self.table()[j]).state
                        != ProcessState::Terminated implies out@.contains(
                    self.table()[j].pid,
                ) by {
                    let x = self.table()[j].pid;
                    if j < i0 {
                        assert(out0.contains(x));
                        let k = choose|k: int| 0 <= k < out0.len() && out0[k] == x;
                        assert(out@[k] == x);
                    } else {
                        assert(out@[out@.len() - 1] == x);
                    }
                }
            }
        }
        proof {
            assert forall|p: u64| #[trigger] self.is_live(p) implies out@.contains(p) by {
                let j = self.idx_of(p);
                assert(0 <= j < n && self.table()[j].pid == p);
                assert(self.table()[j].state != ProcessState::Terminated);
            }
        }
        out
    }

    /// The pids of all records in the given state, in ascending order.
    #[verifier::loop_isolation(false)]
    pub fn pids_in_state(&self, state: ProcessState) -> (r: Vec<u64>)
        requires
            self.wf(),
        ensures
            forall|k: int|
                0 <= k < r@.len() ==> self.contains_pid(#[trigger] r@[k]) && self.state_of(
                    r@[k],
                ) == state,
            forall|p: u64|
                #[trigger] self.contains_pid(p) && self.state_of(p) == state ==> r@.contains(p),
            forall|k: int, l: int| 0 <= k < l < r@.len() ==> r@[k] < r@[l],
    {
        proof {
            lemma_sorted_distinct(*self);
        }
        let n = self.processes.len();
        let mut out: Vec<u64> = Vec::new();
        let mut i: usize = 0;
        while i < n
            invariant
                i <= n,
                forall|k: int|
                    0 <= k < out@.len() ==> self.contains_pid(#[trigger] out@[k])
                        && self.state_of(out@[k]) == state,
                forall|j: int|
                    0 <= j < i as int && (#[trigger] self.table()[j]).state == state
                        ==> out@.contains(self.table()[j].pid),
                forall|k: int|
                    0 <= k < out@.len() ==> exists|j: int|
                        0 <= j < i as int && (#[trigger] self.table()[j]).pid == #[trigger] out@[k],
                forall|k: int, l: int| 0 <= k < l < out@.len() ==> out@[k] < out@[l],
            decreases n - i,
        {
            let ghost i0 = i as int;
            let ghost out0 = out@;
            let matches_state = self.processes[i].get_state() == state;
            if matches_state {
                let p = self.processes[i].get_pid();
                proof {
                    let k = self.idx_of(p);
                    assert(0 <= k < n && self.table()[k].pid == p);
                    lemma_pid_index_unique(*self, k, i as int);
                }
                out.push(p);
            }
            i = i + 1;
            proof {
                assert forall|j: int|
                    0 <= j < i as int && (#[trigger] self.table()[j]).state == state
                    implies out@.contains(self.table()[j].pid) by {
                    let x = self.table()[j].pid;
                    if j < i0 {
                        assert(out0.contains(x));
                        let k = choose|k: int| 0 <= k < out0.len() && out0[k] == x;
                        assert(out@[k] == x);
                    } else {
                        assert(out@[out@.len() - 1] == x);
                    }
                }
            }
        }
        proof {
            assert forall|p: u64|
                #[trigger] self.contains_pid(p) && self.state_of(p) == state implies out@
                .contains(p) by {
                let j = self.idx_of(p);
                assert(0 <= j < n && self.table()[j].pid == p);
                assert(self.table()[j].state == state);
            }
        }
        out
    }

    /// The pids of the direct children of `pid` — the records whose parent
    /// field names it — in ascending order, by linear scan.
    #[verifier::loop_isolation(false)]
    pub fn children_of(&self, pid: u64) -> (r: Vec<u64>)
        requires
            self.wf(),
        ensures
            forall|k: int|
                0 <= k < r@.len() ==> self.contains_pid(#[trigger] r@[k]) && self.record_of(
                    r@[k],
                ).parent_pid == Some(pid),
            forall|p: u64|
                #[trigger] self.contains_pid(p) && self.record_of(p).parent_pid == Some(pid)
                    ==> r@.contains(p),
            forall|k: int, l: int| 0 <= k < l < r@.len() ==> r@[k] < r@[l],
    {
        proof {
            lemma_sorted_distinct(*self);
        }
        let n = self.processes.len();
        let mut out: Vec<u64> = Vec::new();
        let mut i: usize = 0;
        while i < n
            invariant
                i <= n,
                forall|k: int|
                    0 <= k < out@.len() ==> self.contains_pid(#[trigger] out@[k])
                        && self.record_of(out@[k]).parent_pid == Some(pid),
                forall|j: int|
                    0 <= j < i as int && (#[trigger] self.table()[j]).parent_pid == Some(pid)
                        ==> out@.contains(self.table()[j].pid),
                forall|k: int|
                    0 <= k < out@.len() ==> exists|j: int|
                        0 <= j < i as int && (#[trigger] self.table()[j]).pid == #[trigger] out@[k],
                forall|k: int, l: int| 0 <= k < l < out@.len() ==> out@[k] < out@[l],
            decreases n - i,
        {
            let ghost i0 = i as int;
            let ghost out0 = out@;
            let is_child = match self.processes[i].parent_pid {
                Some(q) => q == pid,
                None => false,
            };
            if is_child {
                let p = self.processes[i].get_pid();
                proof {
                    let k = self.idx_of(p);
                    assert(0 <= k < n && self.table()[k].pid == p);
                    lemma_pid_index_unique(*self, k, i as int);
                }
                out.push(p);
            }
            i = i + 1;
            proof {
                assert forall|j: int|
                    0 <= j < i as int && (#[trigger] self.table()[j]).parent_pid == Some(pid)
                    implies out@.contains(self.table()[j].pid) by {
                    let x = self.table()[j].pid;
                    if j < i0 {
                        assert(out0.contains(x));
                        let k = choose|k: int| 0 <= k < out0.len() && out0[k] == x;
                        assert(out@[k] == x);
                    } else {
                        assert(out@[out@.len() - 1] == x);
                    }
                }
            }
        }
        proof {
            assert forall|p: u64|
                #[trigger] self.contains_pid(p) && self.record_of(p).parent_pid == Some(pid)
                implies out@.contains(p) by {
                let j = self.idx_of(p);
                assert(0 <= j < n && self.table()[j].pid == p);
                assert(self.table()[j].parent_pid == Some(pid));
            }
        }
        out
    }
}

/// Replacing one record by one with the same pid, state and stack ranges
/// (only its saved execution context differs) preserves every registry
/// invariant.
pub proof fn lemma_update_record_wf(
    pre: ProcessManager,
    post: ProcessManager,
    idx: int,
    b: ProcessBlock,
)
    requires
        pre.wf(),
        0 <= idx < pre.table().len(),
        b.pid == pre.table()[idx].pid,
        b.state == pre.table()[idx].state,
        b.kernel_stack == pre.table()[idx].kernel_stack,
        b.user_stack == pre.table()[idx].user_stack,
        post.table() == pre.table().update(idx, b),
        post.queue() == pre.queue(),
        post.current_pid == pre.current_pid,
        post.next_pid == pre.next_pid,
        post.clock == pre.clock,
        post.active_count == pre.active_count,
    ensures
        post.wf(),
{
    let t = pre.table();
    let u = post.table();
    lemma_sorted_distinct(pre);
    assert(forall|i: int| 0 <= i < u.len() ==> (#[trigger] u[i]).pid == t[i].pid);
    assert(forall|i: int| 0 <= i < u.len() && i != idx ==> #[trigger] u[i] == t[i]);
    lemma_active_in_update(t, idx, b);
    assert forall|k: int| 0 <= k < post.queue().len() implies post.contains_pid(
        #[trigger] post.queue()[k],
    ) && post.state_of(post.queue()[k]) == ProcessState::Ready by {
        let p = pre.queue()[k];
        lemma_lookup_update(t, idx, b, p);
        if pre.idx_of(p) == idx {
            assert(post.record_of(p) == b);
        } else {
            assert(post.record_of(p) == t[pre.idx_of(p)]);
        }
    }
    match post.current_pid {
        Some(c) => {
            lemma_lookup_update(t, idx, b, c);
            if pre.idx_of(c) == idx {
                assert(post.record_of(c) == b);
            } else {
                assert(post.record_of(c) == t[pre.idx_of(c)]);
            }
        },
        None => {},
    }
    assert forall|i: int|
        0 <= i < u.len() && (#[trigger] u[i]).state == ProcessState::Running implies post
        .current_pid == Some(u[i].pid) by {
        assert(u[i].state == t[i].state && u[i].pid == t[i].pid);
    }
    if post.contains_pid(0) {
        lemma_lookup_update(t, idx, b, 0);
        if pre.idx_of(0) == idx {
            assert(post.record_of(0) == b);
            assert(b.state == pre.record_of(0).state);
        } else {
            assert(post.record_of(0) == t[pre.idx_of(0)]);
        }
    }
    assert forall|i: int, j: int|
        0 <= i < u.len() && 0 <= j < u.len() && i != j && (#[trigger] u[i]).pid != 0 && (
        #[trigger] u[j]).pid != 0 implies stacks_disjoint(u[i], u[j]) by {
        assert(stacks_disjoint(t[i], t[j]));
        assert(u[i].kernel_stack == t[i].kernel_stack && u[i].user_stack == t[i].user_stack);
        assert(u[j].kernel_stack == t[j].kernel_stack && u[j].user_stack == t[j].user_stack);
    }
}

/// The shape of the bootstrap record that `init_kernel_process` installs.
pub open spec fn is_kernel_record(b: ProcessBlock, boot_page_table_root: u64) -> bool {
    &&& b.pid == 0
    &&& b.state == ProcessState::Running
    &&& b.priority == 1
    &&& b.parent_pid is None
    &&& b.cpu_state.is_initial_for(0, 0)
    &&& b.address_space.page_table_root == boot_page_table_root
    &&& b.address_space.top_entries@.len() == 0
    &&& b.address_space.mappings@.len() == 0
    &&& b.kernel_stack == 0
    &&& b.user_stack == 0
    &&& b.saved_stack_pointer == 0
    &&& b.creation_time == 0
}

} // verus!

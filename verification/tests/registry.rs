//! Registry behavior: pid issuance, lookup, lifecycle rules, erasure and
//! the counting queries.

use game_os::errors::ProcessError;
use game_os::memory::{BootInfoFrameAllocator, MemoryRegion, StackAllocator};
use game_os::process::{ProcessManager, ProcessState, MAX_PROCESSES};

fn registry_fixture() -> (ProcessManager, BootInfoFrameAllocator, StackAllocator, Vec<u64>) {
    let mut fa = BootInfoFrameAllocator::new();
    fa.init(vec![MemoryRegion { start: 0x10_0000, end: 0x2_0000_0000, usable: true }]);
    let sa = StackAllocator::new(0x4444_0000_0000, 0x4444_4000_0000);
    let mut kernel_table = vec![0u64; 512];
    for i in 256..512 {
        kernel_table[i] = 0xFFFF_8000_0000_0000 + i as u64;
    }
    (ProcessManager::new(), fa, sa, kernel_table)
}

#[test]
fn pids_strictly_increase_and_never_repeat() {
    let (mut pm, mut fa, mut sa, kt) = registry_fixture();
    let p1 = pm.create_process(None, 1, 0x20_0000, &mut fa, &mut sa, &kt).unwrap();
    let p2 = pm.create_process(None, 1, 0x20_1000, &mut fa, &mut sa, &kt).unwrap();
    let p3 = pm.create_process(None, 1, 0x20_2000, &mut fa, &mut sa, &kt).unwrap();
    assert_eq!((p1, p2, p3), (1, 2, 3));
    assert!(p1 < p2 && p2 < p3);
    // Killing a process never frees its pid for reuse.
    pm.kill(p2).unwrap();
    let p4 = pm.create_process(None, 1, 0x20_3000, &mut fa, &mut sa, &kt).unwrap();
    assert_eq!(p4, 4);
    assert!(p4 > p3);
}

#[test]
fn kill_erases_record_and_restores_active_count() {
    let (mut pm, mut fa, mut sa, kt) = registry_fixture();
    pm.init_kernel_process(0xB000);
    let active_before = pm.active_process_count();
    let total_before = pm.total_created();
    let pid = pm.create_process(None, 1, 0x20_0000, &mut fa, &mut sa, &kt).unwrap();
    assert_eq!(pm.active_process_count(), active_before + 1);
    pm.kill(pid).unwrap();
    assert_eq!(pm.get(pid).err(), Some(ProcessError::ProcessNotFound));
    assert_eq!(pm.active_process_count(), active_before);
    // Total-ever-created never decreases.
    assert!(pm.total_created() >= total_before);
    assert_eq!(pm.total_created(), total_before + 1);
}

#[test]
fn second_running_process_is_rejected() {
    let (mut pm, mut fa, mut sa, kt) = registry_fixture();
    let a = pm.create_process(None, 1, 0x20_0000, &mut fa, &mut sa, &kt).unwrap();
    let b = pm.create_process(None, 1, 0x20_1000, &mut fa, &mut sa, &kt).unwrap();
    pm.set_state(a, ProcessState::Running).unwrap();
    let r = pm.set_state(b, ProcessState::Running);
    assert_eq!(r, Err(ProcessError::InvalidState));
    // The currently-running query still reports the first process.
    assert_eq!(pm.current_running(), Some(a));
    assert_eq!(pm.get(b).unwrap().get_state(), ProcessState::Ready);
}

#[test]
fn kill_of_pid_zero_is_a_no_op() {
    let (mut pm, mut fa, mut sa, kt) = registry_fixture();
    pm.init_kernel_process(0xB000);
    let pid = pm.create_process(None, 1, 0x20_0000, &mut fa, &mut sa, &kt).unwrap();
    assert_eq!(pm.kill(0), Ok(()));
    let zero = pm.get(0).unwrap();
    assert_eq!(zero.get_state(), ProcessState::Running);
    assert!(zero.get_state() != ProcessState::Terminated);
    // Still a no-op with more table contents and another process running.
    pm.set_state(0, ProcessState::Ready).unwrap();
    pm.set_state(pid, ProcessState::Running).unwrap();
    assert_eq!(pm.kill(0), Ok(()));
    assert!(pm.get(0).unwrap().get_state() != ProcessState::Terminated);
    // And pid 0 cannot even be transitioned to Terminated.
    assert_eq!(pm.set_state(0, ProcessState::Terminated), Err(ProcessError::InvalidState));
}

#[test]
fn nonexistent_parent_is_rejected_and_counts_hold() {
    let (mut pm, mut fa, mut sa, kt) = registry_fixture();
    pm.init_kernel_process(0xB000);
    let active_before = pm.active_process_count();
    let total_before = pm.total_created();
    let r = pm.create_process(Some(999), 1, 0x20_0000, &mut fa, &mut sa, &kt);
    assert_eq!(r, Err(ProcessError::InvalidPid));
    assert_eq!(pm.active_process_count(), active_before);
    assert_eq!(pm.total_created(), total_before);
}

#[test]
fn terminated_parent_is_rejected() {
    let (mut pm, mut fa, mut sa, kt) = registry_fixture();
    let a = pm.create_process(None, 1, 0x20_0000, &mut fa, &mut sa, &kt).unwrap();
    pm.set_state(a, ProcessState::Terminated).unwrap();
    let r = pm.create_process(Some(a), 1, 0x20_1000, &mut fa, &mut sa, &kt);
    assert_eq!(r, Err(ProcessError::InvalidPid));
}

#[test]
fn parent_and_children_are_linked() {
    let (mut pm, mut fa, mut sa, kt) = registry_fixture();
    let a = pm.create_process(None, 1, 0x20_0000, &mut fa, &mut sa, &kt).unwrap();
    let b = pm.create_process(Some(a), 2, 0x20_1000, &mut fa, &mut sa, &kt).unwrap();
    let c = pm.create_process(Some(a), 3, 0x20_2000, &mut fa, &mut sa, &kt).unwrap();
    let d = pm.create_process(Some(b), 1, 0x20_3000, &mut fa, &mut sa, &kt).unwrap();
    assert_eq!(pm.get(b).unwrap().parent_pid, Some(a));
    assert_eq!(pm.get(a).unwrap().parent_pid, None);
    assert_eq!(pm.children_of(a), vec![b, c]);
    assert_eq!(pm.children_of(b), vec![d]);
    assert_eq!(pm.children_of(d), Vec::<u64>::new());
    assert_eq!(pm.get(c).unwrap().priority, 3);
}

#[test]
fn lifecycle_rules_hold() {
    let (mut pm, mut fa, mut sa, kt) = registry_fixture();
    let a = pm.create_process(None, 1, 0x20_0000, &mut fa, &mut sa, &kt).unwrap();
    // Unknown pids are reported as such.
    assert_eq!(pm.get(77).err(), Some(ProcessError::ProcessNotFound));
    assert_eq!(pm.set_state(77, ProcessState::Ready), Err(ProcessError::ProcessNotFound));
    assert_eq!(pm.kill(77), Err(ProcessError::ProcessNotFound));
    // Waiting exists as a state, and a waiting process can be woken.
    pm.set_state(a, ProcessState::Waiting).unwrap();
    assert_eq!(pm.get(a).unwrap().get_state(), ProcessState::Waiting);
    pm.set_state(a, ProcessState::Ready).unwrap();
    // Terminated is absorbing.
    pm.set_state(a, ProcessState::Terminated).unwrap();
    assert_eq!(pm.set_state(a, ProcessState::Ready), Err(ProcessError::InvalidState));
    assert_eq!(pm.get(a).unwrap().get_state(), ProcessState::Terminated);
}

#[test]
fn creation_beyond_capacity_is_rejected() {
    let (mut pm, mut fa, mut sa, kt) = registry_fixture();
    for i in 0..MAX_PROCESSES {
        let r = pm.create_process(None, 1, 0x20_0000 + i as u64, &mut fa, &mut sa, &kt);
        assert!(r.is_ok());
    }
    assert_eq!(pm.active_process_count(), MAX_PROCESSES);
    let r = pm.create_process(None, 1, 0x30_0000, &mut fa, &mut sa, &kt);
    assert_eq!(r, Err(ProcessError::ProcessTableFull));
    // Killing one frees a slot for one more.
    pm.kill(1).unwrap();
    assert!(pm.create_process(None, 1, 0x30_0000, &mut fa, &mut sa, &kt).is_ok());
}

#[test]
fn frame_exhaustion_fails_creation_and_leaves_registry_unchanged() {
    let mut fa = BootInfoFrameAllocator::new();
    // Room for ten frames only: far less than one address space needs.
    fa.init(vec![MemoryRegion { start: 0x10_0000, end: 0x10_0000 + 10 * 4096, usable: true }]);
    let mut sa = StackAllocator::new(0x4444_0000_0000, 0x4444_4000_0000);
    let kt = vec![0u64; 512];
    let mut pm = ProcessManager::new();
    let r = pm.create_process(None, 1, 0x20_0000, &mut fa, &mut sa, &kt);
    assert_eq!(r, Err(ProcessError::OutOfMemory));
    assert_eq!(pm.total_created(), 0);
    assert_eq!(pm.active_process_count(), 0);
    assert_eq!(pm.current_running(), None);
}

#[test]
fn stack_arena_exhaustion_fails_creation() {
    let mut fa = BootInfoFrameAllocator::new();
    fa.init(vec![MemoryRegion { start: 0x10_0000, end: 0x2_0000_0000, usable: true }]);
    // Room for one kernel stack but not the user stack after it.
    let mut sa = StackAllocator::new(0x1000, 0x1000 + 8192 + 100);
    let kt = vec![0u64; 512];
    let mut pm = ProcessManager::new();
    let r = pm.create_process(None, 1, 0x20_0000, &mut fa, &mut sa, &kt);
    assert_eq!(r, Err(ProcessError::OutOfMemory));
    assert_eq!(pm.total_created(), 0);
}

#[test]
fn state_listing_queries_report_membership() {
    let (mut pm, mut fa, mut sa, kt) = registry_fixture();
    pm.init_kernel_process(0xB000);
    let a = pm.create_process(None, 1, 0x20_0000, &mut fa, &mut sa, &kt).unwrap();
    let b = pm.create_process(None, 1, 0x20_1000, &mut fa, &mut sa, &kt).unwrap();
    let c = pm.create_process(None, 1, 0x20_2000, &mut fa, &mut sa, &kt).unwrap();
    assert_eq!(pm.live_pids(), vec![0, a, b, c]);
    assert_eq!(pm.pids_in_state(ProcessState::Ready), vec![a, b, c]);
    assert_eq!(pm.pids_in_state(ProcessState::Running), vec![0]);
    pm.set_state(b, ProcessState::Waiting).unwrap();
    assert_eq!(pm.pids_in_state(ProcessState::Waiting), vec![b]);
    pm.kill(c).unwrap();
    assert_eq!(pm.live_pids(), vec![0, a, b]);
    assert_eq!(pm.get(a).unwrap().get_pid(), a);
}

#[test]
fn creation_time_is_monotonic() {
    let (mut pm, mut fa, mut sa, kt) = registry_fixture();
    let a = pm.create_process(None, 1, 0x20_0000, &mut fa, &mut sa, &kt).unwrap();
    let b = pm.create_process(None, 1, 0x20_1000, &mut fa, &mut sa, &kt).unwrap();
    let ta = pm.get(a).unwrap().creation_time;
    let tb = pm.get(b).unwrap().creation_time;
    assert!(ta < tb);
}

//! Scheduler behavior: strict FIFO round robin, wrap-around, survivors
//! after a kill, and the low-granularity entry point.

use game_os::memory::{BootInfoFrameAllocator, MemoryRegion, StackAllocator};
use game_os::process::{ProcessManager, ProcessState};
use game_os::scheduler::primitive_scheduler;

fn scheduling_fixture() -> (ProcessManager, BootInfoFrameAllocator, StackAllocator, Vec<u64>) {
    let mut fa = BootInfoFrameAllocator::new();
    fa.init(vec![MemoryRegion { start: 0x10_0000, end: 0x2_0000_0000, usable: true }]);
    let sa = StackAllocator::new(0x4444_0000_0000, 0x4444_4000_0000);
    let kernel_table = vec![0u64; 512];
    (ProcessManager::new(), fa, sa, kernel_table)
}

#[test]
fn round_robin_cycles_in_creation_order() {
    let (mut pm, mut fa, mut sa, kt) = scheduling_fixture();
    let a = pm.create_process(None, 1, 0x20_0000, &mut fa, &mut sa, &kt).unwrap();
    let b = pm.create_process(None, 1, 0x20_1000, &mut fa, &mut sa, &kt).unwrap();
    let c = pm.create_process(None, 1, 0x20_2000, &mut fa, &mut sa, &kt).unwrap();
    let expected = [a, b, c, a, b, c, a, b, c];
    for n in 0..9 {
        let picked = pm.schedule();
        assert_eq!(picked, Some(expected[n]));
        assert_eq!(pm.current_running(), Some(expected[n]));
        assert_eq!(pm.get(expected[n]).unwrap().get_state(), ProcessState::Running);
    }
}

#[test]
fn killing_the_running_process_picks_the_earliest_ready_survivor() {
    let (mut pm, mut fa, mut sa, kt) = scheduling_fixture();
    let a = pm.create_process(None, 1, 0x20_0000, &mut fa, &mut sa, &kt).unwrap();
    let b = pm.create_process(None, 1, 0x20_1000, &mut fa, &mut sa, &kt).unwrap();
    let c = pm.create_process(None, 1, 0x20_2000, &mut fa, &mut sa, &kt).unwrap();
    assert_eq!(pm.schedule(), Some(a));
    pm.kill(a).unwrap();
    assert_eq!(pm.current_running(), None);
    // The earliest-created still-ready survivor wins.
    assert_eq!(pm.schedule(), Some(b));
    assert_eq!(pm.get(c).unwrap().get_state(), ProcessState::Ready);
}

#[test]
fn three_processes_one_schedule_then_kill() {
    let (mut pm, mut fa, mut sa, kt) = scheduling_fixture();
    let pids: Vec<u64> = (0..3)
        .map(|i| pm.create_process(None, 1, 0x20_0000 + i * 0x1000, &mut fa, &mut sa, &kt).unwrap())
        .collect();
    assert_eq!(pids, vec![1, 2, 3]);
    assert_eq!(pm.schedule(), Some(1));
    assert_eq!(pm.current_running(), Some(1));
    assert_eq!(pm.get(1).unwrap().get_state(), ProcessState::Running);
    pm.kill(1).unwrap();
    let picked = pm.schedule().unwrap();
    assert!(picked == 2 || picked == 3);
    assert_eq!(pm.current_running(), Some(picked));
    let other = if picked == 2 { 3 } else { 2 };
    assert_eq!(pm.get(other).unwrap().get_state(), ProcessState::Ready);
}

#[test]
fn schedule_keeps_the_runner_when_nothing_else_is_ready() {
    let (mut pm, mut fa, mut sa, kt) = scheduling_fixture();
    let a = pm.create_process(None, 1, 0x20_0000, &mut fa, &mut sa, &kt).unwrap();
    assert_eq!(pm.schedule(), Some(a));
    // Redundant self-switch: the same pid comes back, still running.
    assert_eq!(pm.schedule(), Some(a));
    assert_eq!(pm.current_running(), Some(a));
    assert_eq!(pm.get(a).unwrap().get_state(), ProcessState::Running);
}

#[test]
fn schedule_with_empty_registry_returns_none() {
    let (mut pm, _fa, _sa, _kt) = scheduling_fixture();
    assert_eq!(pm.schedule(), None);
    assert_eq!(pm.current_running(), None);
}

#[test]
fn waiting_processes_are_not_scheduled() {
    let (mut pm, mut fa, mut sa, kt) = scheduling_fixture();
    let a = pm.create_process(None, 1, 0x20_0000, &mut fa, &mut sa, &kt).unwrap();
    let b = pm.create_process(None, 1, 0x20_1000, &mut fa, &mut sa, &kt).unwrap();
    pm.set_state(a, ProcessState::Waiting).unwrap();
    assert_eq!(pm.schedule(), Some(b));
    assert_eq!(pm.get(a).unwrap().get_state(), ProcessState::Waiting);
}

#[test]
fn primitive_scheduler_dispatches_fifo() {
    let (mut pm, mut fa, mut sa, kt) = scheduling_fixture();
    assert_eq!(primitive_scheduler(&mut pm), None);
    let a = pm.create_process(None, 1, 0x20_0000, &mut fa, &mut sa, &kt).unwrap();
    let b = pm.create_process(None, 1, 0x20_1000, &mut fa, &mut sa, &kt).unwrap();
    assert_eq!(primitive_scheduler(&mut pm), Some(a));
    assert_eq!(pm.current_running(), Some(a));
    assert_eq!(primitive_scheduler(&mut pm), Some(b));
    assert_eq!(pm.get(a).unwrap().get_state(), ProcessState::Ready);
    assert_eq!(pm.get(b).unwrap().get_state(), ProcessState::Running);
}

#[test]
fn primitive_scheduler_reports_no_dispatch_when_alone() {
    let (mut pm, mut fa, mut sa, kt) = scheduling_fixture();
    let a = pm.create_process(None, 1, 0x20_0000, &mut fa, &mut sa, &kt).unwrap();
    assert_eq!(primitive_scheduler(&mut pm), Some(a));
    // Nothing else is ready: no dispatch, the runner keeps the CPU.
    assert_eq!(primitive_scheduler(&mut pm), None);
    assert_eq!(pm.current_running(), Some(a));
    assert_eq!(pm.get(a).unwrap().get_state(), ProcessState::Running);
}

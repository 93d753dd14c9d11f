//! The context-switch engine's decisions: register snapshots, the timer
//! quantum, the interrupt path and the cooperative stack-swap path.

use game_os::cpu::{CpuState, INITIAL_RFLAGS, KERNEL_CODE_SEGMENT, KERNEL_DATA_SEGMENT};
use game_os::memory::{BootInfoFrameAllocator, MemoryRegion, StackAllocator, KERNEL_STACK_SIZE,
    USER_STACK_SIZE};
use game_os::process::{ProcessManager, ProcessState};
use game_os::switch::{cooperative_switch, do_switch, setup_initial_stack, timer_tick,
    TimerState, SCHEDULING_QUANTUM};

fn switching_fixture() -> (ProcessManager, BootInfoFrameAllocator, StackAllocator, Vec<u64>) {
    let mut fa = BootInfoFrameAllocator::new();
    fa.init(vec![MemoryRegion { start: 0x10_0000, end: 0x2_0000_0000, usable: true }]);
    let sa = StackAllocator::new(0x4444_0000_0000, 0x4444_4000_0000);
    let kernel_table = vec![0u64; 512];
    (ProcessManager::new(), fa, sa, kernel_table)
}

#[test]
fn cpu_state_constructors_fill_every_register() {
    let s = CpuState::new(
        1, 2, 3, 4, 5, 6, 7, 8, 9, 10, 11, 12, 13, 14, 15, 16, 17, 18, 19, 20,
    );
    assert_eq!(s.rax, 1);
    assert_eq!(s.rsp, 8);
    assert_eq!(s.r15, 16);
    assert_eq!(s.rip, 17);
    assert_eq!(s.rflags, 18);
    assert_eq!(s.cs, 19);
    assert_eq!(s.ss, 20);
    let d = CpuState::default();
    assert_eq!(d.rax, 0);
    assert_eq!(d.rip, 0);
    assert_eq!(d.rflags, INITIAL_RFLAGS);
    assert_eq!(d.cs, KERNEL_CODE_SEGMENT);
    assert_eq!(d.ss, KERNEL_DATA_SEGMENT);
}

#[test]
fn created_process_starts_at_its_entry_point() {
    let (mut pm, mut fa, mut sa, kt) = switching_fixture();
    let a = pm.create_process(None, 1, 0xCAFE_0000, &mut fa, &mut sa, &kt).unwrap();
    let rec = pm.get(a).unwrap();
    assert_eq!(rec.cpu_state.rip, 0xCAFE_0000);
    assert_eq!(rec.cpu_state.rsp, rec.kernel_stack);
    assert_eq!(rec.cpu_state.rflags, INITIAL_RFLAGS);
    assert_eq!(rec.cpu_state.rax, 0);
    assert!(rec.kernel_stack > 0 && rec.user_stack > 0);
}

#[test]
fn two_processes_get_disjoint_nonzero_stacks() {
    let (mut pm, mut fa, mut sa, kt) = switching_fixture();
    let a = pm.create_process(None, 1, 0x20_0000, &mut fa, &mut sa, &kt).unwrap();
    let b = pm.create_process(None, 1, 0x20_1000, &mut fa, &mut sa, &kt).unwrap();
    let (ka, ua) = {
        let ra = pm.get(a).unwrap();
        (ra.kernel_stack, ra.user_stack)
    };
    let (kb, ub) = {
        let rb = pm.get(b).unwrap();
        (rb.kernel_stack, rb.user_stack)
    };
    assert!(ka > 0 && ua > 0 && kb > 0 && ub > 0);
    let ranges = [
        (ka - KERNEL_STACK_SIZE, ka),
        (ua - USER_STACK_SIZE, ua),
        (kb - KERNEL_STACK_SIZE, kb),
        (ub - USER_STACK_SIZE, ub),
    ];
    for i in 0..4 {
        for j in 0..i {
            let (lo1, hi1) = ranges[i];
            let (lo2, hi2) = ranges[j];
            assert!(hi1 <= lo2 || hi2 <= lo1);
        }
    }
}

#[test]
fn interrupt_switch_saves_and_restores_whole_contexts() {
    let (mut pm, mut fa, mut sa, kt) = switching_fixture();
    let a = pm.create_process(None, 1, 0xAAAA_0000, &mut fa, &mut sa, &kt).unwrap();
    let b = pm.create_process(None, 1, 0xBBBB_0000, &mut fa, &mut sa, &kt).unwrap();
    assert_eq!(pm.schedule(), Some(a));
    let outgoing = CpuState::new(
        41, 42, 43, 44, 45, 46, 47, 48, 49, 50, 51, 52, 53, 54, 55, 56,
        0xAAAA_0100, 0x202, 0x08, 0x10,
    );
    let incoming = do_switch(&mut pm, &outgoing).unwrap();
    // The incoming context is the fresh snapshot of the second process.
    assert_eq!(incoming.rip, 0xBBBB_0000);
    assert_eq!(pm.current_running(), Some(b));
    // The outgoing context is durably stored in the demoted record.
    let ra = pm.get(a).unwrap();
    assert_eq!(ra.get_state(), ProcessState::Ready);
    assert_eq!(ra.cpu_state.rax, 41);
    assert_eq!(ra.cpu_state.rip, 0xAAAA_0100);
    // Switching back restores it exactly.
    let back = do_switch(&mut pm, &incoming).unwrap();
    assert_eq!(back.rax, 41);
    assert_eq!(back.rip, 0xAAAA_0100);
    assert_eq!(pm.current_running(), Some(a));
}

#[test]
fn redundant_self_switch_is_skipped() {
    let (mut pm, mut fa, mut sa, kt) = switching_fixture();
    let a = pm.create_process(None, 1, 0xAAAA_0000, &mut fa, &mut sa, &kt).unwrap();
    assert_eq!(pm.schedule(), Some(a));
    let outgoing = CpuState::new(
        1, 2, 3, 4, 5, 6, 7, 8, 9, 10, 11, 12, 13, 14, 15, 16, 17, 18, 19, 20,
    );
    // Nothing else is runnable: no save, no restore, resume unchanged.
    assert!(do_switch(&mut pm, &outgoing).is_none());
    assert_eq!(pm.current_running(), Some(a));
    let ra = pm.get(a).unwrap();
    assert_eq!(ra.get_state(), ProcessState::Running);
    assert_eq!(ra.cpu_state.rip, 0xAAAA_0000);
    assert_eq!(ra.cpu_state.rax, 0);
}

#[test]
fn timer_reschedules_only_on_quantum_boundaries() {
    let (mut pm, mut fa, mut sa, kt) = switching_fixture();
    let a = pm.create_process(None, 1, 0xAAAA_0000, &mut fa, &mut sa, &kt).unwrap();
    let b = pm.create_process(None, 1, 0xBBBB_0000, &mut fa, &mut sa, &kt).unwrap();
    assert_eq!(pm.schedule(), Some(a));
    let mut timer = TimerState::new();
    let outgoing = CpuState::default();
    for _ in 0..SCHEDULING_QUANTUM - 1 {
        // Intermediate ticks acknowledge and return immediately.
        assert!(timer_tick(&mut pm, &mut timer, &outgoing).is_none());
        assert_eq!(pm.current_running(), Some(a));
    }
    let switched = timer_tick(&mut pm, &mut timer, &outgoing).unwrap();
    assert_eq!(switched.rip, 0xBBBB_0000);
    assert_eq!(pm.current_running(), Some(b));
}

#[test]
fn cooperative_switch_swaps_saved_stack_pointers() {
    let (mut pm, mut fa, mut sa, kt) = switching_fixture();
    let a = pm.create_process(None, 1, 0xAAAA_0000, &mut fa, &mut sa, &kt).unwrap();
    let b = pm.create_process(None, 1, 0xBBBB_0000, &mut fa, &mut sa, &kt).unwrap();
    // Prime the second process's stack as a first resume target.
    let kb = pm.get(b).unwrap().kernel_stack;
    let (words, sp_b) = setup_initial_stack(kb, 0xBBBB_0000);
    assert_eq!(words[0], 0xBBBB_0000);
    assert_eq!(pm.schedule(), Some(a));
    // First process yields with its capture; nothing was stored for the
    // second yet, so its stored pointer (zero) comes back.
    let r = cooperative_switch(&mut pm, 0xDEAD_0000).unwrap();
    assert_eq!(r, 0);
    assert_eq!(pm.current_running(), Some(b));
    assert_eq!(pm.get(a).unwrap().saved_stack_pointer, 0xDEAD_0000);
    // The second yields in turn with the primed pointer: the first one's
    // capture comes back.
    let r2 = cooperative_switch(&mut pm, sp_b).unwrap();
    assert_eq!(r2, 0xDEAD_0000);
    assert_eq!(pm.get(b).unwrap().saved_stack_pointer, sp_b);
    assert_eq!(pm.current_running(), Some(a));
}

#[test]
fn cooperative_switch_without_other_work_resumes_the_caller() {
    let (mut pm, mut fa, mut sa, kt) = switching_fixture();
    let a = pm.create_process(None, 1, 0xAAAA_0000, &mut fa, &mut sa, &kt).unwrap();
    assert_eq!(pm.schedule(), Some(a));
    assert!(cooperative_switch(&mut pm, 0x1234).is_none());
    // Nothing was saved: the capture is discarded on the skip path.
    assert_eq!(pm.get(a).unwrap().saved_stack_pointer, 0);
    assert_eq!(pm.current_running(), Some(a));
}

#[test]
fn initial_stack_words_have_the_documented_shape() {
    let top: u64 = 0x9000;
    let (words, sp) = setup_initial_stack(top, 0x20_0000);
    assert_eq!(words.len(), 16);
    assert_eq!(sp, top - 128);
    assert_eq!(words[0], 0x20_0000);
    assert_eq!(words[7], top - 16);
    for k in 1..16 {
        if k != 7 {
            assert_eq!(words[k], 0);
        }
    }
}

//! Frame allocation, stack reservation and address-space construction.

use game_os::address_space::{create_address_space, create_process_page_table, CODE_FLAGS,
    DATA_FLAGS, HEAP_FLAGS, STACK_FLAGS, TOTAL_REGION_PAGES};
use game_os::errors::MemoryError;
use game_os::memory::{BootInfoFrameAllocator, MemoryRegion, StackAllocator, KERNEL_STACK_SIZE,
    USER_STACK_SIZE};

#[test]
fn frames_come_from_usable_regions_in_order() {
    let mut fa = BootInfoFrameAllocator::new();
    fa.init(vec![
        MemoryRegion { start: 0x1000, end: 0x3000, usable: true },
        MemoryRegion { start: 0x5000, end: 0x6000, usable: false },
        MemoryRegion { start: 0x7500, end: 0xA000, usable: true },
    ]);
    assert_eq!(fa.allocate_frame(), Ok(0x1000));
    assert_eq!(fa.allocate_frame(), Ok(0x2000));
    // The unusable region is skipped; the next start is aligned up.
    assert_eq!(fa.allocate_frame(), Ok(0x8000));
    assert_eq!(fa.allocate_frame(), Ok(0x9000));
    assert_eq!(fa.allocate_frame(), Err(MemoryError::OutOfMemory));
    assert_eq!(fa.allocate_frame(), Err(MemoryError::OutOfMemory));
}

#[test]
fn allocation_before_init_fails_deterministically() {
    let mut fa = BootInfoFrameAllocator::new();
    assert_eq!(fa.allocate_frame(), Err(MemoryError::NotInitialized));
    assert_eq!(fa.allocate_frame(), Err(MemoryError::NotInitialized));
}

#[test]
fn frames_never_repeat() {
    let mut fa = BootInfoFrameAllocator::new();
    fa.init(vec![
        MemoryRegion { start: 0x1000, end: 0x9000, usable: true },
        MemoryRegion { start: 0x20000, end: 0x28000, usable: true },
    ]);
    let mut seen = Vec::new();
    while let Ok(f) = fa.allocate_frame() {
        assert_eq!(f % 4096, 0);
        assert!(!seen.contains(&f));
        seen.push(f);
    }
    assert_eq!(seen.len(), 8 + 8);
}

#[test]
fn stack_blocks_are_adjacent_and_grow_upward() {
    let mut sa = StackAllocator::new(0x1000, 0x10_0000);
    let k = sa.allocate_kernel_stack().unwrap();
    assert_eq!(k, 0x1000 + KERNEL_STACK_SIZE);
    let u = sa.allocate_user_stack().unwrap();
    assert_eq!(u, k + USER_STACK_SIZE);
    let k2 = sa.allocate_kernel_stack().unwrap();
    assert_eq!(k2, u + KERNEL_STACK_SIZE);
    assert!(k > 0 && u > 0);
}

#[test]
fn stack_arena_reports_exhaustion() {
    let mut sa = StackAllocator::new(0, 10_000);
    assert_eq!(sa.allocate_kernel_stack(), Some(KERNEL_STACK_SIZE));
    // 10,000 - 8,192 bytes left: no room for a 16 KiB user stack.
    assert_eq!(sa.allocate_user_stack(), None);
    assert_eq!(sa.allocate_kernel_stack(), None);
}

#[test]
fn process_page_table_mirrors_the_kernel_half() {
    let mut fa = BootInfoFrameAllocator::new();
    fa.init(vec![MemoryRegion { start: 0x1000, end: 0x100000, usable: true }]);
    let mut kt = vec![0u64; 512];
    for i in 256..512 {
        kt[i] = 0xFFFF_8000_0000_0000 + i as u64;
    }
    let table = create_process_page_table(&mut fa, &kt).unwrap();
    assert_eq!(table.frame, 0x1000);
    assert_eq!(table.entries.len(), 512);
    for i in 0..256 {
        assert_eq!(table.entries[i], 0);
    }
    for i in 256..512 {
        assert_eq!(table.entries[i], kt[i]);
    }
}

#[test]
fn address_space_lays_out_the_four_regions() {
    let mut fa = BootInfoFrameAllocator::new();
    fa.init(vec![MemoryRegion { start: 0x10_0000, end: 0x2000_0000, usable: true }]);
    let kt = vec![0u64; 512];
    let a = create_address_space(&mut fa, &kt).unwrap();
    assert_eq!(a.mappings.len() as u64, TOTAL_REGION_PAGES);
    // Code, data, heap and stack pages in order, page by page.
    assert_eq!(a.mappings[0].virt, 0x20_0000);
    assert_eq!(a.mappings[0].flags, CODE_FLAGS);
    assert_eq!(a.mappings[1].virt, 0x20_1000);
    assert_eq!(a.mappings[15].virt, 0x20_F000);
    assert_eq!(a.mappings[16].virt, 0x30_0000);
    assert_eq!(a.mappings[16].flags, DATA_FLAGS);
    assert_eq!(a.mappings[32].virt, 0x40_0000);
    assert_eq!(a.mappings[32].flags, HEAP_FLAGS);
    assert_eq!(a.mappings[64].virt, 0x7FFF_FFF0_0000);
    assert_eq!(a.mappings[64].flags, STACK_FLAGS);
    assert_eq!(a.mappings[67].virt, 0x7FFF_FFF0_3000);
    assert_eq!(a.code.base, 0x20_0000);
    assert_eq!(a.code.size, 16 * 4096);
    assert_eq!(a.stack.base, 0x7FFF_FFF0_0000);
    // No frame is used twice, and none reuses the table's own frame.
    for i in 0..a.mappings.len() {
        assert_ne!(a.mappings[i].frame, a.page_table_root);
        for j in 0..i {
            assert_ne!(a.mappings[i].frame, a.mappings[j].frame);
        }
    }
    // The kernel half of the top-level table is a copy.
    assert_eq!(a.top_entries.len(), 512);
}

#[test]
fn malformed_kernel_table_is_rejected() {
    let mut fa = BootInfoFrameAllocator::new();
    fa.init(vec![MemoryRegion { start: 0x1000, end: 0x100000, usable: true }]);
    let short_table = vec![0u64; 100];
    assert_eq!(
        create_process_page_table(&mut fa, &short_table).err(),
        Some(MemoryError::InvalidMemoryLayout)
    );
    let r = create_address_space(&mut fa, &short_table);
    assert!(matches!(r, Err(MemoryError::InvalidMemoryLayout)));
    // Nothing was drawn from the allocator by the rejected calls.
    assert_eq!(fa.allocate_frame(), Ok(0x1000));
}

#[test]
fn address_space_construction_reports_exhaustion() {
    let mut fa = BootInfoFrameAllocator::new();
    // Only 30 frames: enough for the table, code and data, but not heap.
    fa.init(vec![MemoryRegion { start: 0x1000, end: 0x1000 + 30 * 4096, usable: true }]);
    let kt = vec![0u64; 512];
    let r = create_address_space(&mut fa, &kt);
    assert!(matches!(r, Err(MemoryError::OutOfMemory)));
}

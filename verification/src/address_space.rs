//! Per-process address spaces.
//!
//! A new process gets its own top-level page table: the upper half of its
//! entries (the half indexing kernel virtual addresses) is copied from the
//! kernel's table so the process can still reach kernel code and data, the
//! lower half starts empty.  Four fixed virtual regions — code, data, heap
//! and a stack region near the top of user space — are then backed by one
//! freshly allocated physical frame per page, each mapping carrying the
//! region's permission bits.  An allocation failure aborts the construction;
//! the partially built value is discarded by the caller, so no half-built
//! address space ever reaches the process registry.

use vstd::prelude::*;
use crate::errors::MemoryError;
use crate::memory::{
    BootInfoFrameAllocator, MemoryRegion, PAGE_SIZE, is_frame_in, lemma_can_take_add,
    lemma_can_take_snoc, lemma_cannot_take, lemma_step_one, lemma_take_n_snoc,
};

verus! {

/// Entries of one hardware page table.
pub const PAGE_TABLE_ENTRIES: usize = 512;

/// First entry of the kernel half of a top-level page table.
pub const KERNEL_HALF_FIRST: usize = 256;

/// Mapping is installed.
pub const PAGE_PRESENT: u64 = 0x1;

/// Mapping is writable.
pub const PAGE_WRITABLE: u64 = 0x2;

/// Mapping is reachable from user mode.
pub const PAGE_USER: u64 = 0x4;

/// Mapping may be executed.
pub const PAGE_EXECUTABLE: u64 = 0x8;

/// Permission mask of the code region.
pub const CODE_FLAGS: u64 = PAGE_PRESENT | PAGE_USER | PAGE_EXECUTABLE;

/// Permission mask of the data region.
pub const DATA_FLAGS: u64 = PAGE_PRESENT | PAGE_WRITABLE | PAGE_USER;

/// Permission mask of the heap region.
pub const HEAP_FLAGS: u64 = PAGE_PRESENT | PAGE_WRITABLE | PAGE_USER;

/// Permission mask of the user stack region.
pub const STACK_FLAGS: u64 = PAGE_PRESENT | PAGE_WRITABLE | PAGE_USER;

/// Base of the code region: a fixed low user address.
pub const CODE_BASE: u64 = 0x20_0000;

pub const CODE_PAGES: u64 = 16;

/// Base of the data region, above the code region.
pub const DATA_BASE: u64 = 0x30_0000;

pub const DATA_PAGES: u64 = 16;

/// Base of the heap region, above the data region.
pub const HEAP_BASE: u64 = 0x40_0000;

pub const HEAP_PAGES: u64 = 32;

/// Base of the stack region, near the top of user address space.
pub const STACK_REGION_BASE: u64 = 0x7FFF_FFF0_0000;

pub const STACK_REGION_PAGES: u64 = 4;

/// Pages mapped for the four regions of one address space.
pub const TOTAL_REGION_PAGES: u64 = CODE_PAGES + DATA_PAGES + HEAP_PAGES + STACK_REGION_PAGES;

/// Frames one address space consumes: one for the top-level table, one per
/// mapped page.
pub const FRAMES_PER_ADDRESS_SPACE: u64 = 1 + TOTAL_REGION_PAGES;

/// One named virtual region: base address, size in bytes, permission bits.
#[derive(Clone, Copy, Debug, PartialEq, Eq, Structural)]
pub struct Region {
    pub base: u64,
    pub size: u64,
    pub flags: u64,
}

/// One installed page mapping: virtual page base, backing physical frame,
/// permission bits.
#[derive(Clone, Copy, Debug, PartialEq, Eq, Structural)]
pub struct MapEntry {
    pub virt: u64,
    pub frame: u64,
    pub flags: u64,
}

/// A freshly built top-level page table: the frame that holds it and its
/// entry values.
#[derive(Debug)]
pub struct ProcessPageTable {
    pub frame: u64,
    pub entries: Vec<u64>,
}

/// A process's private memory view: the page-table root, the four named
/// regions, and every installed mapping.
#[derive(Debug)]
pub struct AddressSpace {
    pub page_table_root: u64,
    /// The values of the top-level table's entries: kernel half copied from
    /// the kernel's table, user half initially unused.
    pub top_entries: Vec<u64>,
    pub code: Region,
    pub data: Region,
    pub heap: Region,
    pub stack: Region,
    pub mappings: Vec<MapEntry>,
}

pub open spec fn code_region() -> Region {
    Region { base: CODE_BASE, size: (CODE_PAGES * PAGE_SIZE) as u64, flags: CODE_FLAGS }
}

pub open spec fn data_region() -> Region {
    Region { base: DATA_BASE, size: (DATA_PAGES * PAGE_SIZE) as u64, flags: DATA_FLAGS }
}

pub open spec fn heap_region() -> Region {
    Region { base: HEAP_BASE, size: (HEAP_PAGES * PAGE_SIZE) as u64, flags: HEAP_FLAGS }
}

pub open spec fn stack_region() -> Region {
    Region {
        base: STACK_REGION_BASE,
        size: (STACK_REGION_PAGES * PAGE_SIZE) as u64,
        flags: STACK_FLAGS,
    }
}

/// The virtual page base the `m`-th mapping of an address space must have:
/// the four regions in order, page by page.
pub open spec fn planned_virt(m: int) -> int {
    if m < CODE_PAGES as int {
        CODE_BASE as int + m * PAGE_SIZE as int
    } else if m < CODE_PAGES as int + DATA_PAGES as int {
        DATA_BASE as int + (m - CODE_PAGES as int) * PAGE_SIZE as int
    } else if m < CODE_PAGES as int + DATA_PAGES as int + HEAP_PAGES as int {
        HEAP_BASE as int + (m - CODE_PAGES as int - DATA_PAGES as int) * PAGE_SIZE as int
    } else {
        STACK_REGION_BASE as int
            + (m - CODE_PAGES as int - DATA_PAGES as int - HEAP_PAGES as int) * PAGE_SIZE as int
    }
}

/// The permission bits the `m`-th mapping must carry.
pub open spec fn planned_flags(m: int) -> u64 {
    if m < CODE_PAGES as int {
        CODE_FLAGS
    } else if m < CODE_PAGES as int + DATA_PAGES as int {
        DATA_FLAGS
    } else if m < CODE_PAGES as int + DATA_PAGES as int + HEAP_PAGES as int {
        HEAP_FLAGS
    } else {
        STACK_FLAGS
    }
}

/// A completely built address space: kernel half mirrored, user half empty,
/// the four fixed regions recorded, every page of every region mapped with
/// the region's permissions, and all backing frames distinct whole frames of
/// the usable memory map — no page is double-allocated.
pub open spec fn address_space_ok(a: AddressSpace, kernel_table: Seq<u64>, map: Seq<MemoryRegion>) -> bool {
    &&& a.top_entries@.len() == PAGE_TABLE_ENTRIES
    &&& (forall|i: int| 0 <= i < KERNEL_HALF_FIRST as int ==> a.top_entries@[i] == 0)
    &&& (forall|i: int|
        KERNEL_HALF_FIRST as int <= i < PAGE_TABLE_ENTRIES as int
            ==> a.top_entries@[i] == kernel_table[i])
    &&& exists|j: int| 0 <= j < map.len() && is_frame_in(#[trigger] map[j], a.page_table_root)
    &&& a.code == code_region()
    &&& a.data == data_region()
    &&& a.heap == heap_region()
    &&& a.stack == stack_region()
    &&& a.mappings@.len() == TOTAL_REGION_PAGES
    &&& (forall|m: int|
        0 <= m < TOTAL_REGION_PAGES as int ==> {
            let e = #[trigger] a.mappings@[m];
            e.virt == planned_virt(m) && e.flags == planned_flags(m)
        })
    &&& (forall|m: int|
        0 <= m < TOTAL_REGION_PAGES as int ==> exists|j: int|
            0 <= j < map.len() && is_frame_in(#[trigger] map[j], (#[trigger] a.mappings@[m]).frame))
    &&& (forall|m: int, l: int|
        0 <= m < l < TOTAL_REGION_PAGES as int
            ==> (#[trigger] a.mappings@[m]).frame != (#[trigger] a.mappings@[l]).frame)
    &&& (forall|m: int|
        0 <= m < TOTAL_REGION_PAGES as int
            ==> (#[trigger] a.mappings@[m]).frame != a.page_table_root)
}

/// Build the top-level page table of a new process: allocate one frame for
/// it, leave the user half (the first `KERNEL_HALF_FIRST` entries) unused,
/// and copy the kernel half from the currently active kernel table, so the
/// new space reaches kernel code and data without re-mapping it.
pub fn create_process_page_table(
    fa: &mut BootInfoFrameAllocator,
    kernel_table: &Vec<u64>,
) -> (r: Result<ProcessPageTable, MemoryError>)
    requires
        old(fa).wf(),
        old(fa).initialized,
    ensures
        final(fa).wf(),
        final(fa).initialized,
        final(fa).memory_map@ == old(fa).memory_map@,
        forall|g: u64| old(fa).owns(g) ==> final(fa).owns(g),
        kernel_table@.len() != PAGE_TABLE_ENTRIES ==> r == Err::<ProcessPageTable, MemoryError>(
            MemoryError::InvalidMemoryLayout,
        ) && *final(fa) == *old(fa),
        kernel_table@.len() == PAGE_TABLE_ENTRIES ==> *final(fa) == old(fa).take_one()
            && match r {
            Ok(t) => {
                &&& old(fa).peek() == Some(t.frame)
                &&& !old(fa).owns(t.frame)
                &&& final(fa).owns(t.frame)
                &&& exists|j: int|
                    0 <= j < old(fa).memory_map@.len()
                        && is_frame_in(#[trigger] old(fa).memory_map@[j], t.frame)
                &&& t.entries@.len() == PAGE_TABLE_ENTRIES
                &&& (forall|i: int| 0 <= i < KERNEL_HALF_FIRST as int ==> t.entries@[i] == 0)
                &&& (forall|i: int|
                    KERNEL_HALF_FIRST as int <= i < PAGE_TABLE_ENTRIES as int
                        ==> t.entries@[i] == kernel_table@[i])
            },
            Err(e) => e == MemoryError::OutOfMemory && old(fa).peek() is None,
        },
{
    if kernel_table.len() != PAGE_TABLE_ENTRIES {
        return Err(MemoryError::InvalidMemoryLayout);
    }
    let frame = match fa.allocate_frame() {
        Ok(f) => f,
        Err(_) => {
            return Err(MemoryError::OutOfMemory);
        },
    };
    let mut entries: Vec<u64> = Vec::new();
    let mut i: usize = 0;
    while i < KERNEL_HALF_FIRST
        invariant
            i <= KERNEL_HALF_FIRST,
            entries@.len() == i,
            forall|j: int| 0 <= j < i as int ==> entries@[j] == 0,
        decreases KERNEL_HALF_FIRST - i,
    {
        entries.push(0);
        i = i + 1;
    }
    while i < PAGE_TABLE_ENTRIES
        invariant
            KERNEL_HALF_FIRST <= i <= PAGE_TABLE_ENTRIES,
            entries@.len() == i,
            kernel_table@.len() == PAGE_TABLE_ENTRIES,
            forall|j: int| 0 <= j < KERNEL_HALF_FIRST as int ==> entries@[j] == 0,
            forall|j: int| KERNEL_HALF_FIRST as int <= j < i as int
                ==> entries@[j] == kernel_table@[j],
        decreases PAGE_TABLE_ENTRIES - i,
    {
        entries.push(kernel_table[i]);
        i = i + 1;
    }
    Ok(ProcessPageTable { frame, entries })
}

/// Back `pages` consecutive pages starting at `base` with freshly allocated
/// frames, appending one mapping per page with the given permission bits.
/// On exhaustion the mappings already appended stay appended (they are not
/// rolled back) and the error is reported to the caller.
#[verifier::loop_isolation(false)]
fn map_region(
    fa: &mut BootInfoFrameAllocator,
    mappings: &mut Vec<MapEntry>,
    base: u64,
    pages: u64,
    flags: u64,
) -> (r: Result<(), MemoryError>)
    requires
        old(fa).wf(),
        old(fa).initialized,
        base as int + pages as int * PAGE_SIZE as int <= u64::MAX as int,
        forall|k: int|
            0 <= k < old(mappings)@.len()
                ==> old(fa).owns((#[trigger] old(mappings)@[k]).frame),
        forall|k: int, l: int|
            0 <= k < l < old(mappings)@.len()
                ==> (#[trigger] old(mappings)@[k]).frame != (#[trigger] old(mappings)@[l]).frame,
    ensures
        final(fa).wf(),
        final(fa).initialized,
        final(fa).memory_map@ == old(fa).memory_map@,
        forall|g: u64| old(fa).owns(g) ==> final(fa).owns(g),
        final(mappings)@.len() >= old(mappings)@.len(),
        final(mappings)@.subrange(0, old(mappings)@.len() as int) == old(mappings)@,
        forall|k: int|
            0 <= k < final(mappings)@.len()
                ==> final(fa).owns((#[trigger] final(mappings)@[k]).frame),
        forall|k: int, l: int|
            0 <= k < l < final(mappings)@.len()
                ==> (#[trigger] final(mappings)@[k]).frame
                    != (#[trigger] final(mappings)@[l]).frame,
        match r {
            Ok(()) => {
                &&& old(fa).can_take(pages as nat)
                &&& *final(fa) == old(fa).take_n(pages as nat)
                &&& final(mappings)@.len() == old(mappings)@.len() + pages
                &&& (forall|k: int|
                    old(mappings)@.len() <= k < final(mappings)@.len() ==> {
                        let e = #[trigger] final(mappings)@[k];
                        &&& e.virt == base as int + (k - old(mappings)@.len()) * PAGE_SIZE as int
                        &&& e.flags == flags
                        &&& !old(fa).owns(e.frame)
                        &&& exists|j: int|
                            0 <= j < old(fa).memory_map@.len()
                                && is_frame_in(#[trigger] old(fa).memory_map@[j], e.frame)
                    })
            },
            Err(e) => e == MemoryError::OutOfMemory && !old(fa).can_take(pages as nat),
        },
{
    let ghost fa0 = *fa;
    let ghost m0 = mappings@;
    let mut k: u64 = 0;
    while k < pages
        invariant
            fa.wf(),
            fa.initialized,
            fa0.initialized,
            fa.memory_map@ == fa0.memory_map@,
            k <= pages,
            base as int + pages as int * PAGE_SIZE as int <= u64::MAX as int,
            *fa == fa0.take_n(k as nat),
            fa0.can_take(k as nat),
            mappings@.len() == m0.len() + k,
            mappings@.subrange(0, m0.len() as int) == m0,
            forall|g: u64| fa0.owns(g) ==> fa.owns(g),
            forall|i: int|
                0 <= i < mappings@.len() ==> fa.owns((#[trigger] mappings@[i]).frame),
            forall|i: int, l: int|
                0 <= i < l < mappings@.len()
                    ==> (#[trigger] mappings@[i]).frame != (#[trigger] mappings@[l]).frame,
            forall|i: int|
                m0.len() <= i < mappings@.len() ==> {
                    let e = #[trigger] mappings@[i];
                    &&& e.virt == base as int + (i - m0.len()) * PAGE_SIZE as int
                    &&& e.flags == flags
                    &&& !fa0.owns(e.frame)
                    &&& exists|j: int|
                        0 <= j < fa0.memory_map@.len()
                            && is_frame_in(#[trigger] fa0.memory_map@[j], e.frame)
                },
        decreases pages - k,
    {
        let ghost fa_before = *fa;
        let frame = match fa.allocate_frame() {
            Ok(f) => f,
            Err(_) => {
                proof {
                    lemma_cannot_take(fa0, k as nat, pages as nat);
                }
                return Err(MemoryError::OutOfMemory);
            },
        };
        proof {
            lemma_take_n_snoc(fa0, k as nat);
            lemma_can_take_snoc(fa0, k as nat);
        }
        let virt = base + k * PAGE_SIZE;
        mappings.push(MapEntry { virt, frame, flags });
        k = k + 1;
    }
    Ok(())
}

/// Build a complete address space for a new process: a fresh top-level
/// table mirroring the kernel half, then the four standard regions backed
/// page by page.  Fails with `OutOfMemory` exactly when the allocator
/// cannot supply `FRAMES_PER_ADDRESS_SPACE` more frames; mappings installed
/// before the failing one are not rolled back, but the partial value is
/// dropped here, so the caller never sees a half-built address space.
pub fn create_address_space(
    fa: &mut BootInfoFrameAllocator,
    kernel_table: &Vec<u64>,
) -> (r: Result<AddressSpace, MemoryError>)
    requires
        old(fa).wf(),
        old(fa).initialized,
    ensures
        final(fa).wf(),
        final(fa).initialized,
        final(fa).memory_map@ == old(fa).memory_map@,
        forall|g: u64| old(fa).owns(g) ==> final(fa).owns(g),
        kernel_table@.len() != PAGE_TABLE_ENTRIES ==> r == Err::<AddressSpace, MemoryError>(
            MemoryError::InvalidMemoryLayout,
        ) && *final(fa) == *old(fa),
        kernel_table@.len() == PAGE_TABLE_ENTRIES ==> match r {
            Ok(a) => {
                &&& address_space_ok(a, kernel_table@, old(fa).memory_map@)
                &&& old(fa).can_take(FRAMES_PER_ADDRESS_SPACE as nat)
                &&& *final(fa) == old(fa).take_n(FRAMES_PER_ADDRESS_SPACE as nat)
            },
            Err(e) => {
                &&& e == MemoryError::OutOfMemory
                &&& !old(fa).can_take(FRAMES_PER_ADDRESS_SPACE as nat)
            },
        },
{
    let ghost fa0 = *fa;
    let table = match create_process_page_table(fa, kernel_table) {
        Ok(t) => t,
        Err(e) => {
            proof {
                if kernel_table@.len() == PAGE_TABLE_ENTRIES as int {
                    assert(!fa0.can_take(FRAMES_PER_ADDRESS_SPACE as nat));
                }
            }
            return Err(e);
        },
    };
    proof {
        lemma_step_one(fa0);
    }
    let ghost s1 = *fa;
    let mut mappings: Vec<MapEntry> = Vec::new();
    if let Err(e) = map_region(fa, &mut mappings, CODE_BASE, CODE_PAGES, CODE_FLAGS) {
        proof {
            lemma_step_one(fa0);
            lemma_can_take_add(fa0, 1, (CODE_PAGES) as nat);
            lemma_can_take_add(fa0, (1 + CODE_PAGES) as nat,
                (DATA_PAGES + HEAP_PAGES + STACK_REGION_PAGES) as nat);
        }
        return Err(e);
    }
    let ghost s2 = *fa;
    let ghost m1 = mappings@;
    let ghost n1 = mappings@.len() as int;
    if let Err(e) = map_region(fa, &mut mappings, DATA_BASE, DATA_PAGES, DATA_FLAGS) {
        proof {
            lemma_step_one(fa0);
            lemma_can_take_add(fa0, 1, (CODE_PAGES) as nat);
            lemma_can_take_add(fa0, (1 + CODE_PAGES) as nat, (DATA_PAGES) as nat);
            lemma_can_take_add(fa0, (1 + CODE_PAGES + DATA_PAGES) as nat,
                (HEAP_PAGES + STACK_REGION_PAGES) as nat);
        }
        return Err(e);
    }
    let ghost s3 = *fa;
    let ghost m2 = mappings@;
    let ghost n2 = mappings@.len() as int;
    if let Err(e) = map_region(fa, &mut mappings, HEAP_BASE, HEAP_PAGES, HEAP_FLAGS) {
        proof {
            lemma_step_one(fa0);
            lemma_can_take_add(fa0, 1, (CODE_PAGES) as nat);
            lemma_can_take_add(fa0, (1 + CODE_PAGES) as nat, (DATA_PAGES) as nat);
            lemma_can_take_add(fa0, (1 + CODE_PAGES + DATA_PAGES) as nat, (HEAP_PAGES) as nat);
            lemma_can_take_add(fa0, (1 + CODE_PAGES + DATA_PAGES + HEAP_PAGES) as nat,
                (STACK_REGION_PAGES) as nat);
        }
        return Err(e);
    }
    let ghost s4 = *fa;
    let ghost m3 = mappings@;
    let ghost n3 = mappings@.len() as int;
    if let Err(e) = map_region(fa, &mut mappings, STACK_REGION_BASE, STACK_REGION_PAGES,
        STACK_FLAGS) {
        proof {
            lemma_step_one(fa0);
            lemma_can_take_add(fa0, 1, (CODE_PAGES) as nat);
            lemma_can_take_add(fa0, (1 + CODE_PAGES) as nat, (DATA_PAGES) as nat);
            lemma_can_take_add(fa0, (1 + CODE_PAGES + DATA_PAGES) as nat, (HEAP_PAGES) as nat);
            lemma_can_take_add(fa0, (1 + CODE_PAGES + DATA_PAGES + HEAP_PAGES) as nat,
                (STACK_REGION_PAGES) as nat);
        }
        return Err(e);
    }
    let a = AddressSpace {
        page_table_root: table.frame,
        top_entries: table.entries,
        code: Region { base: CODE_BASE, size: CODE_PAGES * PAGE_SIZE, flags: CODE_FLAGS },
        data: Region { base: DATA_BASE, size: DATA_PAGES * PAGE_SIZE, flags: DATA_FLAGS },
        heap: Region { base: HEAP_BASE, size: HEAP_PAGES * PAGE_SIZE, flags: HEAP_FLAGS },
        stack: Region {
            base: STACK_REGION_BASE,
            size: STACK_REGION_PAGES * PAGE_SIZE,
            flags: STACK_FLAGS,
        },
        mappings,
    };
    proof {
        lemma_step_one(fa0);
        lemma_can_take_add(fa0, 1, (CODE_PAGES) as nat);
        lemma_can_take_add(fa0, (1 + CODE_PAGES) as nat, (DATA_PAGES) as nat);
        lemma_can_take_add(fa0, (1 + CODE_PAGES + DATA_PAGES) as nat, (HEAP_PAGES) as nat);
        lemma_can_take_add(fa0, (1 + CODE_PAGES + DATA_PAGES + HEAP_PAGES) as nat,
            (STACK_REGION_PAGES) as nat);
        let mv = a.mappings@;
        // Later stages only append: what an earlier stage laid down is still
        // there, unchanged, at the same index.
        assert(mv.subrange(0, n3) == m3);
        assert(m3.subrange(0, n2) == m2);
        assert(m2.subrange(0, n1) == m1);
        assert forall|m: int| 0 <= m < n3 implies mv[m] == m3[m] by {
            assert(mv.subrange(0, n3)[m] == mv[m]);
        }
        assert forall|m: int| 0 <= m < n2 implies m3[m] == m2[m] by {
            assert(m3.subrange(0, n2)[m] == m3[m]);
        }
        assert forall|m: int| 0 <= m < n1 implies m2[m] == m1[m] by {
            assert(m2.subrange(0, n1)[m] == m2[m]);
        }
        // The four stages laid the mappings out page by page in region order.
        assert forall|m: int| 0 <= m < TOTAL_REGION_PAGES as int implies {
            let e = #[trigger] mv[m];
            e.virt == planned_virt(m) && e.flags == planned_flags(m)
        } by {
            if m < n1 {
                assert(mv[m] == m1[m]);
            } else if m < n2 {
                assert(mv[m] == m2[m]);
            } else if m < n3 {
                assert(mv[m] == m3[m]);
            }
        }
        // Every mapped frame is a whole frame of the boot memory map.
        assert forall|m: int| 0 <= m < TOTAL_REGION_PAGES as int implies exists|j: int|
            0 <= j < fa0.memory_map@.len()
                && is_frame_in(#[trigger] fa0.memory_map@[j], (#[trigger] mv[m]).frame) by {
            if m < n1 {
                assert(mv[m] == m1[m]);
            } else if m < n2 {
                assert(mv[m] == m2[m]);
            } else if m < n3 {
                assert(mv[m] == m3[m]);
            }
        }
        // No mapping reuses the frame that holds the top-level table: that
        // frame was already owned before any region frame was drawn.
        assert forall|m: int| 0 <= m < TOTAL_REGION_PAGES as int
            implies (#[trigger] mv[m]).frame != a.page_table_root by {
            assert(s1.owns(table.frame));
            if m < n1 {
                assert(mv[m] == m1[m]);
                assert(!s1.owns(m1[m].frame));
            } else if m < n2 {
                assert(mv[m] == m2[m]);
                assert(s2.owns(table.frame));
                assert(!s2.owns(m2[m].frame));
            } else if m < n3 {
                assert(mv[m] == m3[m]);
                assert(s3.owns(table.frame));
                assert(!s3.owns(m3[m].frame));
            } else {
                assert(s4.owns(table.frame));
                assert(!s4.owns(mv[m].frame));
            }
        }
    }
    Ok(a)
}

} // verus!

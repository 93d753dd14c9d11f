//! Physical-frame allocation and stack reservation.
//!
//! The boot loader reports the machine's physical memory as a list of
//! regions, each usable or not.  [`BootInfoFrameAllocator`] hands out
//! frame-aligned physical addresses from the usable regions in order, one at
//! a time, through a cursor that only advances: a pure bump allocator with no
//! reclamation.  [`StackAllocator`] carves fixed-size kernel and user stacks
//! out of one virtual arena the same way.  Neither ever hands out the same
//! address twice.

use vstd::prelude::*;
use crate::errors::MemoryError;

verus! {

/// Size of one physical frame and one mapped page, in bytes.
pub const PAGE_SIZE: u64 = 4096;

/// Size of the kernel-mode stack of one process, in bytes.
pub const KERNEL_STACK_SIZE: u64 = 8192;

/// Size of the user-mode stack of one process, in bytes.
pub const USER_STACK_SIZE: u64 = 16384;

/// One region of the boot-reported physical memory map: addresses
/// `start <= a < end`, usable for allocation or not.
#[derive(Clone, Copy, Debug, PartialEq, Eq, Structural)]
pub struct MemoryRegion {
    pub start: u64,
    pub end: u64,
    pub usable: bool,
}

/// Whether `f` is the base of a whole frame inside the usable region `r`.
pub open spec fn is_frame_in(r: MemoryRegion, f: u64) -> bool {
    &&& r.usable
    &&& f as int % PAGE_SIZE as int == 0
    &&& r.start <= f
    &&& f as int + PAGE_SIZE as int <= r.end as int
}

/// Whether the address ranges of `a` and `b` do not overlap.
pub open spec fn regions_disjoint(a: MemoryRegion, b: MemoryRegion) -> bool {
    a.end <= b.start || b.end <= a.start
}

/// A valid boot memory map: no two usable regions overlap.  This is the
/// guarantee the boot loader gives for the map it reports.
pub open spec fn map_valid(map: Seq<MemoryRegion>) -> bool {
    forall|i: int, j: int|
        0 <= i < map.len() && 0 <= j < map.len() && i != j && map[i].usable && map[j].usable
            ==> regions_disjoint(map[i], map[j])
}

/// The smallest multiple of the frame size that is at least `a`.
pub open spec fn align_up_4k(a: int) -> int {
    if a % (PAGE_SIZE as int) == 0 {
        a
    } else {
        a + (PAGE_SIZE as int - a % (PAGE_SIZE as int))
    }
}

/// The first whole frame of region `r` whose base is at least `at_least`,
/// if the region is usable and holds one.
pub open spec fn frame_within(r: MemoryRegion, at_least: u64) -> Option<u64> {
    if !r.usable {
        None
    } else {
        let lo = if at_least > r.start { at_least as int } else { r.start as int };
        let f = align_up_4k(lo);
        if f + PAGE_SIZE as int <= r.end as int {
            Some(f as u64)
        } else {
            None
        }
    }
}

/// The next frame the allocator will return when it stands at region `i`
/// with its cursor at `cursor`: the region index it will stop at and the
/// frame's base address, or `None` when the map is exhausted.
pub open spec fn next_frame_from(map: Seq<MemoryRegion>, i: int, cursor: u64) -> Option<(int, u64)>
    decreases map.len() - i,
{
    if i < 0 || i >= map.len() {
        None
    } else {
        match frame_within(map[i], cursor) {
            Some(f) => Some((i, f)),
            None => next_frame_from(map, i + 1, 0),
        }
    }
}

/// A frame found by `next_frame_from` is a whole frame of the region it was
/// found in, that region is at or after the starting one, and within the
/// starting region the search never goes below the cursor.
pub proof fn lemma_next_frame_found(map: Seq<MemoryRegion>, i: int, cursor: u64)
    requires
        next_frame_from(map, i, cursor) is Some,
    ensures
        ({
            let (j, f) = next_frame_from(map, i, cursor)->Some_0;
            &&& i <= j < map.len()
            &&& is_frame_in(map[j], f)
            &&& (j == i ==> f >= cursor)
        }),
    decreases map.len() - i,
{
    let (j, f) = next_frame_from(map, i, cursor)->Some_0;
    if frame_within(map[i], cursor) is Some {
        let lo = if cursor > map[i].start { cursor as int } else { map[i].start as int };
        assert(lo % (PAGE_SIZE as int) >= 0) by (nonlinear_arith);
        assert(lo % (PAGE_SIZE as int) < PAGE_SIZE as int) by (nonlinear_arith);
        assert(align_up_4k(lo) % (PAGE_SIZE as int) == 0) by {
            if lo % (PAGE_SIZE as int) != 0 {
                assert((lo + (PAGE_SIZE as int - lo % (PAGE_SIZE as int))) % (PAGE_SIZE as int)
                    == 0) by (nonlinear_arith);
            }
        }
    } else {
        lemma_next_frame_found(map, i + 1, 0);
    }
}

/// The boot-information frame allocator: scans the usable ranges of the
/// memory map in order and returns frame-aligned addresses one at a time via
/// an internal cursor that only advances.  It must be initialized exactly
/// once with the memory map before first use.
pub struct BootInfoFrameAllocator {
    pub memory_map: Vec<MemoryRegion>,
    /// Index of the region the cursor stands in; `memory_map.len()` once
    /// the map is exhausted.
    pub region: usize,
    /// The lowest address the allocator may still hand out of the current
    /// region.
    pub cursor: u64,
    pub initialized: bool,
}

impl BootInfoFrameAllocator {
    /// The allocator's cursor never left its map.
    pub open spec fn wf(self) -> bool {
        &&& self.region <= self.memory_map@.len()
        &&& map_valid(self.memory_map@)
    }

    /// The next frame this allocator will return, if any remains.
    pub open spec fn peek(self) -> Option<u64> {
        match next_frame_from(self.memory_map@, self.region as int, self.cursor) {
            Some((_j, f)) => Some(f),
            None => None,
        }
    }

    /// The allocator state after one successful allocation, or after the
    /// scan that found the map exhausted.
    pub open spec fn take_one(self) -> BootInfoFrameAllocator {
        match next_frame_from(self.memory_map@, self.region as int, self.cursor) {
            Some((j, f)) => BootInfoFrameAllocator {
                region: j as usize,
                cursor: (f + PAGE_SIZE) as u64,
                ..self
            },
            None => BootInfoFrameAllocator {
                region: self.memory_map@.len() as usize,
                cursor: 0,
                ..self
            },
        }
    }

    /// Whether the cursor has moved past frame `f`: the allocator owns it
    /// and will never return it again.  Every frame it has returned is
    /// owned, and stays owned forever after.
    pub open spec fn owns(self, f: u64) -> bool {
        ||| exists|j: int|
            0 <= j < self.region && is_frame_in(#[trigger] self.memory_map@[j], f)
        ||| {
            &&& self.region < self.memory_map@.len()
            &&& is_frame_in(self.memory_map@[self.region as int], f)
            &&& f < self.cursor
        }
    }

    /// The allocator state after `n` allocation attempts.
    pub open spec fn take_n(self, n: nat) -> BootInfoFrameAllocator
        decreases n,
    {
        if n == 0 {
            self
        } else {
            self.take_one().take_n((n - 1) as nat)
        }
    }

    /// Whether `n` further allocations will all succeed.
    pub open spec fn can_take(self, n: nat) -> bool
        decreases n,
    {
        n == 0 || (self.peek() is Some && self.take_one().can_take((n - 1) as nat))
    }

    /// An allocator that has not yet received the memory map.  Allocation
    /// from it fails with `NotInitialized`.
    pub fn new() -> (r: BootInfoFrameAllocator)
        ensures
            !r.initialized,
            r.wf(),
    {
        BootInfoFrameAllocator { memory_map: Vec::new(), region: 0, cursor: 0, initialized: false }
    }

    /// Give the allocator the boot memory map.  Must happen exactly once,
    /// before the first allocation; the map must be the boot loader's, whose
    /// usable regions do not overlap.
    pub fn init(&mut self, memory_map: Vec<MemoryRegion>)
        requires
            !old(self).initialized,
            map_valid(memory_map@),
        ensures
            final(self).initialized,
            final(self).memory_map@ == memory_map@,
            final(self).region == 0,
            final(self).cursor == 0,
            final(self).wf(),
            forall|f: u64| !final(self).owns(f),
    {
        self.memory_map = memory_map;
        self.region = 0;
        self.cursor = 0;
        self.initialized = true;
    }

    /// Linear scan for the next whole frame at or after `cursor`, starting
    /// in region `from`: the executable mirror of [`next_frame_from`].
    fn scan(map: &Vec<MemoryRegion>, from: usize, cursor: u64) -> (r: Option<(usize, u64)>)
        requires
            from <= map@.len(),
        ensures
            match next_frame_from(map@, from as int, cursor) {
                Some((j, f)) => r == Some((j as usize, f)),
                None => r is None,
            },
    {
        let n = map.len();
        let mut i = from;
        let mut cur = cursor;
        while i < n
            invariant
                from <= i <= n,
                n == map@.len(),
                next_frame_from(map@, from as int, cursor)
                    == next_frame_from(map@, i as int, cur),
            decreases n - i,
        {
            let r = map[i];
            if r.usable && r.end >= PAGE_SIZE {
                let base = if cur > r.start { cur } else { r.start };
                let last = r.end - PAGE_SIZE;
                if base <= last {
                    let rem = base % PAGE_SIZE;
                    let f = if rem == 0 { base } else { base + (PAGE_SIZE - rem) };
                    if f <= last {
                        assert(frame_within(map@[i as int], cur) == Some(f));
                        return Some((i, f));
                    }
                }
            }
            assert(frame_within(map@[i as int], cur) is None);
            i = i + 1;
            cur = 0;
        }
        None
    }

    /// Return the next usable frame and advance the cursor past it.
    ///
    /// Fails with `NotInitialized` before `init`, and with `OutOfMemory` —
    /// the out-of-memory signal to the caller — once the usable ranges are
    /// exhausted.  A returned frame is a whole, aligned frame of a usable
    /// region that was never returned before, and is never returned again.
    pub fn allocate_frame(&mut self) -> (r: Result<u64, MemoryError>)
        requires
            old(self).wf(),
        ensures
            final(self).wf(),
            final(self).memory_map@ == old(self).memory_map@,
            final(self).initialized == old(self).initialized,
            !old(self).initialized ==> r == Err::<u64, MemoryError>(MemoryError::NotInitialized)
                && *final(self) == *old(self),
            old(self).initialized ==> *final(self) == old(self).take_one(),
            old(self).initialized ==> match old(self).peek() {
                Some(f) => {
                    &&& r == Ok::<u64, MemoryError>(f)
                    &&& f as int % PAGE_SIZE as int == 0
                    &&& exists|j: int|
                        0 <= j < old(self).memory_map@.len()
                            && is_frame_in(#[trigger] old(self).memory_map@[j], f)
                    &&& !old(self).owns(f)
                    &&& final(self).owns(f)
                },
                None => r == Err::<u64, MemoryError>(MemoryError::OutOfMemory),
            },
            forall|g: u64| old(self).owns(g) ==> final(self).owns(g),
    {
        if !self.initialized {
            return Err(MemoryError::NotInitialized);
        }
        let ghost orig = *self;
        let n = self.memory_map.len();
        let found = Self::scan(&self.memory_map, self.region, self.cursor);
        match found {
            Some((j, f)) => {
                proof {
                    lemma_next_frame_found(orig.memory_map@, orig.region as int, orig.cursor);
                    let (js, fs) = next_frame_from(
                        orig.memory_map@,
                        orig.region as int,
                        orig.cursor,
                    )->Some_0;
                    assert(orig.region <= js < orig.memory_map@.len());
                    assert(j == js as usize && f == fs);
                    assert(j as int == js);
                    assert(is_frame_in(orig.memory_map@[j as int], f));
                }
                self.region = j;
                self.cursor = f + PAGE_SIZE;
                proof {
                    let map = orig.memory_map@;
                    assert(!orig.owns(f)) by {
                        if exists|k: int| 0 <= k < orig.region && is_frame_in(#[trigger] map[k], f) {
                            let k = choose|k: int|
                                0 <= k < orig.region && is_frame_in(#[trigger] map[k], f);
                            assert(regions_disjoint(map[k], map[j as int]));
                        }
                        if orig.region < map.len() && is_frame_in(map[orig.region as int], f)
                            && f < orig.cursor {
                            assert(j != orig.region);
                            assert(regions_disjoint(map[orig.region as int], map[j as int]));
                        }
                    }
                    assert(self.owns(f));
                    assert forall|g: u64| orig.owns(g) implies self.owns(g) by {
                        if exists|k: int| 0 <= k < orig.region && is_frame_in(#[trigger] map[k], g) {
                        } else {
                            assert(is_frame_in(map[orig.region as int], g) && g < orig.cursor);
                            if j == orig.region {
                                assert(g < self.cursor);
                            }
                        }
                    }
                }
                Ok(f)
            },
            None => {
                self.region = n;
                self.cursor = 0;
                proof {
                    let map = orig.memory_map@;
                    assert forall|g: u64| orig.owns(g) implies self.owns(g) by {
                        if exists|k: int| 0 <= k < orig.region && is_frame_in(#[trigger] map[k], g) {
                        } else {
                            assert(is_frame_in(map[orig.region as int], g));
                        }
                    }
                }
                Err(MemoryError::OutOfMemory)
            },
        }
    }
}

/// Taking a single frame, expressed through `take_n` and `can_take`.
pub proof fn lemma_step_one(s: BootInfoFrameAllocator)
    ensures
        s.take_n(1) == s.take_one(),
        s.can_take(1) <==> s.peek() is Some,
{
    assert(s.take_one().take_n(0) == s.take_one());
    assert(s.take_one().can_take(0));
}

/// Taking one more frame after `k` is the same as taking `k + 1` at once.
pub proof fn lemma_take_n_snoc(s: BootInfoFrameAllocator, k: nat)
    ensures
        s.take_n(k + 1) == s.take_n(k).take_one(),
    decreases k,
{
    if k == 0 {
        assert(s.take_n(1) == s.take_one().take_n(0));
    } else {
        lemma_take_n_snoc(s.take_one(), (k - 1) as nat);
        assert(s.take_n(k + 1) == s.take_one().take_n(k));
        assert(s.take_n(k) == s.take_one().take_n((k - 1) as nat));
    }
}

/// `a + b` allocations succeed exactly when the first `a` do and `b` more
/// succeed from the state they leave behind; that state is `take_n(a)`.
pub proof fn lemma_can_take_add(s: BootInfoFrameAllocator, a: nat, b: nat)
    ensures
        s.can_take(a + b) <==> (s.can_take(a) && s.take_n(a).can_take(b)),
        s.take_n(a + b) == s.take_n(a).take_n(b),
    decreases a,
{
    if a > 0 {
        lemma_can_take_add(s.take_one(), (a - 1) as nat, b);
    }
}

/// One more successful allocation extends a run of `k` successful ones.
pub proof fn lemma_can_take_snoc(s: BootInfoFrameAllocator, k: nat)
    requires
        s.can_take(k),
        s.take_n(k).peek() is Some,
    ensures
        s.can_take(k + 1),
    decreases k,
{
    if k == 0 {
        assert(s.take_n(0) == s);
        assert(s.take_one().can_take(0));
        assert(s.can_take(1));
    } else {
        assert(s.take_n(k) == s.take_one().take_n((k - 1) as nat));
        lemma_can_take_snoc(s.take_one(), (k - 1) as nat);
        assert(s.can_take(k + 1) == (s.peek() is Some && s.take_one().can_take(k)));
    }
}

/// A failed allocation attempt within the first `n` refutes `can_take(n)`.
pub proof fn lemma_cannot_take(s: BootInfoFrameAllocator, k: nat, n: nat)
    requires
        k < n,
        s.take_n(k).peek() is None,
    ensures
        !s.can_take(n),
    decreases k,
{
    if k > 0 {
        lemma_cannot_take(s.take_one(), (k - 1) as nat, (n - 1) as nat);
    }
}

/// A bump reservation arena for process stacks: fixed-size blocks carved
/// from `[start, end)`, never reclaimed.  A returned value is the *top*
/// (highest address, exclusive) of the block, since stacks grow downward.
pub struct StackAllocator {
    pub start: u64,
    /// The lowest address not yet reserved.
    pub next: u64,
    pub end: u64,
}

impl StackAllocator {
    pub open spec fn wf(self) -> bool {
        self.start <= self.next <= self.end
    }

    /// A fresh arena over `[start, end)`.
    pub fn new(start: u64, end: u64) -> (r: StackAllocator)
        requires
            start <= end,
        ensures
            r.wf(),
            r.start == start,
            r.next == start,
            r.end == end,
    {
        StackAllocator { start, next: start, end }
    }

    /// Reserve one block of `size` bytes and return its top, or `None` when
    /// the arena cannot hold it.  Blocks are never reclaimed.
    fn reserve(&mut self, size: u64) -> (r: Option<u64>)
        requires
            old(self).wf(),
        ensures
            final(self).wf(),
            final(self).start == old(self).start,
            final(self).end == old(self).end,
            match r {
                Some(top) => {
                    &&& old(self).next as int + size as int <= old(self).end as int
                    &&& top == old(self).next as int + size as int
                    &&& final(self).next == top
                },
                None => {
                    &&& old(self).next as int + size as int > old(self).end as int
                    &&& *final(self) == *old(self)
                },
            },
    {
        if size <= self.end && self.next <= self.end - size {
            let top = self.next + size;
            self.next = top;
            Some(top)
        } else {
            None
        }
    }

    /// Reserve a kernel stack and return a pointer to its top (highest
    /// address), since stacks grow downward.  The block is intentionally
    /// never released: terminated-process stacks are not reclaimed.
    pub fn allocate_kernel_stack(&mut self) -> (r: Option<u64>)
        requires
            old(self).wf(),
        ensures
            final(self).wf(),
            final(self).start == old(self).start,
            final(self).end == old(self).end,
            match r {
                Some(top) => {
                    &&& old(self).next as int + KERNEL_STACK_SIZE as int <= old(self).end as int
                    &&& top == old(self).next as int + KERNEL_STACK_SIZE as int
                    &&& final(self).next == top
                    &&& top >= KERNEL_STACK_SIZE
                },
                None => {
                    &&& old(self).next as int + KERNEL_STACK_SIZE as int > old(self).end as int
                    &&& *final(self) == *old(self)
                },
            },
    {
        self.reserve(KERNEL_STACK_SIZE)
    }

    /// Reserve a user stack and return a pointer to its top (highest
    /// address), since stacks grow downward.  The block is intentionally
    /// never released: terminated-process stacks are not reclaimed.
    pub fn allocate_user_stack(&mut self) -> (r: Option<u64>)
        requires
            old(self).wf(),
        ensures
            final(self).wf(),
            final(self).start == old(self).start,
            final(self).end == old(self).end,
            match r {
                Some(top) => {
                    &&& old(self).next as int + USER_STACK_SIZE as int <= old(self).end as int
                    &&& top == old(self).next as int + USER_STACK_SIZE as int
                    &&& final(self).next == top
                    &&& top >= USER_STACK_SIZE
                },
                None => {
                    &&& old(self).next as int + USER_STACK_SIZE as int > old(self).end as int
                    &&& *final(self) == *old(self)
                },
            },
    {
        self.reserve(USER_STACK_SIZE)
    }
}

} // verus!

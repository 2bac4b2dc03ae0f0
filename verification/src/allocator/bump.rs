//! Bump allocation: a single monotonically increasing cursor over the
//! heap region plus a live-allocation count. Individual frees reclaim
//! nothing; only draining every live allocation resets the cursor to
//! the start of the region.

use crate::allocator::{align_up_spec, is_power_of_two};
use vstd::prelude::*;

verus! {

pub struct BumpAllocator {
    pub heap_start: usize,
    pub heap_end: usize,
    pub next: usize,
    pub allocations: usize,
}

impl BumpAllocator {
    /// The cursor always stays inside the heap region.
    pub open spec fn wf(self) -> bool {
        self.heap_start <= self.next <= self.heap_end
    }

    /// An empty bump allocator; unusable until `init` gives it a region.
    pub fn new() -> (r: Self)
        ensures
            r.heap_start == 0,
            r.heap_end == 0,
            r.next == 0,
            r.allocations == 0,
            r.wf(),
    {
        BumpAllocator { heap_start: 0, heap_end: 0, next: 0, allocations: 0 }
    }

    /// Hand the allocator its heap region. Called exactly once, before
    /// any allocation.
    pub fn init(&mut self, heap_start: usize, heap_size: usize)
        requires
            old(self).allocations == 0,
            heap_start + heap_size <= usize::MAX,
        ensures
            final(self).heap_start == heap_start,
            final(self).heap_end == heap_start + heap_size,
            final(self).next == heap_start,
            final(self).allocations == 0,
            final(self).wf(),
    {
        self.heap_start = heap_start;
        self.heap_end = heap_start + heap_size;
        self.next = heap_start;
        self.allocations = 0;
    }

    /// Round the cursor up to `align`, hand out the aligned address if
    /// the advanced cursor stays in bounds, and fail otherwise.
    pub fn allocate(&mut self, size: usize, align: usize) -> (r: Option<usize>)
        requires
            old(self).wf(),
            is_power_of_two(align),
            size > 0,
            old(self).allocations < usize::MAX,
        ensures
            final(self).wf(),
            final(self).heap_start == old(self).heap_start,
            final(self).heap_end == old(self).heap_end,
            ({
                let a = align_up_spec(old(self).next as int, align as int);
                if a + size <= old(self).heap_end {
                    &&& r == Some(a as usize)
                    &&& a % align as int == 0
                    &&& old(self).next <= a
                    &&& final(self).next == a + size
                    &&& final(self).allocations == old(self).allocations + 1
                } else {
                    &&& r is None
                    &&& *final(self) == *old(self)
                }
            }),
    {
        proof {
            vstd::arithmetic::div_mod::lemma_mod_decreases(self.next as nat, align as nat);
            crate::allocator::lemma_align_up_properties(self.next as int, align as int);
        }
        let rem = self.next % align;
        let aligned: usize;
        if rem == 0 {
            aligned = self.next;
        } else if self.next - rem <= usize::MAX - align {
            aligned = self.next - rem + align;
        } else {
            // Rounding the cursor up would leave the address space, so
            // the advanced cursor cannot stay within the heap either.
            return None;
        }
        assert(aligned == align_up_spec(self.next as int, align as int));
        if aligned > self.heap_end || size > self.heap_end - aligned {
            return None;
        }
        self.next = aligned + size;
        self.allocations = self.allocations + 1;
        Some(aligned)
    }

    /// Drop one live allocation; when the last one goes, the cursor
    /// returns to the start of the region, and not before.
    pub fn deallocate(&mut self, _addr: usize, _size: usize, _align: usize)
        requires
            old(self).wf(),
            old(self).allocations > 0,
        ensures
            final(self).wf(),
            final(self).heap_start == old(self).heap_start,
            final(self).heap_end == old(self).heap_end,
            final(self).allocations == old(self).allocations - 1,
            final(self).next == if final(self).allocations == 0 {
                old(self).heap_start
            } else {
                old(self).next
            },
    {
        self.allocations = self.allocations - 1;
        if self.allocations == 0 {
            self.next = self.heap_start;
        }
    }
}

} // verus!

//! Common ground for the allocator hierarchy: address alignment.
//!
//! Every allocator strategy speaks the same contract: `allocate(size,
//! align)` yields an address or fails, `free` gives a range back.
//! Alignment is always a power of two, and an aligned address is
//! computed by rounding up to the next multiple of the alignment.

use vstd::arithmetic::div_mod::{
    lemma_fundamental_div_mod, lemma_mod_decreases, lemma_mod_multiples_basic,
};
use vstd::arithmetic::mul::lemma_mul_is_distributive_add;
use vstd::prelude::*;

pub mod bump;
pub mod fixed_size_block;
pub mod linked_list;

verus! {

/// `a` is a power of two (1, 2, 4, ...), phrased over the bits so that
/// alignment checks can also be done bitwise.
pub open spec fn is_power_of_two(a: usize) -> bool {
    a > 0 && a & ((a - 1) as usize) == 0
}

/// The least multiple of `align` that is at least `addr`.
pub open spec fn align_up_spec(addr: int, align: int) -> int
    recommends
        align > 0,
{
    if addr % align == 0 {
        addr
    } else {
        addr + align - addr % align
    }
}

/// `align_up_spec` names a multiple of `align` less than one alignment
/// step above `addr`.
pub proof fn lemma_align_up_properties(addr: int, align: int)
    requires
        align > 0,
        addr >= 0,
    ensures
        align_up_spec(addr, align) % align == 0,
        addr <= align_up_spec(addr, align) < addr + align,
{
    let s = align_up_spec(addr, align);
    let m = addr % align;
    lemma_fundamental_div_mod(addr, align);
    if m == 0 {
        lemma_mod_multiples_basic(addr / align, align);
    } else {
        assert(s == align * (addr / align) + align);
        lemma_mul_is_distributive_add(align, addr / align, 1);
        assert(s == align * (addr / align + 1));
        lemma_mod_multiples_basic(addr / align + 1, align);
    }
}

/// Round `addr` up, reporting failure when the aligned address would
/// leave the address space.
pub fn align_up_checked(addr: usize, align: usize) -> (r: Option<usize>)
    requires
        is_power_of_two(align),
    ensures
        match r {
            Some(a) => {
                &&& a == align_up_spec(addr as int, align as int)
                &&& a % align == 0
                &&& addr <= a
                &&& a < addr + align
            },
            None => align_up_spec(addr as int, align as int) > usize::MAX,
        },
{
    proof {
        lemma_align_up_properties(addr as int, align as int);
        lemma_mod_decreases(addr as nat, align as nat);
    }
    let rem = addr % align;
    if rem == 0 {
        Some(addr)
    } else if addr - rem <= usize::MAX - align {
        Some(addr - rem + align)
    } else {
        None
    }
}

/// Round `addr` up to the next multiple of `align`.
pub fn align_up(addr: usize, align: usize) -> (r: usize)
    requires
        is_power_of_two(align),
        addr + align <= usize::MAX,
    ensures
        r == align_up_spec(addr as int, align as int),
        r % align == 0,
        addr <= r < addr + align,
{
    proof {
        lemma_align_up_properties(addr as int, align as int);
        lemma_mod_decreases(addr as nat, align as nat);
    }
    let rem = addr % align;
    if rem == 0 {
        addr
    } else {
        addr - rem + align
    }
}

} // verus!

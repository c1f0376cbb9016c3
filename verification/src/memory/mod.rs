//! Memory: frames of physical RAM, the bytes in them, and page tables.

pub mod paging;
pub mod phys;
pub mod ram;

use vstd::prelude::*;

verus! {

/// The size of a frame and of a page.
pub const PAGE_SIZE: usize = 4096;

/// `addr` rounded up to a multiple of `align`.
pub open spec fn aligned_up(addr: int, align: int) -> int {
    if addr % align == 0 {
        addr
    } else {
        addr - addr % align + align
    }
}

/// Rounds `addr` up to a multiple of `align`.
pub fn align_up(addr: usize, align: usize) -> (r: usize)
    requires
        align > 0,
        addr + align - 1 <= usize::MAX,
    ensures
        r == aligned_up(addr as int, align as int),
        r % align == 0,
        addr <= r < addr + align,
{
    let rest: usize = addr % align;
    if rest == 0 {
        addr
    } else {
        proof {
            vstd::arithmetic::div_mod::lemma_fundamental_div_mod(addr as int, align as int);
            let q = addr as int / align as int;
            assert(align * q + align == align * (q + 1)) by (nonlinear_arith);
            vstd::arithmetic::div_mod::lemma_mod_multiples_basic(q + 1, align as int);
            assert((q + 1) * align == align * (q + 1)) by (nonlinear_arith);
        }
        addr - rest + align
    }
}

} // verus!

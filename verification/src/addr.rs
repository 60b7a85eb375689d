//! Virtual addresses and virtual page numbers.
//!
//! An address is an unsigned byte offset into a flat virtual address space;
//! a page number is the address divided by the page size. `floor` truncates
//! to the containing page, `ceil` rounds up to the next page boundary.

use vstd::prelude::*;
use vstd::arithmetic::div_mod::{
    lemma_fundamental_div_mod, lemma_fundamental_div_mod_converse_div,
};

verus! {

/// Size of one page in bytes; a power of two.
pub const PAGE_SIZE: usize = 4096;

/// A byte address in the flat virtual address space.
#[derive(Clone, Copy, PartialEq, Eq, Structural, Debug)]
pub struct VirtAddr(pub usize);

/// The index of a virtual page: the address divided by `PAGE_SIZE`.
#[derive(Clone, Copy, PartialEq, Eq, Structural, Debug)]
pub struct VirtPageNum(pub usize);

/// Page containing byte `a`.
pub open spec fn page_floor(a: int) -> int {
    a / (PAGE_SIZE as int)
}

/// First page boundary at or after byte range end `a` (exclusive end page
/// for a range whose last byte sits just below `a * PAGE_SIZE`).
pub open spec fn page_ceil(a: int) -> int {
    (a + PAGE_SIZE - 1) / (PAGE_SIZE as int)
}

/// Whether `a` is an exact multiple of the page size.
pub open spec fn is_aligned(a: int) -> bool {
    a % (PAGE_SIZE as int) == 0
}

/// `page_ceil` computed from quotient and remainder.
pub proof fn lemma_page_ceil_value(a: int)
    requires
        0 <= a,
    ensures
        page_ceil(a) == page_floor(a) + if is_aligned(a) {
            0int
        } else {
            1int
        },
{
    let ps = PAGE_SIZE as int;
    let q = a / ps;
    let r = a % ps;
    lemma_fundamental_div_mod(a, ps);
    if r == 0 {
        lemma_fundamental_div_mod_converse_div(a + ps - 1, ps, q, ps - 1);
    } else {
        lemma_fundamental_div_mod_converse_div(a + ps - 1, ps, q + 1, r - 1);
    }
}

impl VirtAddr {
    /// Page number of the page containing this address.
    pub fn floor(self) -> (r: VirtPageNum)
        ensures
            r.0 == page_floor(self.0 as int),
    {
        VirtPageNum(self.0 / PAGE_SIZE)
    }

    /// Page number of the first page boundary at or after this address.
    pub fn ceil(self) -> (r: VirtPageNum)
        ensures
            r.0 == page_ceil(self.0 as int),
    {
        proof {
            lemma_page_ceil_value(self.0 as int);
        }
        if self.0 % PAGE_SIZE == 0 {
            VirtPageNum(self.0 / PAGE_SIZE)
        } else {
            VirtPageNum(self.0 / PAGE_SIZE + 1)
        }
    }

    /// Whether the address lies exactly on a page boundary.
    pub fn is_page_aligned(self) -> (r: bool)
        ensures
            r == is_aligned(self.0 as int),
    {
        self.0 % PAGE_SIZE == 0
    }
}

} // verus!

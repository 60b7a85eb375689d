//! The user-pointer translation path.
//!
//! Syscalls that read or write task memory may not dereference a
//! user-supplied address directly: every byte is first translated through
//! the task's page table to the physical location backing it. A value may
//! span a page boundary, so each byte is translated on its own; two
//! virtually adjacent bytes need not be physically adjacent. A translation
//! that touches an unmapped page, or asks to write through a read-only
//! mapping, fails; such a failure is the fatal invalid-user-pointer
//! condition, not an error code returned to the user program.

use vstd::prelude::*;
use crate::addr::PAGE_SIZE;
use crate::page_table::PageTable;
use vstd::arithmetic::div_mod::{
    lemma_fundamental_div_mod, lemma_fundamental_div_mod_converse_div,
};

verus! {

/// Why a user pointer could not be translated.
#[derive(Clone, Copy, PartialEq, Eq, Structural, Debug)]
pub enum TranslateError {
    /// Some page of the addressed range is not mapped.
    NotMapped,
    /// Every page is mapped, but some page refuses the requested write.
    NotWritable,
}

/// The page holding byte address `a`.
pub open spec fn addr_page(a: int) -> usize {
    (a / (PAGE_SIZE as int)) as usize
}

/// Byte `a` can be reached through the table; a write additionally needs
/// the mapping to be writable. The kernel-side translator does not demand
/// the User flag for its own accesses.
pub open spec fn addr_translatable(pt: PageTable, a: int, write: bool) -> bool {
    &&& pt.mapping().contains_key(addr_page(a))
    &&& write ==> pt.mapping()[addr_page(a)].1.writable
}

/// The physical byte address backing virtual byte `a`.
pub open spec fn addr_paddr(pt: PageTable, a: int) -> int {
    pt.mapping()[addr_page(a)].0 * PAGE_SIZE + a % (PAGE_SIZE as int)
}

/// Every byte of `[vaddr, vaddr + len)` can be reached, for writing when
/// `write` is set.
pub open spec fn range_translatable(pt: PageTable, vaddr: usize, len: int, write: bool) -> bool {
    forall|k: int| 0 <= k < len ==> #[trigger] addr_translatable(pt, vaddr + k, write)
}

/// Distinct virtual bytes translate to distinct physical bytes when no two
/// pages share a frame.
pub proof fn lemma_paddr_injective(pt: PageTable, a1: int, a2: int)
    requires
        pt.frames_injective(),
        addr_translatable(pt, a1, false),
        addr_translatable(pt, a2, false),
        0 <= a1 <= usize::MAX as int,
        0 <= a2 <= usize::MAX as int,
        a1 != a2,
    ensures
        addr_paddr(pt, a1) != addr_paddr(pt, a2),
{
    let ps = PAGE_SIZE as int;
    let p1 = addr_page(a1);
    let p2 = addr_page(a2);
    let f1 = pt.mapping()[p1].0 as int;
    let f2 = pt.mapping()[p2].0 as int;
    lemma_fundamental_div_mod(a1, ps);
    lemma_fundamental_div_mod(a2, ps);
    vstd::arithmetic::div_mod::lemma_div_pos_is_pos(a1, ps);
    vstd::arithmetic::div_mod::lemma_div_pos_is_pos(a2, ps);
    vstd::arithmetic::div_mod::lemma_div_nonincreasing(a1, ps);
    vstd::arithmetic::div_mod::lemma_div_nonincreasing(a2, ps);
    assert(p1 as int == a1 / ps);
    assert(p2 as int == a2 / ps);
    if p1 == p2 {
        assert(a1 % ps != a2 % ps);
    } else {
        assert(f1 != f2);
        lemma_fundamental_div_mod_converse_div(addr_paddr(pt, a1), ps, f1, a1 % ps);
        lemma_fundamental_div_mod_converse_div(addr_paddr(pt, a2), ps, f2, a2 % ps);
    }
}

/// Translates the byte range `[vaddr, vaddr + len)` to the physical byte
/// address of each byte. Fails with `NotMapped` when any page of the range
/// is unmapped, and otherwise with `NotWritable` when a write was asked
/// and some page of the range refuses it.
#[verifier::loop_isolation(false)]
pub fn translate(pt: &PageTable, vaddr: usize, len: usize, write: bool) -> (r: Result<
    Vec<usize>,
    TranslateError,
>)
    requires
        pt.wf(),
        vaddr as int + len as int <= usize::MAX as int + 1,
    ensures
        match r {
            Ok(v) => {
                &&& range_translatable(*pt, vaddr, len as int, write)
                &&& v@.len() == len
                &&& forall|k: int| 0 <= k < len ==> #[trigger] v@[k] == addr_paddr(*pt, vaddr + k)
            },
            Err(e) => {
                &&& !range_translatable(*pt, vaddr, len as int, write)
                &&& (e == TranslateError::NotMapped <==> !range_translatable(
                    *pt,
                    vaddr,
                    len as int,
                    false,
                ))
            },
        },
{
    // First pass: every page of the range must be mapped.
    let mut k: usize = 0;
    while k < len
        invariant
            k <= len,
            forall|j: int| 0 <= j < k ==> #[trigger] addr_translatable(*pt, vaddr + j, false),
        decreases len - k,
    {
        let page = (vaddr + k) / PAGE_SIZE;
        if pt.lookup(page).is_none() {
            proof {
                assert(!addr_translatable(*pt, vaddr + k, false));
                assert(!addr_translatable(*pt, vaddr + k, write));
                assert(!range_translatable(*pt, vaddr, len as int, false));
                assert(!range_translatable(*pt, vaddr, len as int, write));
            }
            return Err(TranslateError::NotMapped);
        }
        k = k + 1;
    }
    proof {
        assert(range_translatable(*pt, vaddr, len as int, false));
    }
    // Second pass: a write needs the Writable flag on every page.
    if write {
        let mut k2: usize = 0;
        while k2 < len
            invariant
                k2 <= len,
                forall|j: int| 0 <= j < k2 ==> #[trigger] addr_translatable(*pt, vaddr + j, true),
            decreases len - k2,
        {
            let page = (vaddr + k2) / PAGE_SIZE;
            match pt.lookup(page) {
                Some((_frame, perm)) => {
                    if !perm.writable {
                        proof {
                            assert(!addr_translatable(*pt, vaddr + k2, true));
                            assert(!range_translatable(*pt, vaddr, len as int, true));
                        }
                        return Err(TranslateError::NotWritable);
                    }
                },
                None => {
                    proof {
                        assert(addr_translatable(*pt, vaddr + k2, false));
                        assert(false);
                    }
                },
            }
            k2 = k2 + 1;
        }
    }
    // Third pass: resolve each byte to its physical address.
    let mut out: Vec<usize> = Vec::new();
    let mut k3: usize = 0;
    while k3 < len
        invariant
            k3 <= len,
            out@.len() == k3,
            forall|j: int| 0 <= j < k3 ==> #[trigger] out@[j] == addr_paddr(*pt, vaddr + j),
        decreases len - k3,
    {
        let a = vaddr + k3;
        let page = a / PAGE_SIZE;
        match pt.lookup(page) {
            Some((frame, _perm)) => {
                proof {
                    assert(addr_translatable(*pt, a as int, false));
                    pt.lemma_mapped_frame_in_range(addr_page(a as int));
                    vstd::arithmetic::div_mod::lemma_mod_division_less_than_divisor(
                        a as int,
                        PAGE_SIZE as int,
                    );
                    assert((frame as int + 1) * (PAGE_SIZE as int) <= usize::MAX as int + 1);
                }
                out.push(frame * PAGE_SIZE + a % PAGE_SIZE);
            },
            None => {
                proof {
                    assert(addr_translatable(*pt, a as int, false));
                    assert(false);
                }
                out.push(0);
            },
        }
        k3 = k3 + 1;
    }
    Ok(out)
}

/// Physical memory: the flat byte store the frames live in. Frame `f`
/// owns bytes `[f * PAGE_SIZE, (f + 1) * PAGE_SIZE)`.
pub struct PhysMemory {
    bytes: Vec<u8>,
}

impl PhysMemory {
    /// The bytes of physical memory.
    pub closed spec fn contents(&self) -> Seq<u8> {
        self.bytes@
    }

    /// Zeroed physical memory large enough for `frames` frames.
    pub fn new(frames: usize) -> (r: PhysMemory)
        requires
            frames as int * PAGE_SIZE as int <= usize::MAX as int,
        ensures
            r.contents().len() == frames as int * PAGE_SIZE as int,
            forall|p: int| 0 <= p < r.contents().len() ==> r.contents()[p] == 0,
    {
        let size = frames * PAGE_SIZE;
        let mut bytes: Vec<u8> = Vec::new();
        let mut i: usize = 0;
        while i < size
            invariant
                i <= size,
                bytes@.len() == i,
                forall|p: int| 0 <= p < i ==> bytes@[p] == 0,
            decreases size - i,
        {
            bytes.push(0);
            i = i + 1;
        }
        PhysMemory { bytes }
    }

    /// How many bytes of physical memory there are.
    pub fn mem_len(&self) -> (r: usize)
        ensures
            r == self.contents().len(),
    {
        self.bytes.len()
    }

    /// The byte at physical address `pa`.
    pub fn read_byte(&self, pa: usize) -> (b: u8)
        requires
            pa < self.contents().len(),
        ensures
            b == self.contents()[pa as int],
    {
        self.bytes[pa]
    }

    /// Replaces the byte at physical address `pa`.
    pub fn write_byte(&mut self, pa: usize, b: u8)
        requires
            pa < old(self).contents().len(),
        ensures
            final(self).contents() == old(self).contents().update(pa as int, b),
    {
        self.bytes.set(pa, b);
    }
}

/// Every frame of the table lies inside a physical memory of `mlen`
/// bytes.
pub open spec fn pt_frames_within(pt: PageTable, mlen: int) -> bool {
    forall|v: usize|
        #[trigger] pt.mapping().contains_key(v) ==> (pt.mapping()[v].0 as int + 1) * (
        PAGE_SIZE as int) <= mlen
}

/// How a write of `data` at user address `vaddr` changes physical memory:
/// the translated byte locations carry `data`, every other byte is
/// untouched.
pub open spec fn wrote_user_bytes(
    pt: PageTable,
    m0: Seq<u8>,
    m1: Seq<u8>,
    vaddr: usize,
    data: Seq<u8>,
) -> bool {
    &&& m1.len() == m0.len()
    &&& forall|k: int|
        #![trigger addr_paddr(pt, vaddr + k)]
        0 <= k < data.len() ==> m1[addr_paddr(pt, vaddr + k)] == data[k]
    &&& forall|p: int|
        #![trigger m1[p]]
        0 <= p < m0.len() && !(exists|k: int|
            0 <= k < data.len() && p == #[trigger] addr_paddr(pt, vaddr + k)) ==> m1[p] == m0[p]
}

/// Copies `data` into the task memory at `vaddr`, translating every byte.
/// Fails, leaving memory untouched, exactly when the range cannot be
/// translated for writing.
#[verifier::loop_isolation(false)]
pub fn write_user_bytes(
    pt: &PageTable,
    mem: &mut PhysMemory,
    vaddr: usize,
    data: &Vec<u8>,
) -> (r: Result<(), TranslateError>)
    requires
        pt.wf(),
        pt.frames_injective(),
        pt_frames_within(*pt, old(mem).contents().len() as int),
        vaddr as int + data@.len() <= usize::MAX as int + 1,
    ensures
        r is Ok <==> range_translatable(*pt, vaddr, data@.len() as int, true),
        r is Ok ==> wrote_user_bytes(
            *pt,
            old(mem).contents(),
            final(mem).contents(),
            vaddr,
            data@,
        ),
        r matches Err(e) ==> *final(mem) == *old(mem) && (e == TranslateError::NotMapped <==> !range_translatable(
            *pt,
            vaddr,
            data@.len() as int,
            false,
        )),
    {
    let paddrs = match translate(pt, vaddr, data.len(), true) {
        Ok(v) => v,
        Err(e) => {
            return Err(e);
        },
    };
    let n = data.len();
    let mut k: usize = 0;
    while k < n
        invariant
            k <= n,
            n == data@.len(),
            paddrs@.len() == n,
            forall|j: int| 0 <= j < n ==> #[trigger] paddrs@[j] == addr_paddr(*pt, vaddr + j),
            mem.contents().len() == old(mem).contents().len(),
            forall|j: int|
                #![trigger addr_paddr(*pt, vaddr + j)]
                0 <= j < k ==> mem.contents()[addr_paddr(*pt, vaddr + j)] == data@[j],
            forall|p: int|
                #![trigger mem.contents()[p]]
                0 <= p < mem.contents().len() && !(exists|j: int|
                    0 <= j < k && p == #[trigger] addr_paddr(*pt, vaddr + j))
                    ==> mem.contents()[p] == old(mem).contents()[p],
        decreases n - k,
    {
        proof {
            assert(addr_translatable(*pt, vaddr + k, true));
            assert(addr_translatable(*pt, vaddr + k, false));
            let page = addr_page(vaddr + k as int);
            assert((pt.mapping()[page].0 as int + 1) * (PAGE_SIZE as int)
                <= mem.contents().len());
            vstd::arithmetic::div_mod::lemma_mod_division_less_than_divisor(
                vaddr + k as int,
                PAGE_SIZE as int,
            );
            assert(addr_paddr(*pt, vaddr + k) < mem.contents().len());
        }
        let pa = paddrs[k];
        mem.write_byte(pa, data[k]);
        proof {
            assert forall|j: int|
                #![trigger addr_paddr(*pt, vaddr + j)]
                0 <= j < k + 1 implies mem.contents()[addr_paddr(*pt, vaddr + j)] == data@[
            j] by {
                if j < k {
                    assert(addr_translatable(*pt, vaddr + j, true));
                    assert(addr_translatable(*pt, vaddr + j, false));
                    lemma_paddr_injective(*pt, vaddr + j, vaddr + k as int);
                }
            }
        }
        k = k + 1;
    }
    Ok(())
}

/// Reads `len` bytes of task memory at `vaddr`, translating every byte.
/// Fails exactly when some page of the range is unmapped.
#[verifier::loop_isolation(false)]
pub fn read_user_bytes(pt: &PageTable, mem: &PhysMemory, vaddr: usize, len: usize) -> (r:
    Result<Vec<u8>, TranslateError>)
    requires
        pt.wf(),
        pt_frames_within(*pt, mem.contents().len() as int),
        vaddr as int + len as int <= usize::MAX as int + 1,
    ensures
        r is Ok <==> range_translatable(*pt, vaddr, len as int, false),
        r matches Ok(v) ==> v@.len() == len && forall|k: int|
            #![trigger addr_paddr(*pt, vaddr + k)]
            0 <= k < len ==> v@[k] == mem.contents()[addr_paddr(*pt, vaddr + k)],
        r matches Err(e) ==> e == TranslateError::NotMapped,
{
    let paddrs = match translate(pt, vaddr, len, false) {
        Ok(v) => v,
        Err(e) => {
            return Err(e);
        },
    };
    let mut out: Vec<u8> = Vec::new();
    let mut k: usize = 0;
    while k < len
        invariant
            k <= len,
            paddrs@.len() == len,
            forall|j: int| 0 <= j < len ==> #[trigger] paddrs@[j] == addr_paddr(*pt, vaddr + j),
            out@.len() == k,
            forall|j: int|
                #![trigger addr_paddr(*pt, vaddr + j)]
                0 <= j < k ==> out@[j] == mem.contents()[addr_paddr(*pt, vaddr + j)],
        decreases len - k,
    {
        proof {
            assert(addr_translatable(*pt, vaddr + k, false));
            let page = addr_page(vaddr + k as int);
            assert((pt.mapping()[page].0 as int + 1) * (PAGE_SIZE as int)
                <= mem.contents().len());
            vstd::arithmetic::div_mod::lemma_mod_division_less_than_divisor(
                vaddr + k as int,
                PAGE_SIZE as int,
            );
            assert(addr_paddr(*pt, vaddr + k) < mem.contents().len());
        }
        let pa = paddrs[k];
        out.push(mem.read_byte(pa));
        k = k + 1;
    }
    Ok(out)
}

} // verus!

//! Address spaces: ordered collections of non-overlapping memory areas.
//!
//! A memory area is a contiguous half-open range of virtual pages sharing
//! one permission set, each page backed by a physical frame the area owns.
//! An address space (memory set) is a list of pairwise disjoint areas plus
//! the page table holding the per-page mappings. Region-level map and unmap
//! are atomic: they either perform the whole requested change or leave the
//! address space untouched.

use vstd::prelude::*;
use crate::addr::{PAGE_SIZE, page_floor, page_ceil, is_aligned, lemma_page_ceil_value};
use crate::frame::{FrameAllocator, frame_in_range};
use crate::page_table::PageTable;
use crate::perm::{MapPermission, valid_port_bits, perm_of_bits};
use vstd::arithmetic::div_mod::{lemma_div_is_ordered, lemma_div_is_strictly_smaller};

verus! {

/// A contiguous run of mapped pages `[start, end)` with one permission set.
/// The area owns one physical frame per page: `frames[k]` backs page
/// `start + k`.
pub struct MemoryArea {
    /// First page of the area.
    pub start: usize,
    /// One past the last page of the area.
    pub end: usize,
    /// Permission all pages of the area share.
    pub perm: MapPermission,
    /// Owned backing frames, one per page in order.
    pub frames: Vec<usize>,
}

impl MemoryArea {
    /// A nonempty page range with exactly one in-range frame per page.
    pub open spec fn wf(&self) -> bool {
        &&& self.start < self.end
        &&& self.frames@.len() == self.end - self.start
        &&& forall|k: int|
            0 <= k < self.frames@.len() ==> frame_in_range(#[trigger] self.frames@[k])
    }

    /// Page `vpn` lies in the area.
    pub open spec fn contains_page(&self, vpn: usize) -> bool {
        self.start <= vpn < self.end
    }
}

/// Two areas cover disjoint page ranges.
pub open spec fn areas_disjoint(a: MemoryArea, b: MemoryArea) -> bool {
    a.end <= b.start || b.end <= a.start
}

/// Why a region-level map request was rejected.
#[derive(Clone, Copy, PartialEq, Eq, Structural, Debug)]
pub enum MmapError {
    /// The start address is not page-aligned.
    Misaligned,
    /// The permission bits are out of range or name no access right.
    InvalidPermission,
    /// The requested range intersects an existing area.
    Overlap,
    /// The frame allocator cannot back every page of the range.
    OutOfMemory,
}

/// Why a region-level unmap request was rejected.
#[derive(Clone, Copy, PartialEq, Eq, Structural, Debug)]
pub enum MunmapError {
    /// Some page of the range is unmapped, or the range cuts an area in
    /// two instead of covering whole areas.
    NotMapped,
}

/// An address space: the owning page table plus pairwise disjoint areas.
pub struct MemorySet {
    /// Per-page mappings of this address space.
    pub page_table: PageTable,
    /// The areas, in insertion order.
    pub areas: Vec<MemoryArea>,
}

impl MemorySet {
    /// Well-formedness: every area is well-formed, areas are pairwise
    /// disjoint, and the page table holds exactly the pages of the areas,
    /// each with its area's frame and permission.
    pub open spec fn wf(&self) -> bool {
        &&& self.page_table.wf()
        &&& forall|i: int| 0 <= i < self.areas@.len() ==> (#[trigger] self.areas@[i]).wf()
        &&& forall|i: int, j: int|
            0 <= i < j < self.areas@.len() ==> areas_disjoint(self.areas@[i], self.areas@[j])
        &&& forall|i: int, vpn: usize|
            0 <= i < self.areas@.len() && #[trigger] self.areas@[i].contains_page(vpn)
                ==> self.page_table.mapping().contains_key(vpn) && self.page_table.mapping()[vpn]
                == (self.areas@[i].frames@[vpn - self.areas@[i].start], self.areas@[i].perm)
        &&& forall|vpn: usize|
            #[trigger] self.page_table.mapping().contains_key(vpn) ==> exists|i: int|
                0 <= i < self.areas@.len() && #[trigger] self.areas@[i].contains_page(vpn)
    }

    /// The page range `[s, e)` intersects some existing area.
    pub open spec fn range_overlaps_areas(&self, s: int, e: int) -> bool {
        exists|i: int|
            0 <= i < self.areas@.len() && (#[trigger] self.areas@[i]).start < e
                && s < self.areas@[i].end
    }

    /// An empty address space.
    pub fn new() -> (r: MemorySet)
        ensures
            r.wf(),
            r.areas@.len() == 0,
            forall|vpn: usize| !r.page_table.mapping().contains_key(vpn),
            r.page_table.frames_injective(),
    {
        MemorySet { page_table: PageTable::new(), areas: Vec::new() }
    }
}

/// The address space and the allocator agree: the allocator's pool is
/// duplicate-free, no free frame backs a mapped page, and no frame backs
/// two pages.
pub open spec fn consistent(ms: MemorySet, fa: FrameAllocator) -> bool {
    &&& fa.wf()
    &&& ms.page_table.frames_injective()
    &&& forall|k: int|
        0 <= k < fa.free_list().len() ==> !ms.page_table.frame_mapped(
            #[trigger] fa.free_list()[k],
        )
}

/// The outcome `map_region` decides for a request, `None` meaning success.
/// Permission bits are validated first, then alignment; a request covering
/// no whole page is a successful no-op.
pub open spec fn map_region_err(
    ms: MemorySet,
    fa: FrameAllocator,
    start: usize,
    len: usize,
    port: usize,
) -> Option<MmapError> {
    if !valid_port_bits(port as int) {
        Some(MmapError::InvalidPermission)
    } else if !is_aligned(start as int) {
        Some(MmapError::Misaligned)
    } else if len == 0 {
        None
    } else {
        let s = page_floor(start as int);
        let e = page_ceil(start as int + len - 1);
        if e <= s {
            None
        } else if ms.range_overlaps_areas(s, e) {
            Some(MmapError::Overlap)
        } else if fa.free_list().len() < e - s {
            Some(MmapError::OutOfMemory)
        } else {
            None
        }
    }
}

/// How a successful `map_region` over pages `[s, e)` changes the address
/// space and the allocator: one new area at the end covering exactly the
/// range, its frames taken from the top of the free pool, the page table
/// extended page by page, and nothing else moved.
pub open spec fn map_region_post(
    ms0: MemorySet,
    fa0: FrameAllocator,
    ms1: MemorySet,
    fa1: FrameAllocator,
    s: int,
    e: int,
    perm: MapPermission,
) -> bool {
    if e <= s {
        ms1 == ms0 && fa1 == fa0
    } else {
        let n = e - s;
        let fl = fa0.free_list();
        let area = ms1.areas@.last();
        &&& ms1.areas@.len() == ms0.areas@.len() + 1
        &&& ms1.areas@ == ms0.areas@.push(area)
        &&& area.start == s
        &&& area.end == e
        &&& area.perm == perm
        &&& area.frames@.len() == n
        &&& forall|k: int| 0 <= k < n ==> area.frames@[k] == fl[fl.len() - 1 - k]
        &&& fa1.free_list() == fl.take(fl.len() - n)
        &&& forall|v: usize|
            #![trigger ms1.page_table.mapping().contains_key(v)]
            #![trigger ms1.page_table.mapping()[v]]
            s <= v < e ==> ms1.page_table.mapping().contains_key(v)
                && ms1.page_table.mapping()[v] == (area.frames@[v - s], perm)
        &&& forall|v: usize|
            !(s <= v < e) ==> ((#[trigger] ms1.page_table.mapping().contains_key(v))
                <==> ms0.page_table.mapping().contains_key(v))
        &&& forall|v: usize|
            !(s <= v < e) && ms0.page_table.mapping().contains_key(v)
                ==> #[trigger] ms1.page_table.mapping()[v] == ms0.page_table.mapping()[v]
    }
}

/// Packaging of the conjuncts of `map_region_post` for a nonempty range.
proof fn lemma_map_region_post_intro(
    ms0: MemorySet,
    fa0: FrameAllocator,
    ms1: MemorySet,
    fa1: FrameAllocator,
    s: int,
    e: int,
    perm: MapPermission,
)
    requires
        e > s,
        ms1.areas@.len() == ms0.areas@.len() + 1,
        ms1.areas@ == ms0.areas@.push(ms1.areas@.last()),
        ms1.areas@.last().start == s,
        ms1.areas@.last().end == e,
        ms1.areas@.last().perm == perm,
        ms1.areas@.last().frames@.len() == e - s,
        forall|k: int|
            0 <= k < e - s ==> ms1.areas@.last().frames@[k] == fa0.free_list()[fa0.free_list().len()
                - 1 - k],
        fa1.free_list() == fa0.free_list().take(fa0.free_list().len() - (e - s)),
        forall|v: usize|
            #![trigger ms1.page_table.mapping().contains_key(v)]
            #![trigger ms1.page_table.mapping()[v]]
            s <= v < e ==> ms1.page_table.mapping().contains_key(v)
                && ms1.page_table.mapping()[v] == (ms1.areas@.last().frames@[v - s], perm),
        forall|v: usize|
            !(s <= v < e) ==> ((#[trigger] ms1.page_table.mapping().contains_key(v))
                <==> ms0.page_table.mapping().contains_key(v)),
        forall|v: usize|
            !(s <= v < e) && ms0.page_table.mapping().contains_key(v)
                ==> #[trigger] ms1.page_table.mapping()[v] == ms0.page_table.mapping()[v],
    ensures
        map_region_post(ms0, fa0, ms1, fa1, s, e, perm),
{
}

impl MemorySet {
    /// Maps the byte range `[start, start + len)` with the permissions the
    /// raw `port` bits request, plus the implicit User flag. Validates the
    /// bits, then alignment; rejects ranges overlapping an existing area;
    /// backs every page with a fresh frame. On any error the address space
    /// and the allocator are unchanged.
    #[verifier::loop_isolation(false)]
    #[verifier::rlimit(100)]
    pub fn map_region(&mut self, fa: &mut FrameAllocator, start: usize, len: usize, port: usize)
        -> (r: Result<(), MmapError>)
        requires
            old(self).wf(),
            consistent(*old(self), *old(fa)),
            len == 0 || start as int + len as int - 1 <= usize::MAX as int,
        ensures
            final(self).wf(),
            consistent(*final(self), *final(fa)),
            match r {
                Ok(()) => {
                    &&& map_region_err(*old(self), *old(fa), start, len, port) is None
                    &&& if len == 0 {
                        *final(self) == *old(self) && *final(fa) == *old(fa)
                    } else {
                        map_region_post(
                            *old(self),
                            *old(fa),
                            *final(self),
                            *final(fa),
                            page_floor(start as int),
                            page_ceil(start as int + len - 1),
                            perm_of_bits(port as int),
                        )
                    }
                },
                Err(e) => {
                    &&& map_region_err(*old(self), *old(fa), start, len, port) == Some(e)
                    &&& *final(self) == *old(self)
                    &&& *final(fa) == *old(fa)
                },
            },
    {
        let perm = match MapPermission::from_bits(port) {
            Ok(p) => p,
            Err(_) => {
                return Err(MmapError::InvalidPermission);
            },
        };
        if start % PAGE_SIZE != 0 {
            return Err(MmapError::Misaligned);
        }
        if len == 0 {
            return Ok(());
        }
        let last_byte: usize = start + (len - 1);
        proof {
            lemma_page_ceil_value(last_byte as int);
            lemma_div_is_ordered(last_byte as int, usize::MAX as int, PAGE_SIZE as int);
            lemma_div_is_strictly_smaller(usize::MAX as int, PAGE_SIZE as int);
        }
        let spage: usize = start / PAGE_SIZE;
        let epage: usize = if last_byte % PAGE_SIZE == 0 {
            last_byte / PAGE_SIZE
        } else {
            last_byte / PAGE_SIZE + 1
        };
        if epage <= spage {
            return Ok(());
        }
        let n_areas = self.areas.len();
        let mut i: usize = 0;
        while i < n_areas
            invariant
                i <= n_areas,
                n_areas == self.areas@.len(),
                forall|k: int|
                    0 <= k < i ==> !((#[trigger] self.areas@[k]).start < epage
                        && spage < self.areas@[k].end),
            decreases n_areas - i,
        {
            let a_start = self.areas[i].start;
            let a_end = self.areas[i].end;
            if a_start < epage && spage < a_end {
                proof {
                    assert(self.range_overlaps_areas(spage as int, epage as int));
                }
                return Err(MmapError::Overlap);
            }
            i = i + 1;
        }
        proof {
            assert(!self.range_overlaps_areas(spage as int, epage as int));
        }
        let npages: usize = epage - spage;
        if fa.free_count() < npages {
            return Err(MmapError::OutOfMemory);
        }
        let ghost pre = *self;
        let ghost fpre = *fa;
        let ghost fl = fpre.free_list();
        let mut frames: Vec<usize> = Vec::new();
        let mut k: usize = 0;
        while k < npages
            invariant
                k <= npages,
                frames@.len() == k,
                self.areas@ == pre.areas@,
                fa.free_list() == fl.take(fl.len() - k),
                forall|j: int| 0 <= j < k ==> frames@[j] == fl[fl.len() - 1 - j],
                forall|j: int| 0 <= j < k ==> frame_in_range(#[trigger] frames@[j]),
                self.page_table.wf(),
                forall|v: usize|
                    #![trigger self.page_table.mapping().contains_key(v)]
                    #![trigger self.page_table.mapping()[v]]
                    spage <= v < spage + k ==> self.page_table.mapping().contains_key(v)
                        && self.page_table.mapping()[v] == (frames@[v - spage], perm),
                forall|v: usize|
                    !(spage <= v < spage + k) ==> ((
                    #[trigger] self.page_table.mapping().contains_key(v))
                        <==> pre.page_table.mapping().contains_key(v)),
                forall|v: usize|
                    !(spage <= v < spage + k) && pre.page_table.mapping().contains_key(v)
                        ==> #[trigger] self.page_table.mapping()[v]
                        == pre.page_table.mapping()[v],
                self.page_table.frames_injective(),
                forall|j: int|
                    0 <= j < fa.free_list().len() ==> !self.page_table.frame_mapped(
                        #[trigger] fa.free_list()[j],
                    ),
            decreases npages - k,
        {
            proof {
                assert(fa.free_list().len() == fl.len() - k);
            }
            let f = match fa.alloc_frame() {
                Some(f) => f,
                None => {
                    proof {
                        assert(false);
                    }
                    0
                },
            };
            proof {
                assert(f == fl.take(fl.len() - k).last());
                assert(f == fl[fl.len() - 1 - k]);
                assert(fa.free_list() =~= fl.take(fl.len() - (k + 1)));
                assert(frame_in_range(f));
                let vnew: usize = (spage + k) as usize;
                assert(!self.page_table.mapping().contains_key(vnew)) by {
                    if pre.page_table.mapping().contains_key(vnew) {
                        let ai = choose|ai: int|
                            0 <= ai < pre.areas@.len() && #[trigger] pre.areas@[ai].contains_page(vnew);
                        assert(pre.areas@[ai].start < epage && spage < pre.areas@[ai].end);
                    }
                }
            }
            frames.push(f);
            let ghost pt_before = self.page_table;
            self.page_table.insert(spage + k, f, perm);
            proof {
                let m0 = pt_before.mapping();
                let m1 = self.page_table.mapping();
                let vnew: usize = (spage + k) as usize;
                assert(m1 == m0.insert(vnew, (f, perm)));
                // Frames handed out so far are distinct elements of the old
                // free pool, so the new mapping stays injective.
                assert forall|v1: usize, v2: usize|
                    m1.contains_key(v1) && m1.contains_key(v2) && v1 != v2 implies (
                #[trigger] m1[v1]).0 != (#[trigger] m1[v2]).0 by {
                    if v1 != vnew && v2 != vnew {
                        assert(m1[v1] == m0[v1] && m1[v2] == m0[v2]);
                    } else {
                        let vo = if v1 == vnew {
                            v2
                        } else {
                            v1
                        };
                        assert(m1[vnew].0 == f);
                        assert(m0.contains_key(vo));
                        if spage <= vo < spage + k {
                            assert(m0[vo].0 == frames@.drop_last()[vo - spage]);
                            assert(m0[vo].0 == fl[fl.len() - 1 - (vo - spage)]);
                            assert(fl.no_duplicates());
                            assert(fl[fl.len() - 1 - (vo - spage)] != fl[fl.len() - 1 - k]);
                        } else {
                            assert(pre.page_table.mapping().contains_key(vo));
                            assert(m0[vo] == pre.page_table.mapping()[vo]);
                            assert(!pre.page_table.frame_mapped(f)) by {
                                assert(fl[fl.len() - 1 - k] == fpre.free_list()[fl.len() - 1
                                    - k]);
                            }
                            assert(m0[vo].0 != f);
                        }
                    }
                }
                // Remaining free frames still back no mapped page.
                assert forall|j: int|
                    0 <= j < fa.free_list().len() implies !self.page_table.frame_mapped(
                    #[trigger] fa.free_list()[j]) by {
                    let g = fa.free_list()[j];
                    assert(g == fl[j]);
                    assert(!pt_before.frame_mapped(g)) by {
                        assert(fl.take(fl.len() - k)[j] == fl[j]);
                    }
                    assert(fl.no_duplicates());
                    assert(g != fl[fl.len() - 1 - k]);
                    if self.page_table.frame_mapped(g) {
                        let v = choose|v: usize|
                            m1.contains_key(v) && (#[trigger] m1[v]).0 == g;
                        if v == vnew {
                            assert(m1[v].0 == f);
                        } else {
                            assert(m0.contains_key(v) && m0[v] == m1[v]);
                            assert(pt_before.frame_mapped(g));
                        }
                    }
                }
            }
            k = k + 1;
        }
        let area = MemoryArea { start: spage, end: epage, perm, frames };
        self.areas.push(area);
        proof {
            let post_area = self.areas@.last();
            assert(self.areas@ == pre.areas@.push(post_area));
            // Old areas are untouched and disjoint from the new range.
            assert forall|i2: int| 0 <= i2 < self.areas@.len() implies (
            #[trigger] self.areas@[i2]).wf() by {
                if i2 < pre.areas@.len() {
                    assert(self.areas@[i2] == pre.areas@[i2]);
                }
            }
            assert forall|i2: int, j2: int|
                0 <= i2 < j2 < self.areas@.len() implies areas_disjoint(
                self.areas@[i2],
                self.areas@[j2],
            ) by {
                if j2 < pre.areas@.len() {
                    assert(self.areas@[i2] == pre.areas@[i2]);
                    assert(self.areas@[j2] == pre.areas@[j2]);
                } else {
                    assert(self.areas@[i2] == pre.areas@[i2]);
                    assert(self.areas@[j2] == post_area);
                    assert(!(pre.areas@[i2].start < epage && spage < pre.areas@[i2].end));
                }
            }
            assert forall|i2: int, vpn: usize|
                0 <= i2 < self.areas@.len() && #[trigger] self.areas@[i2].contains_page(vpn)
                implies self.page_table.mapping().contains_key(vpn)
                && self.page_table.mapping()[vpn] == (
                self.areas@[i2].frames@[vpn - self.areas@[i2].start],
                self.areas@[i2].perm,
            ) by {
                if i2 < pre.areas@.len() {
                    assert(self.areas@[i2] == pre.areas@[i2]);
                    assert(!(pre.areas@[i2].start < epage && spage < pre.areas@[i2].end));
                    assert(!(spage <= vpn < epage));
                    assert(pre.page_table.mapping().contains_key(vpn));
                } else {
                    assert(self.areas@[i2] == post_area);
                    assert(spage <= vpn < epage);
                }
            }
            assert forall|vpn: usize|
                #[trigger] self.page_table.mapping().contains_key(vpn) implies exists|i2: int|
                0 <= i2 < self.areas@.len() && #[trigger] self.areas@[i2].contains_page(vpn) by {
                if spage <= vpn < epage {
                    assert(self.areas@[pre.areas@.len() as int].contains_page(vpn));
                } else {
                    assert(pre.page_table.mapping().contains_key(vpn));
                    let i2 = choose|i2: int|
                        0 <= i2 < pre.areas@.len() && #[trigger] pre.areas@[i2].contains_page(vpn);
                    assert(self.areas@[i2].contains_page(vpn));
                }
            }
            assert(self.wf());
            let n = epage as int - spage as int;
            assert(self.areas@.len() == pre.areas@.len() + 1);
            assert(self.areas@ == pre.areas@.push(post_area));
            assert(post_area.start == spage && post_area.end == epage);
            assert(post_area.perm == perm_of_bits(port as int));
            assert(post_area.frames@.len() == n);
            assert(forall|k2: int|
                0 <= k2 < n ==> post_area.frames@[k2] == fl[fl.len() - 1 - k2]);
            assert(fa.free_list() == fl.take(fl.len() - n));
            assert(perm == perm_of_bits(port as int));
            assert(forall|v: usize|
                #![trigger self.page_table.mapping().contains_key(v)]
                #![trigger self.page_table.mapping()[v]]
                spage <= v < epage ==> self.page_table.mapping().contains_key(v)
                    && self.page_table.mapping()[v] == (post_area.frames@[v - spage], perm));
            assert(post_area == self.areas@.last());
            assert(forall|v: usize|
                #![trigger self.page_table.mapping().contains_key(v)]
                #![trigger self.page_table.mapping()[v]]
                spage <= v < epage ==> self.page_table.mapping().contains_key(v)
                    && self.page_table.mapping()[v] == (
                self.areas@.last().frames@[v - spage],
                perm_of_bits(port as int),
                ));
            assert(forall|v: usize|
                !(spage <= v < epage) ==> ((
                #[trigger] self.page_table.mapping().contains_key(v))
                    <==> pre.page_table.mapping().contains_key(v)));
            assert(forall|v: usize|
                !(spage <= v < epage) && pre.page_table.mapping().contains_key(v)
                    ==> #[trigger] self.page_table.mapping()[v]
                    == pre.page_table.mapping()[v]);
            lemma_map_region_post_intro(
                pre,
                fpre,
                *self,
                *fa,
                spage as int,
                epage as int,
                perm_of_bits(port as int),
            );
        }
        Ok(())
    }
}

/// The page range `[s, e)` fully covers area `a`.
pub open spec fn area_contained(a: MemoryArea, s: int, e: int) -> bool {
    s <= a.start && a.end <= e
}

/// Area `a` shares at least one page with the range `[s, e)`.
pub open spec fn area_intersects(a: MemoryArea, s: int, e: int) -> bool {
    a.start < e && s < a.end
}

/// The areas left after unmapping `[s, e)`: those not fully covered by the
/// range, in their original order.
pub open spec fn keep_areas(areas: Seq<MemoryArea>, s: int, e: int) -> Seq<MemoryArea>
    decreases areas.len(),
{
    if areas.len() == 0 {
        Seq::empty()
    } else if area_contained(areas.last(), s, e) {
        keep_areas(areas.drop_last(), s, e)
    } else {
        keep_areas(areas.drop_last(), s, e).push(areas.last())
    }
}

/// Total number of pages of the areas removed by unmapping `[s, e)`.
pub open spec fn removed_page_count(areas: Seq<MemoryArea>, s: int, e: int) -> int
    decreases areas.len(),
{
    if areas.len() == 0 {
        0
    } else if area_contained(areas.last(), s, e) {
        removed_page_count(areas.drop_last(), s, e) + (areas.last().end - areas.last().start)
    } else {
        removed_page_count(areas.drop_last(), s, e)
    }
}

/// Removed pages are counted from well-formed areas, so the count is
/// never negative.
pub proof fn lemma_removed_page_count_nonneg(areas: Seq<MemoryArea>, s: int, e: int)
    requires
        forall|i: int| 0 <= i < areas.len() ==> (#[trigger] areas[i]).wf(),
    ensures
        removed_page_count(areas, s, e) >= 0,
    decreases areas.len(),
{
    if areas.len() > 0 {
        assert(areas[areas.len() - 1] == areas.last());
        assert forall|i: int| 0 <= i < areas.drop_last().len() implies (
        #[trigger] areas.drop_last()[i]).wf() by {
            assert(areas.drop_last()[i] == areas[i]);
        }
        lemma_removed_page_count_nonneg(areas.drop_last(), s, e);
    }
}

/// Page `vpn` belongs to an area that unmapping `[s, e)` removes.
pub open spec fn page_removed(areas: Seq<MemoryArea>, s: int, e: int, vpn: usize) -> bool {
    exists|i: int|
        0 <= i < areas.len() && area_contained(#[trigger] areas[i], s, e)
            && areas[i].contains_page(vpn)
}

/// Every page of `[s, e)` is mapped in the address space.
pub open spec fn range_fully_mapped(ms: MemorySet, s: int, e: int) -> bool {
    forall|v: usize| s <= v < e ==> #[trigger] ms.page_table.mapping().contains_key(v)
}

/// Some area sticks out of the range `[s, e)` while sharing pages with it,
/// so unmapping the range would cut that area.
pub open spec fn range_splits_area(ms: MemorySet, s: int, e: int) -> bool {
    exists|i: int|
        0 <= i < ms.areas@.len() && area_intersects(#[trigger] ms.areas@[i], s, e)
            && !area_contained(ms.areas@[i], s, e)
}

/// The outcome `unmap_region` decides for a request, `None` meaning
/// success. Alignment is the caller's concern: the byte range is widened to
/// page boundaries. A request covering no whole page succeeds as a no-op.
pub open spec fn unmap_region_err(ms: MemorySet, start: usize, len: usize) -> Option<
    MunmapError,
> {
    if len == 0 {
        None
    } else {
        let s = page_floor(start as int);
        let e = page_ceil(start as int + len - 1);
        if e <= s {
            None
        } else if !range_fully_mapped(ms, s, e) || range_splits_area(ms, s, e) {
            Some(MunmapError::NotMapped)
        } else {
            None
        }
    }
}

/// How a successful `unmap_region` over pages `[s, e)` changes the address
/// space and the allocator: the covered areas disappear, their pages leave
/// the page table, and their frames rejoin the free pool behind the frames
/// that were already free.
pub open spec fn unmap_region_post(
    ms0: MemorySet,
    fa0: FrameAllocator,
    ms1: MemorySet,
    fa1: FrameAllocator,
    s: int,
    e: int,
) -> bool {
    if e <= s {
        ms1 == ms0 && fa1 == fa0
    } else {
        &&& ms1.areas@ == keep_areas(ms0.areas@, s, e)
        &&& forall|v: usize|
            s <= v < e ==> !(#[trigger] ms1.page_table.mapping().contains_key(v))
        &&& forall|v: usize|
            !(s <= v < e) ==> ((#[trigger] ms1.page_table.mapping().contains_key(v))
                <==> ms0.page_table.mapping().contains_key(v))
        &&& forall|v: usize|
            !(s <= v < e) && ms0.page_table.mapping().contains_key(v)
                ==> #[trigger] ms1.page_table.mapping()[v] == ms0.page_table.mapping()[v]
        &&& fa1.free_list().len() == fa0.free_list().len() + removed_page_count(
            ms0.areas@,
            s,
            e,
        )
        &&& forall|j: int|
            0 <= j < fa0.free_list().len() ==> #[trigger] fa1.free_list()[j]
                == fa0.free_list()[j]
    }
}

/// The first `l0` free-pool entries are unchanged.
pub open spec fn free_prefix_ok(fl: Seq<usize>, base: Seq<usize>, l0: int) -> bool {
    forall|m: int| 0 <= m < l0 ==> #[trigger] fl[m] == base[m]
}

/// Every free-pool entry past the first `l0` is the frame of some page
/// that was mapped before and is no longer mapped now.
pub open spec fn freed_frames_ok(
    pre_pt: PageTable,
    cur_pt: PageTable,
    fl: Seq<usize>,
    l0: int,
) -> bool {
    forall|m: int|
        #![trigger fl[m]]
        l0 <= m < fl.len() ==> exists|u: usize|
            #[trigger] pre_pt.mapping().contains_key(u) && !cur_pt.mapping().contains_key(u)
                && fl[m] == pre_pt.mapping()[u].0
}

/// When no area of the list is covered by the range, unmapping keeps every
/// area and frees no page.
pub proof fn lemma_keep_areas_all(areas: Seq<MemoryArea>, s: int, e: int)
    requires
        forall|i: int| 0 <= i < areas.len() ==> !area_contained(#[trigger] areas[i], s, e),
    ensures
        keep_areas(areas, s, e) == areas,
        removed_page_count(areas, s, e) == 0,
    decreases areas.len(),
{
    if areas.len() == 0 {
        assert(keep_areas(areas, s, e) =~= areas);
    } else {
        assert(!area_contained(areas.last(), s, e)) by {
            assert(areas[areas.len() - 1] == areas.last());
        }
        lemma_keep_areas_all(areas.drop_last(), s, e);
        assert(keep_areas(areas, s, e) =~= areas);
    }
}

/// The kept areas are exactly the original areas the range does not cover,
/// and keeping cannot introduce duplicates.
pub proof fn lemma_keep_areas_sub(areas: Seq<MemoryArea>, s: int, e: int)
    ensures
        forall|k: int|
            0 <= k < keep_areas(areas, s, e).len() ==> areas.contains(
                #[trigger] keep_areas(areas, s, e)[k],
            ) && !area_contained(keep_areas(areas, s, e)[k], s, e),
        forall|a: MemoryArea|
            areas.contains(a) && !area_contained(a, s, e) ==> #[trigger] keep_areas(
                areas,
                s,
                e,
            ).contains(a),
        areas.no_duplicates() ==> keep_areas(areas, s, e).no_duplicates(),
    decreases areas.len(),
{
    let kept = keep_areas(areas, s, e);
    if areas.len() == 0 {
        assert forall|a: MemoryArea|
            areas.contains(a) && !area_contained(a, s, e) implies kept.contains(a) by {
            let i = choose|i: int| 0 <= i < areas.len() && areas[i] == a;
        }
    } else {
        let prefix = areas.drop_last();
        let last = areas.last();
        lemma_keep_areas_sub(prefix, s, e);
        let kp = keep_areas(prefix, s, e);
        assert forall|k: int| 0 <= k < kept.len() implies areas.contains(#[trigger] kept[k])
            && !area_contained(kept[k], s, e) by {
            if area_contained(last, s, e) {
                assert(kept == kp);
                assert(prefix.contains(kp[k]));
                let i = choose|i: int| 0 <= i < prefix.len() && prefix[i] == kp[k];
                assert(areas[i] == kp[k]);
            } else {
                assert(kept == kp.push(last));
                if k < kp.len() {
                    assert(kept[k] == kp[k]);
                    assert(prefix.contains(kp[k]));
                    let i = choose|i: int| 0 <= i < prefix.len() && prefix[i] == kp[k];
                    assert(areas[i] == kp[k]);
                } else {
                    assert(kept[k] == last);
                    assert(areas[areas.len() - 1] == last);
                }
            }
        }
        assert forall|a: MemoryArea|
            areas.contains(a) && !area_contained(a, s, e) implies kept.contains(a) by {
            let i = choose|i: int| 0 <= i < areas.len() && areas[i] == a;
            if i < prefix.len() {
                assert(prefix[i] == a);
                assert(prefix.contains(a));
                assert(kp.contains(a));
                let k = choose|k: int| 0 <= k < kp.len() && kp[k] == a;
                if area_contained(last, s, e) {
                    assert(kept[k] == a);
                } else {
                    assert(kept[k] == a);
                }
            } else {
                assert(a == last);
                assert(!area_contained(last, s, e));
                assert(kept.last() == a);
                assert(kept[kept.len() - 1] == a);
            }
        }
        if areas.no_duplicates() {
            assert(prefix.no_duplicates()) by {
                assert forall|i: int, j: int|
                    0 <= i < j < prefix.len() implies prefix[i] != prefix[j] by {
                    assert(areas[i] == prefix[i] && areas[j] == prefix[j]);
                }
            }
            if !area_contained(last, s, e) {
                assert(!kp.contains(last)) by {
                    if kp.contains(last) {
                        let k = choose|k: int| 0 <= k < kp.len() && kp[k] == last;
                        assert(prefix.contains(last));
                        let i = choose|i: int| 0 <= i < prefix.len() && prefix[i] == last;
                        assert(areas[i] == areas[areas.len() - 1]);
                    }
                }
                assert forall|i: int, j: int|
                    0 <= i < j < kept.len() implies kept[i] != kept[j] by {
                    if j < kp.len() {
                    } else {
                        assert(kept[j] == last);
                        assert(kept[i] == kp[i]);
                        assert(kp.contains(kp[i]));
                    }
                }
            }
        }
    }
}

impl MemorySet {
    /// Unmaps the byte range `[start, start + len)`, widened to page
    /// boundaries. Succeeds only when every page of the range is mapped and
    /// the range covers whole areas; the covered areas are removed and
    /// their frames returned to the allocator. On failure nothing changes.
    #[verifier::loop_isolation(false)]
    #[verifier::rlimit(60)]
    pub fn unmap_region(&mut self, fa: &mut FrameAllocator, start: usize, len: usize) -> (r:
        Result<(), MunmapError>)
        requires
            old(self).wf(),
            consistent(*old(self), *old(fa)),
            len == 0 || start as int + len as int - 1 <= usize::MAX as int,
        ensures
            final(self).wf(),
            consistent(*final(self), *final(fa)),
            match r {
                Ok(()) => {
                    &&& unmap_region_err(*old(self), start, len) is None
                    &&& if len == 0 {
                        *final(self) == *old(self) && *final(fa) == *old(fa)
                    } else {
                        unmap_region_post(
                            *old(self),
                            *old(fa),
                            *final(self),
                            *final(fa),
                            page_floor(start as int),
                            page_ceil(start as int + len - 1),
                        )
                    }
                },
                Err(e) => {
                    &&& unmap_region_err(*old(self), start, len) == Some(e)
                    &&& *final(self) == *old(self)
                    &&& *final(fa) == *old(fa)
                },
            },
    {
        if len == 0 {
            return Ok(());
        }
        let last_byte: usize = start + (len - 1);
        proof {
            lemma_page_ceil_value(last_byte as int);
            lemma_div_is_ordered(last_byte as int, usize::MAX as int, PAGE_SIZE as int);
            lemma_div_is_strictly_smaller(usize::MAX as int, PAGE_SIZE as int);
        }
        let spage: usize = start / PAGE_SIZE;
        let epage: usize = if last_byte % PAGE_SIZE == 0 {
            last_byte / PAGE_SIZE
        } else {
            last_byte / PAGE_SIZE + 1
        };
        if epage <= spage {
            return Ok(());
        }
        // Every page of the range must be mapped.
        let mut v: usize = spage;
        while v < epage
            invariant
                spage <= v <= epage,
                forall|u: usize|
                    spage <= u < v ==> #[trigger] self.page_table.mapping().contains_key(u),
            decreases epage - v,
        {
            if self.page_table.lookup(v).is_none() {
                proof {
                    assert(!range_fully_mapped(*self, spage as int, epage as int));
                }
                return Err(MunmapError::NotMapped);
            }
            v = v + 1;
        }
        // The range must cover whole areas, never cut one.
        let n_areas = self.areas.len();
        let mut i: usize = 0;
        while i < n_areas
            invariant
                i <= n_areas,
                n_areas == self.areas@.len(),
                forall|k: int|
                    0 <= k < i ==> (area_intersects(
                        #[trigger] self.areas@[k],
                        spage as int,
                        epage as int,
                    ) ==> area_contained(self.areas@[k], spage as int, epage as int)),
            decreases n_areas - i,
        {
            let a_start = self.areas[i].start;
            let a_end = self.areas[i].end;
            if a_start < epage && spage < a_end {
                if !(spage <= a_start && a_end <= epage) {
                    proof {
                        assert(range_splits_area(*self, spage as int, epage as int));
                    }
                    return Err(MunmapError::NotMapped);
                }
            }
            i = i + 1;
        }
        let ghost s = spage as int;
        let ghost e = epage as int;
        let ghost pre = *self;
        let ghost fpre = *fa;
        let ghost l0 = fpre.free_list().len() as int;
        proof {
            assert(range_fully_mapped(pre, s, e));
            assert(pre.areas@.take(0) =~= Seq::<MemoryArea>::empty());
        }
        let mut idx: usize = 0;
        let ghost mut j: int = 0;
        while idx < self.areas.len()
            invariant
                0 <= j <= pre.areas@.len(),
                idx == keep_areas(pre.areas@.take(j), s, e).len(),
                self.areas@ == keep_areas(pre.areas@.take(j), s, e) + pre.areas@.skip(j),
                self.page_table.wf(),
                forall|u: usize|
                    (#[trigger] self.page_table.mapping().contains_key(u)) <==> (
                    pre.page_table.mapping().contains_key(u) && !page_removed(
                        pre.areas@.take(j),
                        s,
                        e,
                        u,
                    )),
                forall|u: usize|
                    self.page_table.mapping().contains_key(u)
                        ==> #[trigger] self.page_table.mapping()[u]
                        == pre.page_table.mapping()[u],
                fa.free_list().len() == l0 + removed_page_count(pre.areas@.take(j), s, e),
                free_prefix_ok(fa.free_list(), fpre.free_list(), l0),
                freed_frames_ok(pre.page_table, self.page_table, fa.free_list(), l0),
                fa.wf(),
            decreases pre.areas@.len() - j,
        {
            proof {
                assert(self.areas@.len() == idx + (pre.areas@.len() - j));
                assert(j < pre.areas@.len());
                assert(self.areas@[idx as int] == pre.areas@.skip(j)[0]);
                assert(self.areas@[idx as int] == pre.areas@[j]);
                assert(pre.areas@.take(j + 1).drop_last() =~= pre.areas@.take(j));
                assert(pre.areas@.take(j + 1).last() == pre.areas@[j]);
            }
            let ghost cur = pre.areas@[j];
            let a_start = self.areas[idx].start;
            let a_end = self.areas[idx].end;
            if spage <= a_start && a_end <= epage {
                let npages = a_end - a_start;
                let ghost pt_in = self.page_table;
                let ghost fa_in = *fa;
                let ghost areas_in = self.areas@;
                proof {
                    assert(cur.wf());
                    assert(area_contained(cur, s, e));
                }
                let mut k2: usize = 0;
                while k2 < npages
                    invariant
                        k2 <= npages,
                        self.areas@ == areas_in,
                        self.page_table.wf(),
                        forall|u: usize|
                            (#[trigger] self.page_table.mapping().contains_key(u)) <==> (
                            pre.page_table.mapping().contains_key(u) && !page_removed(
                                pre.areas@.take(j),
                                s,
                                e,
                                u,
                            ) && !(a_start <= u < a_start + k2)),
                        forall|u: usize|
                            self.page_table.mapping().contains_key(u)
                                ==> #[trigger] self.page_table.mapping()[u]
                                == pre.page_table.mapping()[u],
                        fa.free_list().len() == l0 + removed_page_count(
                            pre.areas@.take(j),
                            s,
                            e,
                        ) + k2,
                        free_prefix_ok(fa.free_list(), fpre.free_list(), l0),
                        freed_frames_ok(pre.page_table, self.page_table, fa.free_list(), l0),
                        fa.wf(),
                    decreases npages - k2,
                {
                    let page: usize = a_start + k2;
                    proof {
                        assert(cur.contains_page(page));
                        assert(pre.page_table.mapping().contains_key(page)
                            && pre.page_table.mapping()[page] == (
                        cur.frames@[page - cur.start],
                        cur.perm,
                        )) by {
                            assert(0 <= j < pre.areas@.len() && pre.areas@[j].contains_page(
                                page,
                            ));
                        }
                        assert(!page_removed(pre.areas@.take(j), s, e, page)) by {
                            if page_removed(pre.areas@.take(j), s, e, page) {
                                let i2 = choose|i2: int|
                                    0 <= i2 < pre.areas@.take(j).len() && area_contained(
                                        #[trigger] pre.areas@.take(j)[i2],
                                        s,
                                        e,
                                    ) && pre.areas@.take(j)[i2].contains_page(page);
                                assert(pre.areas@[i2] == pre.areas@.take(j)[i2]);
                                assert(areas_disjoint(pre.areas@[i2], pre.areas@[j]));
                            }
                        }
                        assert(self.page_table.mapping().contains_key(page));
                    }
                    let f = self.areas[idx].frames[k2];
                    proof {
                        assert(cur.frames@[k2 as int] == f);
                        assert(f == pre.page_table.mapping()[page].0);
                        // The frame is not in the free pool: frames already
                        // freed back came from other (removed) pages, and
                        // the original pool held no mapped frame.
                        assert(!fa.free_list().contains(f)) by {
                            if fa.free_list().contains(f) {
                                let m = choose|m: int|
                                    0 <= m < fa.free_list().len() && fa.free_list()[m] == f;
                                if m < l0 {
                                    assert(fpre.free_list()[m] == f);
                                    assert(!pre.page_table.frame_mapped(f));
                                    assert(pre.page_table.mapping().contains_key(page)
                                        && pre.page_table.mapping()[page].0 == f);
                                } else {
                                    let u = choose|u: usize|
                                        #[trigger] pre.page_table.mapping().contains_key(u)
                                            && !self.page_table.mapping().contains_key(u)
                                            && fa.free_list()[m]
                                            == pre.page_table.mapping()[u].0;
                                    assert(u != page);
                                    assert(pre.page_table.frames_injective());
                                    assert(pre.page_table.mapping()[u].0
                                        != pre.page_table.mapping()[page].0);
                                }
                            }
                        }
                        assert(frame_in_range(f));
                    }
                    let ghost pt_step = self.page_table;
                    let ghost fa_step = *fa;
                    self.page_table.remove(page);
                    fa.free_frame(f);
                    proof {
                        crate::frame::lemma_no_duplicates_push(fa_step.free_list(), f);
                        assert forall|i2: int| 0 <= i2 < pre.areas@.take(j).len() implies (
                        #[trigger] pre.areas@.take(j)[i2]).wf() by {
                            assert(pre.areas@.take(j)[i2] == pre.areas@[i2]);
                        }
                        lemma_removed_page_count_nonneg(pre.areas@.take(j), s, e);
                        assert(fa_step.free_list().len() >= l0);
                        assert(fa.wf()) by {
                            assert forall|m: int|
                                0 <= m < fa.free_list().len() implies frame_in_range(
                                #[trigger] fa.free_list()[m]) by {
                                if m < fa_step.free_list().len() {
                                    assert(fa.free_list()[m] == fa_step.free_list()[m]);
                                }
                            }
                        }
                        assert(free_prefix_ok(fa.free_list(), fpre.free_list(), l0)) by {
                            assert forall|m: int| 0 <= m < l0 implies #[trigger] fa.free_list()[m]
                                == fpre.free_list()[m] by {
                                assert(fa.free_list()[m] == fa_step.free_list()[m]);
                            }
                        }
                        assert(freed_frames_ok(
                            pre.page_table,
                            self.page_table,
                            fa.free_list(),
                            l0,
                        )) by {
                        assert forall|m: int|
                            #![trigger fa.free_list()[m]]
                            l0 <= m < fa.free_list().len() implies exists|u: usize|
                                #[trigger] pre.page_table.mapping().contains_key(u)
                                    && !self.page_table.mapping().contains_key(u)
                                    && fa.free_list()[m]
                                    == pre.page_table.mapping()[u].0 by {
                            if m < fa_step.free_list().len() {
                                assert(fa.free_list()[m] == fa_step.free_list()[m]);
                                let u = choose|u: usize|
                                    #[trigger] pre.page_table.mapping().contains_key(u)
                                        && !pt_step.mapping().contains_key(u)
                                        && fa_step.free_list()[m]
                                        == pre.page_table.mapping()[u].0;
                                assert(pre.page_table.mapping().contains_key(u)
                                    && !self.page_table.mapping().contains_key(u)
                                    && fa.free_list()[m] == pre.page_table.mapping()[u].0);
                            } else {
                                assert(fa.free_list()[m] == f);
                                assert(pre.page_table.mapping().contains_key(page)
                                    && !self.page_table.mapping().contains_key(page)
                                    && fa.free_list()[m]
                                    == pre.page_table.mapping()[page].0);
                            }
                        }
                        }
                    }
                    k2 = k2 + 1;
                }
                let removed_area = self.areas.remove(idx);
                proof {
                    assert(removed_area == cur);
                    j = j + 1;
                    // The processed area is dropped from the kept list.
                    assert(keep_areas(pre.areas@.take(j), s, e) == keep_areas(
                        pre.areas@.take(j - 1),
                        s,
                        e,
                    ));
                    assert(self.areas@ =~= keep_areas(pre.areas@.take(j), s, e)
                        + pre.areas@.skip(j)) by {
                        assert(areas_in == keep_areas(pre.areas@.take(j - 1), s, e)
                            + pre.areas@.skip(j - 1));
                        assert(self.areas@ == areas_in.remove(idx as int));
                        assert(pre.areas@.skip(j - 1)[0] == pre.areas@[j - 1]);
                        assert forall|t: int|
                            0 <= t < pre.areas@.len() - j implies pre.areas@.skip(j)[t]
                            == pre.areas@.skip(j - 1)[t + 1] by {}
                    }
                    assert(removed_page_count(pre.areas@.take(j), s, e) == removed_page_count(
                        pre.areas@.take(j - 1),
                        s,
                        e,
                    ) + (cur.end - cur.start));
                    // Pages removed so far are exactly those of the covered
                    // areas among the first j.
                    assert forall|u: usize|
                        (#[trigger] self.page_table.mapping().contains_key(u)) <==> (
                        pre.page_table.mapping().contains_key(u) && !page_removed(
                            pre.areas@.take(j),
                            s,
                            e,
                            u,
                        )) by {
                        if page_removed(pre.areas@.take(j), s, e, u) {
                            let i2 = choose|i2: int|
                                0 <= i2 < pre.areas@.take(j).len() && area_contained(
                                    #[trigger] pre.areas@.take(j)[i2],
                                    s,
                                    e,
                                ) && pre.areas@.take(j)[i2].contains_page(u);
                            if i2 < j - 1 {
                                assert(page_removed(pre.areas@.take(j - 1), s, e, u)) by {
                                    assert(pre.areas@.take(j - 1)[i2] == pre.areas@.take(
                                        j,
                                    )[i2]);
                                }
                            } else {
                                assert(pre.areas@.take(j)[i2] == cur);
                                assert(a_start <= u < a_start + npages);
                            }
                        } else {
                            assert(!page_removed(pre.areas@.take(j - 1), s, e, u)) by {
                                if page_removed(pre.areas@.take(j - 1), s, e, u) {
                                    let i2 = choose|i2: int|
                                        0 <= i2 < pre.areas@.take(j - 1).len()
                                            && area_contained(
                                            #[trigger] pre.areas@.take(j - 1)[i2],
                                            s,
                                            e,
                                        ) && pre.areas@.take(j - 1)[i2].contains_page(u);
                                    assert(pre.areas@.take(j)[i2] == pre.areas@.take(j - 1)[
                                        i2]);
                                }
                            }
                            assert(!(a_start <= u < a_start + npages)) by {
                                if a_start <= u < a_start + npages {
                                    assert(pre.areas@.take(j)[j - 1] == cur);
                                    assert(cur.contains_page(u));
                                }
                            }
                        }
                    }
                }
            } else {
                idx = idx + 1;
                proof {
                    assert(area_intersects(cur, s, e) ==> area_contained(cur, s, e)) by {
                        assert(pre.areas@[j] == cur);
                    }
                    assert(!area_contained(cur, s, e));
                    j = j + 1;
                    assert(keep_areas(pre.areas@.take(j), s, e) == keep_areas(
                        pre.areas@.take(j - 1),
                        s,
                        e,
                    ).push(cur));
                    assert(removed_page_count(pre.areas@.take(j), s, e) == removed_page_count(
                        pre.areas@.take(j - 1),
                        s,
                        e,
                    ));
                    assert(self.areas@ =~= keep_areas(pre.areas@.take(j), s, e)
                        + pre.areas@.skip(j)) by {
                        assert(self.areas@ == keep_areas(pre.areas@.take(j - 1), s, e)
                            + pre.areas@.skip(j - 1));
                        assert(pre.areas@.skip(j - 1)[0] == pre.areas@[j - 1]);
                        assert forall|t: int|
                            0 <= t < pre.areas@.len() - j implies pre.areas@.skip(j)[t]
                            == pre.areas@.skip(j - 1)[t + 1] by {}
                    }
                    assert forall|u: usize|
                        (#[trigger] self.page_table.mapping().contains_key(u)) <==> (
                        pre.page_table.mapping().contains_key(u) && !page_removed(
                            pre.areas@.take(j),
                            s,
                            e,
                            u,
                        )) by {
                        assert(pre.areas@.take(j).len() == j);
                        assert(pre.areas@.take(j)[j - 1] == cur);
                        if page_removed(pre.areas@.take(j), s, e, u) {
                            let i2 = choose|i2: int|
                                0 <= i2 < pre.areas@.take(j).len() && area_contained(
                                    #[trigger] pre.areas@.take(j)[i2],
                                    s,
                                    e,
                                ) && pre.areas@.take(j)[i2].contains_page(u);
                            assert(i2 < j - 1);
                            assert(pre.areas@.take(j - 1)[i2] == pre.areas@.take(j)[i2]);
                            assert(page_removed(pre.areas@.take(j - 1), s, e, u));
                        }
                        if page_removed(pre.areas@.take(j - 1), s, e, u) {
                            let i2 = choose|i2: int|
                                0 <= i2 < pre.areas@.take(j - 1).len() && area_contained(
                                    #[trigger] pre.areas@.take(j - 1)[i2],
                                    s,
                                    e,
                                ) && pre.areas@.take(j - 1)[i2].contains_page(u);
                            assert(pre.areas@.take(j)[i2] == pre.areas@.take(j - 1)[i2]);
                            assert(page_removed(pre.areas@.take(j), s, e, u));
                        }
                    }
                }
            }
        }
        proof {
            assert(j == pre.areas@.len());
            assert(pre.areas@.take(j) =~= pre.areas@);
            let kept = keep_areas(pre.areas@, s, e);
            assert(self.areas@ == kept + pre.areas@.skip(j));
            assert(self.areas@ =~= kept);
            lemma_keep_areas_sub(pre.areas@, s, e);
            // Original areas are pairwise distinct: a duplicate would
            // overlap itself.
            assert(pre.areas@.no_duplicates()) by {
                assert forall|i2: int, j2: int|
                    0 <= i2 < j2 < pre.areas@.len() implies pre.areas@[i2] != pre.areas@[
                j2] by {
                    assert(areas_disjoint(pre.areas@[i2], pre.areas@[j2]));
                    assert(pre.areas@[i2].wf());
                }
            }
            // Pages of the range are exactly the removed pages.
            assert forall|u: usize| s <= u < e implies page_removed(pre.areas@, s, e, u) by {
                assert(pre.page_table.mapping().contains_key(u));
                let i2 = choose|i2: int|
                    0 <= i2 < pre.areas@.len() && #[trigger] pre.areas@[i2].contains_page(u);
                assert(area_intersects(pre.areas@[i2], s, e));
                assert(area_contained(pre.areas@[i2], s, e));
            }
            assert forall|u: usize| page_removed(pre.areas@, s, e, u) implies s <= u < e by {
                let i2 = choose|i2: int|
                    0 <= i2 < pre.areas@.len() && area_contained(#[trigger] pre.areas@[i2], s, e)
                        && pre.areas@[i2].contains_page(u);
            }
            // Well-formedness of the result.
            assert forall|k: int| 0 <= k < self.areas@.len() implies (
            #[trigger] self.areas@[k]).wf() by {
                assert(pre.areas@.contains(kept[k]));
                let i2 = choose|i2: int| 0 <= i2 < pre.areas@.len() && pre.areas@[i2] == kept[k];
            }
            assert forall|k: int, l: int|
                0 <= k < l < self.areas@.len() implies areas_disjoint(
                self.areas@[k],
                self.areas@[l],
            ) by {
                assert(kept.no_duplicates());
                assert(kept[k] != kept[l]);
                assert(pre.areas@.contains(kept[k]));
                assert(pre.areas@.contains(kept[l]));
                let i2 = choose|i2: int| 0 <= i2 < pre.areas@.len() && pre.areas@[i2] == kept[k];
                let j2 = choose|j2: int| 0 <= j2 < pre.areas@.len() && pre.areas@[j2] == kept[l];
                assert(i2 != j2);
                if i2 < j2 {
                    assert(areas_disjoint(pre.areas@[i2], pre.areas@[j2]));
                } else {
                    assert(areas_disjoint(pre.areas@[j2], pre.areas@[i2]));
                }
            }
            assert forall|k: int, vpn: usize|
                0 <= k < self.areas@.len() && #[trigger] self.areas@[k].contains_page(vpn)
                implies self.page_table.mapping().contains_key(vpn)
                && self.page_table.mapping()[vpn] == (
                self.areas@[k].frames@[vpn - self.areas@[k].start],
                self.areas@[k].perm,
            ) by {
                let a = kept[k];
                assert(pre.areas@.contains(a));
                assert(!area_contained(a, s, e));
                let i2 = choose|i2: int| 0 <= i2 < pre.areas@.len() && pre.areas@[i2] == a;
                assert(pre.areas@[i2].contains_page(vpn));
                assert(pre.page_table.mapping().contains_key(vpn));
                assert(pre.page_table.mapping()[vpn] == (
                    a.frames@[vpn - a.start],
                    a.perm,
                ));
                assert(!(area_intersects(a, s, e)));
                assert(!(s <= vpn < e));
                assert(!page_removed(pre.areas@, s, e, vpn));
                assert(self.page_table.mapping().contains_key(vpn));
            }
            assert forall|vpn: usize|
                #[trigger] self.page_table.mapping().contains_key(vpn) implies exists|k: int|
                0 <= k < self.areas@.len() && #[trigger] self.areas@[k].contains_page(vpn) by {
                assert(pre.page_table.mapping().contains_key(vpn));
                assert(!page_removed(pre.areas@, s, e, vpn));
                let i2 = choose|i2: int|
                    0 <= i2 < pre.areas@.len() && #[trigger] pre.areas@[i2].contains_page(vpn);
                let a = pre.areas@[i2];
                assert(!area_contained(a, s, e)) by {
                    if area_contained(a, s, e) {
                        assert(page_removed(pre.areas@, s, e, vpn));
                    }
                }
                assert(kept.contains(a));
                let k = choose|k: int| 0 <= k < kept.len() && kept[k] == a;
                assert(self.areas@[k].contains_page(vpn));
            }
            assert(self.wf());
            // Consistency of table and allocator.
            assert(self.page_table.frames_injective()) by {
                assert forall|v1: usize, v2: usize|
                    self.page_table.mapping().contains_key(v1)
                        && self.page_table.mapping().contains_key(v2) && v1 != v2 implies (
                #[trigger] self.page_table.mapping()[v1]).0 != (
                #[trigger] self.page_table.mapping()[v2]).0 by {
                    assert(self.page_table.mapping()[v1] == pre.page_table.mapping()[v1]);
                    assert(self.page_table.mapping()[v2] == pre.page_table.mapping()[v2]);
                }
            }
            assert forall|m: int|
                0 <= m < fa.free_list().len() implies !self.page_table.frame_mapped(
                #[trigger] fa.free_list()[m]) by {
                let g = fa.free_list()[m];
                if self.page_table.frame_mapped(g) {
                    let w = choose|w: usize|
                        self.page_table.mapping().contains_key(w) && (
                        #[trigger] self.page_table.mapping()[w]).0 == g;
                    assert(pre.page_table.mapping().contains_key(w)
                        && pre.page_table.mapping()[w].0 == g);
                    if m < l0 {
                        assert(fa.free_list()[m] == fpre.free_list()[m]);
                        assert(!pre.page_table.frame_mapped(g));
                    } else {
                        let u = choose|u: usize|
                            #[trigger] pre.page_table.mapping().contains_key(u)
                                && !self.page_table.mapping().contains_key(u)
                                && fa.free_list()[m] == pre.page_table.mapping()[u].0;
                        assert(u != w);
                        assert(pre.page_table.frames_injective());
                        assert(pre.page_table.mapping()[u].0
                            != pre.page_table.mapping()[w].0);
                    }
                }
            }
            assert(consistent(*self, *fa));
            assert(unmap_region_post(pre, fpre, *self, *fa, s, e));
        }
        Ok(())
    }
}

} // verus!

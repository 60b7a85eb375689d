//! Relations between successive region operations.
//!
//! These laws are stated over the same specification predicates that
//! `map_region` and `unmap_region` promise in their contracts, so a caller
//! can chain them with the functions' postconditions: given the states a
//! first call relates, they pin down what the next call must decide.

use vstd::prelude::*;
use crate::addr::{PAGE_SIZE, page_floor, page_ceil, is_aligned, lemma_page_ceil_value};
use crate::frame::FrameAllocator;
use crate::memory_set::{
    MemorySet, MmapError, area_contained, area_intersects, consistent, keep_areas,
    lemma_keep_areas_all, map_region_err, map_region_post, range_fully_mapped,
    range_splits_area, removed_page_count, unmap_region_err, unmap_region_post,
};
use crate::perm::{valid_port_bits, perm_of_bits};
use vstd::arithmetic::div_mod::{
    lemma_fundamental_div_mod, lemma_fundamental_div_mod_converse_mod, lemma_div_is_ordered,
};

verus! {

/// For an aligned request whose length is not one more than a multiple of
/// the page size, every byte of the request lies in the computed page
/// range.
proof fn lemma_byte_in_page_range(start: int, len: int, c: int)
    requires
        0 <= start,
        0 < len,
        is_aligned(start),
        len % (PAGE_SIZE as int) != 1,
        start <= c < start + len,
    ensures
        page_floor(start) <= page_floor(c) < page_ceil(start + len - 1),
{
    let ps = PAGE_SIZE as int;
    lemma_div_is_ordered(start, c, ps);
    lemma_page_ceil_value(start + len - 1);
    lemma_fundamental_div_mod(start, ps);
    // The last byte of the range does not sit on a page boundary, so the
    // exclusive end page is one past the page of the last byte.
    assert((start + len - 1) % ps != 0) by {
        let q = start / ps;
        assert(start == ps * q);
        if (start + len - 1) % ps == 0 {
            lemma_fundamental_div_mod(start + len - 1, ps);
            let w = (start + len - 1) / ps;
            assert(start + len - 1 == ps * w);
            assert(len == (w - q) * ps + 1) by {
                assert(len == ps * w + 1 - ps * q);
                assert(ps * w - ps * q == (w - q) * ps) by (nonlinear_arith);
            }
            lemma_fundamental_div_mod_converse_mod(len, ps, w - q, 1);
        }
    }
    assert(page_ceil(start + len - 1) == page_floor(start + len - 1) + 1);
    lemma_div_is_ordered(c, start + len - 1, ps);
}

/// After a successful mapping of `[a_start, a_start + a_len)`, any
/// aligned, validly flagged request whose byte range overlaps it is
/// decided as `Overlap`, and so leaves the address space unchanged by
/// `map_region`'s contract. Both lengths must avoid the degenerate sizes
/// (one more than a multiple of the page size) whose last byte falls
/// outside the computed page range.
pub proof fn lemma_map_overlap_rejected(
    ms0: MemorySet,
    fa0: FrameAllocator,
    ms1: MemorySet,
    fa1: FrameAllocator,
    a_start: usize,
    a_len: usize,
    a_port: usize,
    b_start: usize,
    b_len: usize,
    b_port: usize,
)
    requires
        ms0.wf(),
        a_len > 0,
        a_start as int + a_len as int - 1 <= usize::MAX as int,
        a_len as int % (PAGE_SIZE as int) != 1,
        map_region_err(ms0, fa0, a_start, a_len, a_port) is None,
        map_region_post(
            ms0,
            fa0,
            ms1,
            fa1,
            page_floor(a_start as int),
            page_ceil(a_start as int + a_len - 1),
            perm_of_bits(a_port as int),
        ),
        b_len > 0,
        b_start as int + b_len as int - 1 <= usize::MAX as int,
        b_len as int % (PAGE_SIZE as int) != 1,
        valid_port_bits(b_port as int),
        is_aligned(b_start as int),
        b_start < a_start as int + a_len,
        a_start < b_start as int + b_len,
    ensures
        map_region_err(ms1, fa1, b_start, b_len, b_port) == Some(MmapError::Overlap),
{
    let sa = page_floor(a_start as int);
    let ea = page_ceil(a_start as int + a_len - 1);
    let sb = page_floor(b_start as int);
    let eb = page_ceil(b_start as int + b_len - 1);
    // A byte common to both requests.
    let c: int = if b_start as int >= a_start as int {
        b_start as int
    } else {
        a_start as int
    };
    lemma_byte_in_page_range(a_start as int, a_len as int, c);
    lemma_byte_in_page_range(b_start as int, b_len as int, c);
    let pc = page_floor(c);
    assert(sa <= pc < ea);
    assert(sb <= pc < eb);
    assert(ea > sa);
    let area = ms1.areas@.last();
    assert(area.start == sa && area.end == ea);
    assert(ms1.areas@.len() > 0);
    assert(ms1.areas@[ms1.areas@.len() - 1] == area);
    assert((area.start as int) < eb && sb < area.end as int);
    assert(ms1.range_overlaps_areas(sb, eb));
}

/// Mapping a range and then unmapping exactly the same byte range restores
/// the address space: the unmap is owed success, the area list and the
/// page-table mapping return to their earlier value, and the allocator's
/// free count returns to its earlier value.
pub proof fn lemma_map_unmap_round_trip(
    ms0: MemorySet,
    fa0: FrameAllocator,
    ms1: MemorySet,
    fa1: FrameAllocator,
    ms2: MemorySet,
    fa2: FrameAllocator,
    start: usize,
    len: usize,
    port: usize,
)
    requires
        ms0.wf(),
        consistent(ms0, fa0),
        len > 0,
        start as int + len as int - 1 <= usize::MAX as int,
        map_region_err(ms0, fa0, start, len, port) is None,
        map_region_post(
            ms0,
            fa0,
            ms1,
            fa1,
            page_floor(start as int),
            page_ceil(start as int + len - 1),
            perm_of_bits(port as int),
        ),
        unmap_region_post(
            ms1,
            fa1,
            ms2,
            fa2,
            page_floor(start as int),
            page_ceil(start as int + len - 1),
        ),
    ensures
        unmap_region_err(ms1, start, len) is None,
        ms2.areas@ == ms0.areas@,
        ms2.page_table.mapping() == ms0.page_table.mapping(),
        fa2.free_list().len() == fa0.free_list().len(),
{
    let s = page_floor(start as int);
    let e = page_ceil(start as int + len - 1);
    if e <= s {
        assert(ms1 == ms0 && fa1 == fa0);
        assert(ms2 == ms1 && fa2 == fa1);
    } else {
        let n = e - s;
        let area = ms1.areas@.last();
        let len0 = ms0.areas@.len() as int;
        // No old area is contained in the range: the map succeeded, so no
        // old area even intersects it.
        assert forall|i: int| 0 <= i < len0 implies !area_intersects(
            #[trigger] ms0.areas@[i],
            s,
            e,
        ) && !area_contained(ms0.areas@[i], s, e) by {
            assert(!(ms0.areas@[i].start < e && s < ms0.areas@[i].end)) by {
                if ms0.areas@[i].start < e && s < ms0.areas@[i].end {
                    assert(ms0.range_overlaps_areas(s, e));
                }
            }
            assert(ms0.areas@[i].wf());
        }
        // The unmap is owed success.
        assert(range_fully_mapped(ms1, s, e)) by {
            assert forall|v: usize|
                s <= v < e implies #[trigger] ms1.page_table.mapping().contains_key(v) by {}
        }
        assert(!range_splits_area(ms1, s, e)) by {
            if range_splits_area(ms1, s, e) {
                let i = choose|i: int|
                    0 <= i < ms1.areas@.len() && area_intersects(#[trigger] ms1.areas@[i], s, e)
                        && !area_contained(ms1.areas@[i], s, e);
                if i < len0 {
                    assert(ms1.areas@[i] == ms0.areas@[i]);
                } else {
                    assert(ms1.areas@[i] == area);
                    assert(area_contained(area, s, e));
                }
            }
        }
        assert(unmap_region_err(ms1, start, len) is None);
        // The kept areas are exactly the old areas.
        assert(ms1.areas@.drop_last() =~= ms0.areas@);
        assert(ms1.areas@[ms1.areas@.len() - 1] == area);
        assert(keep_areas(ms1.areas@, s, e) == keep_areas(ms0.areas@, s, e));
        assert(removed_page_count(ms1.areas@, s, e) == removed_page_count(ms0.areas@, s, e) + (
        area.end - area.start));
        lemma_keep_areas_all(ms0.areas@, s, e);
        assert(ms2.areas@ == ms0.areas@);
        // The free count is restored.
        assert(fa1.free_list().len() == fa0.free_list().len() - n);
        assert(fa2.free_list().len() == fa1.free_list().len() + n);
        // The mapping is restored: pages of the range were unmapped before
        // the map and are unmapped again after the unmap; everything else
        // passed through both calls untouched.
        assert forall|v: usize| s <= v < e implies !(
        #[trigger] ms0.page_table.mapping().contains_key(v)) by {
            if ms0.page_table.mapping().contains_key(v) {
                let i = choose|i: int|
                    0 <= i < ms0.areas@.len() && #[trigger] ms0.areas@[i].contains_page(v);
                assert(area_intersects(ms0.areas@[i], s, e));
            }
        }
        assert(ms2.page_table.mapping() =~= ms0.page_table.mapping()) by {
            assert forall|v: usize|
                ms2.page_table.mapping().contains_key(v)
                    <==> ms0.page_table.mapping().contains_key(v) by {
                if s <= v < e {
                    assert(!ms2.page_table.mapping().contains_key(v));
                    assert(!ms0.page_table.mapping().contains_key(v));
                } else {
                    assert(ms2.page_table.mapping().contains_key(v)
                        <==> ms1.page_table.mapping().contains_key(v));
                    assert(ms1.page_table.mapping().contains_key(v)
                        <==> ms0.page_table.mapping().contains_key(v));
                }
            }
            assert forall|v: usize|
                #[trigger] ms2.page_table.mapping().contains_key(v)
                    && ms0.page_table.mapping().contains_key(v) implies
                ms2.page_table.mapping()[v] == ms0.page_table.mapping()[v] by {
                assert(!(s <= v < e));
                assert(ms2.page_table.mapping()[v] == ms1.page_table.mapping()[v]);
                assert(ms1.page_table.mapping()[v] == ms0.page_table.mapping()[v]);
            }
        }
    }
}

} // verus!

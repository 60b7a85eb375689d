use os4::frame::FrameAllocator;
use os4::memory_set::{MemorySet, MmapError, MunmapError};

const PAGE: usize = 4096;

fn system(frames: usize) -> (MemorySet, FrameAllocator) {
    (MemorySet::new(), FrameAllocator::new(frames))
}

#[test]
fn misaligned_start_is_rejected_and_nothing_changes() {
    let (mut ms, mut fa) = system(8);
    let before = fa.free_count();
    let r = ms.map_region(&mut fa, 0x1001, 0x1000, 0b011);
    assert_eq!(r, Err(MmapError::Misaligned));
    assert_eq!(ms.areas.len(), 0);
    assert_eq!(fa.free_count(), before);
}

#[test]
fn misaligned_start_is_rejected_for_any_valid_port() {
    for port in 1..8usize {
        let (mut ms, mut fa) = system(8);
        let r = ms.map_region(&mut fa, PAGE + 123, PAGE, port);
        assert_eq!(r, Err(MmapError::Misaligned));
        assert_eq!(ms.areas.len(), 0);
    }
}

#[test]
fn invalid_permission_bits_are_rejected() {
    let (mut ms, mut fa) = system(8);
    assert_eq!(ms.map_region(&mut fa, 0x1000, 0x1000, 0), Err(MmapError::InvalidPermission));
    assert_eq!(ms.map_region(&mut fa, 0x1000, 0x1000, 0b1000), Err(MmapError::InvalidPermission));
    assert_eq!(ms.map_region(&mut fa, 0x1000, 0x1000, 0b1011), Err(MmapError::InvalidPermission));
    assert_eq!(ms.areas.len(), 0);
}

#[test]
fn overlapping_map_fails_and_first_mapping_survives() {
    let (mut ms, mut fa) = system(8);
    assert_eq!(ms.map_region(&mut fa, 0x1000, 0x2000, 0b011), Ok(()));
    assert_eq!(ms.areas.len(), 1);
    // Overlaps the tail of the first region.
    assert_eq!(ms.map_region(&mut fa, 0x2000, 0x1000, 0b001), Err(MmapError::Overlap));
    // Identical range.
    assert_eq!(ms.map_region(&mut fa, 0x1000, 0x2000, 0b011), Err(MmapError::Overlap));
    assert_eq!(ms.areas.len(), 1);
    assert_eq!(ms.areas[0].start, 1);
    assert_eq!(ms.areas[0].end, 3);
}

#[test]
fn byte_overlap_within_the_page_ranges_is_rejected() {
    let (mut ms, mut fa) = system(8);
    // One and a half pages: the page range still covers every byte.
    assert_eq!(ms.map_region(&mut fa, 0x1000, 0x1800, 0b011), Ok(()));
    assert_eq!(ms.areas[0].end - ms.areas[0].start, 2);
    assert_eq!(ms.map_region(&mut fa, 0x2000, 0x1000, 0b011), Err(MmapError::Overlap));
}

#[test]
fn last_byte_of_a_len_one_past_a_page_is_outside_the_page_range() {
    let (mut ms, mut fa) = system(8);
    // The range [0x1000, 0x2001) has its last byte at 0x2000, yet the
    // computed page range rounds that byte away: only page 1 is mapped.
    assert_eq!(ms.map_region(&mut fa, 0x1000, 0x1001, 0b011), Ok(()));
    assert_eq!(ms.areas[0].start, 1);
    assert_eq!(ms.areas[0].end, 2);
    // So a request at 0x2000 shares a byte with the first request on
    // paper, but no page, and succeeds.
    assert_eq!(ms.map_region(&mut fa, 0x2000, 0x1000, 0b011), Ok(()));
    assert_eq!(ms.areas.len(), 2);
}

#[test]
fn map_then_unmap_restores_area_set_and_free_count() {
    let (mut ms, mut fa) = system(8);
    let free_before = fa.free_count();
    assert_eq!(ms.map_region(&mut fa, 0x1000, 0x2000, 0b011), Ok(()));
    assert_eq!(fa.free_count(), free_before - 2);
    assert_eq!(ms.unmap_region(&mut fa, 0x1000, 0x2000), Ok(()));
    assert_eq!(ms.areas.len(), 0);
    assert_eq!(fa.free_count(), free_before);
}

#[test]
fn unmap_of_uncovered_range_fails_and_mutates_nothing() {
    let (mut ms, mut fa) = system(8);
    assert_eq!(ms.map_region(&mut fa, 0x1000, 0x1000, 0b011), Ok(()));
    let free_before = fa.free_count();
    // Entirely unmapped range.
    assert_eq!(ms.unmap_region(&mut fa, 0x5000, 0x1000), Err(MunmapError::NotMapped));
    // Partly unmapped range.
    assert_eq!(ms.unmap_region(&mut fa, 0x1000, 0x2000), Err(MunmapError::NotMapped));
    assert_eq!(ms.areas.len(), 1);
    assert_eq!(fa.free_count(), free_before);
}

#[test]
fn unmap_that_would_cut_an_area_fails() {
    let (mut ms, mut fa) = system(8);
    assert_eq!(ms.map_region(&mut fa, 0x1000, 0x2000, 0b011), Ok(()));
    // Covers only the first page of the two-page area.
    assert_eq!(ms.unmap_region(&mut fa, 0x1000, 0x1000), Err(MunmapError::NotMapped));
    assert_eq!(ms.areas.len(), 1);
}

#[test]
fn unmap_can_remove_several_whole_areas() {
    let (mut ms, mut fa) = system(8);
    assert_eq!(ms.map_region(&mut fa, 0x1000, 0x1000, 0b011), Ok(()));
    assert_eq!(ms.map_region(&mut fa, 0x2000, 0x1000, 0b011), Ok(()));
    assert_eq!(ms.map_region(&mut fa, 0x4000, 0x1000, 0b011), Ok(()));
    assert_eq!(ms.unmap_region(&mut fa, 0x1000, 0x2000), Ok(()));
    assert_eq!(ms.areas.len(), 1);
    assert_eq!(ms.areas[0].start, 4);
    assert_eq!(ms.areas[0].end, 5);
}

#[test]
fn two_page_map_scenario_with_remap() {
    let (mut ms, mut fa) = system(8);
    assert_eq!(ms.map_region(&mut fa, 0x1000, 0x2000, 0b011), Ok(()));
    assert_eq!(ms.areas.len(), 1);
    let area = &ms.areas[0];
    assert_eq!(area.end - area.start, 2);
    assert!(area.perm.readable);
    assert!(area.perm.writable);
    assert!(!area.perm.executable);
    assert!(area.perm.user);
    assert_eq!(ms.unmap_region(&mut fa, 0x1000, 0x2000), Ok(()));
    assert_eq!(ms.map_region(&mut fa, 0x1000, 0x2000, 0b011), Ok(()));
    assert_eq!(ms.areas.len(), 1);
}

#[test]
fn out_of_memory_rolls_back_cleanly() {
    let (mut ms, mut fa) = system(1);
    let free_before = fa.free_count();
    assert_eq!(ms.map_region(&mut fa, 0x1000, 0x2000, 0b011), Err(MmapError::OutOfMemory));
    assert_eq!(ms.areas.len(), 0);
    assert_eq!(fa.free_count(), free_before);
    // A one-page request still fits.
    assert_eq!(ms.map_region(&mut fa, 0x1000, 0x1000, 0b011), Ok(()));
}

#[test]
fn zero_length_requests_are_no_op_successes() {
    let (mut ms, mut fa) = system(8);
    assert_eq!(ms.map_region(&mut fa, 0x1000, 0, 0b011), Ok(()));
    assert_eq!(ms.areas.len(), 0);
    assert_eq!(ms.unmap_region(&mut fa, 0x1000, 0), Ok(()));
    assert_eq!(ms.areas.len(), 0);
}

#[test]
fn unaligned_unmap_start_is_widened_to_page_boundaries() {
    let (mut ms, mut fa) = system(8);
    assert_eq!(ms.map_region(&mut fa, 0x1000, 0x1000, 0b011), Ok(()));
    // Bytes [0x1800, 0x2000) lie in the mapped page, so the widened page
    // range is exactly that area.
    assert_eq!(ms.unmap_region(&mut fa, 0x1800, 0x800), Ok(()));
    assert_eq!(ms.areas.len(), 0);
}

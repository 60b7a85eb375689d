use os4::addr::{PAGE_SIZE, VirtAddr};
use os4::codec::{le_bytes_to_u64, usize_to_le_bytes};
use os4::perm::{InvalidPermission, MapPermission};
use os4::syscall::TimeVal;

#[test]
fn floor_and_ceil_round_to_page_boundaries() {
    assert_eq!(PAGE_SIZE, 4096);
    assert_eq!(VirtAddr(0).floor().0, 0);
    assert_eq!(VirtAddr(0).ceil().0, 0);
    assert_eq!(VirtAddr(1).floor().0, 0);
    assert_eq!(VirtAddr(1).ceil().0, 1);
    assert_eq!(VirtAddr(4095).floor().0, 0);
    assert_eq!(VirtAddr(4095).ceil().0, 1);
    assert_eq!(VirtAddr(4096).floor().0, 1);
    assert_eq!(VirtAddr(4096).ceil().0, 1);
    assert_eq!(VirtAddr(0x2fff).ceil().0, 3);
    assert!(VirtAddr(0x3000).is_page_aligned());
    assert!(!VirtAddr(0x3001).is_page_aligned());
}

#[test]
fn permission_bits_decode_with_implicit_user() {
    let p = MapPermission::from_bits(0b011).unwrap();
    assert!(p.readable && p.writable && !p.executable && p.user);
    let x = MapPermission::from_bits(0b100).unwrap();
    assert!(!x.readable && !x.writable && x.executable && x.user);
    assert_eq!(MapPermission::from_bits(0), Err(InvalidPermission));
    assert_eq!(MapPermission::from_bits(0b11000), Err(InvalidPermission));
    assert_eq!(MapPermission::from_bits(8), Err(InvalidPermission));
}

#[test]
fn little_endian_encoding_has_the_expected_bytes() {
    let b = usize_to_le_bytes(0x0102_0304, 8);
    assert_eq!(b, vec![0x04, 0x03, 0x02, 0x01, 0, 0, 0, 0]);
    let short = usize_to_le_bytes(300, 4);
    assert_eq!(short, vec![44, 1, 0, 0]);
}

#[test]
fn little_endian_decoding_inverts_encoding() {
    for v in [0usize, 1, 255, 256, 65_535, 1_000_000, 0x7fff_ffff] {
        let b = usize_to_le_bytes(v, 8);
        assert_eq!(le_bytes_to_u64(&b), v as u64);
    }
    assert_eq!(le_bytes_to_u64(&vec![]), 0);
    assert_eq!(le_bytes_to_u64(&vec![7]), 7);
}

#[test]
fn time_val_layout_is_two_little_endian_fields() {
    let tv = TimeVal { sec: 3, usec: 250_999 };
    let b = tv.to_bytes();
    assert_eq!(b.len(), 16);
    assert_eq!(le_bytes_to_u64(&b[0..8].to_vec()), 3);
    assert_eq!(le_bytes_to_u64(&b[8..16].to_vec()), 250_999);
}

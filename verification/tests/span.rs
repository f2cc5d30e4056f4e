use kind2::Src;

#[test]
fn packs_fields_in_order() {
    let src = Src::new(3, 5, 9);
    assert_eq!(src.to_u64(), (3u64 << 40) | (5u64 << 20) | 9u64);
}

#[test]
fn round_trip_small_fields() {
    let src = Src::new(7, 1234, 99999);
    let back = Src::from_u64(src.to_u64());
    assert_eq!(back.fid, 7);
    assert_eq!(back.ini, 1234);
    assert_eq!(back.end, 99999);
}

#[test]
fn round_trip_largest_fields() {
    let src = Src::new(0xFF_FFFF, 0xFFFFF, 0xFFFFF);
    assert_eq!(src.to_u64(), u64::MAX);
    let back = Src::from_u64(u64::MAX);
    assert_eq!(back, src);
}

#[test]
fn wide_start_offset_is_truncated() {
    // one more than fits in 20 bits: the low 20 bits are all zero
    let src = Src::new(0, 1048576, 0);
    assert_eq!(src.to_u64(), 0);
    let back = Src::from_u64(src.to_u64());
    assert_eq!((back.fid, back.ini, back.end), (0, 0, 0));
}

#[test]
fn wide_end_offset_is_truncated() {
    let src = Src::new(5, 7, 0x100000 + 9);
    assert_eq!(src.to_u64(), (5u64 << 40) | (7u64 << 20) | 9u64);
    let back = Src::from_u64(src.to_u64());
    assert_eq!((back.fid, back.ini, back.end), (5, 7, 9));
}

#[test]
fn wide_fields_do_not_reach_their_neighbours() {
    let src = Src::new(1, u64::MAX, u64::MAX);
    let back = Src::from_u64(src.to_u64());
    assert_eq!((back.fid, back.ini, back.end), (1, 0xFFFFF, 0xFFFFF));
    let src = Src::new(0x1_000_002, 3, 4);
    let back = Src::from_u64(src.to_u64());
    assert_eq!((back.fid, back.ini, back.end), (2, 3, 4));
}

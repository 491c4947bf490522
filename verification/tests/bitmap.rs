use access_control::BitMap;

#[test]
fn test_bitmap_set_bit() {
    let mut bm = BitMap([0u8; 4].into());

    bm.set_bit(0).set_bit(1).set_bit(31);

    assert_eq!(bm.0[0], 3);
    assert_eq!(bm.0[1], 0);
    assert_eq!(bm.0[2], 0);
    assert_eq!(bm.0[3], 128);
}

#[test]
fn test_bitmap_clear_bit() {
    let mut bm = BitMap([u8::MAX; 4].into());

    bm.clear_bit(0).clear_bit(1).clear_bit(31);

    assert_eq!(bm.0[0], u8::MAX - 2 - 1);
    assert_eq!(bm.0[1], u8::MAX);
    assert_eq!(bm.0[2], u8::MAX);
    assert_eq!(bm.0[3], 127);
}

#[test]
fn test_bitmap_has_bit_set() {
    let bm = BitMap([6, 2, 0, 0].into());

    assert_eq!(bm.has_bit_set(0), false);
    assert_eq!(bm.has_bit_set(1), true);
    assert_eq!(bm.has_bit_set(2), true);
    assert_eq!(bm.has_bit_set(9), true);
}

#[test]
fn test_bitmap_new_is_all_zero() {
    let bm = BitMap::new(4);
    assert_eq!(bm.0, [0, 0, 0, 0]);
    for i in 0..32 {
        assert!(!bm.has_bit_set(i));
    }
}

#[test]
fn test_bitmap_set_then_query_round_trip() {
    for i in 0..32 {
        let mut bm = BitMap::new(4);
        bm.set_bit(i);
        assert!(bm.has_bit_set(i));
    }
}

#[test]
fn test_bitmap_clear_then_query_round_trip() {
    for i in 0..32 {
        let mut bm = BitMap([u8::MAX; 4].into());
        bm.clear_bit(i);
        assert!(!bm.has_bit_set(i));
    }
}

#[test]
fn test_bitmap_bit_independence() {
    let mut bm = BitMap::new(4);
    bm.set_bit(7);
    for i in 0..32 {
        assert_eq!(bm.has_bit_set(i), i == 7);
    }
    bm.set_bit(8);
    bm.clear_bit(7);
    for i in 0..32 {
        assert_eq!(bm.has_bit_set(i), i == 8);
    }
}

use packed_lists::{record_layout, record_size};

#[test]
fn it_works() {
    assert_eq!(2 + 2, 4);
}

#[test]
fn test_table_list_size() {
    assert_eq!(record_size::<(), ()>(1), Some(2));
    assert_eq!(record_size::<(), ()>(9), Some(2));

    assert_eq!(record_size::<(), u8>(1), Some(4));
    assert_eq!(record_size::<(), u8>(8), Some(10));
    assert_eq!(record_size::<(), u8>(9), Some(12));

    assert_eq!(record_size::<u8, u8>(1), Some(6));
    assert_eq!(record_size::<u8, u8>(8), Some(12));

    assert_eq!(record_size::<(u8, u8, u8), u8>(1), Some(8));
    assert_eq!(record_size::<(u8, u8, u8), u8>(8), Some(14));
    assert_eq!(record_size::<(u8, u8, u8), ()>(8), Some(6));

    assert_eq!(record_size::<(u8, u8, u8, u8, u8), u8>(1), Some(10));
    assert_eq!(record_size::<(u8, u8, u8, u8, u8), u8>(8), Some(16));

    assert_eq!(record_size::<(u16, u8, u8, u8), u8>(1), Some(10));
    assert_eq!(record_size::<(u16, u8, u8, u8), u8>(7), Some(16));

    assert_eq!(record_size::<u32, u16>(1), Some(8));
    assert_eq!(record_size::<u32, u16>(3), Some(12));
    assert_eq!(record_size::<u32, u16>(4), Some(16));

    assert_eq!(record_size::<u32, u64>(1), Some(16));
    assert_eq!(record_size::<u32, u64>(2), Some(24));
    assert_eq!(record_size::<u32, u64>(3), Some(32));

    assert_eq!(record_size::<u32, (u8, u8, u8)>(1), Some(12));
    assert_eq!(record_size::<u32, (u8, u8, u8)>(2), Some(12));
    assert_eq!(record_size::<u32, (u8, u8, u8)>(3), Some(16));
    assert_eq!(record_size::<u32, (u8, u8, u8)>(4), Some(20));
}

#[test]
fn record_layout_gives_offset_and_rounded_size() {
    // label of 4 bytes, u16 length at 4, items of 8 bytes aligned at 8
    assert_eq!(record_layout(4, 4, 8, 8, 1), Some((8, 16)));
    // a 3-byte label puts the length at 4 and the byte items at 6
    assert_eq!(record_layout(3, 1, 1, 1, 8), Some((6, 14)));
}

#[test]
fn record_layout_reports_overflow() {
    assert_eq!(record_layout(0, 1, usize::MAX / 2, 1, 3), None);
}

#[test]
fn record_size_is_least_multiple_and_grows_with_capacity() {
    // record alignment 8: smallest multiple of 8 at or above 8 + 8 * cap
    let mut last = 0;
    for cap in 1..20u16 {
        let size = record_size::<u32, u64>(cap).unwrap();
        assert_eq!(size % 8, 0);
        assert!(size >= 8 + 8 * cap as usize);
        assert!(size < 8 + 8 * cap as usize + 8);
        assert!(size >= last);
        last = size;
    }
    // doubling the capacity grows the size by item_size * cap, up to the alignment
    let a = record_size::<u32, (u8, u8, u8)>(5).unwrap();
    let b = record_size::<u32, (u8, u8, u8)>(10).unwrap();
    assert_eq!(a, 24);
    assert_eq!(b, 36);
}

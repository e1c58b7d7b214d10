use packed_lists::{DecodeError, Table, TableBuilder};

#[test]
fn test_table_table() {
    let table = Table::<u8, f32>::new(3, 4);
    assert_eq!(table.list_cnt(), 3);
    assert_eq!(table.list_cap(), 4);
    assert_eq!(table.list_size(), 20);
    assert_eq!(table.list_size() as usize * table.list_cnt() as usize, 3 * 20);
    assert!(table.items(10).is_none());
}

#[test]
fn test_table_list() {
    let mut builder = TableBuilder::<u8, f32>::new(3, 2);
    assert_eq!(builder.list_cap(), 2);
    assert_eq!(builder.list_len(2), Some(0));
    assert!(builder.set_label(2, 123));
    assert_eq!(builder.push_item(2, 10.0), true);
    assert_eq!(builder.push_item(2, 20.0), true);
    assert_eq!(builder.push_item(2, 30.0), false);
    let table = builder.finish();
    assert_eq!(table.items(2).unwrap().len(), 2);
    assert_eq!(*table.label(2).unwrap(), 123);
    assert_eq!(table.items(2).unwrap(), &[10.0, 20.0]);
}

#[test]
fn new_table_has_empty_default_lists() {
    let table = Table::<u8, u32>::new(2, 3);
    assert_eq!(table.label(0), Some(&0));
    assert_eq!(table.items(1), Some(&[][..]));
}

#[test]
fn push_exactly_capacity_then_one_more_fails() {
    let mut builder = TableBuilder::<(), u16>::new(1, 4);
    for k in 0..4u16 {
        assert!(builder.push_item(0, k));
    }
    assert!(!builder.push_item(0, 99));
    assert_eq!(builder.list_len(0), Some(4));
    let table = builder.finish();
    assert_eq!(table.items(0).unwrap(), &[0, 1, 2, 3]);
}

#[test]
fn push_and_label_past_count_fail() {
    let mut builder = TableBuilder::<u8, u8>::new(2, 2);
    assert!(!builder.push_item(2, 1));
    assert!(!builder.set_label(5, 1));
    assert_eq!(builder.list_len(2), None);
}

#[test]
fn accessors_present_below_count_absent_at_and_past_it() {
    let table = Table::<u8, u8>::new(3, 1);
    for idx in 0..3u16 {
        assert!(table.label(idx).is_some());
        assert!(table.items(idx).is_some());
        assert!(table.pair(idx).is_some());
    }
    for idx in [3u16, 4, 100, u16::MAX] {
        assert!(table.label(idx).is_none());
        assert!(table.items(idx).is_none());
        assert!(table.pair(idx).is_none());
    }
}

#[test]
fn open_list_takes_lists_in_order_until_count() {
    let mut builder = TableBuilder::<u8, u8>::new(2, 1);
    assert_eq!(builder.open_list(7), Ok(0));
    assert_eq!(builder.push(1), Ok(()));
    assert_eq!(builder.push(2), Err(DecodeError::CapacityOverflow(0)));
    assert_eq!(builder.open_list(8), Ok(1));
    assert_eq!(builder.open_list(9), Err(DecodeError::CountOverflow));
    let table = builder.finish();
    assert_eq!(table.pair(0), Some((&7, &[1u8][..])));
    assert_eq!(table.pair(1), Some((&8, &[][..])));
}

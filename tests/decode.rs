use packed_lists::{
    begin_table, build_table, decode, push_codes, AttributeKey, DecodeError, Field, FieldName,
    SlotClass, Table, TableBuilder,
};
use ustr::Ustr;

#[test]
fn test_attributes_deserialize() {
    let fields: Vec<Field<AttributeKey, f32>> = vec![
        Field::ListCnt(2),
        Field::ListCap(5),
        Field::Table(vec![
            (AttributeKey::MaxHealth, vec![100.0, 200.0, 300.0, 400.0, 500.0]),
            (AttributeKey::MaxShield, vec![20.0, 40.0, 60.0, 80.0, 100.0]),
        ]),
    ];
    let attrs = decode(&fields).unwrap();
    assert_eq!(attrs.list_cnt(), 2);
    assert_eq!(attrs.list_cap(), 5);
    assert_eq!(*attrs.label(0).unwrap(), AttributeKey::MaxHealth);
    assert_eq!(attrs.items(0).unwrap(), &[100.0, 200.0, 300.0, 400.0, 500.0]);
    assert_eq!(*attrs.label(1).unwrap(), AttributeKey::MaxShield);
    assert_eq!(attrs.items(1).unwrap(), &[20.0, 40.0, 60.0, 80.0, 100.0]);
}

#[test]
fn test_materials_deserialize() {
    let fields: Vec<Field<(), (Ustr, f64)>> = vec![
        Field::ListCnt(2),
        Field::ListCap(3),
        Field::Table(vec![
            ((), vec![(Ustr::from("Material.1"), 1.0), (Ustr::from("Material.2"), 2.0)]),
            (
                (),
                vec![
                    (Ustr::from("Material.1"), 1.0),
                    (Ustr::from("Material.2"), 2.0),
                    (Ustr::from("Material.3"), 3.0),
                ],
            ),
        ]),
    ];
    let vars = decode(&fields).unwrap();
    assert_eq!(vars.list_cnt(), 2);
    assert_eq!(vars.list_cap(), 3);
    assert_eq!(*vars.label(0).unwrap(), ());
    assert_eq!(
        vars.items(0).unwrap(),
        &[(Ustr::from("Material.1"), 1.0), (Ustr::from("Material.2"), 2.0)]
    );
    assert_eq!(*vars.label(1).unwrap(), ());
    assert_eq!(
        vars.items(1).unwrap(),
        &[
            (Ustr::from("Material.1"), 1.0),
            (Ustr::from("Material.2"), 2.0),
            (Ustr::from("Material.3"), 3.0)
        ]
    );
}

#[test]
fn test_slots_deserialize() {
    let mut builder: TableBuilder<(), SlotClass> = begin_table(2, 3).unwrap();
    for text in ["", "AHG"] {
        builder.open_list(()).unwrap();
        push_codes(&mut builder, &text.chars().collect()).unwrap();
    }
    let slots: Table<(), SlotClass> = builder.finish();
    assert_eq!(slots.list_cnt(), 2);
    assert_eq!(slots.list_cap(), 3);
    assert_eq!(*slots.label(0).unwrap(), ());
    assert_eq!(slots.items(0).unwrap(), &[]);
    assert_eq!(*slots.label(1).unwrap(), ());
    assert_eq!(
        slots.items(1).unwrap(),
        &[SlotClass::Attack, SlotClass::Health, SlotClass::General]
    );
}

#[test]
fn label_values_beyond_capacity_overflow() {
    let fields: Vec<Field<AttributeKey, u32>> = vec![
        Field::ListCnt(2),
        Field::ListCap(2),
        Field::Table(vec![(AttributeKey::Attack, vec![1, 2, 3])]),
    ];
    assert_eq!(decode(&fields).err(), Some(DecodeError::CapacityOverflow(0)));
}

#[test]
fn more_entries_than_count_overflow() {
    let fields: Vec<Field<(), u32>> = vec![
        Field::ListCnt(2),
        Field::ListCap(3),
        Field::Table(vec![((), vec![1]), ((), vec![2]), ((), vec![3])]),
    ];
    assert_eq!(decode(&fields).err(), Some(DecodeError::CountOverflow));
}

#[test]
fn unknown_slot_code_is_invalid_item() {
    let mut builder: TableBuilder<(), SlotClass> = begin_table(1, 3).unwrap();
    builder.open_list(()).unwrap();
    assert_eq!(push_codes(&mut builder, &"AXG".chars().collect()), Err(DecodeError::InvalidItem));
}

#[test]
fn too_many_slot_codes_overflow_capacity() {
    let mut builder: TableBuilder<(), SlotClass> = begin_table(2, 2).unwrap();
    builder.open_list(()).unwrap();
    builder.open_list(()).unwrap();
    assert_eq!(
        push_codes(&mut builder, &"GGG".chars().collect()),
        Err(DecodeError::CapacityOverflow(1))
    );
}

#[test]
fn slot_codes_map_to_classes() {
    assert_eq!(SlotClass::from_code('A'), Some(SlotClass::Attack));
    assert_eq!(SlotClass::from_code('H'), Some(SlotClass::Health));
    assert_eq!(SlotClass::from_code('G'), Some(SlotClass::General));
    assert_eq!(SlotClass::from_code('a'), None);
}

#[test]
fn lists_keep_input_order() {
    let fields: Vec<Field<u8, u8>> = vec![
        Field::ListCnt(4),
        Field::ListCap(3),
        Field::Table(vec![(b'A', vec![3, 1, 2]), (b'B', vec![]), (b'C', vec![9, 8])]),
    ];
    let table = decode(&fields).unwrap();
    assert_eq!(table.pair(0), Some((&b'A', &[3u8, 1, 2][..])));
    assert_eq!(table.pair(1), Some((&b'B', &[][..])));
    assert_eq!(table.pair(2), Some((&b'C', &[9u8, 8][..])));
    assert_eq!(table.items(3), Some(&[][..]));
    assert_eq!(table.items(4), None);
}

#[test]
fn table_before_header_is_missing_field() {
    let fields: Vec<Field<u8, u8>> = vec![
        Field::Other,
        Field::Table(vec![(1, vec![1])]),
        Field::ListCnt(1),
        Field::ListCap(1),
    ];
    assert_eq!(
        decode(&fields).err(),
        Some(DecodeError::MissingField(FieldName::ListCnt))
    );
    let fields: Vec<Field<u8, u8>> = vec![
        Field::ListCnt(1),
        Field::Table(vec![(1, vec![1])]),
        Field::ListCap(1),
    ];
    assert_eq!(
        decode(&fields).err(),
        Some(DecodeError::MissingField(FieldName::ListCap))
    );
}

#[test]
fn absent_table_is_missing_field() {
    let fields: Vec<Field<u8, u8>> = vec![Field::ListCnt(1), Field::ListCap(1)];
    assert_eq!(
        decode(&fields).err(),
        Some(DecodeError::MissingField(FieldName::Table))
    );
}

#[test]
fn zero_count_or_capacity_is_missing_field() {
    assert_eq!(
        begin_table::<u8, u8>(0, 3).err(),
        Some(DecodeError::MissingField(FieldName::ListCnt))
    );
    assert_eq!(
        begin_table::<u8, u8>(3, 0).err(),
        Some(DecodeError::MissingField(FieldName::ListCap))
    );
}

#[test]
fn build_table_fills_front_lists() {
    let table = build_table(3, 2, &vec![(1u8, vec![5u8, 6])]).unwrap();
    assert_eq!(table.pair(0), Some((&1, &[5u8, 6][..])));
    assert_eq!(table.items(1), Some(&[][..]));
}

#[test]
fn later_table_field_replaces_earlier_one() {
    let fields: Vec<Field<u8, u8>> = vec![
        Field::ListCnt(1),
        Field::ListCap(1),
        Field::Table(vec![(1, vec![1])]),
        Field::ListCnt(2),
        Field::Table(vec![(2, vec![2]), (3, vec![])]),
    ];
    let table = decode(&fields).unwrap();
    assert_eq!(table.list_cnt(), 2);
    assert_eq!(table.pair(1), Some((&3, &[][..])));
}

#[test]
fn attribute_key_defaults_to_max_health() {
    assert_eq!(AttributeKey::default(), AttributeKey::MaxHealth);
}

#[test]
fn attribute_names_decode_to_keys() {
    assert_eq!(
        AttributeKey::decode_label(&String::from("max_health")),
        Ok(AttributeKey::MaxHealth)
    );
    assert_eq!(
        AttributeKey::decode_label(&String::from("max_shield")),
        Ok(AttributeKey::MaxShield)
    );
    assert_eq!(
        AttributeKey::decode_label(&String::from("epe_defense_up")),
        Ok(AttributeKey::EpeDefenseUp)
    );
}

#[test]
fn unknown_attribute_name_is_invalid_label() {
    assert_eq!(
        AttributeKey::decode_label(&String::from("MaxHealth")),
        Err(DecodeError::InvalidLabel)
    );
    assert_eq!(
        AttributeKey::decode_label(&String::new()),
        Err(DecodeError::InvalidLabel)
    );
}

use scale_encoder::{
    encode_value, EncodeValue, Field, PrimitiveKind, Registry, TypeDescriptor, Value, VariantCase,
};

fn prim_registry(kind: PrimitiveKind) -> Registry {
    Registry::new(vec![TypeDescriptor::Primitive(kind)])
}

fn encode_ok(reg: &Registry, id: u32, v: &Value) -> Vec<u8> {
    let mut out = Vec::new();
    encode_value(reg, id, v, &mut out).expect("encoding should succeed");
    out
}

#[test]
fn bool_true_is_one_byte() {
    let reg = prim_registry(PrimitiveKind::Bool);
    assert_eq!(encode_ok(&reg, 1, &Value::Bool(true)), vec![1u8]);
    assert_eq!(encode_ok(&reg, 1, &Value::Bool(false)), vec![0u8]);
}

#[test]
fn u8_max_succeeds_with_ff() {
    let reg = prim_registry(PrimitiveKind::U8);
    assert_eq!(encode_ok(&reg, 1, &Value::UInt(255)), vec![0xFFu8]);
}

#[test]
fn u16_is_little_endian() {
    let reg = prim_registry(PrimitiveKind::U16);
    assert_eq!(encode_ok(&reg, 1, &Value::UInt(0xABCD)), vec![0xCDu8, 0xAB]);
}

#[test]
fn u32_is_little_endian() {
    let reg = prim_registry(PrimitiveKind::U32);
    assert_eq!(
        encode_ok(&reg, 1, &Value::UInt(0x01020304)),
        vec![4u8, 3, 2, 1]
    );
}

#[test]
fn u64_is_little_endian_eight_bytes() {
    let reg = prim_registry(PrimitiveKind::U64);
    assert_eq!(
        encode_ok(&reg, 1, &Value::UInt(1_000_000)),
        vec![0x40u8, 0x42, 0x0F, 0, 0, 0, 0, 0]
    );
}

#[test]
fn u128_is_little_endian_sixteen_bytes() {
    let reg = prim_registry(PrimitiveKind::U128);
    let mut expected = vec![44u8, 1];
    expected.resize(16, 0);
    assert_eq!(encode_ok(&reg, 1, &Value::UInt(300)), expected);
}

#[test]
fn large_integer_string_path_u64() {
    let reg = prim_registry(PrimitiveKind::U64);
    assert_eq!(
        encode_ok(&reg, 1, &Value::Str("1_000_000".to_string())),
        vec![0x40u8, 0x42, 0x0F, 0, 0, 0, 0, 0]
    );
}

#[test]
fn grouping_commas_are_stripped_u128() {
    let reg = prim_registry(PrimitiveKind::U128);
    let mut expected = vec![0x40u8, 0x42, 0x0F];
    expected.resize(16, 0);
    assert_eq!(
        encode_ok(&reg, 1, &Value::Str("1,000,000".to_string())),
        expected
    );
}

#[test]
fn decimal_string_accepts_leading_plus() {
    let reg = prim_registry(PrimitiveKind::U64);
    assert_eq!(
        encode_ok(&reg, 1, &Value::Str("+42".to_string())),
        vec![42u8, 0, 0, 0, 0, 0, 0, 0]
    );
}

#[test]
fn decimal_string_at_u64_max() {
    let reg = prim_registry(PrimitiveKind::U64);
    assert_eq!(
        encode_ok(&reg, 1, &Value::Str("18446744073709551615".to_string())),
        vec![0xFFu8; 8]
    );
}

#[test]
fn str_is_length_prefixed() {
    let reg = prim_registry(PrimitiveKind::Str);
    assert_eq!(
        encode_ok(&reg, 1, &Value::Str("abc".to_string())),
        vec![12u8, 97, 98, 99]
    );
}

#[test]
fn sequence_emits_count_prefix() {
    let reg = Registry::new(vec![
        TypeDescriptor::Primitive(PrimitiveKind::U8),
        TypeDescriptor::Sequence(1),
    ]);
    let v = Value::List(vec![Value::UInt(1), Value::UInt(2), Value::UInt(3)]);
    assert_eq!(encode_ok(&reg, 2, &v), vec![12u8, 1, 2, 3]);
}

#[test]
fn array_emits_no_count_prefix() {
    let reg = Registry::new(vec![
        TypeDescriptor::Primitive(PrimitiveKind::U8),
        TypeDescriptor::Array(1, 3),
    ]);
    let v = Value::List(vec![Value::UInt(1), Value::UInt(2), Value::UInt(3)]);
    assert_eq!(encode_ok(&reg, 2, &v), vec![1u8, 2, 3]);
}

#[test]
fn two_byte_count_prefix_for_seventy_elements() {
    let reg = Registry::new(vec![
        TypeDescriptor::Primitive(PrimitiveKind::U8),
        TypeDescriptor::Sequence(1),
    ]);
    let mut items = Vec::new();
    for _ in 0..70 {
        items.push(Value::UInt(0));
    }
    let mut expected = vec![0x19u8, 0x01];
    expected.resize(72, 0);
    assert_eq!(encode_ok(&reg, 2, &Value::List(items)), expected);
}

#[test]
fn bytes_and_u8_list_encode_identically() {
    let reg = Registry::new(vec![
        TypeDescriptor::Primitive(PrimitiveKind::U8),
        TypeDescriptor::Sequence(1),
    ]);
    let as_bytes = Value::Bytes(vec![9, 8, 7]);
    let as_list = Value::List(vec![Value::UInt(9), Value::UInt(8), Value::UInt(7)]);
    assert_eq!(
        encode_ok(&reg, 2, &as_bytes),
        encode_ok(&reg, 2, &as_list)
    );
    assert_eq!(encode_ok(&reg, 2, &as_bytes), vec![12u8, 9, 8, 7]);
}

#[test]
fn bytes_fast_path_against_array() {
    let reg = Registry::new(vec![
        TypeDescriptor::Primitive(PrimitiveKind::U8),
        TypeDescriptor::Array(1, 4),
    ]);
    assert_eq!(
        encode_ok(&reg, 2, &Value::Bytes(vec![1, 2, 3, 4])),
        vec![1u8, 2, 3, 4]
    );
}

#[test]
fn variant_emits_declaration_index() {
    let reg = Registry::new(vec![
        TypeDescriptor::Primitive(PrimitiveKind::U8),
        TypeDescriptor::Variant(vec![
            VariantCase { name: "A".to_string(), fields: vec![] },
            VariantCase {
                name: "B".to_string(),
                fields: vec![Field { name: None, type_id: 1 }],
            },
            VariantCase { name: "C".to_string(), fields: vec![] },
        ]),
    ]);
    let v = Value::Tuple(Some("B".to_string()), vec![Value::UInt(7)]);
    assert_eq!(encode_ok(&reg, 2, &v), vec![1u8, 7]);
    let unit = Value::Tuple(Some("C".to_string()), vec![]);
    assert_eq!(encode_ok(&reg, 2, &unit), vec![2u8]);
}

#[test]
fn composite_tuple_encodes_fields_in_order() {
    let reg = Registry::new(vec![
        TypeDescriptor::Primitive(PrimitiveKind::U8),
        TypeDescriptor::Primitive(PrimitiveKind::U16),
        TypeDescriptor::Composite(vec![
            Field { name: None, type_id: 1 },
            Field { name: None, type_id: 2 },
        ]),
    ]);
    let v = Value::Tuple(None, vec![Value::UInt(5), Value::UInt(0x0102)]);
    assert_eq!(encode_ok(&reg, 3, &v), vec![5u8, 2, 1]);
}

#[test]
fn composite_record_encodes_entries_positionally() {
    let reg = Registry::new(vec![
        TypeDescriptor::Primitive(PrimitiveKind::U8),
        TypeDescriptor::Primitive(PrimitiveKind::Bool),
        TypeDescriptor::Composite(vec![
            Field { name: Some("a".to_string()), type_id: 1 },
            Field { name: Some("b".to_string()), type_id: 2 },
        ]),
    ]);
    let v = Value::Record(
        None,
        vec![
            ("a".to_string(), Value::UInt(9)),
            ("b".to_string(), Value::Bool(true)),
        ],
    );
    assert_eq!(encode_ok(&reg, 3, &v), vec![9u8, 1]);
}

#[test]
fn unit_composite_encodes_nothing() {
    let reg = Registry::new(vec![TypeDescriptor::Composite(vec![])]);
    assert_eq!(encode_ok(&reg, 1, &Value::Tuple(None, vec![])), Vec::<u8>::new());
}

#[test]
fn transparent_single_field_composite() {
    let reg = Registry::new(vec![
        TypeDescriptor::Primitive(PrimitiveKind::Bool),
        TypeDescriptor::Composite(vec![Field { name: None, type_id: 1 }]),
    ]);
    let wrapped = encode_ok(&reg, 2, &Value::Bool(true));
    let direct = encode_ok(&reg, 1, &Value::Bool(true));
    assert_eq!(wrapped, direct);
    assert_eq!(wrapped, vec![1u8]);
}

#[test]
fn nested_composite_round() {
    // struct Outer(Inner, u8); struct Inner { x: u16 }
    let reg = Registry::new(vec![
        TypeDescriptor::Primitive(PrimitiveKind::U16),
        TypeDescriptor::Composite(vec![Field { name: Some("x".to_string()), type_id: 1 }]),
        TypeDescriptor::Primitive(PrimitiveKind::U8),
        TypeDescriptor::Composite(vec![
            Field { name: None, type_id: 2 },
            Field { name: None, type_id: 3 },
        ]),
    ]);
    let inner = Value::Record(None, vec![("x".to_string(), Value::UInt(0x0405))]);
    let v = Value::Tuple(None, vec![inner, Value::UInt(9)]);
    assert_eq!(encode_ok(&reg, 4, &v), vec![5u8, 4, 9]);
}

#[test]
fn trait_entry_point_matches_free_function() {
    let reg = prim_registry(PrimitiveKind::U8);
    let desc = TypeDescriptor::Primitive(PrimitiveKind::U8);
    let mut out = Vec::new();
    desc.encode_value_to(&reg, &Value::UInt(42), &mut out)
        .expect("encoding should succeed");
    assert_eq!(out, vec![42u8]);
}

#[test]
fn output_is_appended_not_replaced() {
    let reg = prim_registry(PrimitiveKind::U8);
    let mut out = vec![0xEEu8];
    encode_value(&reg, 1, &Value::UInt(1), &mut out).expect("encoding should succeed");
    assert_eq!(out, vec![0xEEu8, 1]);
}

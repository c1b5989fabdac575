use scale_encoder::{
    encode_value, ErrorKind, Field, PrimitiveKind, Registry, TypeDescriptor, Value, VariantCase,
};

fn encode_err(reg: &Registry, id: u32, v: &Value) -> scale_encoder::EncodeError {
    let mut out = Vec::new();
    encode_value(reg, id, v, &mut out).expect_err("encoding should fail")
}

#[test]
fn unknown_type_id_fails() {
    let reg = Registry::new(vec![TypeDescriptor::Primitive(PrimitiveKind::U8)]);
    let e = encode_err(&reg, 2, &Value::UInt(0));
    assert_eq!(e.kind, ErrorKind::UnknownType(2));
    let zero = encode_err(&reg, 0, &Value::UInt(0));
    assert_eq!(zero.kind, ErrorKind::UnknownType(0));
}

#[test]
fn u8_overflow_is_a_conversion_error() {
    let reg = Registry::new(vec![TypeDescriptor::Primitive(PrimitiveKind::U8)]);
    let e = encode_err(&reg, 1, &Value::UInt(256));
    assert_eq!(e.kind, ErrorKind::NumericConversion);
}

#[test]
fn u16_and_u32_overflow() {
    let reg = Registry::new(vec![
        TypeDescriptor::Primitive(PrimitiveKind::U16),
        TypeDescriptor::Primitive(PrimitiveKind::U32),
    ]);
    assert_eq!(
        encode_err(&reg, 1, &Value::UInt(65536)).kind,
        ErrorKind::NumericConversion
    );
    assert_eq!(
        encode_err(&reg, 2, &Value::UInt(1 << 32)).kind,
        ErrorKind::NumericConversion
    );
}

#[test]
fn u64_overflow_and_parse_failure() {
    let reg = Registry::new(vec![TypeDescriptor::Primitive(PrimitiveKind::U64)]);
    assert_eq!(
        encode_err(&reg, 1, &Value::UInt(u64::MAX as u128 + 1)).kind,
        ErrorKind::NumericConversion
    );
    assert_eq!(
        encode_err(&reg, 1, &Value::Str("12x4".to_string())).kind,
        ErrorKind::NumericConversion
    );
    assert_eq!(
        encode_err(&reg, 1, &Value::Str("".to_string())).kind,
        ErrorKind::NumericConversion
    );
    assert_eq!(
        encode_err(&reg, 1, &Value::Str("18446744073709551616".to_string())).kind,
        ErrorKind::NumericConversion
    );
}

#[test]
fn bool_requires_bool_value() {
    let reg = Registry::new(vec![TypeDescriptor::Primitive(PrimitiveKind::Bool)]);
    assert_eq!(
        encode_err(&reg, 1, &Value::UInt(1)).kind,
        ErrorKind::ShapeMismatch
    );
}

#[test]
fn char_is_unsupported() {
    let reg = Registry::new(vec![TypeDescriptor::Primitive(PrimitiveKind::Char)]);
    assert_eq!(
        encode_err(&reg, 1, &Value::Str("a".to_string())).kind,
        ErrorKind::UnsupportedKind
    );
}

#[test]
fn signed_primitives_are_unsupported() {
    let reg = Registry::new(vec![TypeDescriptor::Primitive(PrimitiveKind::I32)]);
    assert_eq!(
        encode_err(&reg, 1, &Value::UInt(1)).kind,
        ErrorKind::UnsupportedKind
    );
}

#[test]
fn missing_variant_identifier() {
    let reg = Registry::new(vec![TypeDescriptor::Variant(vec![VariantCase {
        name: "A".to_string(),
        fields: vec![],
    }])]);
    let e = encode_err(&reg, 1, &Value::Tuple(None, vec![]));
    assert_eq!(e.kind, ErrorKind::MissingVariantIdentifier);
    let r = encode_err(&reg, 1, &Value::Record(None, vec![]));
    assert_eq!(r.kind, ErrorKind::MissingVariantIdentifier);
}

#[test]
fn unknown_variant_case_names_the_case() {
    let reg = Registry::new(vec![TypeDescriptor::Variant(vec![VariantCase {
        name: "A".to_string(),
        fields: vec![],
    }])]);
    let e = encode_err(&reg, 1, &Value::Tuple(Some("Z".to_string()), vec![]));
    assert_eq!(e.kind, ErrorKind::UnknownVariantCase("Z".to_string()));
}

#[test]
fn variant_value_must_be_tuple_or_record() {
    let reg = Registry::new(vec![TypeDescriptor::Variant(vec![VariantCase {
        name: "A".to_string(),
        fields: vec![],
    }])]);
    assert_eq!(
        encode_err(&reg, 1, &Value::Bool(true)).kind,
        ErrorKind::ShapeMismatch
    );
}

#[test]
fn variant_index_overflow_beyond_one_byte() {
    let mut cases = Vec::new();
    for i in 0..257 {
        cases.push(VariantCase { name: format!("C{}", i), fields: vec![] });
    }
    let reg = Registry::new(vec![TypeDescriptor::Variant(cases)]);
    let last = encode_err(&reg, 1, &Value::Tuple(Some("C256".to_string()), vec![]));
    assert_eq!(last.kind, ErrorKind::VariantIndexOverflow);
    // The case at index 255 still fits the one-byte tag.
    let mut out = Vec::new();
    encode_value(
        &reg,
        1,
        &Value::Tuple(Some("C255".to_string()), vec![]),
        &mut out,
    )
    .expect("index 255 should encode");
    assert_eq!(out, vec![255u8]);
}

#[test]
fn record_variant_payload_is_unsupported() {
    let reg = Registry::new(vec![
        TypeDescriptor::Primitive(PrimitiveKind::U8),
        TypeDescriptor::Variant(vec![VariantCase {
            name: "A".to_string(),
            fields: vec![Field { name: Some("x".to_string()), type_id: 1 }],
        }]),
    ]);
    let v = Value::Record(
        Some("A".to_string()),
        vec![("x".to_string(), Value::UInt(1))],
    );
    assert_eq!(encode_err(&reg, 2, &v).kind, ErrorKind::UnsupportedKind);
}

#[test]
fn field_arity_mismatch_is_an_error() {
    let reg = Registry::new(vec![
        TypeDescriptor::Primitive(PrimitiveKind::U8),
        TypeDescriptor::Composite(vec![
            Field { name: None, type_id: 1 },
            Field { name: None, type_id: 1 },
        ]),
    ]);
    let short = Value::Tuple(None, vec![Value::UInt(1)]);
    assert_eq!(encode_err(&reg, 2, &short).kind, ErrorKind::FieldArityIssue);
    let long = Value::Tuple(
        None,
        vec![Value::UInt(1), Value::UInt(2), Value::UInt(3)],
    );
    assert_eq!(encode_err(&reg, 2, &long).kind, ErrorKind::FieldArityIssue);
}

#[test]
fn named_composite_rejects_positional_tuple() {
    let reg = Registry::new(vec![
        TypeDescriptor::Primitive(PrimitiveKind::U8),
        TypeDescriptor::Composite(vec![
            Field { name: Some("a".to_string()), type_id: 1 },
            Field { name: Some("b".to_string()), type_id: 1 },
        ]),
    ]);
    let v = Value::Tuple(None, vec![Value::UInt(1), Value::UInt(2)]);
    assert_eq!(encode_err(&reg, 2, &v).kind, ErrorKind::ShapeMismatch);
}

#[test]
fn mixed_named_and_unnamed_fields_are_unsupported() {
    let reg = Registry::new(vec![
        TypeDescriptor::Primitive(PrimitiveKind::U8),
        TypeDescriptor::Composite(vec![
            Field { name: Some("a".to_string()), type_id: 1 },
            Field { name: None, type_id: 1 },
        ]),
    ]);
    let v = Value::Tuple(None, vec![Value::UInt(1), Value::UInt(2)]);
    assert_eq!(encode_err(&reg, 2, &v).kind, ErrorKind::UnsupportedKind);
}

#[test]
fn bare_value_against_multi_field_composite() {
    let reg = Registry::new(vec![
        TypeDescriptor::Primitive(PrimitiveKind::U8),
        TypeDescriptor::Composite(vec![
            Field { name: None, type_id: 1 },
            Field { name: None, type_id: 1 },
        ]),
    ]);
    assert_eq!(
        encode_err(&reg, 2, &Value::UInt(1)).kind,
        ErrorKind::ShapeMismatch
    );
}

#[test]
fn list_against_primitive_is_a_shape_mismatch() {
    let reg = Registry::new(vec![
        TypeDescriptor::Primitive(PrimitiveKind::U8),
        TypeDescriptor::Sequence(1),
    ]);
    assert_eq!(
        encode_err(&reg, 2, &Value::UInt(1)).kind,
        ErrorKind::ShapeMismatch
    );
}

#[test]
fn sequence_with_unknown_element_type() {
    let reg = Registry::new(vec![TypeDescriptor::Sequence(7)]);
    let e = encode_err(&reg, 1, &Value::List(vec![]));
    assert_eq!(e.kind, ErrorKind::UnknownType(7));
}

#[test]
fn cyclic_type_hits_the_recursion_limit() {
    // A composite whose single field is the composite itself.
    let reg = Registry::new(vec![TypeDescriptor::Composite(vec![Field {
        name: None,
        type_id: 1,
    }])]);
    let e = encode_err(&reg, 1, &Value::UInt(0));
    assert_eq!(e.kind, ErrorKind::RecursionLimitExceeded);
    assert!(e.path.len() > 0);
    assert!(e.path.iter().all(|id| *id == 1));
}

#[test]
fn nested_failure_keeps_the_type_path() {
    let reg = Registry::new(vec![
        TypeDescriptor::Primitive(PrimitiveKind::U8),
        TypeDescriptor::Composite(vec![Field { name: None, type_id: 1 }]),
    ]);
    let v = Value::Tuple(None, vec![Value::UInt(999)]);
    let e = encode_err(&reg, 2, &v);
    assert_eq!(e.kind, ErrorKind::NumericConversion);
    assert_eq!(e.path, vec![2, 1]);
}

#[test]
fn failure_does_not_roll_back_partial_bytes() {
    let reg = Registry::new(vec![
        TypeDescriptor::Primitive(PrimitiveKind::U8),
        TypeDescriptor::Sequence(1),
    ]);
    let mut out = Vec::new();
    let v = Value::List(vec![Value::UInt(1), Value::UInt(999)]);
    encode_value(&reg, 2, &v, &mut out).expect_err("second element should fail");
    // The count prefix and the first element were already appended.
    assert_eq!(out, vec![8u8, 1]);
}

#[test]
fn validation_failure_appends_nothing() {
    let reg = Registry::new(vec![TypeDescriptor::Primitive(PrimitiveKind::U8)]);
    let mut out = vec![0xEEu8];
    encode_value(&reg, 9, &Value::UInt(1), &mut out).expect_err("unknown type id");
    assert_eq!(out, vec![0xEEu8]);
    encode_value(&reg, 1, &Value::UInt(256), &mut out).expect_err("does not fit u8");
    assert_eq!(out, vec![0xEEu8]);
}

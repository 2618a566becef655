use runtime_inspect::codec::{read_compact, read_le, DecodeError};
use runtime_inspect::decoder::{decode_value, decode_primitive};
use runtime_inspect::registry::{Field, PortableType, Primitive, TypeDef, TypeRegistry, VariantDef};
use runtime_inspect::value::{NamedValue, Value};

fn entry(id: u32, path: &[&str], type_def: TypeDef) -> PortableType {
    PortableType {
        id,
        path: path.iter().map(|s| s.to_string()).collect(),
        type_params: vec![],
        type_def,
    }
}

fn field(name: Option<&str>, ty: u32) -> Field {
    Field { name: name.map(|s| s.to_string()), ty }
}

fn worked_registry() -> TypeRegistry {
    TypeRegistry {
        types: vec![
            entry(1, &[], TypeDef::Primitive(Primitive::U32)),
            entry(2, &[], TypeDef::Primitive(Primitive::Bool)),
            entry(5, &["demo", "Pair"], TypeDef::Composite(vec![field(Some("a"), 1), field(Some("b"), 2)])),
        ],
    }
}

#[test]
fn worked_example_composite() {
    let reg = worked_registry();
    let v = decode_value(&reg, 5, &[1, 0, 0, 0, 1]).unwrap();
    assert_eq!(
        v,
        Value::Struct(vec![
            NamedValue { name: Some("a".to_string()), value: Value::UInt(1) },
            NamedValue { name: Some("b".to_string()), value: Value::Bool(true) },
        ])
    );
}

#[test]
fn worked_example_truncated() {
    let reg = worked_registry();
    assert_eq!(decode_value(&reg, 5, &[1, 0, 0, 0]), Err(DecodeError::UnexpectedEnd));
}

fn prim_registry() -> TypeRegistry {
    let kinds = [
        Primitive::U8, Primitive::U16, Primitive::U32, Primitive::U64, Primitive::U128,
        Primitive::I8, Primitive::I16, Primitive::I32, Primitive::I64, Primitive::I128,
        Primitive::Bool, Primitive::Char, Primitive::Str, Primitive::U256, Primitive::I256,
    ];
    let mut types: Vec<PortableType> = kinds
        .iter()
        .enumerate()
        .map(|(i, k)| entry(i as u32, &[], TypeDef::Primitive(*k)))
        .collect();
    types.push(entry(20, &[], TypeDef::Compact(2)));
    TypeRegistry { types }
}

#[test]
fn unsigned_round_trip_every_width() {
    let reg = prim_registry();
    assert_eq!(decode_value(&reg, 0, &0xabu8.to_le_bytes()), Ok(Value::UInt(0xab)));
    assert_eq!(decode_value(&reg, 1, &0xbeefu16.to_le_bytes()), Ok(Value::UInt(0xbeef)));
    assert_eq!(decode_value(&reg, 2, &0xdead_beefu32.to_le_bytes()), Ok(Value::UInt(0xdead_beef)));
    assert_eq!(decode_value(&reg, 3, &u64::MAX.to_le_bytes()), Ok(Value::UInt(u64::MAX as u128)));
    assert_eq!(decode_value(&reg, 4, &u128::MAX.to_le_bytes()), Ok(Value::UInt(u128::MAX)));
}

#[test]
fn signed_round_trip_every_width() {
    let reg = prim_registry();
    assert_eq!(decode_value(&reg, 5, &(-5i8).to_le_bytes()), Ok(Value::Int(-5)));
    assert_eq!(decode_value(&reg, 6, &i16::MIN.to_le_bytes()), Ok(Value::Int(i16::MIN as i128)));
    assert_eq!(decode_value(&reg, 7, &(-123456i32).to_le_bytes()), Ok(Value::Int(-123456)));
    assert_eq!(decode_value(&reg, 8, &i64::MAX.to_le_bytes()), Ok(Value::Int(i64::MAX as i128)));
    assert_eq!(decode_value(&reg, 9, &i128::MIN.to_le_bytes()), Ok(Value::Int(i128::MIN)));
}

#[test]
fn compact_round_trip_four_classes() {
    // single byte, two bytes, four bytes, big form
    assert_eq!(read_compact(&[0xfc], 0), Ok((63, 1)));
    assert_eq!(read_compact(&[0x01, 0x01], 0), Ok((64, 2)));
    assert_eq!(read_compact(&[0xfd, 0xff], 0), Ok((16383, 2)));
    assert_eq!(read_compact(&[0x02, 0x00, 0x01, 0x00], 0), Ok((16384, 4)));
    assert_eq!(read_compact(&[0xfe, 0xff, 0xff, 0xff], 0), Ok(((1 << 30) - 1, 4)));
    assert_eq!(read_compact(&[0x03, 0x00, 0x00, 0x00, 0x40], 0), Ok((1 << 30, 5)));
    let mut big = vec![0x33u8];
    big.extend_from_slice(&u128::MAX.to_le_bytes());
    assert_eq!(read_compact(&big, 0), Ok((u128::MAX, 17)));
}

#[test]
fn compact_value_through_registry() {
    let reg = prim_registry();
    assert_eq!(decode_value(&reg, 20, &[0x15, 0x01]), Ok(Value::Compact(69)));
}

#[test]
fn compact_too_long_is_unsupported() {
    let mut data = vec![0x37u8];
    data.extend_from_slice(&[0u8; 17]);
    assert_eq!(read_compact(&data, 0), Err(DecodeError::UnsupportedEncoding));
}

#[test]
fn compact_short_buffer() {
    assert_eq!(read_compact(&[0x01], 0), Err(DecodeError::UnexpectedEnd));
    assert_eq!(read_compact(&[], 0), Err(DecodeError::UnexpectedEnd));
}

#[test]
fn read_le_exact() {
    assert_eq!(read_le(&[0x78, 0x56, 0x34, 0x12], 0, 4), 0x1234_5678);
    assert_eq!(read_le(&[0xff, 0x01, 0x02], 1, 2), 0x0201);
}

#[test]
fn bool_must_be_zero_or_one() {
    let reg = prim_registry();
    assert_eq!(decode_value(&reg, 10, &[0]), Ok(Value::Bool(false)));
    assert_eq!(decode_value(&reg, 10, &[2]), Err(DecodeError::InvalidEncoding));
}

#[test]
fn char_code_points() {
    let reg = prim_registry();
    assert_eq!(decode_value(&reg, 11, &0x1f600u32.to_le_bytes()), Ok(Value::Char(0x1f600)));
    assert_eq!(decode_value(&reg, 11, &0xd800u32.to_le_bytes()), Err(DecodeError::InvalidEncoding));
}

#[test]
fn strings_are_length_prefixed_utf8() {
    let reg = prim_registry();
    assert_eq!(decode_value(&reg, 12, &[0x0c, b'a', b'b', b'c']), Ok(Value::Str("abc".to_string())));
    assert_eq!(decode_value(&reg, 12, &[0x08, 0xff, 0xfe]), Err(DecodeError::InvalidEncoding));
    assert_eq!(decode_value(&reg, 12, &[0x0c, b'a']), Err(DecodeError::UnexpectedEnd));
}

#[test]
fn primitive_moves_cursor() {
    let mut pos: usize = 1;
    let v = decode_primitive(Primitive::U16, &[9, 0x34, 0x12, 7], &mut pos);
    assert_eq!(v, Ok(Value::UInt(0x1234)));
    assert_eq!(pos, 3);
}

#[test]
fn wide_integers_keep_their_bytes() {
    let reg = prim_registry();
    let bytes: Vec<u8> = (0u8..32).collect();
    assert_eq!(decode_value(&reg, 13, &bytes), Ok(Value::Wide(false, bytes.clone())));
    assert_eq!(decode_value(&reg, 14, &bytes), Ok(Value::Wide(true, bytes.clone())));
    assert_eq!(decode_value(&reg, 13, &bytes[..31]), Err(DecodeError::UnexpectedEnd));
}

fn shapes_registry() -> TypeRegistry {
    TypeRegistry {
        types: vec![
            entry(0, &[], TypeDef::Primitive(Primitive::U8)),
            entry(1, &[], TypeDef::Primitive(Primitive::U16)),
            entry(2, &[], TypeDef::Sequence(1)),
            entry(3, &[], TypeDef::Array(3, 0)),
            entry(4, &[], TypeDef::Tuple(vec![0, 1])),
            entry(
                5,
                &["demo", "Choice"],
                TypeDef::Variant(vec![
                    VariantDef { name: "Zero".to_string(), index: 0, fields: vec![] },
                    VariantDef { name: "Seven".to_string(), index: 7, fields: vec![field(None, 0)] },
                ]),
            ),
            entry(6, &[], TypeDef::Composite(vec![field(None, 99)])),
            entry(7, &[], TypeDef::Composite(vec![field(None, 7)])),
            entry(8, &[], TypeDef::BitSequence(0, 9)),
            entry(9, &["bitvec", "order", "Lsb0"], TypeDef::Composite(vec![])),
            entry(10, &["bitvec", "order", "Msb0"], TypeDef::Composite(vec![])),
            entry(11, &[], TypeDef::BitSequence(0, 10)),
            entry(12, &[], TypeDef::BitSequence(2, 9)),
            entry(13, &[], TypeDef::BitSequence(1, 9)),
        ],
    }
}

#[test]
fn sequence_decodes_declared_count() {
    let reg = shapes_registry();
    assert_eq!(
        decode_value(&reg, 2, &[0x08, 1, 0, 2, 0]),
        Ok(Value::List(vec![Value::UInt(1), Value::UInt(2)]))
    );
}

#[test]
fn sequence_underfill_is_unexpected_end() {
    let reg = shapes_registry();
    // three u16 announced, two present
    assert_eq!(decode_value(&reg, 2, &[0x0c, 1, 0, 2, 0]), Err(DecodeError::UnexpectedEnd));
}

#[test]
fn sequence_implausible_count_is_invalid() {
    let reg = shapes_registry();
    assert_eq!(decode_value(&reg, 2, &[0x28, 1, 0]), Err(DecodeError::InvalidEncoding));
}

#[test]
fn array_length_comes_from_the_type() {
    let reg = shapes_registry();
    assert_eq!(
        decode_value(&reg, 3, &[4, 5, 6, 7]),
        Ok(Value::List(vec![Value::UInt(4), Value::UInt(5), Value::UInt(6)]))
    );
    assert_eq!(decode_value(&reg, 3, &[4, 5]), Err(DecodeError::UnexpectedEnd));
}

#[test]
fn tuple_decodes_in_order() {
    let reg = shapes_registry();
    assert_eq!(
        decode_value(&reg, 4, &[9, 0x01, 0x02]),
        Ok(Value::Tuple(vec![Value::UInt(9), Value::UInt(0x0201)]))
    );
    assert_eq!(decode_value(&reg, 4, &[9, 0x01]), Err(DecodeError::UnexpectedEnd));
}

#[test]
fn variant_matches_by_discriminant() {
    let reg = shapes_registry();
    assert_eq!(
        decode_value(&reg, 5, &[7, 42]),
        Ok(Value::Enum(
            "Seven".to_string(),
            vec![NamedValue { name: None, value: Value::UInt(42) }]
        ))
    );
    assert_eq!(decode_value(&reg, 5, &[0]), Ok(Value::Enum("Zero".to_string(), vec![])));
}

#[test]
fn unknown_variant() {
    let reg = shapes_registry();
    assert_eq!(decode_value(&reg, 5, &[1, 42]), Err(DecodeError::UnknownVariant(1)));
}

#[test]
fn variant_truncated() {
    let reg = shapes_registry();
    assert_eq!(decode_value(&reg, 5, &[]), Err(DecodeError::UnexpectedEnd));
    assert_eq!(decode_value(&reg, 5, &[7]), Err(DecodeError::UnexpectedEnd));
}

#[test]
fn dangling_reference_is_a_schema_fault() {
    let reg = shapes_registry();
    assert_eq!(decode_value(&reg, 6, &[1, 2, 3]), Err(DecodeError::DanglingTypeId(99)));
    assert_eq!(decode_value(&reg, 42, &[1]), Err(DecodeError::DanglingTypeId(42)));
}

#[test]
fn endless_nesting_stops() {
    let reg = shapes_registry();
    assert_eq!(decode_value(&reg, 7, &[]), Err(DecodeError::TooDeep));
}

#[test]
fn bits_lsb_first() {
    let reg = shapes_registry();
    assert_eq!(
        decode_value(&reg, 8, &[0x0c, 0b0000_0101]),
        Ok(Value::Bits(vec![true, false, true]))
    );
}

#[test]
fn bits_msb_first() {
    let reg = shapes_registry();
    assert_eq!(
        decode_value(&reg, 11, &[0x0c, 0b1010_0000]),
        Ok(Value::Bits(vec![true, false, true]))
    );
}

#[test]
fn bits_in_wider_words() {
    let reg = shapes_registry();
    // nine bits in one u16 word, least significant first
    assert_eq!(
        decode_value(&reg, 13, &[0x24, 0x00, 0x01]),
        Ok(Value::Bits(vec![false, false, false, false, false, false, false, false, true]))
    );
    assert_eq!(decode_value(&reg, 13, &[0x24, 0x00]), Err(DecodeError::UnexpectedEnd));
}

#[test]
fn bits_with_unknown_store_are_unsupported() {
    let reg = shapes_registry();
    assert_eq!(decode_value(&reg, 12, &[0x04, 0x01]), Err(DecodeError::UnsupportedEncoding));
}

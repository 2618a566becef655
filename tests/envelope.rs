use runtime_inspect::codec::DecodeError;
use runtime_inspect::metadata::{extract_registry, open_payload, MetadataError};
use runtime_inspect::registry::{PortableType, Primitive, TypeDef};
use runtime_inspect::wire::primitive_from_code;

fn inner(version: u8) -> Vec<u8> {
    let mut v = vec![0x6d, 0x65, 0x74, 0x61, version];
    // one type: id 0, path ["Call"], no params, primitive u8, no docs
    v.extend_from_slice(&[0x04, 0x00, 0x04, 0x10, b'C', b'a', b'l', b'l', 0x00, 0x05, 0x03, 0x00]);
    v
}

fn envelope(inner: Vec<u8>) -> Vec<u8> {
    let mut out = vec![(inner.len() as u8) << 2];
    out.extend(inner);
    out
}

#[test]
fn supported_versions_yield_registry() {
    for version in [14u8, 15u8] {
        let (reg, v) = extract_registry(&envelope(inner(version))).unwrap();
        assert_eq!(v, version);
        assert_eq!(
            reg.types,
            vec![PortableType {
                id: 0,
                path: vec!["Call".to_string()],
                type_params: vec![],
                type_def: TypeDef::Primitive(Primitive::U8),
            }]
        );
    }
}

#[test]
fn unsupported_version_is_refused() {
    assert_eq!(extract_registry(&envelope(inner(13))), Err(MetadataError::UnsupportedVersion(13)));
    assert_eq!(extract_registry(&envelope(inner(16))), Err(MetadataError::UnsupportedVersion(16)));
}

#[test]
fn bad_magic_is_malformed() {
    let mut i = inner(14);
    i[0] = b'x';
    assert_eq!(extract_registry(&envelope(i)), Err(MetadataError::MalformedEnvelope));
}

#[test]
fn short_envelope_is_malformed() {
    let mut e = envelope(inner(14));
    e.truncate(10);
    assert_eq!(open_payload(&e), Err(MetadataError::MalformedEnvelope));
    assert_eq!(open_payload(&[]), Err(MetadataError::MalformedEnvelope));
}

#[test]
fn payload_bounds() {
    let e = envelope(inner(15));
    assert_eq!(open_payload(&e), Ok((15, 6, e.len())));
}

#[test]
fn broken_registry_is_reported() {
    let mut i = inner(14);
    i.truncate(10);
    assert_eq!(
        extract_registry(&envelope(i)),
        Err(MetadataError::Registry(DecodeError::UnexpectedEnd))
    );
}

#[test]
fn registry_with_composite_and_variant() {
    let mut i = vec![0x6d, 0x65, 0x74, 0x61, 14, 0x08];
    // id 1: composite { a: type 0 } with a type name and a doc line
    i.extend_from_slice(&[0x04, 0x00, 0x00, 0x00, 0x04, 0x01, 0x04, b'a', 0x00, 0x00, 0x00, 0x00]);
    // id 2: variant [ V = 3, no fields ] with type parameter T = Some(0)
    i.extend_from_slice(&[0x08, 0x00, 0x04, 0x04, b'T', 0x01, 0x00, 0x01, 0x04, 0x04, b'V', 0x00, 0x03, 0x00, 0x00]);
    let (reg, _) = extract_registry(&envelope(i)).unwrap();
    assert_eq!(reg.types.len(), 2);
    assert_eq!(reg.types[1].type_params, vec!["T".to_string()]);
    match &reg.types[0].type_def {
        TypeDef::Composite(f) => {
            assert_eq!(f.len(), 1);
            assert_eq!(f[0].name, Some("a".to_string()));
            assert_eq!(f[0].ty, 0);
        }
        other => panic!("unexpected {:?}", other),
    }
    match &reg.types[1].type_def {
        TypeDef::Variant(v) => {
            assert_eq!(v[0].name, "V");
            assert_eq!(v[0].index, 3);
        }
        other => panic!("unexpected {:?}", other),
    }
}

#[test]
fn primitive_codes() {
    assert_eq!(primitive_from_code(0), Some(Primitive::Bool));
    assert_eq!(primitive_from_code(5), Some(Primitive::U32));
    assert_eq!(primitive_from_code(14), Some(Primitive::I256));
    assert_eq!(primitive_from_code(15), None);
}

#[test]
fn unknown_definition_family_is_reported() {
    let mut i = vec![0x6d, 0x65, 0x74, 0x61, 15, 0x04];
    // id 0, empty path, no params, family byte 9
    i.extend_from_slice(&[0x00, 0x00, 0x00, 0x09]);
    assert_eq!(
        extract_registry(&envelope(i)),
        Err(MetadataError::Registry(DecodeError::UnknownVariant(9)))
    );
}

#[test]
fn registry_with_sequence_array_tuple_compact_bits() {
    let mut i = vec![0x6d, 0x65, 0x74, 0x61, 14, 0x14];
    i.extend_from_slice(&[0x00, 0x00, 0x00, 0x02, 0x04, 0x00]); // id 0: sequence of 1
    i.extend_from_slice(&[0x04, 0x00, 0x00, 0x03, 0x08, 0x00, 0x00, 0x00, 0x08, 0x00]); // id 1: eight of 2
    i.extend_from_slice(&[0x08, 0x00, 0x00, 0x04, 0x08, 0x00, 0x04, 0x00]); // id 2: (0, 1)
    i.extend_from_slice(&[0x0c, 0x00, 0x00, 0x06, 0x10, 0x00]); // id 3: compact of 4
    i.extend_from_slice(&[0x10, 0x00, 0x00, 0x07, 0x00, 0x04, 0x00]); // id 4: bits of (0, 1)
    let (reg, _) = extract_registry(&envelope(i)).unwrap();
    let defs: Vec<TypeDef> = reg.types.into_iter().map(|t| t.type_def).collect();
    assert_eq!(
        defs,
        vec![
            TypeDef::Sequence(1),
            TypeDef::Array(8, 2),
            TypeDef::Tuple(vec![0, 1]),
            TypeDef::Compact(4),
            TypeDef::BitSequence(0, 1),
        ]
    );
}

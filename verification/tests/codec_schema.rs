//! Schema validation, the enum registry, and the field codec.

use ublox::codec::FieldValue;
use ublox::enums::{EnumMapping, EnumVariant, ReservedPolicy, UbxEnumFuzzable};
use ublox::errors::{DecodeError, SchemaError};
use ublox::schema::{DeclaredLen, FieldKind, FieldSpec, FieldType, PacketSchema};

fn field(name: &str, ty: FieldType) -> FieldSpec {
    FieldSpec { name: String::from(name), ty, mapping: None }
}

fn enum_field(name: &str, kind: FieldKind, valid: Vec<u64>, policy: ReservedPolicy) -> FieldSpec {
    FieldSpec {
        name: String::from(name),
        ty: FieldType::Scalar(kind),
        mapping: Some(EnumMapping::new(valid, policy).unwrap()),
    }
}

/// MON-RXBUF: receiver buffer status, 24 fixed payload bytes.
fn mon_rxbuf_schema() -> PacketSchema {
    PacketSchema::new(
        0x0A,
        0x07,
        String::from("MonRxbuf"),
        DeclaredLen::Fixed(24),
        vec![
            field("pending", FieldType::Array(FieldKind::U16, 6)),
            field("usage", FieldType::Array(FieldKind::U8, 6)),
            field("peak_usage", FieldType::Array(FieldKind::U8, 6)),
        ],
    )
    .unwrap()
}

#[test]
fn test_schema_reports_layout() {
    let schema = mon_rxbuf_schema();
    assert_eq!(schema.class_id(), (0x0A, 0x07));
    assert_eq!(schema.field_count(), 3);
    assert_eq!(schema.declared_len(), DeclaredLen::Fixed(24));
    assert_eq!(schema.payload_width(), 24);
    assert_eq!(schema.field_offset(0), 0);
    assert_eq!(schema.field_offset(1), 12);
    assert_eq!(schema.field_offset(2), 18);
}

#[test]
fn test_schema_invalid_when_fields_do_not_tile() {
    let r = PacketSchema::new(
        0x0A,
        0x07,
        String::from("Bad"),
        DeclaredLen::Fixed(23),
        vec![
            field("pending", FieldType::Array(FieldKind::U16, 6)),
            field("usage", FieldType::Array(FieldKind::U8, 6)),
            field("peak_usage", FieldType::Array(FieldKind::U8, 6)),
        ],
    );
    assert_eq!(r.err(), Some(SchemaError::SchemaInvalid));
}

#[test]
fn test_schema_invalid_enum_on_array() {
    let bad = FieldSpec {
        name: String::from("x"),
        ty: FieldType::Array(FieldKind::U8, 2),
        mapping: Some(EnumMapping::new(vec![0, 1], ReservedPolicy::Strict).unwrap()),
    };
    let r = PacketSchema::new(0x01, 0x01, String::from("Bad"), DeclaredLen::Fixed(2), vec![bad]);
    assert_eq!(r.err(), Some(SchemaError::SchemaInvalid));
}

#[test]
fn test_schema_invalid_enum_value_too_wide() {
    let bad = enum_field("x", FieldKind::U8, vec![0, 256], ReservedPolicy::Strict);
    let r = PacketSchema::new(0x01, 0x01, String::from("Bad"), DeclaredLen::Fixed(1), vec![bad]);
    assert_eq!(r.err(), Some(SchemaError::SchemaInvalid));
}

#[test]
fn test_schema_zero_fields_is_valid() {
    let schema =
        PacketSchema::new(0x0A, 0x02, String::from("MonIo"), DeclaredLen::Fixed(0), vec![])
            .unwrap();
    assert_eq!(schema.payload_width(), 0);
    let payload = schema.encode(&vec![]);
    assert_eq!(payload, Vec::<u8>::new());
    assert_eq!(schema.decode(&payload).unwrap(), Vec::<FieldValue>::new());
}

#[test]
fn test_enum_mapping_rejects_duplicates_and_empty() {
    assert!(EnumMapping::new(vec![], ReservedPolicy::Strict).is_err());
    assert!(EnumMapping::new(vec![1, 2, 1], ReservedPolicy::Strict).is_err());
}

#[test]
fn test_enum_registry_decode() {
    let strict = EnumMapping::new(vec![0, 2, 5], ReservedPolicy::Strict).unwrap();
    assert_eq!(strict.decode(2), Ok(EnumVariant::Known(2)));
    assert_eq!(strict.decode(3), Err(DecodeError::InvalidEnumValue(3)));
    assert_eq!(strict.reserved_policy(), ReservedPolicy::Strict);
    assert_eq!(strict.valid_raw_values(), &vec![0, 2, 5]);

    let lenient = EnumMapping::new(vec![0, 2, 5], ReservedPolicy::Lenient).unwrap();
    assert_eq!(lenient.decode(2), Ok(EnumVariant::Known(2)));
    assert_eq!(lenient.decode(3), Ok(EnumVariant::Unrecognized(3)));
}

#[test]
fn test_codec_little_endian_layout() {
    let schema = PacketSchema::new(
        0x01,
        0x62,
        String::from("Mixed"),
        DeclaredLen::Fixed(15),
        vec![
            field("a", FieldType::Scalar(FieldKind::U8)),
            field("b", FieldType::Scalar(FieldKind::U16)),
            field("c", FieldType::Scalar(FieldKind::U32)),
            field("d", FieldType::Scalar(FieldKind::U64)),
        ],
    )
    .unwrap();
    let values = vec![
        FieldValue::Scalar(0xAB),
        FieldValue::Scalar(0x1234),
        FieldValue::Scalar(0xDEADBEEF),
        FieldValue::Scalar(0x0102030405060708),
    ];
    let payload = schema.encode(&values);
    assert_eq!(
        payload,
        vec![
            0xAB, // a
            0x34, 0x12, // b, little-endian
            0xEF, 0xBE, 0xAD, 0xDE, // c
            0x08, 0x07, 0x06, 0x05, 0x04, 0x03, 0x02, 0x01, // d
        ]
    );
    assert_eq!(schema.decode(&payload).unwrap(), values);
}

#[test]
fn test_codec_signed_and_float_bit_patterns() {
    // Signed and float values travel as raw little-endian bit patterns.
    let schema = PacketSchema::new(
        0x01,
        0x63,
        String::from("Bits"),
        DeclaredLen::Fixed(13),
        vec![
            field("i", FieldType::Scalar(FieldKind::I8)),
            field("j", FieldType::Scalar(FieldKind::I32)),
            field("f", FieldType::Scalar(FieldKind::F64)),
        ],
    )
    .unwrap();
    let i_bits = (-5i8) as u8 as u64;
    let j_bits = (-123456i32) as u32 as u64;
    let f_bits = (1.5f64).to_bits();
    let values =
        vec![FieldValue::Scalar(i_bits), FieldValue::Scalar(j_bits), FieldValue::Scalar(f_bits)];
    let payload = schema.encode(&values);
    assert_eq!(payload.len(), 13);
    assert_eq!(payload[0], 0xFB); // -5 as two's complement
    let decoded = schema.decode(&payload).unwrap();
    assert_eq!(decoded, values);
    match decoded[2] {
        FieldValue::Scalar(bits) => assert_eq!(f64::from_bits(bits), 1.5),
        FieldValue::Array(_) => panic!("expected a scalar"),
    }
}

#[test]
fn test_decode_length_errors() {
    let schema = mon_rxbuf_schema();
    assert_eq!(schema.decode(&[0u8; 23]), Err(DecodeError::PayloadTooShort));
    assert_eq!(schema.decode(&[0u8; 25]), Err(DecodeError::PayloadLengthMismatch));
}

#[test]
fn test_decode_strict_enum_error() {
    let schema = PacketSchema::new(
        0x06,
        0x01,
        String::from("StrictEnum"),
        DeclaredLen::Fixed(2),
        vec![
            enum_field("mode", FieldKind::U8, vec![0, 1, 2], ReservedPolicy::Strict),
            field("extra", FieldType::Scalar(FieldKind::U8)),
        ],
    )
    .unwrap();
    assert_eq!(schema.decode(&[0x07, 0x00]), Err(DecodeError::InvalidEnumValue(7)));
    let decoded = schema.decode(&[0x02, 0x09]).unwrap();
    assert_eq!(decoded, vec![FieldValue::Scalar(2), FieldValue::Scalar(9)]);
}

#[test]
fn test_decode_lenient_enum_passes_raw() {
    let schema = PacketSchema::new(
        0x06,
        0x02,
        String::from("LenientEnum"),
        DeclaredLen::Fixed(1),
        vec![enum_field("mode", FieldKind::U8, vec![0, 1, 2], ReservedPolicy::Lenient)],
    )
    .unwrap();
    let decoded = schema.decode(&[0x07]).unwrap();
    assert_eq!(decoded, vec![FieldValue::Scalar(7)]);
}

#[test]
fn test_encode_does_not_revalidate_enum_membership() {
    // Chaos tests may deliberately construct invalid enum values.
    let schema = PacketSchema::new(
        0x06,
        0x03,
        String::from("StrictOnly"),
        DeclaredLen::Fixed(1),
        vec![enum_field("mode", FieldKind::U8, vec![0, 1], ReservedPolicy::Strict)],
    )
    .unwrap();
    let payload = schema.encode(&vec![FieldValue::Scalar(0xEE)]);
    assert_eq!(payload, vec![0xEE]);
    assert_eq!(schema.decode(&payload), Err(DecodeError::InvalidEnumValue(0xEE)));
}

#[test]
fn test_max_length_schema_allows_trailing_bytes() {
    let schema = PacketSchema::new(
        0x02,
        0x01,
        String::from("VarLen"),
        DeclaredLen::Max(8),
        vec![field("head", FieldType::Scalar(FieldKind::U16))],
    )
    .unwrap();
    // Exactly the fields' width.
    assert_eq!(schema.decode(&[0x34, 0x12]).unwrap(), vec![FieldValue::Scalar(0x1234)]);
    // Up to the maximum, trailing bytes beyond the declared fields are ignored.
    assert_eq!(
        schema.decode(&[0x34, 0x12, 0xAA, 0xBB]).unwrap(),
        vec![FieldValue::Scalar(0x1234)]
    );
    assert_eq!(schema.decode(&[0x34]), Err(DecodeError::PayloadTooShort));
    assert_eq!(schema.decode(&[0u8; 9]), Err(DecodeError::PayloadLengthMismatch));
}

#[test]
fn test_mon_rxbuf_scenario() {
    // Receiver buffer status: class=0x0A, id=0x07, 24-byte payload of six
    // little-endian u16 pending values, six u8 usage values and six u8
    // peak-usage values.
    let schema = mon_rxbuf_schema();
    let values = vec![
        FieldValue::Array(vec![0x0102, 0x0304, 0x0506, 0x0708, 0x090A, 0x0B0C]),
        FieldValue::Array(vec![10, 20, 30, 40, 50, 60]),
        FieldValue::Array(vec![11, 22, 33, 44, 55, 66]),
    ];
    let payload = schema.encode(&values);
    assert_eq!(payload.len(), 24);
    assert_eq!(payload[0], 0x02); // first pending value, little-endian
    assert_eq!(payload[1], 0x01);
    let frame = ublox::build_ubx_frame(0x0A, 0x07, &payload);
    assert_eq!(frame.len(), 32);
    assert_eq!(frame[2], 0x0A);
    assert_eq!(frame[3], 0x07);
    let (class, id, extracted) = ublox::frame::decode_frame(&frame).unwrap();
    assert_eq!((class, id), (0x0A, 0x07));
    assert_eq!(schema.decode(&extracted).unwrap(), values);
}

/// The GNSS fix types reported in NAV-PVT, as a caller's enum.
#[derive(Debug, Clone, Copy)]
enum GnssFixType {
    NoFix,
    DeadReckoningOnly,
    Fix2D,
    Fix3D,
    GpsPlusDeadReckoning,
    TimeOnlyFix,
}

impl UbxEnumFuzzable for GnssFixType {
    type Raw = u64;

    fn valid_raw_values() -> Vec<u64> {
        vec![0, 1, 2, 3, 4, 5]
    }
}

#[test]
fn test_mapping_from_fuzzable_enum() {
    let _ = GnssFixType::Fix3D;
    let mapping =
        EnumMapping::new(<GnssFixType as UbxEnumFuzzable>::valid_raw_values(), ReservedPolicy::Lenient)
            .unwrap();
    assert_eq!(mapping.valid_raw_values().len(), 6);
    assert_eq!(mapping.decode(3), Ok(EnumVariant::Known(3)));
    assert_eq!(mapping.decode(200), Ok(EnumVariant::Unrecognized(200)));
}

//! The streaming parser: fragmentation, resynchronization, error items
//! and buffer bounds.

use ublox::codec::FieldValue;
use ublox::errors::{DecodeError, FeedError, ParseError};
use ublox::parser::{Message, Parser};
use ublox::schema::{DeclaredLen, FieldKind, FieldSpec, FieldType, PacketSchema};
use ublox::enums::{EnumMapping, ReservedPolicy};

fn field(name: &str, ty: FieldType) -> FieldSpec {
    FieldSpec { name: String::from(name), ty, mapping: None }
}

/// ACK-ACK: two u8 fields, class 0x05, id 0x01.
fn ack_schema() -> PacketSchema {
    PacketSchema::new(
        0x05,
        0x01,
        String::from("AckAck"),
        DeclaredLen::Fixed(2),
        vec![
            field("cls_id", FieldType::Scalar(FieldKind::U8)),
            field("msg_id", FieldType::Scalar(FieldKind::U8)),
        ],
    )
    .unwrap()
}

/// MON-SPAN header: version, block count, two reserved bytes.
fn mon_span_schema() -> PacketSchema {
    PacketSchema::new(
        0x0A,
        0x31,
        String::from("MonSpan"),
        DeclaredLen::Fixed(4),
        vec![
            field("version", FieldType::Scalar(FieldKind::U8)),
            field("num_rf_blocks", FieldType::Scalar(FieldKind::U8)),
            field("reserved0", FieldType::Array(FieldKind::U8, 2)),
        ],
    )
    .unwrap()
}

fn ack_frame(cls: u8, msg: u8) -> Vec<u8> {
    ublox::build_ubx_frame(0x05, 0x01, &[cls, msg])
}

#[test]
fn test_parse_single_frame() {
    let mut parser = Parser::new(vec![ack_schema()]);
    assert!(parser.feed(&ack_frame(0x06, 0x08)).is_ok());
    let msg = parser.next().unwrap().unwrap();
    assert_eq!(msg.class, 0x05);
    assert_eq!(msg.id, 0x01);
    assert_eq!(msg.values, vec![FieldValue::Scalar(0x06), FieldValue::Scalar(0x08)]);
    assert!(parser.next().is_none());
    assert_eq!(parser.buffered(), 0);
}

#[test]
fn test_parse_fragmented_input() {
    // Bytes arrive in arbitrary fragments; partial bytes stay buffered.
    let frame = ack_frame(0x01, 0x02);
    let mut parser = Parser::new(vec![ack_schema()]);
    for chunk in frame.chunks(3) {
        assert!(parser.feed(chunk).is_ok());
    }
    let msg = parser.next().unwrap().unwrap();
    assert_eq!(msg.values, vec![FieldValue::Scalar(0x01), FieldValue::Scalar(0x02)]);
}

#[test]
fn test_incomplete_frame_waits() {
    let frame = ack_frame(0x01, 0x02);
    let mut parser = Parser::new(vec![ack_schema()]);
    parser.feed(&frame[..5]).unwrap();
    assert!(parser.next().is_none());
    assert_eq!(parser.buffered(), 5);
    parser.feed(&frame[5..]).unwrap();
    assert!(parser.next().unwrap().is_ok());
}

#[test]
fn test_empty_and_junk_input() {
    let mut parser = Parser::new(vec![ack_schema()]);
    assert!(parser.next().is_none());
    parser.feed(&[]).unwrap();
    assert!(parser.next().is_none());
    parser.feed(&[0x00, 0x11, 0x22, 0x33]).unwrap();
    assert!(parser.next().is_none());
    // Junk before the sync marker is discarded silently.
    assert_eq!(parser.buffered(), 0);
}

#[test]
fn test_leading_junk_then_frame() {
    let mut parser = Parser::new(vec![ack_schema()]);
    let mut stream = vec![0x42, 0xB5, 0x00, 0x99];
    stream.extend_from_slice(&ack_frame(0x0A, 0x0B));
    parser.feed(&stream).unwrap();
    let msg = parser.next().unwrap().unwrap();
    assert_eq!(msg.values, vec![FieldValue::Scalar(0x0A), FieldValue::Scalar(0x0B)]);
}

#[test]
fn test_checksum_mismatch_is_one_error_item() {
    let mut frame = ack_frame(0x01, 0x02);
    let last = frame.len() - 1;
    frame[last] = frame[last].wrapping_add(1);
    let mut parser = Parser::new(vec![ack_schema()]);
    parser.feed(&frame).unwrap();
    assert_eq!(parser.next(), Some(Err(ParseError::ChecksumMismatch)));
    // Only one byte was discarded; the rest drains without a panic.
    let items = parser.drain();
    assert!(items.iter().all(|i| i.is_err()) || items.is_empty());
}

#[test]
fn test_unknown_message_is_error_item() {
    // A valid frame whose class/id has no registered schema.
    let frame = ublox::build_ubx_frame(0x77, 0x77, &[1, 2]);
    let mut parser = Parser::new(vec![ack_schema()]);
    parser.feed(&frame).unwrap();
    assert_eq!(parser.next(), Some(Err(ParseError::UnknownMessage(0x77, 0x77))));
}

#[test]
fn test_length_mismatch_is_error_item() {
    // Valid checksum, known class/id, but three payload bytes against a
    // fixed two-byte schema.
    let frame = ublox::build_ubx_frame(0x05, 0x01, &[1, 2, 3]);
    let mut parser = Parser::new(vec![ack_schema()]);
    parser.feed(&frame).unwrap();
    assert_eq!(
        parser.next(),
        Some(Err(ParseError::Payload(DecodeError::PayloadLengthMismatch)))
    );
    let frame_short = ublox::build_ubx_frame(0x05, 0x01, &[1]);
    let mut parser2 = Parser::new(vec![ack_schema()]);
    parser2.feed(&frame_short).unwrap();
    assert_eq!(parser2.next(), Some(Err(ParseError::Payload(DecodeError::PayloadTooShort))));
}

#[test]
fn test_strict_enum_error_consumes_frame() {
    let strict = PacketSchema::new(
        0x06,
        0x01,
        String::from("Strict"),
        DeclaredLen::Fixed(1),
        vec![FieldSpec {
            name: String::from("mode"),
            ty: FieldType::Scalar(FieldKind::U8),
            mapping: Some(EnumMapping::new(vec![0, 1], ReservedPolicy::Strict).unwrap()),
        }],
    )
    .unwrap();
    let frame = ublox::build_ubx_frame(0x06, 0x01, &[0x09]);
    let mut parser = Parser::new(vec![strict]);
    parser.feed(&frame).unwrap();
    assert_eq!(parser.next(), Some(Err(ParseError::Payload(DecodeError::InvalidEnumValue(9)))));
    // The frame was well formed: it is consumed whole, not rescanned.
    assert_eq!(parser.buffered(), 0);
}

#[test]
fn test_resync_after_corrupted_byte() {
    // A valid frame, one corrupted byte, then another valid frame: both
    // frames are recovered, in order.
    let f1 = ack_frame(0x01, 0x11);
    let f2 = ack_frame(0x02, 0x22);
    let mut stream = f1.clone();
    stream.push(0xB5); // the corrupted byte: even a stray sync byte
    stream.extend_from_slice(&f2);
    let mut parser = Parser::new(vec![ack_schema()]);
    parser.feed(&stream).unwrap();
    let m1 = parser.next().unwrap().unwrap();
    assert_eq!(m1.values, vec![FieldValue::Scalar(0x01), FieldValue::Scalar(0x11)]);
    let m2 = parser.next().unwrap().unwrap();
    assert_eq!(m2.values, vec![FieldValue::Scalar(0x02), FieldValue::Scalar(0x22)]);
    assert!(parser.next().is_none());
}

#[test]
fn test_corrupted_first_frame_does_not_lose_second() {
    let mut f1 = ack_frame(0x01, 0x11);
    f1[7] = f1[7].wrapping_add(1); // corrupt a payload byte of frame one
    let f2 = ack_frame(0x02, 0x22);
    let mut stream = f1;
    stream.extend_from_slice(&f2);
    let mut parser = Parser::new(vec![ack_schema()]);
    parser.feed(&stream).unwrap();
    let items = parser.drain();
    // The corrupted frame surfaces as error items; the second frame is
    // still recovered, in order, as the only successful item.
    let oks: Vec<&Message> = items.iter().filter_map(|i| i.as_ref().ok()).collect();
    assert_eq!(oks.len(), 1);
    assert_eq!(oks[0].values, vec![FieldValue::Scalar(0x02), FieldValue::Scalar(0x22)]);
    assert!(items[0].is_err());
}

#[test]
fn test_messages_yield_in_stream_order() {
    let mut parser = Parser::new(vec![ack_schema(), mon_span_schema()]);
    let mut stream = Vec::new();
    stream.extend_from_slice(&ack_frame(0x01, 0x01));
    stream.extend_from_slice(&ublox::build_ubx_frame(0x0A, 0x31, &[0x00, 0x03, 0x00, 0x00]));
    stream.extend_from_slice(&ack_frame(0x02, 0x02));
    parser.feed(&stream).unwrap();
    let items = parser.drain();
    assert_eq!(items.len(), 3);
    let classes: Vec<u8> = items.iter().map(|i| i.as_ref().unwrap().class).collect();
    assert_eq!(classes, vec![0x05, 0x0A, 0x05]);
    assert_eq!(items[1].as_ref().unwrap().values[1], FieldValue::Scalar(3));
}

#[test]
fn test_buffer_overflow() {
    let mut parser = Parser::with_capacity(vec![ack_schema()], 4);
    assert_eq!(parser.feed(&[1, 2, 3]), Ok(()));
    assert_eq!(parser.feed(&[4, 5]), Err(FeedError::BufferOverflow));
    // Nothing was appended by the failed feed.
    assert_eq!(parser.buffered(), 3);
    assert_eq!(parser.feed(&[4]), Ok(()));
}

#[test]
fn test_bounded_parser_recovers_after_drain() {
    let frame = ack_frame(0x01, 0x02);
    let mut parser = Parser::with_capacity(vec![ack_schema()], 16);
    parser.feed(&frame).unwrap();
    assert!(parser.feed(&frame).err() == Some(FeedError::BufferOverflow));
    assert!(parser.next().unwrap().is_ok());
    // Draining made room again.
    assert_eq!(parser.feed(&frame), Ok(()));
}

#[test]
fn test_lone_sync_byte_stays_buffered() {
    let mut parser = Parser::new(vec![ack_schema()]);
    parser.feed(&[0xB5]).unwrap();
    assert!(parser.next().is_none());
    assert_eq!(parser.buffered(), 1);
    let frame = ack_frame(0x03, 0x04);
    parser.feed(&frame[1..]).unwrap();
    let msg = parser.next().unwrap().unwrap();
    assert_eq!(msg.values, vec![FieldValue::Scalar(0x03), FieldValue::Scalar(0x04)]);
}

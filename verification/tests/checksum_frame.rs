//! Checksum reference vectors and frame structure.

use ublox::calculate_checksum;
use ublox::build_ubx_frame;
use ublox::frame::decode_frame;
use ublox::frame::FrameError;

#[test]
fn test_checksum_empty_payload() {
    let (ck_a, ck_b) = calculate_checksum(0x01, 0x07, &[]);
    // class=0x01, id=0x07, len=0x00,0x00
    // ck_a = 0x01 + 0x07 + 0x00 + 0x00 = 0x08
    // ck_b = 0x01 + 0x08 + 0x08 + 0x08 = 0x19
    assert_eq!(ck_a, 0x08);
    assert_eq!(ck_b, 0x19);
}

#[test]
fn test_build_frame_structure() {
    let payload = vec![0x01, 0x02, 0x03];
    let frame = build_ubx_frame(0x0A, 0x09, &payload);

    assert_eq!(frame[0], 0xB5); // Sync 1
    assert_eq!(frame[1], 0x62); // Sync 2
    assert_eq!(frame[2], 0x0A); // Class
    assert_eq!(frame[3], 0x09); // ID
    assert_eq!(frame[4], 0x03); // Length low byte
    assert_eq!(frame[5], 0x00); // Length high byte
    assert_eq!(&frame[6..9], &[0x01, 0x02, 0x03]); // Payload
    // Last two bytes are checksum
    assert_eq!(frame.len(), 11);
}

#[test]
fn test_checksum_wraps() {
    // Checksummed bytes: FF FF 02 00 FF FF — both accumulators wrap.
    let (ck_a, ck_b) = calculate_checksum(0xFF, 0xFF, &[0xFF, 0xFF]);
    // ck_a: FF, FE, 00, 00, FF, FE; ck_b: FF, FD, FD, FD, FC, FA
    assert_eq!(ck_a, 0xFE);
    assert_eq!(ck_b, 0xFA);
}

#[test]
fn test_frame_trailing_checksum_matches() {
    let payload = vec![0x10, 0x20, 0x30, 0x40];
    let frame = build_ubx_frame(0x05, 0x01, &payload);
    let (ck_a, ck_b) = calculate_checksum(0x05, 0x01, &payload);
    assert_eq!(frame.len(), 8 + payload.len());
    assert_eq!(frame[frame.len() - 2], ck_a);
    assert_eq!(frame[frame.len() - 1], ck_b);
}

#[test]
fn test_decode_frame_round_trip() {
    let payload = vec![0xDE, 0xAD, 0xBE, 0xEF];
    let frame = build_ubx_frame(0x02, 0x13, &payload);
    let (class, id, decoded) = decode_frame(&frame).unwrap();
    assert_eq!(class, 0x02);
    assert_eq!(id, 0x13);
    assert_eq!(decoded, payload);
}

#[test]
fn test_decode_frame_bad_sync() {
    let payload = vec![0x01];
    let mut frame = build_ubx_frame(0x02, 0x13, &payload);
    frame[0] = 0x00;
    assert_eq!(decode_frame(&frame), Err(FrameError::BadSync));
    let mut frame2 = build_ubx_frame(0x02, 0x13, &payload);
    frame2[1] = 0x00;
    assert_eq!(decode_frame(&frame2), Err(FrameError::BadSync));
}

#[test]
fn test_decode_frame_incomplete() {
    let payload = vec![0x01, 0x02];
    let frame = build_ubx_frame(0x02, 0x13, &payload);
    assert_eq!(decode_frame(&frame[..7]), Err(FrameError::Incomplete));
    assert_eq!(decode_frame(&frame[..9]), Err(FrameError::Incomplete));
    assert_eq!(decode_frame(&[]), Err(FrameError::Incomplete));
}

#[test]
fn test_decode_frame_checksum_mismatch() {
    let payload = vec![0x01, 0x02];
    let mut frame = build_ubx_frame(0x02, 0x13, &payload);
    let last = frame.len() - 1;
    frame[last] = frame[last].wrapping_add(1);
    assert_eq!(decode_frame(&frame), Err(FrameError::ChecksumMismatch));
    // A corrupted payload byte must also fail the checksum.
    let mut frame2 = build_ubx_frame(0x02, 0x13, &payload);
    frame2[6] = frame2[6].wrapping_add(1);
    assert_eq!(decode_frame(&frame2), Err(FrameError::ChecksumMismatch));
}

#[test]
fn test_empty_payload_frame() {
    let frame = build_ubx_frame(0x01, 0x07, &[]);
    assert_eq!(frame.len(), 8);
    assert_eq!(frame, vec![0xB5, 0x62, 0x01, 0x07, 0x00, 0x00, 0x08, 0x19]);
}

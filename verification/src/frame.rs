//! Whole-frame encoding and decoding.
//!
//! A frame is: sync bytes `0xB5 0x62`, class, id, little-endian 16-bit
//! payload length, the payload, and the two checksum bytes computed over
//! class, id, length and payload (never over the sync bytes).

use vstd::prelude::*;
use crate::checksum::{checksum_input, checksum_of, cksum_update, calculate_checksum};

verus! {

/// First sync byte of every frame.
pub const SYNC_CHAR_1: u8 = 0xB5;

/// Second sync byte of every frame.
pub const SYNC_CHAR_2: u8 = 0x62;

/// Why a standalone frame decode failed.
#[derive(Clone, Copy, Debug, PartialEq, Eq, Structural)]
pub enum FrameError {
    /// The input does not begin with the two sync bytes.
    BadSync,
    /// Fewer bytes than a whole frame: header, declared payload and checksum.
    Incomplete,
    /// The trailing checksum bytes disagree with the recomputed checksum.
    ChecksumMismatch,
}

/// The complete wire image of a frame with the given class, id and payload.
pub open spec fn frame_bytes(class: u8, id: u8, payload: Seq<u8>) -> Seq<u8> {
    let ck = checksum_of(checksum_input(class, id, payload));
    seq![
        SYNC_CHAR_1,
        SYNC_CHAR_2,
        class,
        id,
        (payload.len() % 256) as u8,
        ((payload.len() / 256) % 256) as u8,
    ] + payload + seq![ck.0, ck.1]
}

/// The payload length a frame header at the front of `bytes` declares.
pub open spec fn declared_frame_len(bytes: Seq<u8>) -> nat
    recommends
        bytes.len() >= 6,
{
    (bytes[4] + 256 * bytes[5]) as nat
}

/// What decoding a byte string as one frame yields: the class, id and
/// payload, or the first failure in checking order (sync bytes, then
/// completeness, then checksum).  Bytes after the checksum are ignored.
pub open spec fn frame_decode_spec(bytes: Seq<u8>) -> Result<(u8, u8, Seq<u8>), FrameError> {
    if bytes.len() >= 1 && bytes[0] != SYNC_CHAR_1 {
        Err(FrameError::BadSync)
    } else if bytes.len() >= 2 && bytes[1] != SYNC_CHAR_2 {
        Err(FrameError::BadSync)
    } else if bytes.len() < 8 {
        Err(FrameError::Incomplete)
    } else if bytes.len() < 8 + declared_frame_len(bytes) {
        Err(FrameError::Incomplete)
    } else {
        let len = declared_frame_len(bytes) as int;
        let ck = checksum_of(bytes.subrange(2, 6 + len));
        if bytes[6 + len] != ck.0 || bytes[7 + len] != ck.1 {
            Err(FrameError::ChecksumMismatch)
        } else {
            Ok((bytes[2], bytes[3], bytes.subrange(6, 6 + len)))
        }
    }
}

/// Build the complete frame for a payload: sync bytes, class, id,
/// little-endian length, payload, checksum.
pub fn build_ubx_frame(class: u8, id: u8, payload: &[u8]) -> (frame: Vec<u8>)
    requires
        payload@.len() <= 0xFFFF,
    ensures
        frame@ == frame_bytes(class, id, payload@),
        frame@.len() == 8 + payload@.len(),
{
    let (ck_a, ck_b) = calculate_checksum(class, id, payload);
    let len = payload.len() as u16;

    let mut frame: Vec<u8> = Vec::with_capacity(8 + payload.len());
    frame.push(SYNC_CHAR_1);
    frame.push(SYNC_CHAR_2);
    frame.push(class);
    frame.push(id);
    frame.push((len % 256) as u8);
    frame.push((len / 256) as u8);
    let mut i: usize = 0;
    while i < payload.len()
        invariant
            i <= payload@.len(),
            frame@ == seq![
                SYNC_CHAR_1,
                SYNC_CHAR_2,
                class,
                id,
                (payload@.len() % 256) as u8,
                ((payload@.len() / 256) % 256) as u8,
            ] + payload@.subrange(0, i as int),
        decreases payload@.len() - i,
    {
        frame.push(payload[i]);
        proof {
            assert(payload@.subrange(0, i as int).push(payload@[i as int])
                =~= payload@.subrange(0, i + 1));
        }
        i = i + 1;
    }
    frame.push(ck_a);
    frame.push(ck_b);
    proof {
        assert(payload@.subrange(0, payload@.len() as int) =~= payload@);
        assert(frame@ =~= frame_bytes(class, id, payload@));
    }
    frame
}

/// Decode one frame: verify the sync bytes, read the declared length,
/// require the whole frame to be present, recompute and compare the
/// checksum, and return class, id and payload.
pub fn decode_frame(bytes: &[u8]) -> (r: Result<(u8, u8, Vec<u8>), FrameError>)
    ensures
        match r {
            Ok(m) => frame_decode_spec(bytes@) == Ok::<(u8, u8, Seq<u8>), FrameError>(
                (m.0, m.1, m.2@),
            ),
            Err(e) => frame_decode_spec(bytes@) == Err::<(u8, u8, Seq<u8>), FrameError>(e),
        },
{
    if bytes.len() >= 1 && bytes[0] != SYNC_CHAR_1 {
        return Err(FrameError::BadSync);
    }
    if bytes.len() >= 2 && bytes[1] != SYNC_CHAR_2 {
        return Err(FrameError::BadSync);
    }
    if bytes.len() < 8 {
        return Err(FrameError::Incomplete);
    }
    let len: usize = bytes[4] as usize + 256 * (bytes[5] as usize);
    if bytes.len() - 8 < len {
        return Err(FrameError::Incomplete);
    }
    let core = vstd::slice::slice_subrange(bytes, 2, 6 + len);
    let (ck_a, ck_b) = cksum_update(0, 0, core);
    if bytes[6 + len] != ck_a || bytes[7 + len] != ck_b {
        return Err(FrameError::ChecksumMismatch);
    }
    let payload = vstd::slice::slice_to_vec(vstd::slice::slice_subrange(bytes, 6, 6 + len));
    Ok((bytes[2], bytes[3], payload))
}

/// Structural invariants of every encoded frame: its length is
/// `8 + payload.len()`, it begins with the two sync bytes, class and id
/// stand at offsets 2 and 3, the little-endian length at offsets 4 and 5,
/// the payload at offset 6, and the last two bytes are the checksum of
/// class, id, length and payload.
pub proof fn lemma_frame_structure(class: u8, id: u8, payload: Seq<u8>)
    requires
        payload.len() <= 0xFFFF,
    ensures
        frame_bytes(class, id, payload).len() == 8 + payload.len(),
        frame_bytes(class, id, payload)[0] == SYNC_CHAR_1,
        frame_bytes(class, id, payload)[1] == SYNC_CHAR_2,
        frame_bytes(class, id, payload)[2] == class,
        frame_bytes(class, id, payload)[3] == id,
        frame_bytes(class, id, payload)[4] == payload.len() % 256,
        frame_bytes(class, id, payload)[5] == payload.len() / 256,
        frame_bytes(class, id, payload).subrange(6, 6 + payload.len() as int) == payload,
        frame_bytes(class, id, payload)[6 + payload.len() as int]
            == checksum_of(checksum_input(class, id, payload)).0,
        frame_bytes(class, id, payload)[7 + payload.len() as int]
            == checksum_of(checksum_input(class, id, payload)).1,
{
    let f = frame_bytes(class, id, payload);
    assert(f.subrange(6, 6 + payload.len() as int) =~= payload);
}

/// Decoding inverts encoding: the frame built from a payload decodes to
/// exactly that class, id and payload.
pub proof fn lemma_frame_round_trip(class: u8, id: u8, payload: Seq<u8>)
    requires
        payload.len() <= 0xFFFF,
    ensures
        frame_decode_spec(frame_bytes(class, id, payload))
            == Ok::<(u8, u8, Seq<u8>), FrameError>((class, id, payload)),
{
    let f = frame_bytes(class, id, payload);
    lemma_frame_structure(class, id, payload);
    assert(declared_frame_len(f) == payload.len()) by {
        assert(f[4] == payload.len() % 256);
        assert(f[5] == payload.len() / 256);
    }
    assert(f.subrange(2, 6 + payload.len() as int) =~= checksum_input(class, id, payload));
}

} // verus!

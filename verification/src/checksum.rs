//! The two-accumulator Fletcher-style frame checksum.
//!
//! `ck_a` is the wrapping byte sum of every checksummed byte; `ck_b` is the
//! wrapping sum of the running `ck_a` after each byte.  The checksummed byte
//! sequence for a frame is exactly: class, id, length low byte, length high
//! byte, then every payload byte.  Sync bytes are never included.

use vstd::prelude::*;

verus! {

/// Both checksum accumulators advanced by one input byte.
pub open spec fn cksum_step(acc: (u8, u8), byte: u8) -> (u8, u8) {
    let a = if acc.0 + byte > 255 {
        (acc.0 + byte - 256) as u8
    } else {
        (acc.0 + byte) as u8
    };
    let b = if acc.1 + a > 255 {
        (acc.1 + a - 256) as u8
    } else {
        (acc.1 + a) as u8
    };
    (a, b)
}

/// The accumulator pair after folding `bytes` into `acc`, front to back.
pub open spec fn cksum_fold(acc: (u8, u8), bytes: Seq<u8>) -> (u8, u8)
    decreases bytes.len(),
{
    if bytes.len() == 0 {
        acc
    } else {
        cksum_fold(cksum_step(acc, bytes[0]), bytes.skip(1))
    }
}

/// The checksum pair `(ck_a, ck_b)` of a byte sequence, from zeroed accumulators.
pub open spec fn checksum_of(bytes: Seq<u8>) -> (u8, u8) {
    cksum_fold((0, 0), bytes)
}

/// The byte sequence a frame's checksum is computed over: class, id, the
/// little-endian length bytes, then the payload.
pub open spec fn checksum_input(class: u8, id: u8, payload: Seq<u8>) -> Seq<u8> {
    seq![class, id, (payload.len() % 256) as u8, ((payload.len() / 256) % 256) as u8] + payload
}

/// Folding a concatenation folds the two parts in order.
pub proof fn lemma_cksum_fold_append(acc: (u8, u8), s: Seq<u8>, t: Seq<u8>)
    ensures
        cksum_fold(acc, s + t) == cksum_fold(cksum_fold(acc, s), t),
    decreases s.len(),
{
    if s.len() == 0 {
        assert(s + t =~= t);
    } else {
        assert((s + t).skip(1) =~= s.skip(1) + t);
        lemma_cksum_fold_append(cksum_step(acc, s[0]), s.skip(1), t);
    }
}

/// Fold `bytes` into the accumulator pair `(a, b)`.
pub(crate) fn cksum_update(a: u8, b: u8, bytes: &[u8]) -> (r: (u8, u8))
    ensures
        r == cksum_fold((a, b), bytes@),
{
    let mut ck_a = a;
    let mut ck_b = b;
    let mut i: usize = 0;
    proof {
        assert(bytes@.skip(0) =~= bytes@);
    }
    while i < bytes.len()
        invariant
            i <= bytes@.len(),
            cksum_fold((ck_a, ck_b), bytes@.skip(i as int)) == cksum_fold((a, b), bytes@),
        decreases bytes@.len() - i,
    {
        let byte = bytes[i];
        proof {
            assert(bytes@.skip(i as int).skip(1) =~= bytes@.skip(i as int + 1));
            assert(bytes@.skip(i as int)[0] == bytes@[i as int]);
        }
        ck_a = ck_a.wrapping_add(byte);
        ck_b = ck_b.wrapping_add(ck_a);
        i = i + 1;
    }
    (ck_a, ck_b)
}

/// The checksum of a message: the fold of class, id, the two little-endian
/// length bytes and the payload, with both accumulators starting at zero.
pub fn calculate_checksum(class: u8, id: u8, payload: &[u8]) -> (r: (u8, u8))
    requires
        payload@.len() <= 0xFFFF,
    ensures
        r == checksum_of(checksum_input(class, id, payload@)),
{
    let len = payload.len() as u16;
    let head: [u8; 4] = [class, id, (len % 256) as u8, (len / 256) as u8];
    let (a, b) = cksum_update(0, 0, head.as_slice());
    let r = cksum_update(a, b, payload);
    proof {
        assert(head@ + payload@ =~= checksum_input(class, id, payload@));
        lemma_cksum_fold_append((0, 0), head@, payload@);
    }
    r
}

} // verus!

//! Little-endian byte-level primitives.
//!
//! Every field value travels as the unsigned bit pattern of its storage
//! type, widened to `u64`; a value of width `w` occupies exactly `w` bytes,
//! least significant first.

use vstd::prelude::*;

verus! {

/// `256^w`: one past the largest value a `w`-byte field can carry.
pub open spec fn le_bound(w: nat) -> int
    decreases w,
{
    if w == 0 {
        1
    } else {
        256 * le_bound((w - 1) as nat)
    }
}

/// The `w` little-endian bytes of `v` (the low `w` bytes, least
/// significant first).
pub open spec fn le_bytes_of(v: int, w: nat) -> Seq<u8>
    decreases w,
{
    if w == 0 {
        Seq::empty()
    } else {
        seq![(v % 256) as u8] + le_bytes_of(v / 256, (w - 1) as nat)
    }
}

/// The value a little-endian byte string stands for.
pub open spec fn le_value(bytes: Seq<u8>) -> int
    decreases bytes.len(),
{
    if bytes.len() == 0 {
        0
    } else {
        bytes[0] + 256 * le_value(bytes.skip(1))
    }
}

/// `le_bound` values for the widths that occur in schemas.
pub proof fn lemma_le_bound_values()
    ensures
        le_bound(1) == 0x100,
        le_bound(2) == 0x10000,
        le_bound(4) == 0x1_0000_0000,
        le_bound(7) == 0x100_0000_0000_0000,
        le_bound(8) == 0x1_0000_0000_0000_0000,
{
    reveal_with_fuel(le_bound, 9);
}

/// Encoding is the inverse of the value function: the `w` bytes of a value
/// below `le_bound(w)` stand for that value again.
pub proof fn lemma_le_round_trip(v: int, w: nat)
    requires
        0 <= v < le_bound(w),
    ensures
        le_bytes_of(v, w).len() == w,
        le_value(le_bytes_of(v, w)) == v,
    decreases w,
{
    if w == 0 {
    } else {
        lemma_le_round_trip(v / 256, (w - 1) as nat);
        assert(le_bytes_of(v, w).skip(1) =~= le_bytes_of(v / 256, (w - 1) as nat));
    }
}

/// The encoding always has exactly `w` bytes, whatever the value.
pub proof fn lemma_le_bytes_len(v: int, w: nat)
    ensures
        le_bytes_of(v, w).len() == w,
    decreases w,
{
    if w > 0 {
        lemma_le_bytes_len(v / 256, (w - 1) as nat);
    }
}

/// Append the `w` little-endian bytes of `v` to `out`.
pub fn write_le(out: &mut Vec<u8>, v: u64, w: usize)
    ensures
        final(out)@ == old(out)@ + le_bytes_of(v as int, w as nat),
{
    let mut x = v;
    let mut j: usize = 0;
    while j < w
        invariant
            j <= w,
            out@ + le_bytes_of(x as int, (w - j) as nat)
                =~= old(out)@ + le_bytes_of(v as int, w as nat),
        decreases w - j,
    {
        proof {
            assert(le_bytes_of(x as int, (w - j) as nat)
                =~= seq![(x % 256) as u8] + le_bytes_of(x as int / 256, (w - j - 1) as nat));
        }
        let ghost pre = out@;
        out.push((x % 256) as u8);
        proof {
            assert(out@ + le_bytes_of(x as int / 256, (w - j - 1) as nat)
                =~= pre + le_bytes_of(x as int, (w - j) as nat));
        }
        x = x / 256;
        j = j + 1;
    }
    proof {
        assert(le_bytes_of(x as int, 0) =~= Seq::<u8>::empty());
        assert(out@ + Seq::<u8>::empty() =~= out@);
    }
}

/// Read the value of the `w` bytes at `off`, least significant first.
pub fn read_le(bytes: &[u8], off: usize, w: usize) -> (r: u64)
    requires
        w <= 8,
        off + w <= bytes@.len(),
    ensures
        r as int == le_value(bytes@.subrange(off as int, off + w)),
        0 <= r < le_bound(w as nat),
{
    let n: usize = bytes.len();
    let mut acc: u64 = 0;
    let mut j: usize = w;
    proof {
        lemma_le_bound_values();
        assert(bytes@.subrange(off + w, off + w) =~= Seq::<u8>::empty());
    }
    while j > 0
        invariant
            j <= w,
            w <= 8,
            off + w <= n,
            n == bytes@.len(),
            acc as int == le_value(bytes@.subrange(off + j, off + w)),
            acc < le_bound((w - j) as nat),
            le_bound(7) == 0x100_0000_0000_0000,
            le_bound(8) == 0x1_0000_0000_0000_0000,
        decreases j,
    {
        proof {
            lemma_le_bound_mono((w - j) as nat, 7);
            assert(bytes@.subrange(off + j - 1, off + w).skip(1)
                =~= bytes@.subrange(off + j, off + w));
            lemma_le_bound_step((w - j) as nat);
        }
        acc = acc * 256 + bytes[off + j - 1] as u64;
        j = j - 1;
    }
    acc
}

/// `le_bound` grows by a factor of 256 per byte of width.
pub proof fn lemma_le_bound_step(w: nat)
    ensures
        le_bound(w + 1) == 256 * le_bound(w),
{
}

/// `le_bound` is monotonic in the width.
pub proof fn lemma_le_bound_mono(a: nat, b: nat)
    requires
        a <= b,
    ensures
        le_bound(a) <= le_bound(b),
    decreases b,
{
    if a < b {
        lemma_le_bound_mono(a, (b - 1) as nat);
        assert(le_bound(b) == 256 * le_bound((b - 1) as nat));
        assert(le_bound((b - 1) as nat) >= 1) by {
            lemma_le_bound_pos((b - 1) as nat);
        }
    }
}

/// `le_bound` is always positive.
pub proof fn lemma_le_bound_pos(w: nat)
    ensures
        le_bound(w) >= 1,
    decreases w,
{
    if w > 0 {
        lemma_le_bound_pos((w - 1) as nat);
    }
}

} // verus!

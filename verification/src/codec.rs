//! Little-endian decoding, described mathematically.
//!
//! A read of width `w` at position `pos` takes the bytes
//! `data[pos], ..., data[pos + w - 1]`, treating any byte that lies beyond the
//! end of the source as zero (the zero-padding policy for short sources), and
//! combines them least-significant first.

use vstd::prelude::*;

verus! {

use vstd::arithmetic::div_mod::{lemma_fundamental_div_mod, lemma_multiply_divide_lt};
use vstd::arithmetic::power2::{lemma2_to64, lemma_pow2_adds, pow2};

/// The byte at index `i`, with every position outside the source reading as zero.
pub open spec fn byte_at(data: Seq<u8>, i: int) -> u8 {
    if 0 <= i < data.len() {
        data[i]
    } else {
        0
    }
}

/// The unsigned value decoded little-endian from the `w` bytes at `pos`,
/// missing bytes taken as zero.
pub open spec fn le_at(data: Seq<u8>, pos: int, w: nat) -> nat
    decreases w,
{
    if w == 0 {
        0
    } else {
        byte_at(data, pos) as nat + 0x100 * le_at(data, pos + 1, (w - 1) as nat)
    }
}

/// How many bytes a read that wants `want` bytes at position `pos` obtains:
/// everything it asked for, or whatever remains before the end of the source.
pub open spec fn read_len(data: Seq<u8>, pos: nat, want: nat) -> nat {
    if pos >= data.len() {
        0
    } else if want <= data.len() - pos {
        want
    } else {
        (data.len() - pos) as nat
    }
}

/// The two's-complement reading of an unsigned `w`-byte value.
pub open spec fn to_signed(u: nat, w: nat) -> int
    recommends
        1 <= w,
        u < pow2(8 * w),
{
    if u < pow2((8 * w - 1) as nat) {
        u as int
    } else {
        u - pow2(8 * w)
    }
}

/// The `w`-byte little-endian encoding of `v`, least-significant byte first:
/// the companion writer to `le_at`, stated rather than run.
pub open spec fn le_bytes_of(v: nat, w: nat) -> Seq<u8>
    decreases w,
{
    if w == 0 {
        Seq::empty()
    } else {
        seq![(v % 0x100) as u8] + le_bytes_of(v / 0x100, (w - 1) as nat)
    }
}

/// The unsigned value a signed one is written as: its value, or its value
/// shifted up by `2^(8 * w)` when negative (two's complement).
pub open spec fn signed_encoding(v: int, w: nat) -> nat
    recommends
        1 <= w,
        -pow2((8 * w - 1) as nat) <= v < pow2((8 * w - 1) as nat),
{
    if v >= 0 {
        v as nat
    } else {
        (v + pow2(8 * w)) as nat
    }
}

/// The encoding has as many bytes as were asked for.
pub proof fn lemma_le_bytes_of_len(v: nat, w: nat)
    ensures
        le_bytes_of(v, w).len() == w,
    decreases w,
{
    if w > 0 {
        lemma_le_bytes_of_len(v / 0x100, (w - 1) as nat);
    }
}

/// A decoded `w`-byte value is below `2^(8 * w)`.
pub proof fn lemma_le_at_bound(data: Seq<u8>, pos: int, w: nat)
    ensures
        le_at(data, pos, w) < pow2(8 * w),
    decreases w,
{
    lemma2_to64();
    if w == 0 {
    } else {
        lemma_le_at_bound(data, pos + 1, (w - 1) as nat);
        lemma_pow2_adds(8, 8 * (w - 1) as nat);
    }
}

/// Reading entirely past the end of the source yields zero, whatever the width.
pub proof fn lemma_le_at_past_end(data: Seq<u8>, pos: int, w: nat)
    requires
        data.len() <= pos,
    ensures
        le_at(data, pos, w) == 0,
    decreases w,
{
    if w > 0 {
        lemma_le_at_past_end(data, pos + 1, (w - 1) as nat);
    }
}

/// Short sources zero-fill: when only `k` of `w` requested bytes exist before
/// the end of the source, the `w`-byte decode equals the `k`-byte decode, so
/// the unread high-order bytes of the value are zero and the value stays
/// below `2^(8 * k)`.
pub proof fn lemma_le_at_short(data: Seq<u8>, pos: int, w: nat, k: nat)
    requires
        k <= w,
        data.len() <= pos + k,
    ensures
        le_at(data, pos, w) == le_at(data, pos, k),
        le_at(data, pos, w) < pow2(8 * k),
    decreases k,
{
    if k == 0 {
        lemma_le_at_past_end(data, pos, w);
        lemma2_to64();
    } else {
        lemma_le_at_short(data, pos + 1, (w - 1) as nat, (k - 1) as nat);
        lemma_le_at_bound(data, pos, k);
    }
}

/// Round trip: decoding the `w`-byte little-endian encoding of `v`, laid down
/// at `pos`, yields `v` back, for every `v` that `w` bytes can hold.
pub proof fn lemma_le_round_trip(data: Seq<u8>, pos: int, v: nat, w: nat)
    requires
        0 <= pos,
        pos + w <= data.len(),
        v < pow2(8 * w),
        data.subrange(pos, pos + w) == le_bytes_of(v, w),
    ensures
        le_at(data, pos, w) == v,
    decreases w,
{
    lemma2_to64();
    if w == 0 {
    } else {
        lemma_le_bytes_of_len(v, w);
        lemma_le_bytes_of_len(v / 0x100, (w - 1) as nat);
        assert(byte_at(data, pos) == le_bytes_of(v, w)[0]) by {
            assert(data[pos] == data.subrange(pos, pos + w)[0]);
        }
        assert(byte_at(data, pos) as nat == v % 0x100);
        lemma_pow2_adds(8, 8 * (w - 1) as nat);
        lemma_multiply_divide_lt(v as int, 0x100, pow2(8 * (w - 1) as nat) as int);
        assert(data.subrange(pos + 1, pos + w) =~= le_bytes_of(v / 0x100, (w - 1) as nat)) by {
            assert forall|i: int| 0 <= i < w - 1 implies #[trigger] data.subrange(
                pos + 1,
                pos + w,
            )[i] == le_bytes_of(v / 0x100, (w - 1) as nat)[i] by {
                assert(data.subrange(pos + 1, pos + w)[i] == data.subrange(pos, pos + w)[i + 1]);
                assert(le_bytes_of(v, w)[i + 1] == le_bytes_of(v / 0x100, (w - 1) as nat)[i]);
            }
        }
        lemma_le_round_trip(data, pos + 1, v / 0x100, (w - 1) as nat);
        lemma_fundamental_div_mod(v as int, 0x100);
    }
}

/// Round trip for signed values: decoding the `w`-byte little-endian
/// two's-complement encoding of `v`, laid down at `pos`, yields `v` back, for
/// every `v` that `w` bytes can hold.
pub proof fn lemma_le_round_trip_signed(data: Seq<u8>, pos: int, v: int, w: nat)
    requires
        1 <= w,
        0 <= pos,
        pos + w <= data.len(),
        -pow2((8 * w - 1) as nat) <= v < pow2((8 * w - 1) as nat),
        data.subrange(pos, pos + w) == le_bytes_of(signed_encoding(v, w), w),
    ensures
        to_signed(le_at(data, pos, w), w) == v,
{
    let h = pow2((8 * w - 1) as nat);
    assert(pow2(8 * w) == 2 * h) by {
        lemma_pow2_adds((8 * w - 1) as nat, 1);
        lemma2_to64();
    }
    lemma_le_round_trip(data, pos, signed_encoding(v, w), w);
}

/// `le_at` written out for width 1.
pub proof fn lemma_le_at_1(data: Seq<u8>, pos: int)
    ensures
        le_at(data, pos, 1) == byte_at(data, pos),
{
    reveal_with_fuel(le_at, 2);
}

/// `le_at` written out for width 2.
pub proof fn lemma_le_at_2(data: Seq<u8>, pos: int)
    ensures
        le_at(data, pos, 2) == byte_at(data, pos) + 0x100 * byte_at(data, pos + 1),
{
    reveal_with_fuel(le_at, 3);
}

/// `le_at` written out for width 4.
pub proof fn lemma_le_at_4(data: Seq<u8>, pos: int)
    ensures
        le_at(data, pos, 4) == byte_at(data, pos) + 0x100 * byte_at(data, pos + 1) + 0x10000
            * byte_at(data, pos + 2) + 0x1000000 * byte_at(data, pos + 3),
{
    reveal_with_fuel(le_at, 5);
}

/// `le_at` written out for width 8.
pub proof fn lemma_le_at_8(data: Seq<u8>, pos: int)
    ensures
        le_at(data, pos, 8) == byte_at(data, pos) + 0x100 * byte_at(data, pos + 1) + 0x10000
            * byte_at(data, pos + 2) + 0x1000000 * byte_at(data, pos + 3) + 0x100000000 * byte_at(
            data,
            pos + 4,
        ) + 0x10000000000 * byte_at(data, pos + 5) + 0x1000000000000 * byte_at(data, pos + 6)
            + 0x100000000000000 * byte_at(data, pos + 7),
{
    reveal_with_fuel(le_at, 9);
}

} // verus!

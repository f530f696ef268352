//! Delta-coded integer streams and coordinate arithmetic.
//!
//! Way references, relation member ids and all dense-node columns are
//! stored as differences; decoding keeps a running sum in a 64-bit
//! accumulator (wrapping, so no input can fault the decoder).

use vstd::prelude::*;
use vstd::wrapping::i64_specs;
use crate::wire::{i64_to_u64, i64_to_varint, u64_to_i32, varint_to_i32};

verus! {

/// The exact (unbounded) sum of the first `k` deltas.
pub open spec fn delta_total(d: Seq<i64>, k: int) -> int
    decreases k,
{
    if k <= 0 || k > d.len() {
        0
    } else {
        delta_total(d, k - 1) + d[k - 1]
    }
}

/// The decoder's accumulator after `k` deltas: the exact sum, wrapped
/// into 64 bits.
pub open spec fn crop_total(d: Seq<i64>, k: int) -> i64 {
    i64_specs::signed_crop(delta_total(d, k))
}

/// Add one delta to a wrapped accumulator: the same as wrapping the
/// extended exact sum.
pub proof fn lemma_crop_total_step(d: Seq<i64>, k: int)
    requires
        0 <= k < d.len(),
    ensures
        i64_specs::wrapping_add(crop_total(d, k), d[k]) == crop_total(d, k + 1),
{
    let t = delta_total(d, k);
    let c = i64_specs::signed_crop(t) as int;
    assert(delta_total(d, k + 1) == t + d[k]);
    assert((c - t) % 0x1_0000_0000_0000_0000 == 0) by (nonlinear_arith)
        requires
            c == ({
                if (t % 0x1_0000_0000_0000_0000) > i64::MAX {
                    (t % 0x1_0000_0000_0000_0000) - 0x1_0000_0000_0000_0000
                } else {
                    t % 0x1_0000_0000_0000_0000
                }
            });
    assert(i64_specs::wrapping_add(i64_specs::signed_crop(t), d[k]) == i64_specs::signed_crop(
        t + d[k],
    )) by (nonlinear_arith)
        requires
            (c - t) % 0x1_0000_0000_0000_0000 == 0,
            i64::MIN <= c <= i64::MAX,
            i64::MIN <= d[k] <= i64::MAX;
}

/// Delta decoding: the `i`-th decoded value is the wrapped sum of the
/// first `i + 1` deltas.
pub open spec fn delta_decoded(d: Seq<i64>) -> Seq<i64> {
    Seq::new(d.len(), |i: int| crop_total(d, i + 1))
}

/// When no prefix sum overflows, the `i`-th decoded value is exactly
/// `d[0] + ... + d[i]`.
pub proof fn lemma_delta_decoding_exact(d: Seq<i64>, i: int)
    requires
        0 <= i < d.len(),
        forall|k: int| 0 <= k <= i ==> i64::MIN <= #[trigger] delta_total(d, k + 1) <= i64::MAX,
    ensures
        delta_decoded(d)[i] == delta_total(d, i + 1),
{
    let t = delta_total(d, i + 1);
    if t >= 0 {
        assert(t % 0x1_0000_0000_0000_0000 == t);
    } else {
        assert(t % 0x1_0000_0000_0000_0000 == t + 0x1_0000_0000_0000_0000);
    }
}

/// `offset + granularity * raw`, in wrapping 64-bit arithmetic: the
/// nanodegree value of a raw coordinate.
pub open spec fn nano_of(offset: i64, granularity: i32, raw: i64) -> i64 {
    i64_specs::wrapping_add(offset, i64_specs::wrapping_mul(granularity as i64, raw))
}

/// Compute a nanodegree coordinate.
pub fn nano_coord(offset: i64, granularity: i32, raw: i64) -> (r: i64)
    ensures
        r == nano_of(offset, granularity, raw),
{
    offset.wrapping_add((granularity as i64).wrapping_mul(raw))
}

/// `timestamp * date_granularity`, in wrapping 64-bit arithmetic: a raw
/// timestamp in milliseconds.
pub open spec fn milli_of(ts: i64, date_granularity: i32) -> i64 {
    i64_specs::wrapping_mul(ts, date_granularity as i64)
}

/// Division by 100 truncating toward zero.
pub open spec fn div100_trunc(n: i64) -> int {
    if n >= 0 {
        n / 100
    } else {
        -((-(n as int)) / 100)
    }
}

/// A nanodegree value in decimicrodegrees: divided by 100, truncated
/// toward zero, kept to 32 bits.
pub open spec fn decimicro_of(nano: i64) -> i32 {
    u64_to_i32(i64_to_u64(div100_trunc(nano) as i64))
}

/// Compute a decimicrodegree coordinate.
pub fn decimicro_coord(nano: i64) -> (r: i32)
    ensures
        r == decimicro_of(nano),
{
    let q: i64 = if nano >= 0 {
        ((nano as u64) / 100) as i64
    } else {
        let mag: u64 = if nano == i64::MIN {
            0x8000_0000_0000_0000u64
        } else {
            (-nano) as u64
        };
        -((mag / 100) as i64)
    };
    proof {
        assert(q == div100_trunc(nano) as i64);
    }
    varint_to_i32(i64_to_varint(q))
}

} // verus!

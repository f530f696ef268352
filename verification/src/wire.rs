//! Protocol Buffer wire primitives: base-128 varints, zigzag signed
//! integers, and the big-endian length prefix used by the blob framing.
//!
//! Every decoder here is written against a recursive specification of the
//! encoding, and the encoders are proved to be inverted by the decoders.

use vstd::prelude::*;

verus! {

/// Base-128 little-endian varint encoding of a 64-bit integer.
pub open spec fn enc_varint(n: u64) -> Seq<u8>
    decreases n,
{
    if n < 128 {
        seq![n as u8]
    } else {
        seq![(128 + n % 128) as u8] + enc_varint(n / 128)
    }
}

/// Decode a varint starting at `i`, reading at most `fuel` bytes.
/// The value is accumulated exactly (as an integer); the caller truncates.
pub open spec fn dec_varint_from(s: Seq<u8>, i: int, fuel: nat) -> Option<(int, int)>
    decreases fuel,
{
    if fuel == 0 || i < 0 || i >= s.len() {
        None
    } else if s[i] < 128 {
        Some((s[i] as int, i + 1))
    } else {
        match dec_varint_from(s, i + 1, (fuel - 1) as nat) {
            None => None,
            Some((v, j)) => Some(((s[i] - 128) + 128 * v, j)),
        }
    }
}

/// A varint occupies at most 10 bytes; the 64 low bits are kept.
pub open spec fn dec_varint(s: Seq<u8>, i: int) -> Option<(u64, int)> {
    match dec_varint_from(s, i, 10) {
        None => None,
        Some((v, j)) => Some(((v % 0x1_0000_0000_0000_0000) as u64, j)),
    }
}

pub open spec fn pow128(f: nat) -> int
    decreases f,
{
    if f == 0 {
        1
    } else {
        128 * pow128((f - 1) as nat)
    }
}

pub proof fn lemma_dec_varint_from_bound(s: Seq<u8>, i: int, fuel: nat)
    ensures
        dec_varint_from(s, i, fuel) matches Some(p) ==> {
            &&& 0 <= p.0 < pow128(fuel)
            &&& i < p.1 <= i + fuel
            &&& p.1 <= s.len()
        },
    decreases fuel,
{
    if fuel > 0 && 0 <= i < s.len() {
        lemma_pow128_pos((fuel - 1) as nat);
        assert(pow128(fuel) == 128 * pow128((fuel - 1) as nat));
        assert(pow128(fuel) >= 128) by (nonlinear_arith)
            requires
                pow128(fuel) == 128 * pow128((fuel - 1) as nat),
                pow128((fuel - 1) as nat) >= 1;
    }
    if fuel > 0 && 0 <= i < s.len() && s[i] >= 128 {
        lemma_dec_varint_from_bound(s, i + 1, (fuel - 1) as nat);
        if let Some((v, j)) = dec_varint_from(s, i + 1, (fuel - 1) as nat) {
            assert((s[i] - 128) + 128 * v < 128 * pow128((fuel - 1) as nat)) by {
                assert(128 * v <= 128 * (pow128((fuel - 1) as nat) - 1)) by (nonlinear_arith)
                    requires v <= pow128((fuel - 1) as nat) - 1;
            };
        }
    }
}

pub proof fn lemma_pow128_10()
    ensures
        pow128(10) < 0x1_0000_0000_0000_0000_0000_0000_0000_0000,
{
    reveal_with_fuel(pow128, 11);
}

fn read_varint_rec(s: &[u8], pos: usize, fuel: u8) -> (r: Option<(u128, usize)>)
    requires
        pos <= s@.len(),
        fuel <= 10,
    ensures
        r is None ==> dec_varint_from(s@, pos as int, fuel as nat) is None,
        r matches Some(p) ==> {
            &&& dec_varint_from(s@, pos as int, fuel as nat) == Some((p.0 as int, p.1 as int))
            &&& pos < p.1 <= s@.len()
        },
    decreases fuel,
{
    if fuel == 0 || pos == s.len() {
        return None;
    }
    let b = s[pos];
    if b < 128 {
        Some((b as u128, pos + 1))
    } else {
        match read_varint_rec(s, pos + 1, fuel - 1) {
            None => None,
            Some((v, j)) => {
                proof {
                    lemma_dec_varint_from_bound(s@, pos + 1 as int, (fuel - 1) as nat);
                    lemma_pow128_mono((fuel - 1) as nat, 9);
                    assert(pow128(10) == 128 * pow128(9));
                    lemma_pow128_10();
                }
                Some(((b - 128) as u128 + 128 * v, j))
            }
        }
    }
}

pub proof fn lemma_pow128_mono(a: nat, b: nat)
    requires
        a <= b,
    ensures
        pow128(a) <= pow128(b),
    decreases b,
{
    if a < b && b > 0 {
        lemma_pow128_mono(a, (b - 1) as nat);
        lemma_pow128_pos((b - 1) as nat);
        assert(pow128((b - 1) as nat) <= 128 * pow128((b - 1) as nat)) by (nonlinear_arith)
            requires pow128((b - 1) as nat) >= 1;
    } else {
        lemma_pow128_pos(b);
    }
}

pub proof fn lemma_pow128_pos(f: nat)
    ensures
        pow128(f) >= 1,
    decreases f,
{
    if f > 0 {
        lemma_pow128_pos((f - 1) as nat);
    }
}

/// Read one varint; `None` on truncated input or more than 10 bytes of
/// continuation.  Extra high bits beyond 64 are discarded, as Protocol
/// Buffers prescribes.
pub fn read_varint(s: &[u8], pos: usize) -> (r: Option<(u64, usize)>)
    requires
        pos <= s@.len(),
    ensures
        r is None ==> dec_varint(s@, pos as int) is None,
        r matches Some(p) ==> {
            &&& dec_varint(s@, pos as int) == Some((p.0, p.1 as int))
            &&& pos < p.1 <= s@.len()
        },
{
    match read_varint_rec(s, pos, 10) {
        None => None,
        Some((v, j)) => Some(((v % 0x1_0000_0000_0000_0000u128) as u64, j)),
    }
}

/// Append the varint encoding of `n` to `out`.
pub fn write_varint(out: &mut Vec<u8>, n: u64)
    ensures
        final(out)@ == old(out)@ + enc_varint(n),
    decreases n,
{
    if n < 128 {
        out.push(n as u8);
        assert(out@ =~= old(out)@ + enc_varint(n));
    } else {
        out.push((128 + n % 128) as u8);
        write_varint(out, n / 128);
        assert(out@ =~= old(out)@ + enc_varint(n));
    }
}

pub proof fn lemma_enc_varint_len(n: u64)
    ensures
        1 <= enc_varint(n).len() <= 10,
{
    assert(n < pow128(10)) by {
        reveal_with_fuel(pow128, 11);
    };
    lemma_enc_varint_len_bound(n, 10);
}

proof fn lemma_enc_varint_len_bound(n: u64, k: nat)
    requires
        1 <= k,
        n < pow128(k),
    ensures
        1 <= enc_varint(n).len() <= k,
    decreases n,
{
    if n >= 128 {
        assert(pow128(k) == 128 * pow128((k - 1) as nat));
        lemma_pow128_pos((k - 1) as nat);
        assert(k >= 2) by {
            if k == 1 {
                assert(pow128(1) == 128) by {
                    reveal_with_fuel(pow128, 2);
                };
            }
        };
        assert(n / 128 < pow128((k - 1) as nat)) by (nonlinear_arith)
            requires
                n < 128 * pow128((k - 1) as nat),
                pow128((k - 1) as nat) >= 1;
        lemma_enc_varint_len_bound(n / 128, (k - 1) as nat);
    }
}

/// Decoding inverts encoding: if the bytes at `i` are `enc_varint(n)`, the
/// decoder yields `n` and stops right after them.
pub proof fn lemma_varint_round_trip(s: Seq<u8>, i: int, n: u64)
    requires
        0 <= i,
        i + enc_varint(n).len() <= s.len(),
        s.subrange(i, i + enc_varint(n).len() as int) == enc_varint(n),
    ensures
        dec_varint(s, i) == Some((n, i + enc_varint(n).len() as int)),
{
    lemma_enc_varint_len(n);
    lemma_varint_round_trip_from(s, i, n, 10);
    if let Some((v, j)) = dec_varint_from(s, i, 10) {
        assert(v == n as int);
        assert(v % 0x1_0000_0000_0000_0000 == n as int);
    }
}

proof fn lemma_varint_round_trip_from(s: Seq<u8>, i: int, n: u64, fuel: nat)
    requires
        0 <= i,
        i + enc_varint(n).len() <= s.len(),
        s.subrange(i, i + enc_varint(n).len() as int) == enc_varint(n),
        enc_varint(n).len() <= fuel,
    ensures
        dec_varint_from(s, i, fuel) == Some((n as int, i + enc_varint(n).len() as int)),
    decreases n,
{
    let e = enc_varint(n);
    assert(s[i] == e[0]);
    if n < 128 {
        assert(e[0] == n as u8);
        assert(s[i] < 128);
    } else {
        assert(e[0] == (128 + n % 128) as u8);
        assert(s[i] >= 128);
        let e2 = enc_varint(n / 128);
        assert(e == seq![(128 + n % 128) as u8] + e2);
        assert(s.subrange(i + 1, i + 1 + e2.len() as int) =~= e2) by {
            assert forall|k: int| 0 <= k < e2.len() implies s.subrange(
                i + 1,
                i + 1 + e2.len() as int,
            )[k] == e2[k] by {
                assert(s[i + 1 + k] == e[1 + k]);
            };
        };
        lemma_enc_varint_len(n / 128);
        lemma_varint_round_trip_from(s, i + 1, n / 128, (fuel - 1) as nat);
        assert((s[i] - 128) + 128 * ((n / 128) as int) == n as int) by (nonlinear_arith)
            requires
                s[i] == (128 + n % 128) as u8,
                n >= 128;
    }
}

/// Zigzag encoding maps signed 64-bit integers onto unsigned ones,
/// small magnitudes first.
pub open spec fn zigzag_enc(n: i64) -> u64 {
    if n >= 0 {
        (2 * (n as int)) as u64
    } else {
        (-2 * (n as int) - 1) as u64
    }
}

pub open spec fn zigzag_dec(z: u64) -> i64 {
    if z % 2 == 0 {
        (z / 2) as i64
    } else {
        (-((z / 2) as int) - 1) as i64
    }
}

pub proof fn lemma_zigzag_round_trip(n: i64)
    ensures
        zigzag_dec(zigzag_enc(n)) == n,
{
}

/// Zigzag-decode an unsigned value into a signed one.
pub fn zigzag_decode(z: u64) -> (r: i64)
    ensures
        r == zigzag_dec(z),
{
    if z % 2 == 0 {
        (z / 2) as i64
    } else {
        -((z / 2) as i64) - 1
    }
}

/// Zigzag-encode a signed value into an unsigned one.
pub fn zigzag_encode(n: i64) -> (r: u64)
    ensures
        r == zigzag_enc(n),
{
    if n >= 0 {
        (n as u64) * 2
    } else {
        let m = if n == i64::MIN {
            0x8000_0000_0000_0000u64
        } else {
            (-n) as u64
        };
        (m - 1) * 2 + 1
    }
}

/// Zigzag encoding for 32-bit integers (a Protocol Buffer `sint32`).
pub open spec fn zigzag32_enc(n: i32) -> u32 {
    if n >= 0 {
        (2 * (n as int)) as u32
    } else {
        (-2 * (n as int) - 1) as u32
    }
}

pub open spec fn zigzag32_dec(z: u32) -> i32 {
    if z % 2 == 0 {
        (z / 2) as i32
    } else {
        (-((z / 2) as int) - 1) as i32
    }
}

pub proof fn lemma_zigzag32_round_trip(n: i32)
    ensures
        zigzag32_dec(zigzag32_enc(n)) == n,
{
}

/// Zigzag-decode a 32-bit unsigned value into a signed one.
pub fn zigzag32_decode(z: u32) -> (r: i32)
    ensures
        r == zigzag32_dec(z),
{
    if z % 2 == 0 {
        (z / 2) as i32
    } else {
        -((z / 2) as i32) - 1
    }
}

/// Zigzag-encode a 32-bit signed value into an unsigned one.
pub fn zigzag32_encode(n: i32) -> (r: u32)
    ensures
        r == zigzag32_enc(n),
{
    if n >= 0 {
        (n as u32) * 2
    } else {
        let m = if n == i32::MIN {
            0x8000_0000u32
        } else {
            (-n) as u32
        };
        (m - 1) * 2 + 1
    }
}

/// The 32-bit big-endian integer formed by four bytes (the blob framing's
/// length prefix).
pub open spec fn be32(b0: u8, b1: u8, b2: u8, b3: u8) -> u32 {
    (b0 * 0x100_0000 + b1 * 0x1_0000 + b2 * 0x100 + b3) as u32
}

pub fn read_be32(s: &[u8], pos: usize) -> (r: u32)
    requires
        pos + 4 <= s@.len(),
    ensures
        r == be32(s@[pos as int], s@[pos + 1], s@[pos + 2], s@[pos + 3]),
{
    (s[pos] as u32) * 0x100_0000 + (s[pos + 1] as u32) * 0x1_0000 + (s[pos + 2] as u32) * 0x100
        + (s[pos + 3] as u32)
}

/// The four big-endian bytes of a 32-bit integer.
pub open spec fn be32_bytes(n: u32) -> Seq<u8> {
    seq![
        (n / 0x100_0000) as u8,
        ((n / 0x1_0000) % 0x100) as u8,
        ((n / 0x100) % 0x100) as u8,
        (n % 0x100) as u8,
    ]
}

pub proof fn lemma_be32_round_trip(n: u32)
    ensures
        be32(be32_bytes(n)[0], be32_bytes(n)[1], be32_bytes(n)[2], be32_bytes(n)[3]) == n,
{
}

pub fn write_be32(out: &mut Vec<u8>, n: u32)
    ensures
        final(out)@ == old(out)@ + be32_bytes(n),
{
    out.push((n / 0x100_0000) as u8);
    out.push(((n / 0x1_0000) % 0x100) as u8);
    out.push(((n / 0x100) % 0x100) as u8);
    out.push((n % 0x100) as u8);
    assert(out@ =~= old(out)@ + be32_bytes(n));
}

/// The signed 32-bit interpretation of a varint's 64 low bits
/// (a Protocol Buffer `int32` keeps the low 32 bits).
pub open spec fn u64_to_i32(v: u64) -> i32 {
    let m = v % 0x1_0000_0000;
    if m >= 0x8000_0000 {
        (m - 0x1_0000_0000) as i32
    } else {
        m as i32
    }
}

pub fn varint_to_i32(v: u64) -> (r: i32)
    ensures
        r == u64_to_i32(v),
{
    let m = v % 0x1_0000_0000;
    if m >= 0x8000_0000 {
        let d = (0x1_0000_0000u64 - m) as i64;
        (-d) as i32
    } else {
        m as i32
    }
}

/// The signed 64-bit interpretation of a varint (a Protocol Buffer
/// `int64`).
pub open spec fn u64_to_i64(v: u64) -> i64 {
    if v >= 0x8000_0000_0000_0000 {
        (v - 0x1_0000_0000_0000_0000) as i64
    } else {
        v as i64
    }
}

pub fn varint_to_i64(v: u64) -> (r: i64)
    ensures
        r == u64_to_i64(v),
{
    if v >= 0x8000_0000_0000_0000 {
        let m = 0xFFFF_FFFF_FFFF_FFFFu64 - v;
        -(m as i64) - 1
    } else {
        v as i64
    }
}

/// The unsigned 64-bit wire image of an `i64` (sign-extended, as a
/// Protocol Buffer `int64`/`int32` field is put on the wire).
pub open spec fn i64_to_u64(n: i64) -> u64 {
    if n >= 0 {
        n as u64
    } else {
        (n + 0x1_0000_0000_0000_0000) as u64
    }
}

pub fn i64_to_varint(n: i64) -> (r: u64)
    ensures
        r == i64_to_u64(n),
{
    if n >= 0 {
        n as u64
    } else {
        let m = if n == i64::MIN {
            0x8000_0000_0000_0000u64
        } else {
            (-n) as u64
        };
        0xFFFF_FFFF_FFFF_FFFFu64 - m + 1
    }
}

/// The unsigned reinterpretation of a 32-bit signed value.
pub open spec fn i32_to_u32(v: i32) -> u32 {
    if v >= 0 {
        v as u32
    } else {
        (v + 0x1_0000_0000) as u32
    }
}

pub fn i32_as_u32(v: i32) -> (r: u32)
    ensures
        r == i32_to_u32(v),
{
    if v >= 0 {
        v as u32
    } else {
        let m = if v == i32::MIN {
            0x8000_0000u32
        } else {
            (-v) as u32
        };
        0xFFFF_FFFFu32 - m + 1
    }
}

/// The low 32 bits of a varint as an unsigned value (a Protocol Buffer
/// `uint32`).
pub open spec fn u64_to_u32(v: u64) -> u32 {
    (v % 0x1_0000_0000) as u32
}

pub fn varint_to_u32(v: u64) -> (r: u32)
    ensures
        r == u64_to_u32(v),
{
    (v % 0x1_0000_0000) as u32
}

} // verus!

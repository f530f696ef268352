//! Protocol Buffer field plumbing shared by the message decoders:
//! length-delimited payloads, unknown-field skipping, and packed
//! repeated scalars, each with its specification.

use vstd::prelude::*;
use crate::wire::{
    dec_varint, enc_varint, i64_to_u64, i64_to_varint, lemma_enc_varint_len,
    lemma_varint_round_trip, read_varint, u64_to_i32, u64_to_u32, varint_to_i32, varint_to_u32,
    write_varint, zigzag32_dec, zigzag32_decode, zigzag32_enc, zigzag32_encode, zigzag_dec,
    zigzag_decode, zigzag_enc, zigzag_encode,
};

verus! {

/// A length-delimited payload (wire type 2): a varint length, then that
/// many bytes, all within `[i, end)`.
pub open spec fn dec_len_prefixed(s: Seq<u8>, i: int, end: int) -> Option<(Seq<u8>, int)> {
    match dec_varint(s, i) {
        None => None,
        Some((len, j)) => if j + len <= end {
            Some((s.subrange(j, j + len), j + len))
        } else {
            None
        },
    }
}

/// Read a length-delimited payload; the returned slice borrows the input.
pub fn read_len_prefixed<'a>(s: &'a [u8], pos: usize, end: usize) -> (r: Option<(&'a [u8], usize)>)
    requires
        pos <= end <= s@.len(),
    ensures
        r is None ==> dec_len_prefixed(s@, pos as int, end as int) is None,
        r matches Some(p) ==> {
            &&& dec_len_prefixed(s@, pos as int, end as int) == Some((p.0@, p.1 as int))
            &&& pos < p.1 <= end
        },
{
    match read_varint(s, pos) {
        None => None,
        Some((len, j)) => {
            if j <= end && len <= (end - j) as u64 {
                let k = j + (len as usize);
                let body = vstd::slice::slice_subrange(s, j, k);
                Some((body, k))
            } else {
                None
            }
        }
    }
}

/// Skip one field of the given wire type.  Wire types 3 and 4 (groups)
/// are not accepted.
pub open spec fn spec_skip(s: Seq<u8>, i: int, end: int, wt: u64) -> Option<int> {
    if wt == 0 {
        match dec_varint(s, i) {
            None => None,
            Some((v, j)) => if j <= end {
                Some(j)
            } else {
                None
            },
        }
    } else if wt == 1 {
        if i + 8 <= end {
            Some(i + 8)
        } else {
            None
        }
    } else if wt == 5 {
        if i + 4 <= end {
            Some(i + 4)
        } else {
            None
        }
    } else if wt == 2 {
        match dec_len_prefixed(s, i, end) {
            None => None,
            Some((b, j)) => Some(j),
        }
    } else {
        None
    }
}

pub fn skip_field(s: &[u8], pos: usize, end: usize, wt: u64) -> (r: Option<usize>)
    requires
        pos <= end <= s@.len(),
    ensures
        r is None ==> spec_skip(s@, pos as int, end as int, wt) is None,
        r matches Some(j) ==> {
            &&& spec_skip(s@, pos as int, end as int, wt) == Some(j as int)
            &&& pos < j <= end
        },
{
    if wt == 0 {
        match read_varint(s, pos) {
            None => None,
            Some((_, j)) => if j <= end {
                Some(j)
            } else {
                None
            },
        }
    } else if wt == 1 {
        if end - pos >= 8 {
            Some(pos + 8)
        } else {
            None
        }
    } else if wt == 5 {
        if end - pos >= 4 {
            Some(pos + 4)
        } else {
            None
        }
    } else if wt == 2 {
        match read_len_prefixed(s, pos, end) {
            None => None,
            Some((_, j)) => Some(j),
        }
    } else {
        None
    }
}

/// Packed `sint64` values (zigzag-coded varints) filling `[i, end)`.
pub open spec fn dec_packed_sint64(s: Seq<u8>, i: int, end: int, acc: Seq<i64>) -> Option<Seq<i64>>
    decreases end - i,
{
    if i < 0 || i > end || end > s.len() {
        None
    } else if i == end {
        Some(acc)
    } else {
        match dec_varint(s, i) {
            None => None,
            Some((v, j)) => if j <= i || j > end {
                None
            } else {
                dec_packed_sint64(s, j, end, acc.push(zigzag_dec(v)))
            },
        }
    }
}

/// Packed `uint32` values filling `[i, end)`.
pub open spec fn dec_packed_u32(s: Seq<u8>, i: int, end: int, acc: Seq<u32>) -> Option<Seq<u32>>
    decreases end - i,
{
    if i < 0 || i > end || end > s.len() {
        None
    } else if i == end {
        Some(acc)
    } else {
        match dec_varint(s, i) {
            None => None,
            Some((v, j)) => if j <= i || j > end {
                None
            } else {
                dec_packed_u32(s, j, end, acc.push(u64_to_u32(v)))
            },
        }
    }
}

/// Packed `int32` (or enum) values filling `[i, end)`.
pub open spec fn dec_packed_i32(s: Seq<u8>, i: int, end: int, acc: Seq<i32>) -> Option<Seq<i32>>
    decreases end - i,
{
    if i < 0 || i > end || end > s.len() {
        None
    } else if i == end {
        Some(acc)
    } else {
        match dec_varint(s, i) {
            None => None,
            Some((v, j)) => if j <= i || j > end {
                None
            } else {
                dec_packed_i32(s, j, end, acc.push(u64_to_i32(v)))
            },
        }
    }
}

/// Packed `bool` values filling `[i, end)`.
pub open spec fn dec_packed_bool(s: Seq<u8>, i: int, end: int, acc: Seq<bool>) -> Option<Seq<bool>>
    decreases end - i,
{
    if i < 0 || i > end || end > s.len() {
        None
    } else if i == end {
        Some(acc)
    } else {
        match dec_varint(s, i) {
            None => None,
            Some((v, j)) => if j <= i || j > end {
                None
            } else {
                dec_packed_bool(s, j, end, acc.push(v != 0))
            },
        }
    }
}

/// Append the packed `sint64` values in `[pos, end)` to `out`; reports
/// whether the whole range decoded.
pub fn read_packed_sint64(s: &[u8], pos: usize, end: usize, out: &mut Vec<i64>) -> (ok: bool)
    requires
        pos <= end <= s@.len(),
    ensures
        ok ==> dec_packed_sint64(s@, pos as int, end as int, old(out)@) == Some(final(out)@),
        !ok ==> dec_packed_sint64(s@, pos as int, end as int, old(out)@) is None,
{
    let mut p = pos;
    loop
        invariant
            pos <= p <= end <= s@.len(),
            dec_packed_sint64(s@, p as int, end as int, out@) == dec_packed_sint64(
                s@,
                pos as int,
                end as int,
                old(out)@,
            ),
        decreases end - p,
    {
        if p == end {
            return true;
        }
        match read_varint(s, p) {
            None => {
                return false;
            }
            Some((v, j)) => {
                if j > end {
                    return false;
                }
                out.push(zigzag_decode(v));
                p = j;
            }
        }
    }
}

/// Append the packed `uint32` values in `[pos, end)` to `out`.
pub fn read_packed_u32(s: &[u8], pos: usize, end: usize, out: &mut Vec<u32>) -> (ok: bool)
    requires
        pos <= end <= s@.len(),
    ensures
        ok ==> dec_packed_u32(s@, pos as int, end as int, old(out)@) == Some(final(out)@),
        !ok ==> dec_packed_u32(s@, pos as int, end as int, old(out)@) is None,
{
    let mut p = pos;
    loop
        invariant
            pos <= p <= end <= s@.len(),
            dec_packed_u32(s@, p as int, end as int, out@) == dec_packed_u32(
                s@,
                pos as int,
                end as int,
                old(out)@,
            ),
        decreases end - p,
    {
        if p == end {
            return true;
        }
        match read_varint(s, p) {
            None => {
                return false;
            }
            Some((v, j)) => {
                if j > end {
                    return false;
                }
                out.push(varint_to_u32(v));
                p = j;
            }
        }
    }
}

/// Append the packed `int32` (or enum) values in `[pos, end)` to `out`.
pub fn read_packed_i32(s: &[u8], pos: usize, end: usize, out: &mut Vec<i32>) -> (ok: bool)
    requires
        pos <= end <= s@.len(),
    ensures
        ok ==> dec_packed_i32(s@, pos as int, end as int, old(out)@) == Some(final(out)@),
        !ok ==> dec_packed_i32(s@, pos as int, end as int, old(out)@) is None,
{
    let mut p = pos;
    loop
        invariant
            pos <= p <= end <= s@.len(),
            dec_packed_i32(s@, p as int, end as int, out@) == dec_packed_i32(
                s@,
                pos as int,
                end as int,
                old(out)@,
            ),
        decreases end - p,
    {
        if p == end {
            return true;
        }
        match read_varint(s, p) {
            None => {
                return false;
            }
            Some((v, j)) => {
                if j > end {
                    return false;
                }
                out.push(varint_to_i32(v));
                p = j;
            }
        }
    }
}

/// Append the packed `bool` values in `[pos, end)` to `out`.
pub fn read_packed_bool(s: &[u8], pos: usize, end: usize, out: &mut Vec<bool>) -> (ok: bool)
    requires
        pos <= end <= s@.len(),
    ensures
        ok ==> dec_packed_bool(s@, pos as int, end as int, old(out)@) == Some(final(out)@),
        !ok ==> dec_packed_bool(s@, pos as int, end as int, old(out)@) is None,
{
    let mut p = pos;
    loop
        invariant
            pos <= p <= end <= s@.len(),
            dec_packed_bool(s@, p as int, end as int, out@) == dec_packed_bool(
                s@,
                pos as int,
                end as int,
                old(out)@,
            ),
        decreases end - p,
    {
        if p == end {
            return true;
        }
        match read_varint(s, p) {
            None => {
                return false;
            }
            Some((v, j)) => {
                if j > end {
                    return false;
                }
                out.push(v != 0);
                p = j;
            }
        }
    }
}

/// Packed `sint32` values filling `[i, end)`.
pub open spec fn dec_packed_sint32(s: Seq<u8>, i: int, end: int, acc: Seq<i32>) -> Option<Seq<i32>>
    decreases end - i,
{
    if i < 0 || i > end || end > s.len() {
        None
    } else if i == end {
        Some(acc)
    } else {
        match dec_varint(s, i) {
            None => None,
            Some((v, j)) => if j <= i || j > end {
                None
            } else {
                dec_packed_sint32(s, j, end, acc.push(zigzag32_dec(u64_to_u32(v))))
            },
        }
    }
}

/// Append the packed `sint32` values in `[pos, end)` to `out`.
pub fn read_packed_sint32(s: &[u8], pos: usize, end: usize, out: &mut Vec<i32>) -> (ok: bool)
    requires
        pos <= end <= s@.len(),
    ensures
        ok ==> dec_packed_sint32(s@, pos as int, end as int, old(out)@) == Some(final(out)@),
        !ok ==> dec_packed_sint32(s@, pos as int, end as int, old(out)@) is None,
{
    let mut p = pos;
    loop
        invariant
            pos <= p <= end <= s@.len(),
            dec_packed_sint32(s@, p as int, end as int, out@) == dec_packed_sint32(
                s@,
                pos as int,
                end as int,
                old(out)@,
            ),
        decreases end - p,
    {
        if p == end {
            return true;
        }
        match read_varint(s, p) {
            None => {
                return false;
            }
            Some((v, j)) => {
                if j > end {
                    return false;
                }
                out.push(zigzag32_decode(varint_to_u32(v)));
                p = j;
            }
        }
    }
}

/// The wire tag for a field number and wire type.
pub open spec fn enc_tag(fno: u64, wt: u64) -> Seq<u8>
    recommends
        fno < 0x2000_0000_0000_0000,
        wt < 8,
{
    enc_varint((8 * fno + wt) as u64)
}

/// A varint field: tag then value.
pub open spec fn enc_field_varint(fno: u64, v: u64) -> Seq<u8> {
    enc_tag(fno, 0) + enc_varint(v)
}

/// A length-delimited field: tag, length, payload.
pub open spec fn enc_field_bytes(fno: u64, b: Seq<u8>) -> Seq<u8> {
    enc_tag(fno, 2) + enc_varint(b.len() as u64) + b
}

/// Append a tag to `out`.
pub fn write_tag(out: &mut Vec<u8>, fno: u64, wt: u64)
    requires
        fno < 0x2000_0000_0000_0000,
        wt < 8,
    ensures
        final(out)@ == old(out)@ + enc_tag(fno, wt),
{
    write_varint(out, 8 * fno + wt);
}

/// Append a varint field to `out`.
pub fn write_field_varint(out: &mut Vec<u8>, fno: u64, v: u64)
    requires
        fno < 0x2000_0000_0000_0000,
    ensures
        final(out)@ == old(out)@ + enc_field_varint(fno, v),
{
    write_tag(out, fno, 0);
    write_varint(out, v);
    assert(out@ =~= old(out)@ + enc_field_varint(fno, v));
}

/// Append a length-delimited field to `out`.
pub fn write_field_bytes(out: &mut Vec<u8>, fno: u64, b: &[u8])
    requires
        fno < 0x2000_0000_0000_0000,
    ensures
        final(out)@ == old(out)@ + enc_field_bytes(fno, b@),
{
    write_tag(out, fno, 2);
    write_varint(out, b.len() as u64);
    out.extend_from_slice(b);
    assert(out@ =~= old(out)@ + enc_field_bytes(fno, b@));
}

/// The packed wire image of `sint64` values.
pub open spec fn enc_packed_sint64(vs: Seq<i64>) -> Seq<u8>
    decreases vs.len(),
{
    if vs.len() == 0 {
        Seq::<u8>::empty()
    } else {
        enc_packed_sint64(vs.drop_last()) + enc_varint(zigzag_enc(vs.last()))
    }
}

/// The packed wire image of `uint32` values.
pub open spec fn enc_packed_u32(vs: Seq<u32>) -> Seq<u8>
    decreases vs.len(),
{
    if vs.len() == 0 {
        Seq::<u8>::empty()
    } else {
        enc_packed_u32(vs.drop_last()) + enc_varint(vs.last() as u64)
    }
}

/// The packed wire image of `int32` values (sign-extended varints).
pub open spec fn enc_packed_i32(vs: Seq<i32>) -> Seq<u8>
    decreases vs.len(),
{
    if vs.len() == 0 {
        Seq::<u8>::empty()
    } else {
        enc_packed_i32(vs.drop_last()) + enc_varint(i64_to_u64(vs.last() as i64))
    }
}

/// The packed wire image of `sint32` values.
pub open spec fn enc_packed_sint32(vs: Seq<i32>) -> Seq<u8>
    decreases vs.len(),
{
    if vs.len() == 0 {
        Seq::<u8>::empty()
    } else {
        enc_packed_sint32(vs.drop_last()) + enc_varint(zigzag32_enc(vs.last()) as u64)
    }
}

/// The packed wire image of `bool` values.
pub open spec fn enc_packed_bool(vs: Seq<bool>) -> Seq<u8>
    decreases vs.len(),
{
    if vs.len() == 0 {
        Seq::<u8>::empty()
    } else {
        enc_packed_bool(vs.drop_last()) + enc_varint(
            if vs.last() {
                1u64
            } else {
                0u64
            },
        )
    }
}

/// Append the packed image of `sint64` values to `out`.
pub fn write_packed_sint64(out: &mut Vec<u8>, vs: &[i64])
    ensures
        final(out)@ == old(out)@ + enc_packed_sint64(vs@),
{
    let n = vs.len();
    let mut i: usize = 0;
    while i < n
        invariant
            i <= n == vs@.len(),
            out@ == old(out)@ + enc_packed_sint64(vs@.subrange(0, i as int)),
        decreases n - i,
    {
        write_varint(out, zigzag_encode(vs[i]));
        proof {
            assert(vs@.subrange(0, i + 1).drop_last() =~= vs@.subrange(0, i as int));
            assert(vs@.subrange(0, i + 1).last() == vs@[i as int]);
            assert(out@ =~= old(out)@ + enc_packed_sint64(vs@.subrange(0, i + 1)));
        }
        i += 1;
    }
    proof {
        assert(vs@.subrange(0, n as int) =~= vs@);
    }
}

/// Append the packed image of `uint32` values to `out`.
pub fn write_packed_u32(out: &mut Vec<u8>, vs: &[u32])
    ensures
        final(out)@ == old(out)@ + enc_packed_u32(vs@),
{
    let n = vs.len();
    let mut i: usize = 0;
    while i < n
        invariant
            i <= n == vs@.len(),
            out@ == old(out)@ + enc_packed_u32(vs@.subrange(0, i as int)),
        decreases n - i,
    {
        write_varint(out, vs[i] as u64);
        proof {
            assert(vs@.subrange(0, i + 1).drop_last() =~= vs@.subrange(0, i as int));
            assert(vs@.subrange(0, i + 1).last() == vs@[i as int]);
            assert(out@ =~= old(out)@ + enc_packed_u32(vs@.subrange(0, i + 1)));
        }
        i += 1;
    }
    proof {
        assert(vs@.subrange(0, n as int) =~= vs@);
    }
}

/// Append the packed image of `int32` values to `out`.
pub fn write_packed_i32(out: &mut Vec<u8>, vs: &[i32])
    ensures
        final(out)@ == old(out)@ + enc_packed_i32(vs@),
{
    let n = vs.len();
    let mut i: usize = 0;
    while i < n
        invariant
            i <= n == vs@.len(),
            out@ == old(out)@ + enc_packed_i32(vs@.subrange(0, i as int)),
        decreases n - i,
    {
        write_varint(out, i64_to_varint(vs[i] as i64));
        proof {
            assert(vs@.subrange(0, i + 1).drop_last() =~= vs@.subrange(0, i as int));
            assert(vs@.subrange(0, i + 1).last() == vs@[i as int]);
            assert(out@ =~= old(out)@ + enc_packed_i32(vs@.subrange(0, i + 1)));
        }
        i += 1;
    }
    proof {
        assert(vs@.subrange(0, n as int) =~= vs@);
    }
}

/// Append the packed image of `sint32` values to `out`.
pub fn write_packed_sint32(out: &mut Vec<u8>, vs: &[i32])
    ensures
        final(out)@ == old(out)@ + enc_packed_sint32(vs@),
{
    let n = vs.len();
    let mut i: usize = 0;
    while i < n
        invariant
            i <= n == vs@.len(),
            out@ == old(out)@ + enc_packed_sint32(vs@.subrange(0, i as int)),
        decreases n - i,
    {
        write_varint(out, zigzag32_encode(vs[i]) as u64);
        proof {
            assert(vs@.subrange(0, i + 1).drop_last() =~= vs@.subrange(0, i as int));
            assert(vs@.subrange(0, i + 1).last() == vs@[i as int]);
            assert(out@ =~= old(out)@ + enc_packed_sint32(vs@.subrange(0, i + 1)));
        }
        i += 1;
    }
    proof {
        assert(vs@.subrange(0, n as int) =~= vs@);
    }
}

/// Append the packed image of `bool` values to `out`.
pub fn write_packed_bool(out: &mut Vec<u8>, vs: &[bool])
    ensures
        final(out)@ == old(out)@ + enc_packed_bool(vs@),
{
    let n = vs.len();
    let mut i: usize = 0;
    while i < n
        invariant
            i <= n == vs@.len(),
            out@ == old(out)@ + enc_packed_bool(vs@.subrange(0, i as int)),
        decreases n - i,
    {
        write_varint(
            out,
            if vs[i] {
                1u64
            } else {
                0u64
            },
        );
        proof {
            assert(vs@.subrange(0, i + 1).drop_last() =~= vs@.subrange(0, i as int));
            assert(vs@.subrange(0, i + 1).last() == vs@[i as int]);
            assert(out@ =~= old(out)@ + enc_packed_bool(vs@.subrange(0, i + 1)));
        }
        i += 1;
    }
    proof {
        assert(vs@.subrange(0, n as int) =~= vs@);
    }
}

/// Append a whole length-delimited field holding `payload` to `out`,
/// where `payload` was produced into a scratch vector.
pub fn write_field_payload(out: &mut Vec<u8>, fno: u64, payload: Vec<u8>)
    requires
        fno < 0x2000_0000_0000_0000,
    ensures
        final(out)@ == old(out)@ + enc_field_bytes(fno, payload@),
{
    write_tag(out, fno, 2);
    write_varint(out, payload.len() as u64);
    let mut tmp = payload;
    out.append(&mut tmp);
    assert(out@ =~= old(out)@ + enc_field_bytes(fno, payload@));
}

/// Splitting a subrange known to be a concatenation.
pub proof fn lemma_concat_split(s: Seq<u8>, i: int, a: Seq<u8>, b: Seq<u8>)
    requires
        0 <= i,
        i + a.len() + b.len() <= s.len(),
        s.subrange(i, i + a.len() + b.len()) == a + b,
    ensures
        s.subrange(i, i + a.len() as int) == a,
        s.subrange(i + a.len() as int, i + a.len() + b.len()) == b,
{
    let w = s.subrange(i, i + a.len() + b.len());
    assert forall|k: int| 0 <= k < a.len() implies s.subrange(i, i + a.len() as int)[k] == a[k] by {
        assert(w[k] == (a + b)[k]);
    };
    assert(s.subrange(i, i + a.len() as int) =~= a);
    assert forall|k: int| 0 <= k < b.len() implies s.subrange(
        i + a.len() as int,
        i + a.len() + b.len(),
    )[k] == b[k] by {
        assert(w[a.len() + k] == (a + b)[a.len() + k]);
    };
    assert(s.subrange(i + a.len() as int, i + a.len() + b.len()) =~= b);
}

/// If the bytes at `i` are a whole length-delimited field, the tag and the
/// payload decode exactly.
pub proof fn lemma_field_bytes_at(s: Seq<u8>, i: int, end: int, fno: u64, b: Seq<u8>)
    requires
        0 <= i,
        i + enc_field_bytes(fno, b).len() <= end <= s.len(),
        s.subrange(i, i + enc_field_bytes(fno, b).len() as int) == enc_field_bytes(fno, b),
        fno < 0x2000_0000_0000_0000,
        b.len() < 0x1_0000_0000_0000_0000,
    ensures
        ({
            let tlen = enc_tag(fno, 2).len() as int;
            let flen = enc_field_bytes(fno, b).len() as int;
            &&& dec_varint(s, i) == Some(((8 * fno + 2) as u64, i + tlen))
            &&& i < i + tlen <= end
            &&& dec_len_prefixed(s, i + tlen, end) == Some((b, i + flen))
            &&& i + flen <= end
        }),
{
    let tag: u64 = (8 * fno + 2) as u64;
    let tseq = enc_varint(tag);
    let lseq = enc_varint(b.len() as u64);
    let e = enc_field_bytes(fno, b);
    assert(e == tseq + (lseq + b));
    assert((tseq + lseq) + b =~= tseq + (lseq + b));
    lemma_concat_split(s, i, tseq, lseq + b);
    lemma_concat_split(s, i + tseq.len() as int, lseq, b);
    lemma_varint_round_trip(s, i, tag);
    lemma_varint_round_trip(s, i + tseq.len() as int, b.len() as u64);
    lemma_enc_varint_len(tag);
    lemma_enc_varint_len(b.len() as u64);
    let j = i + tseq.len() + lseq.len();
    assert(s.subrange(j, j + b.len() as int) == b);
    assert(dec_len_prefixed(s, i + tseq.len() as int, end) == Some((b, i + e.len() as int)));
}

/// If the bytes at `i` are a whole length-delimited field, the tag, the
/// length and the payload bytes decode exactly, step by step.
pub proof fn lemma_msg_field_at(s: Seq<u8>, i: int, end: int, fno: u64, pl: Seq<u8>)
    requires
        0 <= i,
        i + enc_field_bytes(fno, pl).len() <= end <= s.len(),
        s.subrange(i, i + enc_field_bytes(fno, pl).len() as int) == enc_field_bytes(fno, pl),
        fno < 0x2000_0000_0000_0000,
        pl.len() < 0x1_0000_0000_0000_0000,
    ensures
        ({
            let tlen = enc_tag(fno, 2).len() as int;
            let llen = enc_varint(pl.len() as u64).len() as int;
            let flen = enc_field_bytes(fno, pl).len() as int;
            &&& dec_varint(s, i) == Some(((8 * fno + 2) as u64, i + tlen))
            &&& i < i + tlen < i + tlen + llen <= end
            &&& dec_varint(s, i + tlen) == Some((pl.len() as u64, i + tlen + llen))
            &&& i + tlen + llen + pl.len() == i + flen
            &&& i + flen <= end
            &&& s.subrange(i + tlen + llen, i + flen) == pl
        }),
{
    let tag: u64 = (8 * fno + 2) as u64;
    let tseq = enc_varint(tag);
    let lseq = enc_varint(pl.len() as u64);
    let e = enc_field_bytes(fno, pl);
    assert(e == tseq + (lseq + pl));
    assert((tseq + lseq) + pl =~= tseq + (lseq + pl));
    lemma_concat_split(s, i, tseq, lseq + pl);
    lemma_concat_split(s, i + tseq.len() as int, lseq, pl);
    lemma_varint_round_trip(s, i, tag);
    lemma_varint_round_trip(s, i + tseq.len() as int, pl.len() as u64);
    lemma_enc_varint_len(tag);
    lemma_enc_varint_len(pl.len() as u64);
}

/// If the bytes at `i` are a whole varint field, the tag and the value
/// decode exactly.
pub proof fn lemma_field_varint_at(s: Seq<u8>, i: int, end: int, fno: u64, v: u64)
    requires
        0 <= i,
        i + enc_field_varint(fno, v).len() <= end <= s.len(),
        s.subrange(i, i + enc_field_varint(fno, v).len() as int) == enc_field_varint(fno, v),
        fno < 0x2000_0000_0000_0000,
    ensures
        ({
            let tlen = enc_tag(fno, 0).len() as int;
            let flen = enc_field_varint(fno, v).len() as int;
            &&& dec_varint(s, i) == Some(((8 * fno) as u64, i + tlen))
            &&& i < i + tlen <= end
            &&& dec_varint(s, i + tlen) == Some((v, i + flen))
            &&& i + flen <= end
        }),
{
    let tag: u64 = (8 * fno) as u64;
    let tseq = enc_varint(tag);
    let vseq = enc_varint(v);
    let e = enc_field_varint(fno, v);
    assert(e == tseq + vseq);
    lemma_concat_split(s, i, tseq, vseq);
    lemma_varint_round_trip(s, i, tag);
    lemma_varint_round_trip(s, i + tseq.len() as int, v);
    lemma_enc_varint_len(tag);
    lemma_enc_varint_len(v);
}

} // verus!

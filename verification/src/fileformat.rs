//! The `fileformat` Protocol Buffer messages: `BlobHeader` and `Blob`.
//!
//! Each message has a mathematical model, a specification-level parser
//! written as a recursion over the wire bytes, an executable parser proved
//! to return exactly what the specification parser says, and an encoder
//! proved to be inverted by the parser.

use vstd::prelude::*;
use vstd::utf8::{decode_utf8, encode_utf8, valid_utf8};
use crate::wire::{
    dec_varint, enc_varint, i64_to_u64, i64_to_varint, lemma_varint_round_trip,
    lemma_enc_varint_len, read_varint, u64_to_i32, varint_to_i32,
};
use crate::pbf::{
    dec_len_prefixed, enc_field_bytes, enc_field_varint, enc_tag, lemma_concat_split,
    lemma_field_bytes_at, lemma_field_varint_at, read_len_prefixed, skip_field, spec_skip,
    write_field_bytes, write_field_varint,
};
use crate::strutil::{lemma_encode_utf8_inverse, opt_view, string_from_bytes};

verus! {

/// The small message in front of each blob: the blob's type tag and the
/// byte count of the `Blob` message that follows it.
#[derive(Clone, Debug)]
pub struct BlobHeader {
    pub type_: String,
    pub indexdata: Option<Vec<u8>>,
    pub datasize: i32,
}

/// Mathematical image of a `BlobHeader`.
pub struct SpecBlobHeader {
    pub type_: Seq<char>,
    pub indexdata: Option<Seq<u8>>,
    pub datasize: i32,
}

impl View for BlobHeader {
    type V = SpecBlobHeader;

    open spec fn view(&self) -> SpecBlobHeader {
        SpecBlobHeader {
            type_: self.type_@,
            indexdata: opt_view(self.indexdata),
            datasize: self.datasize,
        }
    }
}

/// Field state while parsing a `BlobHeader` (both `type` and `datasize`
/// are required fields).
pub struct PartialBlobHeader {
    pub type_: Option<Seq<char>>,
    pub indexdata: Option<Seq<u8>>,
    pub datasize: Option<i32>,
}

/// One pass of the `BlobHeader` field loop over `[i, end)`.
pub open spec fn pf_blob_header(s: Seq<u8>, i: int, end: int, m: PartialBlobHeader) -> Option<
    PartialBlobHeader,
>
    decreases end - i,
{
    if i < 0 || i > end || end > s.len() {
        None
    } else if i == end {
        Some(m)
    } else {
        match dec_varint(s, i) {
            None => None,
            Some((tag, j)) => if j <= i || j > end {
                None
            } else {
                let fno = tag / 8;
                let wt = tag % 8;
                if fno == 1 && wt == 2 {
                    match dec_len_prefixed(s, j, end) {
                        None => None,
                        Some((b, k)) => if k <= i || !valid_utf8(b) {
                            None
                        } else {
                            pf_blob_header(
                                s,
                                k,
                                end,
                                PartialBlobHeader {
                                    type_: Some(decode_utf8(b)),
                                    indexdata: m.indexdata,
                                    datasize: m.datasize,
                                },
                            )
                        },
                    }
                } else if fno == 2 && wt == 2 {
                    match dec_len_prefixed(s, j, end) {
                        None => None,
                        Some((b, k)) => if k <= i {
                            None
                        } else {
                            pf_blob_header(
                                s,
                                k,
                                end,
                                PartialBlobHeader {
                                    type_: m.type_,
                                    indexdata: Some(b),
                                    datasize: m.datasize,
                                },
                            )
                        },
                    }
                } else if fno == 3 && wt == 0 {
                    match dec_varint(s, j) {
                        None => None,
                        Some((v, k)) => if k <= i || k > end {
                            None
                        } else {
                            pf_blob_header(
                                s,
                                k,
                                end,
                                PartialBlobHeader {
                                    type_: m.type_,
                                    indexdata: m.indexdata,
                                    datasize: Some(u64_to_i32(v)),
                                },
                            )
                        },
                    }
                } else {
                    match spec_skip(s, j, end, wt) {
                        None => None,
                        Some(k) => if k <= i {
                            None
                        } else {
                            pf_blob_header(s, k, end, m)
                        },
                    }
                }
            },
        }
    }
}

pub open spec fn init_blob_header() -> PartialBlobHeader {
    PartialBlobHeader { type_: None, indexdata: None, datasize: None }
}

/// What the bytes `[lo, hi)` mean as a `BlobHeader`, if anything.
pub open spec fn spec_parse_blob_header(s: Seq<u8>, lo: int, hi: int) -> Option<SpecBlobHeader> {
    match pf_blob_header(s, lo, hi, init_blob_header()) {
        None => None,
        Some(p) => if p.type_ is Some && p.datasize is Some {
            Some(
                SpecBlobHeader {
                    type_: p.type_->Some_0,
                    indexdata: p.indexdata,
                    datasize: p.datasize->Some_0,
                },
            )
        } else {
            None
        },
    }
}

/// Parse a `BlobHeader` from `[pos, end)`; `None` exactly when the
/// specification parser rejects the bytes.
#[verifier::rlimit(60)]
#[verifier::spinoff_prover]
pub fn parse_blob_header(s: &[u8], pos: usize, end: usize) -> (r: Option<BlobHeader>)
    requires
        pos <= end <= s@.len(),
    ensures
        r is None ==> spec_parse_blob_header(s@, pos as int, end as int) is None,
        r matches Some(h) ==> spec_parse_blob_header(s@, pos as int, end as int) == Some(h@),
{
    let mut type_: Option<String> = None;
    let mut indexdata: Option<Vec<u8>> = None;
    let mut datasize: Option<i32> = None;
    let mut p = pos;
    while p < end
        invariant
            pos <= p <= end <= s@.len(),
            pf_blob_header(
                s@,
                p as int,
                end as int,
                PartialBlobHeader {
                    type_: match type_ {
                        Some(ref t) => Some(t@),
                        None => None,
                    },
                    indexdata: opt_view(indexdata),
                    datasize: datasize,
                },
            ) == pf_blob_header(s@, pos as int, end as int, init_blob_header()),
        decreases end - p,
    {
        let ghost op = p as int;
        let ghost mold = PartialBlobHeader {
            type_: match type_ {
                Some(ref t) => Some(t@),
                None => None,
            },
            indexdata: opt_view(indexdata),
            datasize: datasize,
        };
        let (tag, j) = match read_varint(s, p) {
            None => {
                proof {
                    assert(pf_blob_header(s@, op, end as int, mold) is None);
                }
                return None;
            }
            Some(x) => x,
        };
        if j > end {
            proof {
                assert(pf_blob_header(s@, op, end as int, mold) is None);
            }
            return None;
        }
        let fno = tag / 8;
        let wt = tag % 8;
        if fno == 1 && wt == 2 {
            let (b, k) = match read_len_prefixed(s, j, end) {
                None => {
                    proof {
                        assert(pf_blob_header(s@, op, end as int, mold) is None);
                    }
                    return None;
                }
                Some(x) => x,
            };
            let t = match string_from_bytes(b) {
                None => {
                    proof {
                        assert(pf_blob_header(s@, op, end as int, mold) is None);
                    }
                    return None;
                }
                Some(t) => t,
            };
            type_ = Some(t);
            p = k;
            proof {
                assert(pf_blob_header(s@, op, end as int, mold) == pf_blob_header(
                    s@,
                    p as int,
                    end as int,
                    PartialBlobHeader {
                        type_: match type_ {
                            Some(ref t) => Some(t@),
                            None => None,
                        },
                        indexdata: opt_view(indexdata),
                        datasize: datasize,
                    },
                ));
            }
        } else if fno == 2 && wt == 2 {
            let (b, k) = match read_len_prefixed(s, j, end) {
                None => {
                    proof {
                        assert(pf_blob_header(s@, op, end as int, mold) is None);
                    }
                    return None;
                }
                Some(x) => x,
            };
            indexdata = Some(vstd::slice::slice_to_vec(b));
            p = k;
            proof {
                assert(pf_blob_header(s@, op, end as int, mold) == pf_blob_header(
                    s@,
                    p as int,
                    end as int,
                    PartialBlobHeader {
                        type_: match type_ {
                            Some(ref t) => Some(t@),
                            None => None,
                        },
                        indexdata: opt_view(indexdata),
                        datasize: datasize,
                    },
                ));
            }
        } else if fno == 3 && wt == 0 {
            let (v, k) = match read_varint(s, j) {
                None => {
                    proof {
                        assert(pf_blob_header(s@, op, end as int, mold) is None);
                    }
                    return None;
                }
                Some(x) => x,
            };
            if k > end {
                proof {
                    assert(pf_blob_header(s@, op, end as int, mold) is None);
                }
                return None;
            }
            datasize = Some(varint_to_i32(v));
            p = k;
            proof {
                assert(pf_blob_header(s@, op, end as int, mold) == pf_blob_header(
                    s@,
                    p as int,
                    end as int,
                    PartialBlobHeader {
                        type_: match type_ {
                            Some(ref t) => Some(t@),
                            None => None,
                        },
                        indexdata: opt_view(indexdata),
                        datasize: datasize,
                    },
                ));
            }
        } else {
            let k = match skip_field(s, j, end, wt) {
                None => {
                    proof {
                        assert(pf_blob_header(s@, op, end as int, mold) is None);
                    }
                    return None;
                }
                Some(k) => k,
            };
            p = k;
            proof {
                assert(pf_blob_header(s@, op, end as int, mold) == pf_blob_header(
                    s@,
                    p as int,
                    end as int,
                    mold,
                ));
            }
        }
    }
    proof {
        assert(pf_blob_header(
            s@,
            p as int,
            end as int,
            PartialBlobHeader {
                type_: match type_ {
                    Some(ref t) => Some(t@),
                    None => None,
                },
                indexdata: opt_view(indexdata),
                datasize: datasize,
            },
        ) matches Some(q) && q == (PartialBlobHeader {
            type_: match type_ {
                Some(ref t) => Some(t@),
                None => None,
            },
            indexdata: opt_view(indexdata),
            datasize: datasize,
        }));
    }
    match (type_, datasize) {
        (Some(t), Some(d)) => Some(BlobHeader { type_: t, indexdata, datasize: d }),
        _ => None,
    }
}

/// A blob's payload: uncompressed bytes, or zlib-compressed bytes with a
/// decompressed-size hint.
#[derive(Clone, Debug)]
pub struct Blob {
    pub raw: Option<Vec<u8>>,
    pub raw_size: Option<i32>,
    pub zlib_data: Option<Vec<u8>>,
}

/// Mathematical image of a `Blob`.
pub struct SpecBlob {
    pub raw: Option<Seq<u8>>,
    pub raw_size: Option<i32>,
    pub zlib_data: Option<Seq<u8>>,
}

impl View for Blob {
    type V = SpecBlob;

    open spec fn view(&self) -> SpecBlob {
        SpecBlob {
            raw: opt_view(self.raw),
            raw_size: self.raw_size,
            zlib_data: opt_view(self.zlib_data),
        }
    }
}

/// One pass of the `Blob` field loop over `[i, end)`.
pub open spec fn pf_blob(s: Seq<u8>, i: int, end: int, m: SpecBlob) -> Option<SpecBlob>
    decreases end - i,
{
    if i < 0 || i > end || end > s.len() {
        None
    } else if i == end {
        Some(m)
    } else {
        match dec_varint(s, i) {
            None => None,
            Some((tag, j)) => if j <= i || j > end {
                None
            } else {
                let fno = tag / 8;
                let wt = tag % 8;
                if fno == 1 && wt == 2 {
                    match dec_len_prefixed(s, j, end) {
                        None => None,
                        Some((b, k)) => if k <= i {
                            None
                        } else {
                            pf_blob(
                                s,
                                k,
                                end,
                                SpecBlob { raw: Some(b), raw_size: m.raw_size, zlib_data: m.zlib_data },
                            )
                        },
                    }
                } else if fno == 2 && wt == 0 {
                    match dec_varint(s, j) {
                        None => None,
                        Some((v, k)) => if k <= i || k > end {
                            None
                        } else {
                            pf_blob(
                                s,
                                k,
                                end,
                                SpecBlob {
                                    raw: m.raw,
                                    raw_size: Some(u64_to_i32(v)),
                                    zlib_data: m.zlib_data,
                                },
                            )
                        },
                    }
                } else if fno == 3 && wt == 2 {
                    match dec_len_prefixed(s, j, end) {
                        None => None,
                        Some((b, k)) => if k <= i {
                            None
                        } else {
                            pf_blob(
                                s,
                                k,
                                end,
                                SpecBlob { raw: m.raw, raw_size: m.raw_size, zlib_data: Some(b) },
                            )
                        },
                    }
                } else {
                    match spec_skip(s, j, end, wt) {
                        None => None,
                        Some(k) => if k <= i {
                            None
                        } else {
                            pf_blob(s, k, end, m)
                        },
                    }
                }
            },
        }
    }
}

pub open spec fn init_blob() -> SpecBlob {
    SpecBlob { raw: None, raw_size: None, zlib_data: None }
}

/// What the bytes `[lo, hi)` mean as a `Blob`, if anything.
pub open spec fn spec_parse_blob(s: Seq<u8>, lo: int, hi: int) -> Option<SpecBlob> {
    pf_blob(s, lo, hi, init_blob())
}

/// Parse a `Blob` from `[pos, end)`.
#[verifier::rlimit(60)]
#[verifier::spinoff_prover]
pub fn parse_blob(s: &[u8], pos: usize, end: usize) -> (r: Option<Blob>)
    requires
        pos <= end <= s@.len(),
    ensures
        r is None ==> spec_parse_blob(s@, pos as int, end as int) is None,
        r matches Some(b) ==> spec_parse_blob(s@, pos as int, end as int) == Some(b@),
{
    let mut raw: Option<Vec<u8>> = None;
    let mut raw_size: Option<i32> = None;
    let mut zlib_data: Option<Vec<u8>> = None;
    let mut p = pos;
    while p < end
        invariant
            pos <= p <= end <= s@.len(),
            pf_blob(
                s@,
                p as int,
                end as int,
                SpecBlob {
                    raw: opt_view(raw),
                    raw_size: raw_size,
                    zlib_data: opt_view(zlib_data),
                },
            ) == pf_blob(s@, pos as int, end as int, init_blob()),
        decreases end - p,
    {
        let ghost op = p as int;
        let ghost mold = SpecBlob {
            raw: opt_view(raw),
            raw_size: raw_size,
            zlib_data: opt_view(zlib_data),
        };
        let (tag, j) = match read_varint(s, p) {
            None => {
                proof {
                    assert(pf_blob(s@, op, end as int, mold) is None);
                }
                return None;
            }
            Some(x) => x,
        };
        if j > end {
            proof {
                assert(pf_blob(s@, op, end as int, mold) is None);
            }
            return None;
        }
        let fno = tag / 8;
        let wt = tag % 8;
        if fno == 1 && wt == 2 {
            let (b, k) = match read_len_prefixed(s, j, end) {
                None => {
                    proof {
                        assert(pf_blob(s@, op, end as int, mold) is None);
                    }
                    return None;
                }
                Some(x) => x,
            };
            raw = Some(vstd::slice::slice_to_vec(b));
            p = k;
            proof {
                assert(pf_blob(s@, op, end as int, mold) == pf_blob(
                    s@,
                    p as int,
                    end as int,
                    SpecBlob {
                        raw: opt_view(raw),
                        raw_size: raw_size,
                        zlib_data: opt_view(zlib_data),
                    },
                ));
            }
        } else if fno == 2 && wt == 0 {
            let (v, k) = match read_varint(s, j) {
                None => {
                    proof {
                        assert(pf_blob(s@, op, end as int, mold) is None);
                    }
                    return None;
                }
                Some(x) => x,
            };
            if k > end {
                proof {
                    assert(pf_blob(s@, op, end as int, mold) is None);
                }
                return None;
            }
            raw_size = Some(varint_to_i32(v));
            p = k;
            proof {
                assert(pf_blob(s@, op, end as int, mold) == pf_blob(
                    s@,
                    p as int,
                    end as int,
                    SpecBlob {
                        raw: opt_view(raw),
                        raw_size: raw_size,
                        zlib_data: opt_view(zlib_data),
                    },
                ));
            }
        } else if fno == 3 && wt == 2 {
            let (b, k) = match read_len_prefixed(s, j, end) {
                None => {
                    proof {
                        assert(pf_blob(s@, op, end as int, mold) is None);
                    }
                    return None;
                }
                Some(x) => x,
            };
            zlib_data = Some(vstd::slice::slice_to_vec(b));
            p = k;
            proof {
                assert(pf_blob(s@, op, end as int, mold) == pf_blob(
                    s@,
                    p as int,
                    end as int,
                    SpecBlob {
                        raw: opt_view(raw),
                        raw_size: raw_size,
                        zlib_data: opt_view(zlib_data),
                    },
                ));
            }
        } else {
            let k = match skip_field(s, j, end, wt) {
                None => {
                    proof {
                        assert(pf_blob(s@, op, end as int, mold) is None);
                    }
                    return None;
                }
                Some(k) => k,
            };
            p = k;
            proof {
                assert(pf_blob(s@, op, end as int, mold) == pf_blob(s@, p as int, end as int, mold));
            }
        }
    }
    proof {
        assert(pf_blob(
            s@,
            p as int,
            end as int,
            SpecBlob {
                raw: opt_view(raw),
                raw_size: raw_size,
                zlib_data: opt_view(zlib_data),
            },
        ) == Some(SpecBlob {
            raw: opt_view(raw),
            raw_size: raw_size,
            zlib_data: opt_view(zlib_data),
        }));
    }
    Some(Blob { raw, raw_size, zlib_data })
}

/// Canonical encoding of a `BlobHeader`: fields in ascending order.
pub open spec fn enc_blob_header(h: SpecBlobHeader) -> Seq<u8> {
    enc_field_bytes(1, encode_utf8(h.type_)) + (match h.indexdata {
        Some(b) => enc_field_bytes(2, b),
        None => Seq::<u8>::empty(),
    }) + enc_field_varint(3, i64_to_u64(h.datasize as i64))
}

/// Append the encoding of a `BlobHeader` to `out`.
pub fn write_blob_header_msg(out: &mut Vec<u8>, h: &BlobHeader)
    ensures
        final(out)@ == old(out)@ + enc_blob_header(h@),
{
    write_field_bytes(out, 1, h.type_.as_str().as_bytes());
    match &h.indexdata {
        Some(b) => write_field_bytes(out, 2, b.as_slice()),
        None => (),
    }
    write_field_varint(out, 3, i64_to_varint(h.datasize as i64));
    assert(out@ =~= old(out)@ + enc_blob_header(h@));
}

/// Canonical encoding of a `Blob`: fields in ascending order.
pub open spec fn enc_blob(b: SpecBlob) -> Seq<u8> {
    (match b.raw {
        Some(x) => enc_field_bytes(1, x),
        None => Seq::<u8>::empty(),
    }) + (match b.raw_size {
        Some(v) => enc_field_varint(2, i64_to_u64(v as i64)),
        None => Seq::<u8>::empty(),
    }) + (match b.zlib_data {
        Some(x) => enc_field_bytes(3, x),
        None => Seq::<u8>::empty(),
    })
}

/// Append the encoding of a `Blob` to `out`.
pub fn write_blob_msg(out: &mut Vec<u8>, b: &Blob)
    ensures
        final(out)@ == old(out)@ + enc_blob(b@),
{
    match &b.raw {
        Some(x) => write_field_bytes(out, 1, x.as_slice()),
        None => (),
    }
    match &b.raw_size {
        Some(v) => write_field_varint(out, 2, i64_to_varint(*v as i64)),
        None => (),
    }
    match &b.zlib_data {
        Some(x) => write_field_bytes(out, 3, x.as_slice()),
        None => (),
    }
    assert(out@ =~= old(out)@ + enc_blob(b@));
}

/// A Protocol Buffer `int32` survives its trip over the wire.
pub proof fn lemma_i32_wire_round_trip(d: i32)
    ensures
        u64_to_i32(i64_to_u64(d as i64)) == d,
{
    if d < 0 {
        let v = i64_to_u64(d as i64) as int;
        assert(v == 0x1_0000_0000 * 0xFFFF_FFFF + (d + 0x1_0000_0000));
        assert(v % 0x1_0000_0000 == d + 0x1_0000_0000) by (nonlinear_arith)
            requires
                v == 0x1_0000_0000 * 0xFFFF_FFFF + (d + 0x1_0000_0000),
                0 <= d + 0x1_0000_0000 < 0x1_0000_0000;
    }
}

/// Size limits under which a `BlobHeader` can be put on the wire.
pub open spec fn wf_blob_header(h: SpecBlobHeader) -> bool {
    &&& encode_utf8(h.type_).len() < 0x1_0000_0000_0000_0000
    &&& (h.indexdata matches Some(b) ==> b.len() < 0x1_0000_0000_0000_0000)
}

/// Parsing inverts encoding for `BlobHeader`.
pub proof fn lemma_blob_header_round_trip(s: Seq<u8>, lo: int, h: SpecBlobHeader)
    requires
        0 <= lo,
        lo + enc_blob_header(h).len() <= s.len(),
        s.subrange(lo, lo + enc_blob_header(h).len() as int) == enc_blob_header(h),
        wf_blob_header(h),
    ensures
        spec_parse_blob_header(s, lo, lo + enc_blob_header(h).len() as int) == Some(h),
{
    let tb = encode_utf8(h.type_);
    let f1 = enc_field_bytes(1, tb);
    let f2 = match h.indexdata {
        Some(b) => enc_field_bytes(2, b),
        None => Seq::<u8>::empty(),
    };
    let f3 = enc_field_varint(3, i64_to_u64(h.datasize as i64));
    let e = enc_blob_header(h);
    let hi = lo + e.len() as int;
    assert(e == (f1 + f2) + f3);
    assert(e =~= f1 + (f2 + f3));
    lemma_concat_split(s, lo, f1, f2 + f3);
    let p1 = lo + f1.len() as int;
    lemma_concat_split(s, p1, f2, f3);
    let p2 = p1 + f2.len() as int;

    lemma_field_bytes_at(s, lo, hi, 1, tb);
    lemma_encode_utf8_inverse(h.type_);
    let m0 = init_blob_header();
    let m1 = PartialBlobHeader {
        type_: Some(h.type_),
        indexdata: m0.indexdata,
        datasize: m0.datasize,
    };
    assert(pf_blob_header(s, lo, hi, m0) == pf_blob_header(s, p1, hi, m1));

    let m2 = PartialBlobHeader {
        type_: m1.type_,
        indexdata: h.indexdata,
        datasize: m1.datasize,
    };
    if h.indexdata is Some {
        let b = h.indexdata->Some_0;
        lemma_field_bytes_at(s, p1, hi, 2, b);
        assert(pf_blob_header(s, p1, hi, m1) == pf_blob_header(s, p2, hi, m2));
    } else {
        assert(m2 == m1);
    }

    lemma_field_varint_at(s, p2, hi, 3, i64_to_u64(h.datasize as i64));
    lemma_i32_wire_round_trip(h.datasize);
    let m3 = PartialBlobHeader {
        type_: m2.type_,
        indexdata: m2.indexdata,
        datasize: Some(h.datasize),
    };
    assert(pf_blob_header(s, p2, hi, m2) == pf_blob_header(s, hi, hi, m3));
    assert(pf_blob_header(s, hi, hi, m3) == Some(m3));
    assert(spec_parse_blob_header(s, lo, hi) == Some(h));
}

/// Size limits under which a `Blob` can be put on the wire.
pub open spec fn wf_blob(b: SpecBlob) -> bool {
    &&& (b.raw matches Some(x) ==> x.len() < 0x1_0000_0000_0000_0000)
    &&& (b.zlib_data matches Some(x) ==> x.len() < 0x1_0000_0000_0000_0000)
}

/// Parsing inverts encoding for `Blob`.
pub proof fn lemma_blob_round_trip(s: Seq<u8>, lo: int, b: SpecBlob)
    requires
        0 <= lo,
        lo + enc_blob(b).len() <= s.len(),
        s.subrange(lo, lo + enc_blob(b).len() as int) == enc_blob(b),
        wf_blob(b),
    ensures
        spec_parse_blob(s, lo, lo + enc_blob(b).len() as int) == Some(b),
{
    let f1 = match b.raw {
        Some(x) => enc_field_bytes(1, x),
        None => Seq::<u8>::empty(),
    };
    let f2 = match b.raw_size {
        Some(v) => enc_field_varint(2, i64_to_u64(v as i64)),
        None => Seq::<u8>::empty(),
    };
    let f3 = match b.zlib_data {
        Some(x) => enc_field_bytes(3, x),
        None => Seq::<u8>::empty(),
    };
    let e = enc_blob(b);
    let hi = lo + e.len() as int;
    assert(e == (f1 + f2) + f3);
    assert(e =~= f1 + (f2 + f3));
    lemma_concat_split(s, lo, f1, f2 + f3);
    let p1 = lo + f1.len() as int;
    lemma_concat_split(s, p1, f2, f3);
    let p2 = p1 + f2.len() as int;

    let m0 = init_blob();
    let m1 = SpecBlob { raw: b.raw, raw_size: m0.raw_size, zlib_data: m0.zlib_data };
    if b.raw is Some {
        lemma_field_bytes_at(s, lo, hi, 1, b.raw->Some_0);
        assert(pf_blob(s, lo, hi, m0) == pf_blob(s, p1, hi, m1));
    } else {
        assert(m1 == m0);
    }

    let m2 = SpecBlob { raw: m1.raw, raw_size: b.raw_size, zlib_data: m1.zlib_data };
    if b.raw_size is Some {
        let v = b.raw_size->Some_0;
        lemma_field_varint_at(s, p1, hi, 2, i64_to_u64(v as i64));
        lemma_i32_wire_round_trip(v);
        assert(pf_blob(s, p1, hi, m1) == pf_blob(s, p2, hi, m2));
    } else {
        assert(m2 == m1);
    }

    let m3 = SpecBlob { raw: m2.raw, raw_size: m2.raw_size, zlib_data: b.zlib_data };
    if b.zlib_data is Some {
        lemma_field_bytes_at(s, p2, hi, 3, b.zlib_data->Some_0);
        assert(pf_blob(s, p2, hi, m2) == pf_blob(s, hi, hi, m3));
    } else {
        assert(m3 == m2);
    }
    assert(pf_blob(s, hi, hi, m3) == Some(m3));
    assert(m3 == b);
}

} // verus!

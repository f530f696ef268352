//! The `osmformat` Protocol Buffer messages: the header block, the
//! primitive block and everything inside them.
//!
//! Each message has a mathematical model, a specification-level parser
//! written as a recursion over the wire bytes, and an executable parser
//! proved to return exactly what the specification parser says.
//!
//! Repeated scalar fields (ids, coordinates, tag indices and the like)
//! are accepted in their packed encoding only, which is what every
//! known writer of this format emits; an unpacked repeated scalar
//! field is skipped like any unknown field.

use vstd::prelude::*;
use vstd::utf8::{decode_utf8, valid_utf8};
use crate::wire::{
    dec_varint, enc_varint, i64_to_u64, i64_to_varint, lemma_enc_varint_len,
    lemma_varint_round_trip, lemma_zigzag_round_trip, read_varint, u64_to_i32, u64_to_i64,
    u64_to_u32, varint_to_i32, varint_to_i64, varint_to_u32, zigzag_dec, zigzag_decode,
    zigzag_enc, zigzag_encode,
};
use crate::pbf::{
    dec_len_prefixed, dec_packed_bool, dec_packed_i32, dec_packed_sint32, dec_packed_sint64,
    dec_packed_u32, enc_field_bytes, enc_field_varint, enc_packed_bool, enc_packed_i32,
    enc_packed_sint32, enc_packed_sint64, enc_packed_u32, read_len_prefixed, read_packed_bool,
    read_packed_i32, read_packed_sint32, read_packed_sint64, read_packed_u32, skip_field,
    enc_tag, lemma_concat_split, lemma_field_bytes_at, lemma_field_varint_at, lemma_msg_field_at,
    spec_skip, write_field_bytes, write_field_payload, write_field_varint, write_packed_bool,
    write_packed_i32, write_packed_sint32, write_packed_sint64, write_packed_u32,
};
use crate::strutil::{opt_view, seq_view, string_from_bytes};
use vstd::utf8::encode_utf8;

verus! {

#[derive(Clone, Copy, Debug, PartialEq, Eq, Structural)]
pub struct HeaderBBox {
    pub left: Option<i64>,
    pub right: Option<i64>,
    pub top: Option<i64>,
    pub bottom: Option<i64>,
}

impl View for HeaderBBox {
    type V = HeaderBBox;

    open spec fn view(&self) -> HeaderBBox {
        *self
    }
}

/// One pass of the `HeaderBBox` field loop over `[i, end)`.
pub open spec fn pf_headerbbox(d: Seq<u8>, i: int, end: int, m: HeaderBBox) -> Option<HeaderBBox>
    decreases end - i,
{
    if i < 0 || i > end || end > d.len() {
        None
    } else if i == end {
        Some(m)
    } else {
        match dec_varint(d, i) {
            None => None,
            Some((tag, j)) => if j <= i || j > end {
                None
            } else {
                let fno = tag / 8;
                let wt = tag % 8;
                if fno == 1 && wt == 0 {
                    match dec_varint(d, j) {
                        None => None,
                        Some((v, k)) => if k <= i || k > end {
                            None
                        } else {
                            pf_headerbbox(d, k, end, HeaderBBox { left: Some(zigzag_dec(v)), right: m.right, top: m.top, bottom: m.bottom })
                        },
                    }
                } else if fno == 2 && wt == 0 {
                    match dec_varint(d, j) {
                        None => None,
                        Some((v, k)) => if k <= i || k > end {
                            None
                        } else {
                            pf_headerbbox(d, k, end, HeaderBBox { left: m.left, right: Some(zigzag_dec(v)), top: m.top, bottom: m.bottom })
                        },
                    }
                } else if fno == 3 && wt == 0 {
                    match dec_varint(d, j) {
                        None => None,
                        Some((v, k)) => if k <= i || k > end {
                            None
                        } else {
                            pf_headerbbox(d, k, end, HeaderBBox { left: m.left, right: m.right, top: Some(zigzag_dec(v)), bottom: m.bottom })
                        },
                    }
                } else if fno == 4 && wt == 0 {
                    match dec_varint(d, j) {
                        None => None,
                        Some((v, k)) => if k <= i || k > end {
                            None
                        } else {
                            pf_headerbbox(d, k, end, HeaderBBox { left: m.left, right: m.right, top: m.top, bottom: Some(zigzag_dec(v)) })
                        },
                    }
                } else {
                    match spec_skip(d, j, end, wt) {
                        None => None,
                        Some(k) => if k <= i {
                            None
                        } else {
                            pf_headerbbox(d, k, end, m)
                        },
                    }
                }
            },
        }
    }
}

pub open spec fn init_headerbbox() -> HeaderBBox {
    HeaderBBox { left: None, right: None, top: None, bottom: None }
}

/// What the bytes `[lo, hi)` mean as a `HeaderBBox`, if anything.
/// All four corner fields are required.
pub open spec fn spec_parse_headerbbox(d: Seq<u8>, lo: int, hi: int) -> Option<HeaderBBox> {
    match pf_headerbbox(d, lo, hi, init_headerbbox()) {
        None => None,
        Some(m) => if m.left is Some && m.right is Some && m.top is Some && m.bottom is Some {
            Some(m)
        } else {
            None
        },
    }
}

/// Parse a `HeaderBBox` from `[pos, end)`.
#[verifier::rlimit(100)]
#[verifier::spinoff_prover]
pub fn parse_headerbbox(data: &[u8], pos: usize, end: usize) -> (r: Option<HeaderBBox>)
    requires
        pos <= end <= data@.len(),
    ensures
        r is None ==> spec_parse_headerbbox(data@, pos as int, end as int) is None,
        r matches Some(msg) ==> spec_parse_headerbbox(data@, pos as int, end as int) == Some(msg@),
{
    let mut left: Option<i64> = None;
    let mut right: Option<i64> = None;
    let mut top: Option<i64> = None;
    let mut bottom: Option<i64> = None;
    let mut p = pos;
    while p < end
        invariant
            pos <= p <= end <= data@.len(),
            pf_headerbbox(
                data@,
                p as int,
                end as int,
                HeaderBBox {
                        left: left,
                        right: right,
                        top: top,
                        bottom: bottom,
                    },
            ) == pf_headerbbox(data@, pos as int, end as int, init_headerbbox()),
        decreases end - p,
    {
        let ghost op = p as int;
        let ghost mold = HeaderBBox {
                    left: left,
                    right: right,
                    top: top,
                    bottom: bottom,
                };
        let (tag, j) = match read_varint(data, p) {
            None => {
                proof {
                    assert(pf_headerbbox(data@, op, end as int, mold) is None);
                }
                return None;
            }
            Some(x) => x,
        };
        if j > end {
            proof {
                assert(pf_headerbbox(data@, op, end as int, mold) is None);
            }
            return None;
        }
        let fno = tag / 8;
        let wt = tag % 8;
        if fno == 1 && wt == 0 {
            let (v, k) = match read_varint(data, j) {
                None => {
                    proof {
                        assert(pf_headerbbox(data@, op, end as int, mold) is None);
                    }
                    return None;
                }
                Some(x) => x,
            };
            if k > end {
                proof {
                assert(pf_headerbbox(data@, op, end as int, mold) is None);
                }
                return None;
            }
            left = Some(zigzag_decode(v));
            p = k;
            proof {
                assert(pf_headerbbox(data@, op, end as int, mold) == pf_headerbbox(
                    data@,
                    p as int,
                    end as int,
                    HeaderBBox {
                            left: left,
                            right: right,
                            top: top,
                            bottom: bottom,
                        },
                ));
            }
        } else if fno == 2 && wt == 0 {
            let (v, k) = match read_varint(data, j) {
                None => {
                    proof {
                        assert(pf_headerbbox(data@, op, end as int, mold) is None);
                    }
                    return None;
                }
                Some(x) => x,
            };
            if k > end {
                proof {
                assert(pf_headerbbox(data@, op, end as int, mold) is None);
                }
                return None;
            }
            right = Some(zigzag_decode(v));
            p = k;
            proof {
                assert(pf_headerbbox(data@, op, end as int, mold) == pf_headerbbox(
                    data@,
                    p as int,
                    end as int,
                    HeaderBBox {
                            left: left,
                            right: right,
                            top: top,
                            bottom: bottom,
                        },
                ));
            }
        } else if fno == 3 && wt == 0 {
            let (v, k) = match read_varint(data, j) {
                None => {
                    proof {
                        assert(pf_headerbbox(data@, op, end as int, mold) is None);
                    }
                    return None;
                }
                Some(x) => x,
            };
            if k > end {
                proof {
                assert(pf_headerbbox(data@, op, end as int, mold) is None);
                }
                return None;
            }
            top = Some(zigzag_decode(v));
            p = k;
            proof {
                assert(pf_headerbbox(data@, op, end as int, mold) == pf_headerbbox(
                    data@,
                    p as int,
                    end as int,
                    HeaderBBox {
                            left: left,
                            right: right,
                            top: top,
                            bottom: bottom,
                        },
                ));
            }
        } else if fno == 4 && wt == 0 {
            let (v, k) = match read_varint(data, j) {
                None => {
                    proof {
                        assert(pf_headerbbox(data@, op, end as int, mold) is None);
                    }
                    return None;
                }
                Some(x) => x,
            };
            if k > end {
                proof {
                assert(pf_headerbbox(data@, op, end as int, mold) is None);
                }
                return None;
            }
            bottom = Some(zigzag_decode(v));
            p = k;
            proof {
                assert(pf_headerbbox(data@, op, end as int, mold) == pf_headerbbox(
                    data@,
                    p as int,
                    end as int,
                    HeaderBBox {
                            left: left,
                            right: right,
                            top: top,
                            bottom: bottom,
                        },
                ));
            }
        } else {
            let k = match skip_field(data, j, end, wt) {
                None => {
                    proof {
                        assert(pf_headerbbox(data@, op, end as int, mold) is None);
                    }
                    return None;
                }
                Some(k) => k,
            };
            p = k;
            proof {
                assert(pf_headerbbox(data@, op, end as int, mold) == pf_headerbbox(
                    data@,
                    p as int,
                    end as int,
                    HeaderBBox {
                            left: left,
                            right: right,
                            top: top,
                            bottom: bottom,
                        },
                ));
            }
        }
    }
    proof {
        assert(pf_headerbbox(
            data@,
            p as int,
            end as int,
            HeaderBBox {
                    left: left,
                    right: right,
                    top: top,
                    bottom: bottom,
                },
        ) == Some(HeaderBBox {
                    left: left,
                    right: right,
                    top: top,
                    bottom: bottom,
                }));
    }
    if left.is_some() && right.is_some() && top.is_some() && bottom.is_some() {
        Some(HeaderBBox { left, right, top, bottom })
    } else {
        None
    }
}

#[derive(Clone, Debug)]
pub struct StringTable {
    pub s: Vec<Vec<u8>>,
}

/// Mathematical image of a `StringTable`.
pub struct SpecStringTable {
    pub s: Seq<Seq<u8>>,
}

impl View for StringTable {
    type V = SpecStringTable;

    open spec fn view(&self) -> SpecStringTable {
        SpecStringTable {
            s: seq_view(self.s@),
        }
    }
}

/// One pass of the `StringTable` field loop over `[i, end)`.
pub open spec fn pf_stringtable(d: Seq<u8>, i: int, end: int, m: SpecStringTable) -> Option<SpecStringTable>
    decreases end - i,
{
    if i < 0 || i > end || end > d.len() {
        None
    } else if i == end {
        Some(m)
    } else {
        match dec_varint(d, i) {
            None => None,
            Some((tag, j)) => if j <= i || j > end {
                None
            } else {
                let fno = tag / 8;
                let wt = tag % 8;
                if fno == 1 && wt == 2 {
                    match dec_len_prefixed(d, j, end) {
                        None => None,
                        Some((b, k)) => if k <= i {
                            None
                        } else {
                            pf_stringtable(d, k, end, SpecStringTable { s: m.s.push(b) })
                        },
                    }
                } else {
                    match spec_skip(d, j, end, wt) {
                        None => None,
                        Some(k) => if k <= i {
                            None
                        } else {
                            pf_stringtable(d, k, end, m)
                        },
                    }
                }
            },
        }
    }
}

pub open spec fn init_stringtable() -> SpecStringTable {
    SpecStringTable { s: Seq::empty() }
}

/// What the bytes `[lo, hi)` mean as a `StringTable`, if anything.
pub open spec fn spec_parse_stringtable(d: Seq<u8>, lo: int, hi: int) -> Option<SpecStringTable> {
    pf_stringtable(d, lo, hi, init_stringtable())
}

/// Parse a `StringTable` from `[pos, end)`.
#[verifier::rlimit(100)]
#[verifier::spinoff_prover]
pub fn parse_stringtable(data: &[u8], pos: usize, end: usize) -> (r: Option<StringTable>)
    requires
        pos <= end <= data@.len(),
    ensures
        r is None ==> spec_parse_stringtable(data@, pos as int, end as int) is None,
        r matches Some(msg) ==> spec_parse_stringtable(data@, pos as int, end as int) == Some(msg@),
{
    let mut s: Vec<Vec<u8>> = Vec::new();
    proof {
        assert(seq_view(s@) =~= Seq::empty());
    }
    let mut p = pos;
    while p < end
        invariant
            pos <= p <= end <= data@.len(),
            pf_stringtable(
                data@,
                p as int,
                end as int,
                SpecStringTable {
                        s: seq_view(s@),
                    },
            ) == pf_stringtable(data@, pos as int, end as int, init_stringtable()),
        decreases end - p,
    {
        let ghost op = p as int;
        let ghost mold = SpecStringTable {
                    s: seq_view(s@),
                };
        let (tag, j) = match read_varint(data, p) {
            None => {
                proof {
                    assert(pf_stringtable(data@, op, end as int, mold) is None);
                }
                return None;
            }
            Some(x) => x,
        };
        if j > end {
            proof {
                assert(pf_stringtable(data@, op, end as int, mold) is None);
            }
            return None;
        }
        let fno = tag / 8;
        let wt = tag % 8;
        if fno == 1 && wt == 2 {
            let (b, k) = match read_len_prefixed(data, j, end) {
                None => {
                    proof {
                        assert(pf_stringtable(data@, op, end as int, mold) is None);
                    }
                    return None;
                }
                Some(x) => x,
            };
            s.push(vstd::slice::slice_to_vec(b));
            p = k;
            proof {
                assert(seq_view(s@) =~= mold.s.push(b@));
            }
            proof {
                assert(pf_stringtable(data@, op, end as int, mold) == pf_stringtable(
                    data@,
                    p as int,
                    end as int,
                    SpecStringTable {
                            s: seq_view(s@),
                        },
                ));
            }
        } else {
            let k = match skip_field(data, j, end, wt) {
                None => {
                    proof {
                        assert(pf_stringtable(data@, op, end as int, mold) is None);
                    }
                    return None;
                }
                Some(k) => k,
            };
            p = k;
            proof {
                assert(pf_stringtable(data@, op, end as int, mold) == pf_stringtable(
                    data@,
                    p as int,
                    end as int,
                    SpecStringTable {
                            s: seq_view(s@),
                        },
                ));
            }
        }
    }
    proof {
        assert(pf_stringtable(
            data@,
            p as int,
            end as int,
            SpecStringTable {
                    s: seq_view(s@),
                },
        ) == Some(SpecStringTable {
                    s: seq_view(s@),
                }));
    }
    Some(StringTable { s })
}

#[derive(Clone, Copy, Debug, PartialEq, Eq, Structural)]
pub struct Info {
    pub version: Option<i32>,
    pub timestamp: Option<i64>,
    pub changeset: Option<i64>,
    pub uid: Option<i32>,
    pub user_sid: Option<u32>,
    pub visible: Option<bool>,
}

impl View for Info {
    type V = Info;

    open spec fn view(&self) -> Info {
        *self
    }
}

/// One pass of the `Info` field loop over `[i, end)`.
pub open spec fn pf_info(d: Seq<u8>, i: int, end: int, m: Info) -> Option<Info>
    decreases end - i,
{
    if i < 0 || i > end || end > d.len() {
        None
    } else if i == end {
        Some(m)
    } else {
        match dec_varint(d, i) {
            None => None,
            Some((tag, j)) => if j <= i || j > end {
                None
            } else {
                let fno = tag / 8;
                let wt = tag % 8;
                if fno == 1 && wt == 0 {
                    match dec_varint(d, j) {
                        None => None,
                        Some((v, k)) => if k <= i || k > end {
                            None
                        } else {
                            pf_info(d, k, end, Info { version: Some(u64_to_i32(v)), timestamp: m.timestamp, changeset: m.changeset, uid: m.uid, user_sid: m.user_sid, visible: m.visible })
                        },
                    }
                } else if fno == 2 && wt == 0 {
                    match dec_varint(d, j) {
                        None => None,
                        Some((v, k)) => if k <= i || k > end {
                            None
                        } else {
                            pf_info(d, k, end, Info { version: m.version, timestamp: Some(u64_to_i64(v)), changeset: m.changeset, uid: m.uid, user_sid: m.user_sid, visible: m.visible })
                        },
                    }
                } else if fno == 3 && wt == 0 {
                    match dec_varint(d, j) {
                        None => None,
                        Some((v, k)) => if k <= i || k > end {
                            None
                        } else {
                            pf_info(d, k, end, Info { version: m.version, timestamp: m.timestamp, changeset: Some(u64_to_i64(v)), uid: m.uid, user_sid: m.user_sid, visible: m.visible })
                        },
                    }
                } else if fno == 4 && wt == 0 {
                    match dec_varint(d, j) {
                        None => None,
                        Some((v, k)) => if k <= i || k > end {
                            None
                        } else {
                            pf_info(d, k, end, Info { version: m.version, timestamp: m.timestamp, changeset: m.changeset, uid: Some(u64_to_i32(v)), user_sid: m.user_sid, visible: m.visible })
                        },
                    }
                } else if fno == 5 && wt == 0 {
                    match dec_varint(d, j) {
                        None => None,
                        Some((v, k)) => if k <= i || k > end {
                            None
                        } else {
                            pf_info(d, k, end, Info { version: m.version, timestamp: m.timestamp, changeset: m.changeset, uid: m.uid, user_sid: Some(u64_to_u32(v)), visible: m.visible })
                        },
                    }
                } else if fno == 6 && wt == 0 {
                    match dec_varint(d, j) {
                        None => None,
                        Some((v, k)) => if k <= i || k > end {
                            None
                        } else {
                            pf_info(d, k, end, Info { version: m.version, timestamp: m.timestamp, changeset: m.changeset, uid: m.uid, user_sid: m.user_sid, visible: Some(v != 0) })
                        },
                    }
                } else {
                    match spec_skip(d, j, end, wt) {
                        None => None,
                        Some(k) => if k <= i {
                            None
                        } else {
                            pf_info(d, k, end, m)
                        },
                    }
                }
            },
        }
    }
}

pub open spec fn init_info() -> Info {
    Info { version: None, timestamp: None, changeset: None, uid: None, user_sid: None, visible: None }
}

/// What the bytes `[lo, hi)` mean as a `Info`, if anything.
pub open spec fn spec_parse_info(d: Seq<u8>, lo: int, hi: int) -> Option<Info> {
    pf_info(d, lo, hi, init_info())
}

/// Parse a `Info` from `[pos, end)`.
#[verifier::rlimit(100)]
#[verifier::spinoff_prover]
pub fn parse_info(data: &[u8], pos: usize, end: usize) -> (r: Option<Info>)
    requires
        pos <= end <= data@.len(),
    ensures
        r is None ==> spec_parse_info(data@, pos as int, end as int) is None,
        r matches Some(msg) ==> spec_parse_info(data@, pos as int, end as int) == Some(msg@),
{
    let mut version: Option<i32> = None;
    let mut timestamp: Option<i64> = None;
    let mut changeset: Option<i64> = None;
    let mut uid: Option<i32> = None;
    let mut user_sid: Option<u32> = None;
    let mut visible: Option<bool> = None;
    let mut p = pos;
    while p < end
        invariant
            pos <= p <= end <= data@.len(),
            pf_info(
                data@,
                p as int,
                end as int,
                Info {
                        version: version,
                        timestamp: timestamp,
                        changeset: changeset,
                        uid: uid,
                        user_sid: user_sid,
                        visible: visible,
                    },
            ) == pf_info(data@, pos as int, end as int, init_info()),
        decreases end - p,
    {
        let ghost op = p as int;
        let ghost mold = Info {
                    version: version,
                    timestamp: timestamp,
                    changeset: changeset,
                    uid: uid,
                    user_sid: user_sid,
                    visible: visible,
                };
        let (tag, j) = match read_varint(data, p) {
            None => {
                proof {
                    assert(pf_info(data@, op, end as int, mold) is None);
                }
                return None;
            }
            Some(x) => x,
        };
        if j > end {
            proof {
                assert(pf_info(data@, op, end as int, mold) is None);
            }
            return None;
        }
        let fno = tag / 8;
        let wt = tag % 8;
        if fno == 1 && wt == 0 {
            let (v, k) = match read_varint(data, j) {
                None => {
                    proof {
                        assert(pf_info(data@, op, end as int, mold) is None);
                    }
                    return None;
                }
                Some(x) => x,
            };
            if k > end {
                proof {
                assert(pf_info(data@, op, end as int, mold) is None);
                }
                return None;
            }
            version = Some(varint_to_i32(v));
            p = k;
            proof {
                assert(pf_info(data@, op, end as int, mold) == pf_info(
                    data@,
                    p as int,
                    end as int,
                    Info {
                            version: version,
                            timestamp: timestamp,
                            changeset: changeset,
                            uid: uid,
                            user_sid: user_sid,
                            visible: visible,
                        },
                ));
            }
        } else if fno == 2 && wt == 0 {
            let (v, k) = match read_varint(data, j) {
                None => {
                    proof {
                        assert(pf_info(data@, op, end as int, mold) is None);
                    }
                    return None;
                }
                Some(x) => x,
            };
            if k > end {
                proof {
                assert(pf_info(data@, op, end as int, mold) is None);
                }
                return None;
            }
            timestamp = Some(varint_to_i64(v));
            p = k;
            proof {
                assert(pf_info(data@, op, end as int, mold) == pf_info(
                    data@,
                    p as int,
                    end as int,
                    Info {
                            version: version,
                            timestamp: timestamp,
                            changeset: changeset,
                            uid: uid,
                            user_sid: user_sid,
                            visible: visible,
                        },
                ));
            }
        } else if fno == 3 && wt == 0 {
            let (v, k) = match read_varint(data, j) {
                None => {
                    proof {
                        assert(pf_info(data@, op, end as int, mold) is None);
                    }
                    return None;
                }
                Some(x) => x,
            };
            if k > end {
                proof {
                assert(pf_info(data@, op, end as int, mold) is None);
                }
                return None;
            }
            changeset = Some(varint_to_i64(v));
            p = k;
            proof {
                assert(pf_info(data@, op, end as int, mold) == pf_info(
                    data@,
                    p as int,
                    end as int,
                    Info {
                            version: version,
                            timestamp: timestamp,
                            changeset: changeset,
                            uid: uid,
                            user_sid: user_sid,
                            visible: visible,
                        },
                ));
            }
        } else if fno == 4 && wt == 0 {
            let (v, k) = match read_varint(data, j) {
                None => {
                    proof {
                        assert(pf_info(data@, op, end as int, mold) is None);
                    }
                    return None;
                }
                Some(x) => x,
            };
            if k > end {
                proof {
                assert(pf_info(data@, op, end as int, mold) is None);
                }
                return None;
            }
            uid = Some(varint_to_i32(v));
            p = k;
            proof {
                assert(pf_info(data@, op, end as int, mold) == pf_info(
                    data@,
                    p as int,
                    end as int,
                    Info {
                            version: version,
                            timestamp: timestamp,
                            changeset: changeset,
                            uid: uid,
                            user_sid: user_sid,
                            visible: visible,
                        },
                ));
            }
        } else if fno == 5 && wt == 0 {
            let (v, k) = match read_varint(data, j) {
                None => {
                    proof {
                        assert(pf_info(data@, op, end as int, mold) is None);
                    }
                    return None;
                }
                Some(x) => x,
            };
            if k > end {
                proof {
                assert(pf_info(data@, op, end as int, mold) is None);
                }
                return None;
            }
            user_sid = Some(varint_to_u32(v));
            p = k;
            proof {
                assert(pf_info(data@, op, end as int, mold) == pf_info(
                    data@,
                    p as int,
                    end as int,
                    Info {
                            version: version,
                            timestamp: timestamp,
                            changeset: changeset,
                            uid: uid,
                            user_sid: user_sid,
                            visible: visible,
                        },
                ));
            }
        } else if fno == 6 && wt == 0 {
            let (v, k) = match read_varint(data, j) {
                None => {
                    proof {
                        assert(pf_info(data@, op, end as int, mold) is None);
                    }
                    return None;
                }
                Some(x) => x,
            };
            if k > end {
                proof {
                assert(pf_info(data@, op, end as int, mold) is None);
                }
                return None;
            }
            visible = Some(v != 0);
            p = k;
            proof {
                assert(pf_info(data@, op, end as int, mold) == pf_info(
                    data@,
                    p as int,
                    end as int,
                    Info {
                            version: version,
                            timestamp: timestamp,
                            changeset: changeset,
                            uid: uid,
                            user_sid: user_sid,
                            visible: visible,
                        },
                ));
            }
        } else {
            let k = match skip_field(data, j, end, wt) {
                None => {
                    proof {
                        assert(pf_info(data@, op, end as int, mold) is None);
                    }
                    return None;
                }
                Some(k) => k,
            };
            p = k;
            proof {
                assert(pf_info(data@, op, end as int, mold) == pf_info(
                    data@,
                    p as int,
                    end as int,
                    Info {
                            version: version,
                            timestamp: timestamp,
                            changeset: changeset,
                            uid: uid,
                            user_sid: user_sid,
                            visible: visible,
                        },
                ));
            }
        }
    }
    proof {
        assert(pf_info(
            data@,
            p as int,
            end as int,
            Info {
                    version: version,
                    timestamp: timestamp,
                    changeset: changeset,
                    uid: uid,
                    user_sid: user_sid,
                    visible: visible,
                },
        ) == Some(Info {
                    version: version,
                    timestamp: timestamp,
                    changeset: changeset,
                    uid: uid,
                    user_sid: user_sid,
                    visible: visible,
                }));
    }
    Some(Info { version, timestamp, changeset, uid, user_sid, visible })
}

#[derive(Clone, Debug)]
pub struct HeaderBlock {
    pub bbox: Option<HeaderBBox>,
    pub required_features: Vec<String>,
    pub optional_features: Vec<String>,
    pub writingprogram: Option<String>,
    pub source: Option<String>,
    pub osmosis_replication_timestamp: Option<i64>,
    pub osmosis_replication_sequence_number: Option<i64>,
    pub osmosis_replication_base_url: Option<String>,
}

/// Mathematical image of a `HeaderBlock`.
pub struct SpecHeaderBlock {
    pub bbox: Option<HeaderBBox>,
    pub required_features: Seq<Seq<char>>,
    pub optional_features: Seq<Seq<char>>,
    pub writingprogram: Option<Seq<char>>,
    pub source: Option<Seq<char>>,
    pub osmosis_replication_timestamp: Option<i64>,
    pub osmosis_replication_sequence_number: Option<i64>,
    pub osmosis_replication_base_url: Option<Seq<char>>,
}

impl View for HeaderBlock {
    type V = SpecHeaderBlock;

    open spec fn view(&self) -> SpecHeaderBlock {
        SpecHeaderBlock {
            bbox: opt_view(self.bbox),
            required_features: seq_view(self.required_features@),
            optional_features: seq_view(self.optional_features@),
            writingprogram: opt_view(self.writingprogram),
            source: opt_view(self.source),
            osmosis_replication_timestamp: self.osmosis_replication_timestamp,
            osmosis_replication_sequence_number: self.osmosis_replication_sequence_number,
            osmosis_replication_base_url: opt_view(self.osmosis_replication_base_url),
        }
    }
}

/// One pass of the `HeaderBlock` field loop over `[i, end)`.
pub open spec fn pf_headerblock(d: Seq<u8>, i: int, end: int, m: SpecHeaderBlock) -> Option<SpecHeaderBlock>
    decreases end - i,
{
    if i < 0 || i > end || end > d.len() {
        None
    } else if i == end {
        Some(m)
    } else {
        match dec_varint(d, i) {
            None => None,
            Some((tag, j)) => if j <= i || j > end {
                None
            } else {
                let fno = tag / 8;
                let wt = tag % 8;
                if fno == 1 && wt == 2 {
                    match dec_varint(d, j) {
                        None => None,
                        Some((len, j2)) => if j2 <= i || j2 + len > end {
                            None
                        } else {
                            match spec_parse_headerbbox(d, j2, j2 + len) {
                                None => None,
                                Some(sub) => pf_headerblock(d, j2 + len, end, SpecHeaderBlock { bbox: Some(sub), required_features: m.required_features, optional_features: m.optional_features, writingprogram: m.writingprogram, source: m.source, osmosis_replication_timestamp: m.osmosis_replication_timestamp, osmosis_replication_sequence_number: m.osmosis_replication_sequence_number, osmosis_replication_base_url: m.osmosis_replication_base_url }),
                            }
                        },
                    }
                } else if fno == 4 && wt == 2 {
                    match dec_len_prefixed(d, j, end) {
                        None => None,
                        Some((b, k)) => if k <= i || !valid_utf8(b) {
                            None
                        } else {
                            pf_headerblock(d, k, end, SpecHeaderBlock { bbox: m.bbox, required_features: m.required_features.push(decode_utf8(b)), optional_features: m.optional_features, writingprogram: m.writingprogram, source: m.source, osmosis_replication_timestamp: m.osmosis_replication_timestamp, osmosis_replication_sequence_number: m.osmosis_replication_sequence_number, osmosis_replication_base_url: m.osmosis_replication_base_url })
                        },
                    }
                } else if fno == 5 && wt == 2 {
                    match dec_len_prefixed(d, j, end) {
                        None => None,
                        Some((b, k)) => if k <= i || !valid_utf8(b) {
                            None
                        } else {
                            pf_headerblock(d, k, end, SpecHeaderBlock { bbox: m.bbox, required_features: m.required_features, optional_features: m.optional_features.push(decode_utf8(b)), writingprogram: m.writingprogram, source: m.source, osmosis_replication_timestamp: m.osmosis_replication_timestamp, osmosis_replication_sequence_number: m.osmosis_replication_sequence_number, osmosis_replication_base_url: m.osmosis_replication_base_url })
                        },
                    }
                } else if fno == 16 && wt == 2 {
                    match dec_len_prefixed(d, j, end) {
                        None => None,
                        Some((b, k)) => if k <= i || !valid_utf8(b) {
                            None
                        } else {
                            pf_headerblock(d, k, end, SpecHeaderBlock { bbox: m.bbox, required_features: m.required_features, optional_features: m.optional_features, writingprogram: Some(decode_utf8(b)), source: m.source, osmosis_replication_timestamp: m.osmosis_replication_timestamp, osmosis_replication_sequence_number: m.osmosis_replication_sequence_number, osmosis_replication_base_url: m.osmosis_replication_base_url })
                        },
                    }
                } else if fno == 17 && wt == 2 {
                    match dec_len_prefixed(d, j, end) {
                        None => None,
                        Some((b, k)) => if k <= i || !valid_utf8(b) {
                            None
                        } else {
                            pf_headerblock(d, k, end, SpecHeaderBlock { bbox: m.bbox, required_features: m.required_features, optional_features: m.optional_features, writingprogram: m.writingprogram, source: Some(decode_utf8(b)), osmosis_replication_timestamp: m.osmosis_replication_timestamp, osmosis_replication_sequence_number: m.osmosis_replication_sequence_number, osmosis_replication_base_url: m.osmosis_replication_base_url })
                        },
                    }
                } else if fno == 32 && wt == 0 {
                    match dec_varint(d, j) {
                        None => None,
                        Some((v, k)) => if k <= i || k > end {
                            None
                        } else {
                            pf_headerblock(d, k, end, SpecHeaderBlock { bbox: m.bbox, required_features: m.required_features, optional_features: m.optional_features, writingprogram: m.writingprogram, source: m.source, osmosis_replication_timestamp: Some(u64_to_i64(v)), osmosis_replication_sequence_number: m.osmosis_replication_sequence_number, osmosis_replication_base_url: m.osmosis_replication_base_url })
                        },
                    }
                } else if fno == 33 && wt == 0 {
                    match dec_varint(d, j) {
                        None => None,
                        Some((v, k)) => if k <= i || k > end {
                            None
                        } else {
                            pf_headerblock(d, k, end, SpecHeaderBlock { bbox: m.bbox, required_features: m.required_features, optional_features: m.optional_features, writingprogram: m.writingprogram, source: m.source, osmosis_replication_timestamp: m.osmosis_replication_timestamp, osmosis_replication_sequence_number: Some(u64_to_i64(v)), osmosis_replication_base_url: m.osmosis_replication_base_url })
                        },
                    }
                } else if fno == 34 && wt == 2 {
                    match dec_len_prefixed(d, j, end) {
                        None => None,
                        Some((b, k)) => if k <= i || !valid_utf8(b) {
                            None
                        } else {
                            pf_headerblock(d, k, end, SpecHeaderBlock { bbox: m.bbox, required_features: m.required_features, optional_features: m.optional_features, writingprogram: m.writingprogram, source: m.source, osmosis_replication_timestamp: m.osmosis_replication_timestamp, osmosis_replication_sequence_number: m.osmosis_replication_sequence_number, osmosis_replication_base_url: Some(decode_utf8(b)) })
                        },
                    }
                } else {
                    match spec_skip(d, j, end, wt) {
                        None => None,
                        Some(k) => if k <= i {
                            None
                        } else {
                            pf_headerblock(d, k, end, m)
                        },
                    }
                }
            },
        }
    }
}

pub open spec fn init_headerblock() -> SpecHeaderBlock {
    SpecHeaderBlock { bbox: None, required_features: Seq::empty(), optional_features: Seq::empty(), writingprogram: None, source: None, osmosis_replication_timestamp: None, osmosis_replication_sequence_number: None, osmosis_replication_base_url: None }
}

/// What the bytes `[lo, hi)` mean as a `HeaderBlock`, if anything.
pub open spec fn spec_parse_headerblock(d: Seq<u8>, lo: int, hi: int) -> Option<SpecHeaderBlock> {
    pf_headerblock(d, lo, hi, init_headerblock())
}

/// Parse a `HeaderBlock` from `[pos, end)`.
#[verifier::rlimit(100)]
#[verifier::spinoff_prover]
pub fn parse_headerblock(data: &[u8], pos: usize, end: usize) -> (r: Option<HeaderBlock>)
    requires
        pos <= end <= data@.len(),
    ensures
        r is None ==> spec_parse_headerblock(data@, pos as int, end as int) is None,
        r matches Some(msg) ==> spec_parse_headerblock(data@, pos as int, end as int) == Some(msg@),
{
    let mut bbox: Option<HeaderBBox> = None;
    let mut required_features: Vec<String> = Vec::new();
    let mut optional_features: Vec<String> = Vec::new();
    let mut writingprogram: Option<String> = None;
    let mut source: Option<String> = None;
    let mut osmosis_replication_timestamp: Option<i64> = None;
    let mut osmosis_replication_sequence_number: Option<i64> = None;
    let mut osmosis_replication_base_url: Option<String> = None;
    proof {
        assert(seq_view(required_features@) =~= Seq::empty());
        assert(seq_view(optional_features@) =~= Seq::empty());
    }
    let mut p = pos;
    while p < end
        invariant
            pos <= p <= end <= data@.len(),
            pf_headerblock(
                data@,
                p as int,
                end as int,
                SpecHeaderBlock {
                        bbox: opt_view(bbox),
                        required_features: seq_view(required_features@),
                        optional_features: seq_view(optional_features@),
                        writingprogram: opt_view(writingprogram),
                        source: opt_view(source),
                        osmosis_replication_timestamp: osmosis_replication_timestamp,
                        osmosis_replication_sequence_number: osmosis_replication_sequence_number,
                        osmosis_replication_base_url: opt_view(osmosis_replication_base_url),
                    },
            ) == pf_headerblock(data@, pos as int, end as int, init_headerblock()),
        decreases end - p,
    {
        let ghost op = p as int;
        let ghost mold = SpecHeaderBlock {
                    bbox: opt_view(bbox),
                    required_features: seq_view(required_features@),
                    optional_features: seq_view(optional_features@),
                    writingprogram: opt_view(writingprogram),
                    source: opt_view(source),
                    osmosis_replication_timestamp: osmosis_replication_timestamp,
                    osmosis_replication_sequence_number: osmosis_replication_sequence_number,
                    osmosis_replication_base_url: opt_view(osmosis_replication_base_url),
                };
        let (tag, j) = match read_varint(data, p) {
            None => {
                proof {
                    assert(pf_headerblock(data@, op, end as int, mold) is None);
                }
                return None;
            }
            Some(x) => x,
        };
        if j > end {
            proof {
                assert(pf_headerblock(data@, op, end as int, mold) is None);
            }
            return None;
        }
        let fno = tag / 8;
        let wt = tag % 8;
        if fno == 1 && wt == 2 {
            let (len, j2) = match read_varint(data, j) {
                None => {
                    proof {
                        assert(pf_headerblock(data@, op, end as int, mold) is None);
                    }
                    return None;
                }
                Some(x) => x,
            };
            if j2 > end || len > (end - j2) as u64 {
                proof {
                    assert(pf_headerblock(data@, op, end as int, mold) is None);
                }
                return None;
            }
            let k = j2 + (len as usize);
            let sub = match parse_headerbbox(data, j2, k) {
                None => {
                    proof {
                        assert(pf_headerblock(data@, op, end as int, mold) is None);
                    }
                    return None;
                }
                Some(x) => x,
            };
            bbox = Some(sub);
            p = k;
            proof {
                assert(pf_headerblock(data@, op, end as int, mold) == pf_headerblock(
                    data@,
                    p as int,
                    end as int,
                    SpecHeaderBlock {
                            bbox: opt_view(bbox),
                            required_features: seq_view(required_features@),
                            optional_features: seq_view(optional_features@),
                            writingprogram: opt_view(writingprogram),
                            source: opt_view(source),
                            osmosis_replication_timestamp: osmosis_replication_timestamp,
                            osmosis_replication_sequence_number: osmosis_replication_sequence_number,
                            osmosis_replication_base_url: opt_view(osmosis_replication_base_url),
                        },
                ));
            }
        } else if fno == 4 && wt == 2 {
            let (b, k) = match read_len_prefixed(data, j, end) {
                None => {
                    proof {
                        assert(pf_headerblock(data@, op, end as int, mold) is None);
                    }
                    return None;
                }
                Some(x) => x,
            };
            let t = match string_from_bytes(b) {
                None => {
                    proof {
                        assert(pf_headerblock(data@, op, end as int, mold) is None);
                    }
                    return None;
                }
                Some(t) => t,
            };
            let ghost tv = t@;
            required_features.push(t);
            p = k;
            proof {
                assert(seq_view(required_features@) =~= mold.required_features.push(tv));
            }
            proof {
                assert(pf_headerblock(data@, op, end as int, mold) == pf_headerblock(
                    data@,
                    p as int,
                    end as int,
                    SpecHeaderBlock {
                            bbox: opt_view(bbox),
                            required_features: seq_view(required_features@),
                            optional_features: seq_view(optional_features@),
                            writingprogram: opt_view(writingprogram),
                            source: opt_view(source),
                            osmosis_replication_timestamp: osmosis_replication_timestamp,
                            osmosis_replication_sequence_number: osmosis_replication_sequence_number,
                            osmosis_replication_base_url: opt_view(osmosis_replication_base_url),
                        },
                ));
            }
        } else if fno == 5 && wt == 2 {
            let (b, k) = match read_len_prefixed(data, j, end) {
                None => {
                    proof {
                        assert(pf_headerblock(data@, op, end as int, mold) is None);
                    }
                    return None;
                }
                Some(x) => x,
            };
            let t = match string_from_bytes(b) {
                None => {
                    proof {
                        assert(pf_headerblock(data@, op, end as int, mold) is None);
                    }
                    return None;
                }
                Some(t) => t,
            };
            let ghost tv = t@;
            optional_features.push(t);
            p = k;
            proof {
                assert(seq_view(optional_features@) =~= mold.optional_features.push(tv));
            }
            proof {
                assert(pf_headerblock(data@, op, end as int, mold) == pf_headerblock(
                    data@,
                    p as int,
                    end as int,
                    SpecHeaderBlock {
                            bbox: opt_view(bbox),
                            required_features: seq_view(required_features@),
                            optional_features: seq_view(optional_features@),
                            writingprogram: opt_view(writingprogram),
                            source: opt_view(source),
                            osmosis_replication_timestamp: osmosis_replication_timestamp,
                            osmosis_replication_sequence_number: osmosis_replication_sequence_number,
                            osmosis_replication_base_url: opt_view(osmosis_replication_base_url),
                        },
                ));
            }
        } else if fno == 16 && wt == 2 {
            let (b, k) = match read_len_prefixed(data, j, end) {
                None => {
                    proof {
                        assert(pf_headerblock(data@, op, end as int, mold) is None);
                    }
                    return None;
                }
                Some(x) => x,
            };
            let t = match string_from_bytes(b) {
                None => {
                    proof {
                        assert(pf_headerblock(data@, op, end as int, mold) is None);
                    }
                    return None;
                }
                Some(t) => t,
            };
            writingprogram = Some(t);
            p = k;
            proof {
                assert(pf_headerblock(data@, op, end as int, mold) == pf_headerblock(
                    data@,
                    p as int,
                    end as int,
                    SpecHeaderBlock {
                            bbox: opt_view(bbox),
                            required_features: seq_view(required_features@),
                            optional_features: seq_view(optional_features@),
                            writingprogram: opt_view(writingprogram),
                            source: opt_view(source),
                            osmosis_replication_timestamp: osmosis_replication_timestamp,
                            osmosis_replication_sequence_number: osmosis_replication_sequence_number,
                            osmosis_replication_base_url: opt_view(osmosis_replication_base_url),
                        },
                ));
            }
        } else if fno == 17 && wt == 2 {
            let (b, k) = match read_len_prefixed(data, j, end) {
                None => {
                    proof {
                        assert(pf_headerblock(data@, op, end as int, mold) is None);
                    }
                    return None;
                }
                Some(x) => x,
            };
            let t = match string_from_bytes(b) {
                None => {
                    proof {
                        assert(pf_headerblock(data@, op, end as int, mold) is None);
                    }
                    return None;
                }
                Some(t) => t,
            };
            source = Some(t);
            p = k;
            proof {
                assert(pf_headerblock(data@, op, end as int, mold) == pf_headerblock(
                    data@,
                    p as int,
                    end as int,
                    SpecHeaderBlock {
                            bbox: opt_view(bbox),
                            required_features: seq_view(required_features@),
                            optional_features: seq_view(optional_features@),
                            writingprogram: opt_view(writingprogram),
                            source: opt_view(source),
                            osmosis_replication_timestamp: osmosis_replication_timestamp,
                            osmosis_replication_sequence_number: osmosis_replication_sequence_number,
                            osmosis_replication_base_url: opt_view(osmosis_replication_base_url),
                        },
                ));
            }
        } else if fno == 32 && wt == 0 {
            let (v, k) = match read_varint(data, j) {
                None => {
                    proof {
                        assert(pf_headerblock(data@, op, end as int, mold) is None);
                    }
                    return None;
                }
                Some(x) => x,
            };
            if k > end {
                proof {
                assert(pf_headerblock(data@, op, end as int, mold) is None);
                }
                return None;
            }
            osmosis_replication_timestamp = Some(varint_to_i64(v));
            p = k;
            proof {
                assert(pf_headerblock(data@, op, end as int, mold) == pf_headerblock(
                    data@,
                    p as int,
                    end as int,
                    SpecHeaderBlock {
                            bbox: opt_view(bbox),
                            required_features: seq_view(required_features@),
                            optional_features: seq_view(optional_features@),
                            writingprogram: opt_view(writingprogram),
                            source: opt_view(source),
                            osmosis_replication_timestamp: osmosis_replication_timestamp,
                            osmosis_replication_sequence_number: osmosis_replication_sequence_number,
                            osmosis_replication_base_url: opt_view(osmosis_replication_base_url),
                        },
                ));
            }
        } else if fno == 33 && wt == 0 {
            let (v, k) = match read_varint(data, j) {
                None => {
                    proof {
                        assert(pf_headerblock(data@, op, end as int, mold) is None);
                    }
                    return None;
                }
                Some(x) => x,
            };
            if k > end {
                proof {
                assert(pf_headerblock(data@, op, end as int, mold) is None);
                }
                return None;
            }
            osmosis_replication_sequence_number = Some(varint_to_i64(v));
            p = k;
            proof {
                assert(pf_headerblock(data@, op, end as int, mold) == pf_headerblock(
                    data@,
                    p as int,
                    end as int,
                    SpecHeaderBlock {
                            bbox: opt_view(bbox),
                            required_features: seq_view(required_features@),
                            optional_features: seq_view(optional_features@),
                            writingprogram: opt_view(writingprogram),
                            source: opt_view(source),
                            osmosis_replication_timestamp: osmosis_replication_timestamp,
                            osmosis_replication_sequence_number: osmosis_replication_sequence_number,
                            osmosis_replication_base_url: opt_view(osmosis_replication_base_url),
                        },
                ));
            }
        } else if fno == 34 && wt == 2 {
            let (b, k) = match read_len_prefixed(data, j, end) {
                None => {
                    proof {
                        assert(pf_headerblock(data@, op, end as int, mold) is None);
                    }
                    return None;
                }
                Some(x) => x,
            };
            let t = match string_from_bytes(b) {
                None => {
                    proof {
                        assert(pf_headerblock(data@, op, end as int, mold) is None);
                    }
                    return None;
                }
                Some(t) => t,
            };
            osmosis_replication_base_url = Some(t);
            p = k;
            proof {
                assert(pf_headerblock(data@, op, end as int, mold) == pf_headerblock(
                    data@,
                    p as int,
                    end as int,
                    SpecHeaderBlock {
                            bbox: opt_view(bbox),
                            required_features: seq_view(required_features@),
                            optional_features: seq_view(optional_features@),
                            writingprogram: opt_view(writingprogram),
                            source: opt_view(source),
                            osmosis_replication_timestamp: osmosis_replication_timestamp,
                            osmosis_replication_sequence_number: osmosis_replication_sequence_number,
                            osmosis_replication_base_url: opt_view(osmosis_replication_base_url),
                        },
                ));
            }
        } else {
            let k = match skip_field(data, j, end, wt) {
                None => {
                    proof {
                        assert(pf_headerblock(data@, op, end as int, mold) is None);
                    }
                    return None;
                }
                Some(k) => k,
            };
            p = k;
            proof {
                assert(pf_headerblock(data@, op, end as int, mold) == pf_headerblock(
                    data@,
                    p as int,
                    end as int,
                    SpecHeaderBlock {
                            bbox: opt_view(bbox),
                            required_features: seq_view(required_features@),
                            optional_features: seq_view(optional_features@),
                            writingprogram: opt_view(writingprogram),
                            source: opt_view(source),
                            osmosis_replication_timestamp: osmosis_replication_timestamp,
                            osmosis_replication_sequence_number: osmosis_replication_sequence_number,
                            osmosis_replication_base_url: opt_view(osmosis_replication_base_url),
                        },
                ));
            }
        }
    }
    proof {
        assert(pf_headerblock(
            data@,
            p as int,
            end as int,
            SpecHeaderBlock {
                    bbox: opt_view(bbox),
                    required_features: seq_view(required_features@),
                    optional_features: seq_view(optional_features@),
                    writingprogram: opt_view(writingprogram),
                    source: opt_view(source),
                    osmosis_replication_timestamp: osmosis_replication_timestamp,
                    osmosis_replication_sequence_number: osmosis_replication_sequence_number,
                    osmosis_replication_base_url: opt_view(osmosis_replication_base_url),
                },
        ) == Some(SpecHeaderBlock {
                    bbox: opt_view(bbox),
                    required_features: seq_view(required_features@),
                    optional_features: seq_view(optional_features@),
                    writingprogram: opt_view(writingprogram),
                    source: opt_view(source),
                    osmosis_replication_timestamp: osmosis_replication_timestamp,
                    osmosis_replication_sequence_number: osmosis_replication_sequence_number,
                    osmosis_replication_base_url: opt_view(osmosis_replication_base_url),
                }));
    }
    Some(HeaderBlock { bbox, required_features, optional_features, writingprogram, source, osmosis_replication_timestamp, osmosis_replication_sequence_number, osmosis_replication_base_url })
}

#[derive(Clone, Debug)]
pub struct DenseInfo {
    pub version: Vec<i32>,
    pub timestamp: Vec<i64>,
    pub changeset: Vec<i64>,
    pub uid: Vec<i32>,
    pub user_sid: Vec<i32>,
    pub visible: Vec<bool>,
}

/// Mathematical image of a `DenseInfo`.
pub struct SpecDenseInfo {
    pub version: Seq<i32>,
    pub timestamp: Seq<i64>,
    pub changeset: Seq<i64>,
    pub uid: Seq<i32>,
    pub user_sid: Seq<i32>,
    pub visible: Seq<bool>,
}

impl View for DenseInfo {
    type V = SpecDenseInfo;

    open spec fn view(&self) -> SpecDenseInfo {
        SpecDenseInfo {
            version: self.version@,
            timestamp: self.timestamp@,
            changeset: self.changeset@,
            uid: self.uid@,
            user_sid: self.user_sid@,
            visible: self.visible@,
        }
    }
}

/// One pass of the `DenseInfo` field loop over `[i, end)`.
pub open spec fn pf_denseinfo(d: Seq<u8>, i: int, end: int, m: SpecDenseInfo) -> Option<SpecDenseInfo>
    decreases end - i,
{
    if i < 0 || i > end || end > d.len() {
        None
    } else if i == end {
        Some(m)
    } else {
        match dec_varint(d, i) {
            None => None,
            Some((tag, j)) => if j <= i || j > end {
                None
            } else {
                let fno = tag / 8;
                let wt = tag % 8;
                if fno == 1 && wt == 2 {
                    match dec_varint(d, j) {
                        None => None,
                        Some((len, j2)) => if j2 <= i || j2 + len > end {
                            None
                        } else {
                            match dec_packed_i32(d, j2, j2 + len, m.version) {
                                None => None,
                                Some(vs) => pf_denseinfo(d, j2 + len, end, SpecDenseInfo { version: vs, timestamp: m.timestamp, changeset: m.changeset, uid: m.uid, user_sid: m.user_sid, visible: m.visible }),
                            }
                        },
                    }
                } else if fno == 2 && wt == 2 {
                    match dec_varint(d, j) {
                        None => None,
                        Some((len, j2)) => if j2 <= i || j2 + len > end {
                            None
                        } else {
                            match dec_packed_sint64(d, j2, j2 + len, m.timestamp) {
                                None => None,
                                Some(vs) => pf_denseinfo(d, j2 + len, end, SpecDenseInfo { version: m.version, timestamp: vs, changeset: m.changeset, uid: m.uid, user_sid: m.user_sid, visible: m.visible }),
                            }
                        },
                    }
                } else if fno == 3 && wt == 2 {
                    match dec_varint(d, j) {
                        None => None,
                        Some((len, j2)) => if j2 <= i || j2 + len > end {
                            None
                        } else {
                            match dec_packed_sint64(d, j2, j2 + len, m.changeset) {
                                None => None,
                                Some(vs) => pf_denseinfo(d, j2 + len, end, SpecDenseInfo { version: m.version, timestamp: m.timestamp, changeset: vs, uid: m.uid, user_sid: m.user_sid, visible: m.visible }),
                            }
                        },
                    }
                } else if fno == 4 && wt == 2 {
                    match dec_varint(d, j) {
                        None => None,
                        Some((len, j2)) => if j2 <= i || j2 + len > end {
                            None
                        } else {
                            match dec_packed_sint32(d, j2, j2 + len, m.uid) {
                                None => None,
                                Some(vs) => pf_denseinfo(d, j2 + len, end, SpecDenseInfo { version: m.version, timestamp: m.timestamp, changeset: m.changeset, uid: vs, user_sid: m.user_sid, visible: m.visible }),
                            }
                        },
                    }
                } else if fno == 5 && wt == 2 {
                    match dec_varint(d, j) {
                        None => None,
                        Some((len, j2)) => if j2 <= i || j2 + len > end {
                            None
                        } else {
                            match dec_packed_sint32(d, j2, j2 + len, m.user_sid) {
                                None => None,
                                Some(vs) => pf_denseinfo(d, j2 + len, end, SpecDenseInfo { version: m.version, timestamp: m.timestamp, changeset: m.changeset, uid: m.uid, user_sid: vs, visible: m.visible }),
                            }
                        },
                    }
                } else if fno == 6 && wt == 2 {
                    match dec_varint(d, j) {
                        None => None,
                        Some((len, j2)) => if j2 <= i || j2 + len > end {
                            None
                        } else {
                            match dec_packed_bool(d, j2, j2 + len, m.visible) {
                                None => None,
                                Some(vs) => pf_denseinfo(d, j2 + len, end, SpecDenseInfo { version: m.version, timestamp: m.timestamp, changeset: m.changeset, uid: m.uid, user_sid: m.user_sid, visible: vs }),
                            }
                        },
                    }
                } else {
                    match spec_skip(d, j, end, wt) {
                        None => None,
                        Some(k) => if k <= i {
                            None
                        } else {
                            pf_denseinfo(d, k, end, m)
                        },
                    }
                }
            },
        }
    }
}

pub open spec fn init_denseinfo() -> SpecDenseInfo {
    SpecDenseInfo { version: Seq::empty(), timestamp: Seq::empty(), changeset: Seq::empty(), uid: Seq::empty(), user_sid: Seq::empty(), visible: Seq::empty() }
}

/// What the bytes `[lo, hi)` mean as a `DenseInfo`, if anything.
pub open spec fn spec_parse_denseinfo(d: Seq<u8>, lo: int, hi: int) -> Option<SpecDenseInfo> {
    pf_denseinfo(d, lo, hi, init_denseinfo())
}

/// Parse a `DenseInfo` from `[pos, end)`.
#[verifier::rlimit(100)]
#[verifier::spinoff_prover]
pub fn parse_denseinfo(data: &[u8], pos: usize, end: usize) -> (r: Option<DenseInfo>)
    requires
        pos <= end <= data@.len(),
    ensures
        r is None ==> spec_parse_denseinfo(data@, pos as int, end as int) is None,
        r matches Some(msg) ==> spec_parse_denseinfo(data@, pos as int, end as int) == Some(msg@),
{
    let mut version: Vec<i32> = Vec::new();
    let mut timestamp: Vec<i64> = Vec::new();
    let mut changeset: Vec<i64> = Vec::new();
    let mut uid: Vec<i32> = Vec::new();
    let mut user_sid: Vec<i32> = Vec::new();
    let mut visible: Vec<bool> = Vec::new();
    let mut p = pos;
    while p < end
        invariant
            pos <= p <= end <= data@.len(),
            pf_denseinfo(
                data@,
                p as int,
                end as int,
                SpecDenseInfo {
                        version: version@,
                        timestamp: timestamp@,
                        changeset: changeset@,
                        uid: uid@,
                        user_sid: user_sid@,
                        visible: visible@,
                    },
            ) == pf_denseinfo(data@, pos as int, end as int, init_denseinfo()),
        decreases end - p,
    {
        let ghost op = p as int;
        let ghost mold = SpecDenseInfo {
                    version: version@,
                    timestamp: timestamp@,
                    changeset: changeset@,
                    uid: uid@,
                    user_sid: user_sid@,
                    visible: visible@,
                };
        let (tag, j) = match read_varint(data, p) {
            None => {
                proof {
                    assert(pf_denseinfo(data@, op, end as int, mold) is None);
                }
                return None;
            }
            Some(x) => x,
        };
        if j > end {
            proof {
                assert(pf_denseinfo(data@, op, end as int, mold) is None);
            }
            return None;
        }
        let fno = tag / 8;
        let wt = tag % 8;
        if fno == 1 && wt == 2 {
            let (len, j2) = match read_varint(data, j) {
                None => {
                    proof {
                        assert(pf_denseinfo(data@, op, end as int, mold) is None);
                    }
                    return None;
                }
                Some(x) => x,
            };
            if j2 > end || len > (end - j2) as u64 {
                proof {
                    assert(pf_denseinfo(data@, op, end as int, mold) is None);
                }
                return None;
            }
            let k = j2 + (len as usize);
            if !read_packed_i32(data, j2, k, &mut version) {
                proof {
                    assert(pf_denseinfo(data@, op, end as int, mold) is None);
                }
                return None;
            }
            p = k;
            proof {
                assert(pf_denseinfo(data@, op, end as int, mold) == pf_denseinfo(
                    data@,
                    p as int,
                    end as int,
                    SpecDenseInfo {
                            version: version@,
                            timestamp: timestamp@,
                            changeset: changeset@,
                            uid: uid@,
                            user_sid: user_sid@,
                            visible: visible@,
                        },
                ));
            }
        } else if fno == 2 && wt == 2 {
            let (len, j2) = match read_varint(data, j) {
                None => {
                    proof {
                        assert(pf_denseinfo(data@, op, end as int, mold) is None);
                    }
                    return None;
                }
                Some(x) => x,
            };
            if j2 > end || len > (end - j2) as u64 {
                proof {
                    assert(pf_denseinfo(data@, op, end as int, mold) is None);
                }
                return None;
            }
            let k = j2 + (len as usize);
            if !read_packed_sint64(data, j2, k, &mut timestamp) {
                proof {
                    assert(pf_denseinfo(data@, op, end as int, mold) is None);
                }
                return None;
            }
            p = k;
            proof {
                assert(pf_denseinfo(data@, op, end as int, mold) == pf_denseinfo(
                    data@,
                    p as int,
                    end as int,
                    SpecDenseInfo {
                            version: version@,
                            timestamp: timestamp@,
                            changeset: changeset@,
                            uid: uid@,
                            user_sid: user_sid@,
                            visible: visible@,
                        },
                ));
            }
        } else if fno == 3 && wt == 2 {
            let (len, j2) = match read_varint(data, j) {
                None => {
                    proof {
                        assert(pf_denseinfo(data@, op, end as int, mold) is None);
                    }
                    return None;
                }
                Some(x) => x,
            };
            if j2 > end || len > (end - j2) as u64 {
                proof {
                    assert(pf_denseinfo(data@, op, end as int, mold) is None);
                }
                return None;
            }
            let k = j2 + (len as usize);
            if !read_packed_sint64(data, j2, k, &mut changeset) {
                proof {
                    assert(pf_denseinfo(data@, op, end as int, mold) is None);
                }
                return None;
            }
            p = k;
            proof {
                assert(pf_denseinfo(data@, op, end as int, mold) == pf_denseinfo(
                    data@,
                    p as int,
                    end as int,
                    SpecDenseInfo {
                            version: version@,
                            timestamp: timestamp@,
                            changeset: changeset@,
                            uid: uid@,
                            user_sid: user_sid@,
                            visible: visible@,
                        },
                ));
            }
        } else if fno == 4 && wt == 2 {
            let (len, j2) = match read_varint(data, j) {
                None => {
                    proof {
                        assert(pf_denseinfo(data@, op, end as int, mold) is None);
                    }
                    return None;
                }
                Some(x) => x,
            };
            if j2 > end || len > (end - j2) as u64 {
                proof {
                    assert(pf_denseinfo(data@, op, end as int, mold) is None);
                }
                return None;
            }
            let k = j2 + (len as usize);
            if !read_packed_sint32(data, j2, k, &mut uid) {
                proof {
                    assert(pf_denseinfo(data@, op, end as int, mold) is None);
                }
                return None;
            }
            p = k;
            proof {
                assert(pf_denseinfo(data@, op, end as int, mold) == pf_denseinfo(
                    data@,
                    p as int,
                    end as int,
                    SpecDenseInfo {
                            version: version@,
                            timestamp: timestamp@,
                            changeset: changeset@,
                            uid: uid@,
                            user_sid: user_sid@,
                            visible: visible@,
                        },
                ));
            }
        } else if fno == 5 && wt == 2 {
            let (len, j2) = match read_varint(data, j) {
                None => {
                    proof {
                        assert(pf_denseinfo(data@, op, end as int, mold) is None);
                    }
                    return None;
                }
                Some(x) => x,
            };
            if j2 > end || len > (end - j2) as u64 {
                proof {
                    assert(pf_denseinfo(data@, op, end as int, mold) is None);
                }
                return None;
            }
            let k = j2 + (len as usize);
            if !read_packed_sint32(data, j2, k, &mut user_sid) {
                proof {
                    assert(pf_denseinfo(data@, op, end as int, mold) is None);
                }
                return None;
            }
            p = k;
            proof {
                assert(pf_denseinfo(data@, op, end as int, mold) == pf_denseinfo(
                    data@,
                    p as int,
                    end as int,
                    SpecDenseInfo {
                            version: version@,
                            timestamp: timestamp@,
                            changeset: changeset@,
                            uid: uid@,
                            user_sid: user_sid@,
                            visible: visible@,
                        },
                ));
            }
        } else if fno == 6 && wt == 2 {
            let (len, j2) = match read_varint(data, j) {
                None => {
                    proof {
                        assert(pf_denseinfo(data@, op, end as int, mold) is None);
                    }
                    return None;
                }
                Some(x) => x,
            };
            if j2 > end || len > (end - j2) as u64 {
                proof {
                    assert(pf_denseinfo(data@, op, end as int, mold) is None);
                }
                return None;
            }
            let k = j2 + (len as usize);
            if !read_packed_bool(data, j2, k, &mut visible) {
                proof {
                    assert(pf_denseinfo(data@, op, end as int, mold) is None);
                }
                return None;
            }
            p = k;
            proof {
                assert(pf_denseinfo(data@, op, end as int, mold) == pf_denseinfo(
                    data@,
                    p as int,
                    end as int,
                    SpecDenseInfo {
                            version: version@,
                            timestamp: timestamp@,
                            changeset: changeset@,
                            uid: uid@,
                            user_sid: user_sid@,
                            visible: visible@,
                        },
                ));
            }
        } else {
            let k = match skip_field(data, j, end, wt) {
                None => {
                    proof {
                        assert(pf_denseinfo(data@, op, end as int, mold) is None);
                    }
                    return None;
                }
                Some(k) => k,
            };
            p = k;
            proof {
                assert(pf_denseinfo(data@, op, end as int, mold) == pf_denseinfo(
                    data@,
                    p as int,
                    end as int,
                    SpecDenseInfo {
                            version: version@,
                            timestamp: timestamp@,
                            changeset: changeset@,
                            uid: uid@,
                            user_sid: user_sid@,
                            visible: visible@,
                        },
                ));
            }
        }
    }
    proof {
        assert(pf_denseinfo(
            data@,
            p as int,
            end as int,
            SpecDenseInfo {
                    version: version@,
                    timestamp: timestamp@,
                    changeset: changeset@,
                    uid: uid@,
                    user_sid: user_sid@,
                    visible: visible@,
                },
        ) == Some(SpecDenseInfo {
                    version: version@,
                    timestamp: timestamp@,
                    changeset: changeset@,
                    uid: uid@,
                    user_sid: user_sid@,
                    visible: visible@,
                }));
    }
    Some(DenseInfo { version, timestamp, changeset, uid, user_sid, visible })
}

#[derive(Clone, Debug)]
pub struct DenseNodes {
    pub id: Vec<i64>,
    pub denseinfo: Option<DenseInfo>,
    pub lat: Vec<i64>,
    pub lon: Vec<i64>,
    pub keys_vals: Vec<i32>,
}

/// Mathematical image of a `DenseNodes`.
pub struct SpecDenseNodes {
    pub id: Seq<i64>,
    pub denseinfo: Option<SpecDenseInfo>,
    pub lat: Seq<i64>,
    pub lon: Seq<i64>,
    pub keys_vals: Seq<i32>,
}

impl View for DenseNodes {
    type V = SpecDenseNodes;

    open spec fn view(&self) -> SpecDenseNodes {
        SpecDenseNodes {
            id: self.id@,
            denseinfo: opt_view(self.denseinfo),
            lat: self.lat@,
            lon: self.lon@,
            keys_vals: self.keys_vals@,
        }
    }
}

/// One pass of the `DenseNodes` field loop over `[i, end)`.
pub open spec fn pf_densenodes(d: Seq<u8>, i: int, end: int, m: SpecDenseNodes) -> Option<SpecDenseNodes>
    decreases end - i,
{
    if i < 0 || i > end || end > d.len() {
        None
    } else if i == end {
        Some(m)
    } else {
        match dec_varint(d, i) {
            None => None,
            Some((tag, j)) => if j <= i || j > end {
                None
            } else {
                let fno = tag / 8;
                let wt = tag % 8;
                if fno == 1 && wt == 2 {
                    match dec_varint(d, j) {
                        None => None,
                        Some((len, j2)) => if j2 <= i || j2 + len > end {
                            None
                        } else {
                            match dec_packed_sint64(d, j2, j2 + len, m.id) {
                                None => None,
                                Some(vs) => pf_densenodes(d, j2 + len, end, SpecDenseNodes { id: vs, denseinfo: m.denseinfo, lat: m.lat, lon: m.lon, keys_vals: m.keys_vals }),
                            }
                        },
                    }
                } else if fno == 5 && wt == 2 {
                    match dec_varint(d, j) {
                        None => None,
                        Some((len, j2)) => if j2 <= i || j2 + len > end {
                            None
                        } else {
                            match spec_parse_denseinfo(d, j2, j2 + len) {
                                None => None,
                                Some(sub) => pf_densenodes(d, j2 + len, end, SpecDenseNodes { id: m.id, denseinfo: Some(sub), lat: m.lat, lon: m.lon, keys_vals: m.keys_vals }),
                            }
                        },
                    }
                } else if fno == 8 && wt == 2 {
                    match dec_varint(d, j) {
                        None => None,
                        Some((len, j2)) => if j2 <= i || j2 + len > end {
                            None
                        } else {
                            match dec_packed_sint64(d, j2, j2 + len, m.lat) {
                                None => None,
                                Some(vs) => pf_densenodes(d, j2 + len, end, SpecDenseNodes { id: m.id, denseinfo: m.denseinfo, lat: vs, lon: m.lon, keys_vals: m.keys_vals }),
                            }
                        },
                    }
                } else if fno == 9 && wt == 2 {
                    match dec_varint(d, j) {
                        None => None,
                        Some((len, j2)) => if j2 <= i || j2 + len > end {
                            None
                        } else {
                            match dec_packed_sint64(d, j2, j2 + len, m.lon) {
                                None => None,
                                Some(vs) => pf_densenodes(d, j2 + len, end, SpecDenseNodes { id: m.id, denseinfo: m.denseinfo, lat: m.lat, lon: vs, keys_vals: m.keys_vals }),
                            }
                        },
                    }
                } else if fno == 10 && wt == 2 {
                    match dec_varint(d, j) {
                        None => None,
                        Some((len, j2)) => if j2 <= i || j2 + len > end {
                            None
                        } else {
                            match dec_packed_i32(d, j2, j2 + len, m.keys_vals) {
                                None => None,
                                Some(vs) => pf_densenodes(d, j2 + len, end, SpecDenseNodes { id: m.id, denseinfo: m.denseinfo, lat: m.lat, lon: m.lon, keys_vals: vs }),
                            }
                        },
                    }
                } else {
                    match spec_skip(d, j, end, wt) {
                        None => None,
                        Some(k) => if k <= i {
                            None
                        } else {
                            pf_densenodes(d, k, end, m)
                        },
                    }
                }
            },
        }
    }
}

pub open spec fn init_densenodes() -> SpecDenseNodes {
    SpecDenseNodes { id: Seq::empty(), denseinfo: None, lat: Seq::empty(), lon: Seq::empty(), keys_vals: Seq::empty() }
}

/// What the bytes `[lo, hi)` mean as a `DenseNodes`, if anything.
pub open spec fn spec_parse_densenodes(d: Seq<u8>, lo: int, hi: int) -> Option<SpecDenseNodes> {
    pf_densenodes(d, lo, hi, init_densenodes())
}

/// Parse a `DenseNodes` from `[pos, end)`.
#[verifier::rlimit(100)]
#[verifier::spinoff_prover]
pub fn parse_densenodes(data: &[u8], pos: usize, end: usize) -> (r: Option<DenseNodes>)
    requires
        pos <= end <= data@.len(),
    ensures
        r is None ==> spec_parse_densenodes(data@, pos as int, end as int) is None,
        r matches Some(msg) ==> spec_parse_densenodes(data@, pos as int, end as int) == Some(msg@),
{
    let mut id: Vec<i64> = Vec::new();
    let mut denseinfo: Option<DenseInfo> = None;
    let mut lat: Vec<i64> = Vec::new();
    let mut lon: Vec<i64> = Vec::new();
    let mut keys_vals: Vec<i32> = Vec::new();
    let mut p = pos;
    while p < end
        invariant
            pos <= p <= end <= data@.len(),
            pf_densenodes(
                data@,
                p as int,
                end as int,
                SpecDenseNodes {
                        id: id@,
                        denseinfo: opt_view(denseinfo),
                        lat: lat@,
                        lon: lon@,
                        keys_vals: keys_vals@,
                    },
            ) == pf_densenodes(data@, pos as int, end as int, init_densenodes()),
        decreases end - p,
    {
        let ghost op = p as int;
        let ghost mold = SpecDenseNodes {
                    id: id@,
                    denseinfo: opt_view(denseinfo),
                    lat: lat@,
                    lon: lon@,
                    keys_vals: keys_vals@,
                };
        let (tag, j) = match read_varint(data, p) {
            None => {
                proof {
                    assert(pf_densenodes(data@, op, end as int, mold) is None);
                }
                return None;
            }
            Some(x) => x,
        };
        if j > end {
            proof {
                assert(pf_densenodes(data@, op, end as int, mold) is None);
            }
            return None;
        }
        let fno = tag / 8;
        let wt = tag % 8;
        if fno == 1 && wt == 2 {
            let (len, j2) = match read_varint(data, j) {
                None => {
                    proof {
                        assert(pf_densenodes(data@, op, end as int, mold) is None);
                    }
                    return None;
                }
                Some(x) => x,
            };
            if j2 > end || len > (end - j2) as u64 {
                proof {
                    assert(pf_densenodes(data@, op, end as int, mold) is None);
                }
                return None;
            }
            let k = j2 + (len as usize);
            if !read_packed_sint64(data, j2, k, &mut id) {
                proof {
                    assert(pf_densenodes(data@, op, end as int, mold) is None);
                }
                return None;
            }
            p = k;
            proof {
                assert(pf_densenodes(data@, op, end as int, mold) == pf_densenodes(
                    data@,
                    p as int,
                    end as int,
                    SpecDenseNodes {
                            id: id@,
                            denseinfo: opt_view(denseinfo),
                            lat: lat@,
                            lon: lon@,
                            keys_vals: keys_vals@,
                        },
                ));
            }
        } else if fno == 5 && wt == 2 {
            let (len, j2) = match read_varint(data, j) {
                None => {
                    proof {
                        assert(pf_densenodes(data@, op, end as int, mold) is None);
                    }
                    return None;
                }
                Some(x) => x,
            };
            if j2 > end || len > (end - j2) as u64 {
                proof {
                    assert(pf_densenodes(data@, op, end as int, mold) is None);
                }
                return None;
            }
            let k = j2 + (len as usize);
            let sub = match parse_denseinfo(data, j2, k) {
                None => {
                    proof {
                        assert(pf_densenodes(data@, op, end as int, mold) is None);
                    }
                    return None;
                }
                Some(x) => x,
            };
            denseinfo = Some(sub);
            p = k;
            proof {
                assert(pf_densenodes(data@, op, end as int, mold) == pf_densenodes(
                    data@,
                    p as int,
                    end as int,
                    SpecDenseNodes {
                            id: id@,
                            denseinfo: opt_view(denseinfo),
                            lat: lat@,
                            lon: lon@,
                            keys_vals: keys_vals@,
                        },
                ));
            }
        } else if fno == 8 && wt == 2 {
            let (len, j2) = match read_varint(data, j) {
                None => {
                    proof {
                        assert(pf_densenodes(data@, op, end as int, mold) is None);
                    }
                    return None;
                }
                Some(x) => x,
            };
            if j2 > end || len > (end - j2) as u64 {
                proof {
                    assert(pf_densenodes(data@, op, end as int, mold) is None);
                }
                return None;
            }
            let k = j2 + (len as usize);
            if !read_packed_sint64(data, j2, k, &mut lat) {
                proof {
                    assert(pf_densenodes(data@, op, end as int, mold) is None);
                }
                return None;
            }
            p = k;
            proof {
                assert(pf_densenodes(data@, op, end as int, mold) == pf_densenodes(
                    data@,
                    p as int,
                    end as int,
                    SpecDenseNodes {
                            id: id@,
                            denseinfo: opt_view(denseinfo),
                            lat: lat@,
                            lon: lon@,
                            keys_vals: keys_vals@,
                        },
                ));
            }
        } else if fno == 9 && wt == 2 {
            let (len, j2) = match read_varint(data, j) {
                None => {
                    proof {
                        assert(pf_densenodes(data@, op, end as int, mold) is None);
                    }
                    return None;
                }
                Some(x) => x,
            };
            if j2 > end || len > (end - j2) as u64 {
                proof {
                    assert(pf_densenodes(data@, op, end as int, mold) is None);
                }
                return None;
            }
            let k = j2 + (len as usize);
            if !read_packed_sint64(data, j2, k, &mut lon) {
                proof {
                    assert(pf_densenodes(data@, op, end as int, mold) is None);
                }
                return None;
            }
            p = k;
            proof {
                assert(pf_densenodes(data@, op, end as int, mold) == pf_densenodes(
                    data@,
                    p as int,
                    end as int,
                    SpecDenseNodes {
                            id: id@,
                            denseinfo: opt_view(denseinfo),
                            lat: lat@,
                            lon: lon@,
                            keys_vals: keys_vals@,
                        },
                ));
            }
        } else if fno == 10 && wt == 2 {
            let (len, j2) = match read_varint(data, j) {
                None => {
                    proof {
                        assert(pf_densenodes(data@, op, end as int, mold) is None);
                    }
                    return None;
                }
                Some(x) => x,
            };
            if j2 > end || len > (end - j2) as u64 {
                proof {
                    assert(pf_densenodes(data@, op, end as int, mold) is None);
                }
                return None;
            }
            let k = j2 + (len as usize);
            if !read_packed_i32(data, j2, k, &mut keys_vals) {
                proof {
                    assert(pf_densenodes(data@, op, end as int, mold) is None);
                }
                return None;
            }
            p = k;
            proof {
                assert(pf_densenodes(data@, op, end as int, mold) == pf_densenodes(
                    data@,
                    p as int,
                    end as int,
                    SpecDenseNodes {
                            id: id@,
                            denseinfo: opt_view(denseinfo),
                            lat: lat@,
                            lon: lon@,
                            keys_vals: keys_vals@,
                        },
                ));
            }
        } else {
            let k = match skip_field(data, j, end, wt) {
                None => {
                    proof {
                        assert(pf_densenodes(data@, op, end as int, mold) is None);
                    }
                    return None;
                }
                Some(k) => k,
            };
            p = k;
            proof {
                assert(pf_densenodes(data@, op, end as int, mold) == pf_densenodes(
                    data@,
                    p as int,
                    end as int,
                    SpecDenseNodes {
                            id: id@,
                            denseinfo: opt_view(denseinfo),
                            lat: lat@,
                            lon: lon@,
                            keys_vals: keys_vals@,
                        },
                ));
            }
        }
    }
    proof {
        assert(pf_densenodes(
            data@,
            p as int,
            end as int,
            SpecDenseNodes {
                    id: id@,
                    denseinfo: opt_view(denseinfo),
                    lat: lat@,
                    lon: lon@,
                    keys_vals: keys_vals@,
                },
        ) == Some(SpecDenseNodes {
                    id: id@,
                    denseinfo: opt_view(denseinfo),
                    lat: lat@,
                    lon: lon@,
                    keys_vals: keys_vals@,
                }));
    }
    Some(DenseNodes { id, denseinfo, lat, lon, keys_vals })
}

#[derive(Clone, Debug)]
pub struct Node {
    pub id: Option<i64>,
    pub keys: Vec<u32>,
    pub vals: Vec<u32>,
    pub info: Option<Info>,
    pub lat: Option<i64>,
    pub lon: Option<i64>,
}

/// Mathematical image of a `Node`.
pub struct SpecNode {
    pub id: Option<i64>,
    pub keys: Seq<u32>,
    pub vals: Seq<u32>,
    pub info: Option<Info>,
    pub lat: Option<i64>,
    pub lon: Option<i64>,
}

impl View for Node {
    type V = SpecNode;

    open spec fn view(&self) -> SpecNode {
        SpecNode {
            id: self.id,
            keys: self.keys@,
            vals: self.vals@,
            info: opt_view(self.info),
            lat: self.lat,
            lon: self.lon,
        }
    }
}

/// One pass of the `Node` field loop over `[i, end)`.
pub open spec fn pf_node(d: Seq<u8>, i: int, end: int, m: SpecNode) -> Option<SpecNode>
    decreases end - i,
{
    if i < 0 || i > end || end > d.len() {
        None
    } else if i == end {
        Some(m)
    } else {
        match dec_varint(d, i) {
            None => None,
            Some((tag, j)) => if j <= i || j > end {
                None
            } else {
                let fno = tag / 8;
                let wt = tag % 8;
                if fno == 1 && wt == 0 {
                    match dec_varint(d, j) {
                        None => None,
                        Some((v, k)) => if k <= i || k > end {
                            None
                        } else {
                            pf_node(d, k, end, SpecNode { id: Some(zigzag_dec(v)), keys: m.keys, vals: m.vals, info: m.info, lat: m.lat, lon: m.lon })
                        },
                    }
                } else if fno == 2 && wt == 2 {
                    match dec_varint(d, j) {
                        None => None,
                        Some((len, j2)) => if j2 <= i || j2 + len > end {
                            None
                        } else {
                            match dec_packed_u32(d, j2, j2 + len, m.keys) {
                                None => None,
                                Some(vs) => pf_node(d, j2 + len, end, SpecNode { id: m.id, keys: vs, vals: m.vals, info: m.info, lat: m.lat, lon: m.lon }),
                            }
                        },
                    }
                } else if fno == 3 && wt == 2 {
                    match dec_varint(d, j) {
                        None => None,
                        Some((len, j2)) => if j2 <= i || j2 + len > end {
                            None
                        } else {
                            match dec_packed_u32(d, j2, j2 + len, m.vals) {
                                None => None,
                                Some(vs) => pf_node(d, j2 + len, end, SpecNode { id: m.id, keys: m.keys, vals: vs, info: m.info, lat: m.lat, lon: m.lon }),
                            }
                        },
                    }
                } else if fno == 4 && wt == 2 {
                    match dec_varint(d, j) {
                        None => None,
                        Some((len, j2)) => if j2 <= i || j2 + len > end {
                            None
                        } else {
                            match spec_parse_info(d, j2, j2 + len) {
                                None => None,
                                Some(sub) => pf_node(d, j2 + len, end, SpecNode { id: m.id, keys: m.keys, vals: m.vals, info: Some(sub), lat: m.lat, lon: m.lon }),
                            }
                        },
                    }
                } else if fno == 8 && wt == 0 {
                    match dec_varint(d, j) {
                        None => None,
                        Some((v, k)) => if k <= i || k > end {
                            None
                        } else {
                            pf_node(d, k, end, SpecNode { id: m.id, keys: m.keys, vals: m.vals, info: m.info, lat: Some(zigzag_dec(v)), lon: m.lon })
                        },
                    }
                } else if fno == 9 && wt == 0 {
                    match dec_varint(d, j) {
                        None => None,
                        Some((v, k)) => if k <= i || k > end {
                            None
                        } else {
                            pf_node(d, k, end, SpecNode { id: m.id, keys: m.keys, vals: m.vals, info: m.info, lat: m.lat, lon: Some(zigzag_dec(v)) })
                        },
                    }
                } else {
                    match spec_skip(d, j, end, wt) {
                        None => None,
                        Some(k) => if k <= i {
                            None
                        } else {
                            pf_node(d, k, end, m)
                        },
                    }
                }
            },
        }
    }
}

pub open spec fn init_node() -> SpecNode {
    SpecNode { id: None, keys: Seq::empty(), vals: Seq::empty(), info: None, lat: None, lon: None }
}

/// What the bytes `[lo, hi)` mean as a `Node`, if anything.
pub open spec fn spec_parse_node(d: Seq<u8>, lo: int, hi: int) -> Option<SpecNode> {
    pf_node(d, lo, hi, init_node())
}

/// Parse a `Node` from `[pos, end)`.
#[verifier::rlimit(100)]
#[verifier::spinoff_prover]
pub fn parse_node(data: &[u8], pos: usize, end: usize) -> (r: Option<Node>)
    requires
        pos <= end <= data@.len(),
    ensures
        r is None ==> spec_parse_node(data@, pos as int, end as int) is None,
        r matches Some(msg) ==> spec_parse_node(data@, pos as int, end as int) == Some(msg@),
{
    let mut id: Option<i64> = None;
    let mut keys: Vec<u32> = Vec::new();
    let mut vals: Vec<u32> = Vec::new();
    let mut info: Option<Info> = None;
    let mut lat: Option<i64> = None;
    let mut lon: Option<i64> = None;
    let mut p = pos;
    while p < end
        invariant
            pos <= p <= end <= data@.len(),
            pf_node(
                data@,
                p as int,
                end as int,
                SpecNode {
                        id: id,
                        keys: keys@,
                        vals: vals@,
                        info: opt_view(info),
                        lat: lat,
                        lon: lon,
                    },
            ) == pf_node(data@, pos as int, end as int, init_node()),
        decreases end - p,
    {
        let ghost op = p as int;
        let ghost mold = SpecNode {
                    id: id,
                    keys: keys@,
                    vals: vals@,
                    info: opt_view(info),
                    lat: lat,
                    lon: lon,
                };
        let (tag, j) = match read_varint(data, p) {
            None => {
                proof {
                    assert(pf_node(data@, op, end as int, mold) is None);
                }
                return None;
            }
            Some(x) => x,
        };
        if j > end {
            proof {
                assert(pf_node(data@, op, end as int, mold) is None);
            }
            return None;
        }
        let fno = tag / 8;
        let wt = tag % 8;
        if fno == 1 && wt == 0 {
            let (v, k) = match read_varint(data, j) {
                None => {
                    proof {
                        assert(pf_node(data@, op, end as int, mold) is None);
                    }
                    return None;
                }
                Some(x) => x,
            };
            if k > end {
                proof {
                assert(pf_node(data@, op, end as int, mold) is None);
                }
                return None;
            }
            id = Some(zigzag_decode(v));
            p = k;
            proof {
                assert(pf_node(data@, op, end as int, mold) == pf_node(
                    data@,
                    p as int,
                    end as int,
                    SpecNode {
                            id: id,
                            keys: keys@,
                            vals: vals@,
                            info: opt_view(info),
                            lat: lat,
                            lon: lon,
                        },
                ));
            }
        } else if fno == 2 && wt == 2 {
            let (len, j2) = match read_varint(data, j) {
                None => {
                    proof {
                        assert(pf_node(data@, op, end as int, mold) is None);
                    }
                    return None;
                }
                Some(x) => x,
            };
            if j2 > end || len > (end - j2) as u64 {
                proof {
                    assert(pf_node(data@, op, end as int, mold) is None);
                }
                return None;
            }
            let k = j2 + (len as usize);
            if !read_packed_u32(data, j2, k, &mut keys) {
                proof {
                    assert(pf_node(data@, op, end as int, mold) is None);
                }
                return None;
            }
            p = k;
            proof {
                assert(pf_node(data@, op, end as int, mold) == pf_node(
                    data@,
                    p as int,
                    end as int,
                    SpecNode {
                            id: id,
                            keys: keys@,
                            vals: vals@,
                            info: opt_view(info),
                            lat: lat,
                            lon: lon,
                        },
                ));
            }
        } else if fno == 3 && wt == 2 {
            let (len, j2) = match read_varint(data, j) {
                None => {
                    proof {
                        assert(pf_node(data@, op, end as int, mold) is None);
                    }
                    return None;
                }
                Some(x) => x,
            };
            if j2 > end || len > (end - j2) as u64 {
                proof {
                    assert(pf_node(data@, op, end as int, mold) is None);
                }
                return None;
            }
            let k = j2 + (len as usize);
            if !read_packed_u32(data, j2, k, &mut vals) {
                proof {
                    assert(pf_node(data@, op, end as int, mold) is None);
                }
                return None;
            }
            p = k;
            proof {
                assert(pf_node(data@, op, end as int, mold) == pf_node(
                    data@,
                    p as int,
                    end as int,
                    SpecNode {
                            id: id,
                            keys: keys@,
                            vals: vals@,
                            info: opt_view(info),
                            lat: lat,
                            lon: lon,
                        },
                ));
            }
        } else if fno == 4 && wt == 2 {
            let (len, j2) = match read_varint(data, j) {
                None => {
                    proof {
                        assert(pf_node(data@, op, end as int, mold) is None);
                    }
                    return None;
                }
                Some(x) => x,
            };
            if j2 > end || len > (end - j2) as u64 {
                proof {
                    assert(pf_node(data@, op, end as int, mold) is None);
                }
                return None;
            }
            let k = j2 + (len as usize);
            let sub = match parse_info(data, j2, k) {
                None => {
                    proof {
                        assert(pf_node(data@, op, end as int, mold) is None);
                    }
                    return None;
                }
                Some(x) => x,
            };
            info = Some(sub);
            p = k;
            proof {
                assert(pf_node(data@, op, end as int, mold) == pf_node(
                    data@,
                    p as int,
                    end as int,
                    SpecNode {
                            id: id,
                            keys: keys@,
                            vals: vals@,
                            info: opt_view(info),
                            lat: lat,
                            lon: lon,
                        },
                ));
            }
        } else if fno == 8 && wt == 0 {
            let (v, k) = match read_varint(data, j) {
                None => {
                    proof {
                        assert(pf_node(data@, op, end as int, mold) is None);
                    }
                    return None;
                }
                Some(x) => x,
            };
            if k > end {
                proof {
                assert(pf_node(data@, op, end as int, mold) is None);
                }
                return None;
            }
            lat = Some(zigzag_decode(v));
            p = k;
            proof {
                assert(pf_node(data@, op, end as int, mold) == pf_node(
                    data@,
                    p as int,
                    end as int,
                    SpecNode {
                            id: id,
                            keys: keys@,
                            vals: vals@,
                            info: opt_view(info),
                            lat: lat,
                            lon: lon,
                        },
                ));
            }
        } else if fno == 9 && wt == 0 {
            let (v, k) = match read_varint(data, j) {
                None => {
                    proof {
                        assert(pf_node(data@, op, end as int, mold) is None);
                    }
                    return None;
                }
                Some(x) => x,
            };
            if k > end {
                proof {
                assert(pf_node(data@, op, end as int, mold) is None);
                }
                return None;
            }
            lon = Some(zigzag_decode(v));
            p = k;
            proof {
                assert(pf_node(data@, op, end as int, mold) == pf_node(
                    data@,
                    p as int,
                    end as int,
                    SpecNode {
                            id: id,
                            keys: keys@,
                            vals: vals@,
                            info: opt_view(info),
                            lat: lat,
                            lon: lon,
                        },
                ));
            }
        } else {
            let k = match skip_field(data, j, end, wt) {
                None => {
                    proof {
                        assert(pf_node(data@, op, end as int, mold) is None);
                    }
                    return None;
                }
                Some(k) => k,
            };
            p = k;
            proof {
                assert(pf_node(data@, op, end as int, mold) == pf_node(
                    data@,
                    p as int,
                    end as int,
                    SpecNode {
                            id: id,
                            keys: keys@,
                            vals: vals@,
                            info: opt_view(info),
                            lat: lat,
                            lon: lon,
                        },
                ));
            }
        }
    }
    proof {
        assert(pf_node(
            data@,
            p as int,
            end as int,
            SpecNode {
                    id: id,
                    keys: keys@,
                    vals: vals@,
                    info: opt_view(info),
                    lat: lat,
                    lon: lon,
                },
        ) == Some(SpecNode {
                    id: id,
                    keys: keys@,
                    vals: vals@,
                    info: opt_view(info),
                    lat: lat,
                    lon: lon,
                }));
    }
    Some(Node { id, keys, vals, info, lat, lon })
}

#[derive(Clone, Debug)]
pub struct Way {
    pub id: Option<i64>,
    pub keys: Vec<u32>,
    pub vals: Vec<u32>,
    pub info: Option<Info>,
    pub refs: Vec<i64>,
    pub lat: Vec<i64>,
    pub lon: Vec<i64>,
}

/// Mathematical image of a `Way`.
pub struct SpecWay {
    pub id: Option<i64>,
    pub keys: Seq<u32>,
    pub vals: Seq<u32>,
    pub info: Option<Info>,
    pub refs: Seq<i64>,
    pub lat: Seq<i64>,
    pub lon: Seq<i64>,
}

impl View for Way {
    type V = SpecWay;

    open spec fn view(&self) -> SpecWay {
        SpecWay {
            id: self.id,
            keys: self.keys@,
            vals: self.vals@,
            info: opt_view(self.info),
            refs: self.refs@,
            lat: self.lat@,
            lon: self.lon@,
        }
    }
}

/// One pass of the `Way` field loop over `[i, end)`.
pub open spec fn pf_way(d: Seq<u8>, i: int, end: int, m: SpecWay) -> Option<SpecWay>
    decreases end - i,
{
    if i < 0 || i > end || end > d.len() {
        None
    } else if i == end {
        Some(m)
    } else {
        match dec_varint(d, i) {
            None => None,
            Some((tag, j)) => if j <= i || j > end {
                None
            } else {
                let fno = tag / 8;
                let wt = tag % 8;
                if fno == 1 && wt == 0 {
                    match dec_varint(d, j) {
                        None => None,
                        Some((v, k)) => if k <= i || k > end {
                            None
                        } else {
                            pf_way(d, k, end, SpecWay { id: Some(u64_to_i64(v)), keys: m.keys, vals: m.vals, info: m.info, refs: m.refs, lat: m.lat, lon: m.lon })
                        },
                    }
                } else if fno == 2 && wt == 2 {
                    match dec_varint(d, j) {
                        None => None,
                        Some((len, j2)) => if j2 <= i || j2 + len > end {
                            None
                        } else {
                            match dec_packed_u32(d, j2, j2 + len, m.keys) {
                                None => None,
                                Some(vs) => pf_way(d, j2 + len, end, SpecWay { id: m.id, keys: vs, vals: m.vals, info: m.info, refs: m.refs, lat: m.lat, lon: m.lon }),
                            }
                        },
                    }
                } else if fno == 3 && wt == 2 {
                    match dec_varint(d, j) {
                        None => None,
                        Some((len, j2)) => if j2 <= i || j2 + len > end {
                            None
                        } else {
                            match dec_packed_u32(d, j2, j2 + len, m.vals) {
                                None => None,
                                Some(vs) => pf_way(d, j2 + len, end, SpecWay { id: m.id, keys: m.keys, vals: vs, info: m.info, refs: m.refs, lat: m.lat, lon: m.lon }),
                            }
                        },
                    }
                } else if fno == 4 && wt == 2 {
                    match dec_varint(d, j) {
                        None => None,
                        Some((len, j2)) => if j2 <= i || j2 + len > end {
                            None
                        } else {
                            match spec_parse_info(d, j2, j2 + len) {
                                None => None,
                                Some(sub) => pf_way(d, j2 + len, end, SpecWay { id: m.id, keys: m.keys, vals: m.vals, info: Some(sub), refs: m.refs, lat: m.lat, lon: m.lon }),
                            }
                        },
                    }
                } else if fno == 8 && wt == 2 {
                    match dec_varint(d, j) {
                        None => None,
                        Some((len, j2)) => if j2 <= i || j2 + len > end {
                            None
                        } else {
                            match dec_packed_sint64(d, j2, j2 + len, m.refs) {
                                None => None,
                                Some(vs) => pf_way(d, j2 + len, end, SpecWay { id: m.id, keys: m.keys, vals: m.vals, info: m.info, refs: vs, lat: m.lat, lon: m.lon }),
                            }
                        },
                    }
                } else if fno == 9 && wt == 2 {
                    match dec_varint(d, j) {
                        None => None,
                        Some((len, j2)) => if j2 <= i || j2 + len > end {
                            None
                        } else {
                            match dec_packed_sint64(d, j2, j2 + len, m.lat) {
                                None => None,
                                Some(vs) => pf_way(d, j2 + len, end, SpecWay { id: m.id, keys: m.keys, vals: m.vals, info: m.info, refs: m.refs, lat: vs, lon: m.lon }),
                            }
                        },
                    }
                } else if fno == 10 && wt == 2 {
                    match dec_varint(d, j) {
                        None => None,
                        Some((len, j2)) => if j2 <= i || j2 + len > end {
                            None
                        } else {
                            match dec_packed_sint64(d, j2, j2 + len, m.lon) {
                                None => None,
                                Some(vs) => pf_way(d, j2 + len, end, SpecWay { id: m.id, keys: m.keys, vals: m.vals, info: m.info, refs: m.refs, lat: m.lat, lon: vs }),
                            }
                        },
                    }
                } else {
                    match spec_skip(d, j, end, wt) {
                        None => None,
                        Some(k) => if k <= i {
                            None
                        } else {
                            pf_way(d, k, end, m)
                        },
                    }
                }
            },
        }
    }
}

pub open spec fn init_way() -> SpecWay {
    SpecWay { id: None, keys: Seq::empty(), vals: Seq::empty(), info: None, refs: Seq::empty(), lat: Seq::empty(), lon: Seq::empty() }
}

/// What the bytes `[lo, hi)` mean as a `Way`, if anything.
pub open spec fn spec_parse_way(d: Seq<u8>, lo: int, hi: int) -> Option<SpecWay> {
    pf_way(d, lo, hi, init_way())
}

/// Parse a `Way` from `[pos, end)`.
#[verifier::rlimit(100)]
#[verifier::spinoff_prover]
pub fn parse_way(data: &[u8], pos: usize, end: usize) -> (r: Option<Way>)
    requires
        pos <= end <= data@.len(),
    ensures
        r is None ==> spec_parse_way(data@, pos as int, end as int) is None,
        r matches Some(msg) ==> spec_parse_way(data@, pos as int, end as int) == Some(msg@),
{
    let mut id: Option<i64> = None;
    let mut keys: Vec<u32> = Vec::new();
    let mut vals: Vec<u32> = Vec::new();
    let mut info: Option<Info> = None;
    let mut refs: Vec<i64> = Vec::new();
    let mut lat: Vec<i64> = Vec::new();
    let mut lon: Vec<i64> = Vec::new();
    let mut p = pos;
    while p < end
        invariant
            pos <= p <= end <= data@.len(),
            pf_way(
                data@,
                p as int,
                end as int,
                SpecWay {
                        id: id,
                        keys: keys@,
                        vals: vals@,
                        info: opt_view(info),
                        refs: refs@,
                        lat: lat@,
                        lon: lon@,
                    },
            ) == pf_way(data@, pos as int, end as int, init_way()),
        decreases end - p,
    {
        let ghost op = p as int;
        let ghost mold = SpecWay {
                    id: id,
                    keys: keys@,
                    vals: vals@,
                    info: opt_view(info),
                    refs: refs@,
                    lat: lat@,
                    lon: lon@,
                };
        let (tag, j) = match read_varint(data, p) {
            None => {
                proof {
                    assert(pf_way(data@, op, end as int, mold) is None);
                }
                return None;
            }
            Some(x) => x,
        };
        if j > end {
            proof {
                assert(pf_way(data@, op, end as int, mold) is None);
            }
            return None;
        }
        let fno = tag / 8;
        let wt = tag % 8;
        if fno == 1 && wt == 0 {
            let (v, k) = match read_varint(data, j) {
                None => {
                    proof {
                        assert(pf_way(data@, op, end as int, mold) is None);
                    }
                    return None;
                }
                Some(x) => x,
            };
            if k > end {
                proof {
                assert(pf_way(data@, op, end as int, mold) is None);
                }
                return None;
            }
            id = Some(varint_to_i64(v));
            p = k;
            proof {
                assert(pf_way(data@, op, end as int, mold) == pf_way(
                    data@,
                    p as int,
                    end as int,
                    SpecWay {
                            id: id,
                            keys: keys@,
                            vals: vals@,
                            info: opt_view(info),
                            refs: refs@,
                            lat: lat@,
                            lon: lon@,
                        },
                ));
            }
        } else if fno == 2 && wt == 2 {
            let (len, j2) = match read_varint(data, j) {
                None => {
                    proof {
                        assert(pf_way(data@, op, end as int, mold) is None);
                    }
                    return None;
                }
                Some(x) => x,
            };
            if j2 > end || len > (end - j2) as u64 {
                proof {
                    assert(pf_way(data@, op, end as int, mold) is None);
                }
                return None;
            }
            let k = j2 + (len as usize);
            if !read_packed_u32(data, j2, k, &mut keys) {
                proof {
                    assert(pf_way(data@, op, end as int, mold) is None);
                }
                return None;
            }
            p = k;
            proof {
                assert(pf_way(data@, op, end as int, mold) == pf_way(
                    data@,
                    p as int,
                    end as int,
                    SpecWay {
                            id: id,
                            keys: keys@,
                            vals: vals@,
                            info: opt_view(info),
                            refs: refs@,
                            lat: lat@,
                            lon: lon@,
                        },
                ));
            }
        } else if fno == 3 && wt == 2 {
            let (len, j2) = match read_varint(data, j) {
                None => {
                    proof {
                        assert(pf_way(data@, op, end as int, mold) is None);
                    }
                    return None;
                }
                Some(x) => x,
            };
            if j2 > end || len > (end - j2) as u64 {
                proof {
                    assert(pf_way(data@, op, end as int, mold) is None);
                }
                return None;
            }
            let k = j2 + (len as usize);
            if !read_packed_u32(data, j2, k, &mut vals) {
                proof {
                    assert(pf_way(data@, op, end as int, mold) is None);
                }
                return None;
            }
            p = k;
            proof {
                assert(pf_way(data@, op, end as int, mold) == pf_way(
                    data@,
                    p as int,
                    end as int,
                    SpecWay {
                            id: id,
                            keys: keys@,
                            vals: vals@,
                            info: opt_view(info),
                            refs: refs@,
                            lat: lat@,
                            lon: lon@,
                        },
                ));
            }
        } else if fno == 4 && wt == 2 {
            let (len, j2) = match read_varint(data, j) {
                None => {
                    proof {
                        assert(pf_way(data@, op, end as int, mold) is None);
                    }
                    return None;
                }
                Some(x) => x,
            };
            if j2 > end || len > (end - j2) as u64 {
                proof {
                    assert(pf_way(data@, op, end as int, mold) is None);
                }
                return None;
            }
            let k = j2 + (len as usize);
            let sub = match parse_info(data, j2, k) {
                None => {
                    proof {
                        assert(pf_way(data@, op, end as int, mold) is None);
                    }
                    return None;
                }
                Some(x) => x,
            };
            info = Some(sub);
            p = k;
            proof {
                assert(pf_way(data@, op, end as int, mold) == pf_way(
                    data@,
                    p as int,
                    end as int,
                    SpecWay {
                            id: id,
                            keys: keys@,
                            vals: vals@,
                            info: opt_view(info),
                            refs: refs@,
                            lat: lat@,
                            lon: lon@,
                        },
                ));
            }
        } else if fno == 8 && wt == 2 {
            let (len, j2) = match read_varint(data, j) {
                None => {
                    proof {
                        assert(pf_way(data@, op, end as int, mold) is None);
                    }
                    return None;
                }
                Some(x) => x,
            };
            if j2 > end || len > (end - j2) as u64 {
                proof {
                    assert(pf_way(data@, op, end as int, mold) is None);
                }
                return None;
            }
            let k = j2 + (len as usize);
            if !read_packed_sint64(data, j2, k, &mut refs) {
                proof {
                    assert(pf_way(data@, op, end as int, mold) is None);
                }
                return None;
            }
            p = k;
            proof {
                assert(pf_way(data@, op, end as int, mold) == pf_way(
                    data@,
                    p as int,
                    end as int,
                    SpecWay {
                            id: id,
                            keys: keys@,
                            vals: vals@,
                            info: opt_view(info),
                            refs: refs@,
                            lat: lat@,
                            lon: lon@,
                        },
                ));
            }
        } else if fno == 9 && wt == 2 {
            let (len, j2) = match read_varint(data, j) {
                None => {
                    proof {
                        assert(pf_way(data@, op, end as int, mold) is None);
                    }
                    return None;
                }
                Some(x) => x,
            };
            if j2 > end || len > (end - j2) as u64 {
                proof {
                    assert(pf_way(data@, op, end as int, mold) is None);
                }
                return None;
            }
            let k = j2 + (len as usize);
            if !read_packed_sint64(data, j2, k, &mut lat) {
                proof {
                    assert(pf_way(data@, op, end as int, mold) is None);
                }
                return None;
            }
            p = k;
            proof {
                assert(pf_way(data@, op, end as int, mold) == pf_way(
                    data@,
                    p as int,
                    end as int,
                    SpecWay {
                            id: id,
                            keys: keys@,
                            vals: vals@,
                            info: opt_view(info),
                            refs: refs@,
                            lat: lat@,
                            lon: lon@,
                        },
                ));
            }
        } else if fno == 10 && wt == 2 {
            let (len, j2) = match read_varint(data, j) {
                None => {
                    proof {
                        assert(pf_way(data@, op, end as int, mold) is None);
                    }
                    return None;
                }
                Some(x) => x,
            };
            if j2 > end || len > (end - j2) as u64 {
                proof {
                    assert(pf_way(data@, op, end as int, mold) is None);
                }
                return None;
            }
            let k = j2 + (len as usize);
            if !read_packed_sint64(data, j2, k, &mut lon) {
                proof {
                    assert(pf_way(data@, op, end as int, mold) is None);
                }
                return None;
            }
            p = k;
            proof {
                assert(pf_way(data@, op, end as int, mold) == pf_way(
                    data@,
                    p as int,
                    end as int,
                    SpecWay {
                            id: id,
                            keys: keys@,
                            vals: vals@,
                            info: opt_view(info),
                            refs: refs@,
                            lat: lat@,
                            lon: lon@,
                        },
                ));
            }
        } else {
            let k = match skip_field(data, j, end, wt) {
                None => {
                    proof {
                        assert(pf_way(data@, op, end as int, mold) is None);
                    }
                    return None;
                }
                Some(k) => k,
            };
            p = k;
            proof {
                assert(pf_way(data@, op, end as int, mold) == pf_way(
                    data@,
                    p as int,
                    end as int,
                    SpecWay {
                            id: id,
                            keys: keys@,
                            vals: vals@,
                            info: opt_view(info),
                            refs: refs@,
                            lat: lat@,
                            lon: lon@,
                        },
                ));
            }
        }
    }
    proof {
        assert(pf_way(
            data@,
            p as int,
            end as int,
            SpecWay {
                    id: id,
                    keys: keys@,
                    vals: vals@,
                    info: opt_view(info),
                    refs: refs@,
                    lat: lat@,
                    lon: lon@,
                },
        ) == Some(SpecWay {
                    id: id,
                    keys: keys@,
                    vals: vals@,
                    info: opt_view(info),
                    refs: refs@,
                    lat: lat@,
                    lon: lon@,
                }));
    }
    Some(Way { id, keys, vals, info, refs, lat, lon })
}

#[derive(Clone, Debug)]
pub struct Relation {
    pub id: Option<i64>,
    pub keys: Vec<u32>,
    pub vals: Vec<u32>,
    pub info: Option<Info>,
    pub roles_sid: Vec<i32>,
    pub memids: Vec<i64>,
    pub types: Vec<i32>,
}

/// Mathematical image of a `Relation`.
pub struct SpecRelation {
    pub id: Option<i64>,
    pub keys: Seq<u32>,
    pub vals: Seq<u32>,
    pub info: Option<Info>,
    pub roles_sid: Seq<i32>,
    pub memids: Seq<i64>,
    pub types: Seq<i32>,
}

impl View for Relation {
    type V = SpecRelation;

    open spec fn view(&self) -> SpecRelation {
        SpecRelation {
            id: self.id,
            keys: self.keys@,
            vals: self.vals@,
            info: opt_view(self.info),
            roles_sid: self.roles_sid@,
            memids: self.memids@,
            types: self.types@,
        }
    }
}

/// One pass of the `Relation` field loop over `[i, end)`.
pub open spec fn pf_relation(d: Seq<u8>, i: int, end: int, m: SpecRelation) -> Option<SpecRelation>
    decreases end - i,
{
    if i < 0 || i > end || end > d.len() {
        None
    } else if i == end {
        Some(m)
    } else {
        match dec_varint(d, i) {
            None => None,
            Some((tag, j)) => if j <= i || j > end {
                None
            } else {
                let fno = tag / 8;
                let wt = tag % 8;
                if fno == 1 && wt == 0 {
                    match dec_varint(d, j) {
                        None => None,
                        Some((v, k)) => if k <= i || k > end {
                            None
                        } else {
                            pf_relation(d, k, end, SpecRelation { id: Some(u64_to_i64(v)), keys: m.keys, vals: m.vals, info: m.info, roles_sid: m.roles_sid, memids: m.memids, types: m.types })
                        },
                    }
                } else if fno == 2 && wt == 2 {
                    match dec_varint(d, j) {
                        None => None,
                        Some((len, j2)) => if j2 <= i || j2 + len > end {
                            None
                        } else {
                            match dec_packed_u32(d, j2, j2 + len, m.keys) {
                                None => None,
                                Some(vs) => pf_relation(d, j2 + len, end, SpecRelation { id: m.id, keys: vs, vals: m.vals, info: m.info, roles_sid: m.roles_sid, memids: m.memids, types: m.types }),
                            }
                        },
                    }
                } else if fno == 3 && wt == 2 {
                    match dec_varint(d, j) {
                        None => None,
                        Some((len, j2)) => if j2 <= i || j2 + len > end {
                            None
                        } else {
                            match dec_packed_u32(d, j2, j2 + len, m.vals) {
                                None => None,
                                Some(vs) => pf_relation(d, j2 + len, end, SpecRelation { id: m.id, keys: m.keys, vals: vs, info: m.info, roles_sid: m.roles_sid, memids: m.memids, types: m.types }),
                            }
                        },
                    }
                } else if fno == 4 && wt == 2 {
                    match dec_varint(d, j) {
                        None => None,
                        Some((len, j2)) => if j2 <= i || j2 + len > end {
                            None
                        } else {
                            match spec_parse_info(d, j2, j2 + len) {
                                None => None,
                                Some(sub) => pf_relation(d, j2 + len, end, SpecRelation { id: m.id, keys: m.keys, vals: m.vals, info: Some(sub), roles_sid: m.roles_sid, memids: m.memids, types: m.types }),
                            }
                        },
                    }
                } else if fno == 8 && wt == 2 {
                    match dec_varint(d, j) {
                        None => None,
                        Some((len, j2)) => if j2 <= i || j2 + len > end {
                            None
                        } else {
                            match dec_packed_i32(d, j2, j2 + len, m.roles_sid) {
                                None => None,
                                Some(vs) => pf_relation(d, j2 + len, end, SpecRelation { id: m.id, keys: m.keys, vals: m.vals, info: m.info, roles_sid: vs, memids: m.memids, types: m.types }),
                            }
                        },
                    }
                } else if fno == 9 && wt == 2 {
                    match dec_varint(d, j) {
                        None => None,
                        Some((len, j2)) => if j2 <= i || j2 + len > end {
                            None
                        } else {
                            match dec_packed_sint64(d, j2, j2 + len, m.memids) {
                                None => None,
                                Some(vs) => pf_relation(d, j2 + len, end, SpecRelation { id: m.id, keys: m.keys, vals: m.vals, info: m.info, roles_sid: m.roles_sid, memids: vs, types: m.types }),
                            }
                        },
                    }
                } else if fno == 10 && wt == 2 {
                    match dec_varint(d, j) {
                        None => None,
                        Some((len, j2)) => if j2 <= i || j2 + len > end {
                            None
                        } else {
                            match dec_packed_i32(d, j2, j2 + len, m.types) {
                                None => None,
                                Some(vs) => pf_relation(d, j2 + len, end, SpecRelation { id: m.id, keys: m.keys, vals: m.vals, info: m.info, roles_sid: m.roles_sid, memids: m.memids, types: vs }),
                            }
                        },
                    }
                } else {
                    match spec_skip(d, j, end, wt) {
                        None => None,
                        Some(k) => if k <= i {
                            None
                        } else {
                            pf_relation(d, k, end, m)
                        },
                    }
                }
            },
        }
    }
}

pub open spec fn init_relation() -> SpecRelation {
    SpecRelation { id: None, keys: Seq::empty(), vals: Seq::empty(), info: None, roles_sid: Seq::empty(), memids: Seq::empty(), types: Seq::empty() }
}

/// What the bytes `[lo, hi)` mean as a `Relation`, if anything.
pub open spec fn spec_parse_relation(d: Seq<u8>, lo: int, hi: int) -> Option<SpecRelation> {
    pf_relation(d, lo, hi, init_relation())
}

/// Parse a `Relation` from `[pos, end)`.
#[verifier::rlimit(100)]
#[verifier::spinoff_prover]
pub fn parse_relation(data: &[u8], pos: usize, end: usize) -> (r: Option<Relation>)
    requires
        pos <= end <= data@.len(),
    ensures
        r is None ==> spec_parse_relation(data@, pos as int, end as int) is None,
        r matches Some(msg) ==> spec_parse_relation(data@, pos as int, end as int) == Some(msg@),
{
    let mut id: Option<i64> = None;
    let mut keys: Vec<u32> = Vec::new();
    let mut vals: Vec<u32> = Vec::new();
    let mut info: Option<Info> = None;
    let mut roles_sid: Vec<i32> = Vec::new();
    let mut memids: Vec<i64> = Vec::new();
    let mut types: Vec<i32> = Vec::new();
    let mut p = pos;
    while p < end
        invariant
            pos <= p <= end <= data@.len(),
            pf_relation(
                data@,
                p as int,
                end as int,
                SpecRelation {
                        id: id,
                        keys: keys@,
                        vals: vals@,
                        info: opt_view(info),
                        roles_sid: roles_sid@,
                        memids: memids@,
                        types: types@,
                    },
            ) == pf_relation(data@, pos as int, end as int, init_relation()),
        decreases end - p,
    {
        let ghost op = p as int;
        let ghost mold = SpecRelation {
                    id: id,
                    keys: keys@,
                    vals: vals@,
                    info: opt_view(info),
                    roles_sid: roles_sid@,
                    memids: memids@,
                    types: types@,
                };
        let (tag, j) = match read_varint(data, p) {
            None => {
                proof {
                    assert(pf_relation(data@, op, end as int, mold) is None);
                }
                return None;
            }
            Some(x) => x,
        };
        if j > end {
            proof {
                assert(pf_relation(data@, op, end as int, mold) is None);
            }
            return None;
        }
        let fno = tag / 8;
        let wt = tag % 8;
        if fno == 1 && wt == 0 {
            let (v, k) = match read_varint(data, j) {
                None => {
                    proof {
                        assert(pf_relation(data@, op, end as int, mold) is None);
                    }
                    return None;
                }
                Some(x) => x,
            };
            if k > end {
                proof {
                assert(pf_relation(data@, op, end as int, mold) is None);
                }
                return None;
            }
            id = Some(varint_to_i64(v));
            p = k;
            proof {
                assert(pf_relation(data@, op, end as int, mold) == pf_relation(
                    data@,
                    p as int,
                    end as int,
                    SpecRelation {
                            id: id,
                            keys: keys@,
                            vals: vals@,
                            info: opt_view(info),
                            roles_sid: roles_sid@,
                            memids: memids@,
                            types: types@,
                        },
                ));
            }
        } else if fno == 2 && wt == 2 {
            let (len, j2) = match read_varint(data, j) {
                None => {
                    proof {
                        assert(pf_relation(data@, op, end as int, mold) is None);
                    }
                    return None;
                }
                Some(x) => x,
            };
            if j2 > end || len > (end - j2) as u64 {
                proof {
                    assert(pf_relation(data@, op, end as int, mold) is None);
                }
                return None;
            }
            let k = j2 + (len as usize);
            if !read_packed_u32(data, j2, k, &mut keys) {
                proof {
                    assert(pf_relation(data@, op, end as int, mold) is None);
                }
                return None;
            }
            p = k;
            proof {
                assert(pf_relation(data@, op, end as int, mold) == pf_relation(
                    data@,
                    p as int,
                    end as int,
                    SpecRelation {
                            id: id,
                            keys: keys@,
                            vals: vals@,
                            info: opt_view(info),
                            roles_sid: roles_sid@,
                            memids: memids@,
                            types: types@,
                        },
                ));
            }
        } else if fno == 3 && wt == 2 {
            let (len, j2) = match read_varint(data, j) {
                None => {
                    proof {
                        assert(pf_relation(data@, op, end as int, mold) is None);
                    }
                    return None;
                }
                Some(x) => x,
            };
            if j2 > end || len > (end - j2) as u64 {
                proof {
                    assert(pf_relation(data@, op, end as int, mold) is None);
                }
                return None;
            }
            let k = j2 + (len as usize);
            if !read_packed_u32(data, j2, k, &mut vals) {
                proof {
                    assert(pf_relation(data@, op, end as int, mold) is None);
                }
                return None;
            }
            p = k;
            proof {
                assert(pf_relation(data@, op, end as int, mold) == pf_relation(
                    data@,
                    p as int,
                    end as int,
                    SpecRelation {
                            id: id,
                            keys: keys@,
                            vals: vals@,
                            info: opt_view(info),
                            roles_sid: roles_sid@,
                            memids: memids@,
                            types: types@,
                        },
                ));
            }
        } else if fno == 4 && wt == 2 {
            let (len, j2) = match read_varint(data, j) {
                None => {
                    proof {
                        assert(pf_relation(data@, op, end as int, mold) is None);
                    }
                    return None;
                }
                Some(x) => x,
            };
            if j2 > end || len > (end - j2) as u64 {
                proof {
                    assert(pf_relation(data@, op, end as int, mold) is None);
                }
                return None;
            }
            let k = j2 + (len as usize);
            let sub = match parse_info(data, j2, k) {
                None => {
                    proof {
                        assert(pf_relation(data@, op, end as int, mold) is None);
                    }
                    return None;
                }
                Some(x) => x,
            };
            info = Some(sub);
            p = k;
            proof {
                assert(pf_relation(data@, op, end as int, mold) == pf_relation(
                    data@,
                    p as int,
                    end as int,
                    SpecRelation {
                            id: id,
                            keys: keys@,
                            vals: vals@,
                            info: opt_view(info),
                            roles_sid: roles_sid@,
                            memids: memids@,
                            types: types@,
                        },
                ));
            }
        } else if fno == 8 && wt == 2 {
            let (len, j2) = match read_varint(data, j) {
                None => {
                    proof {
                        assert(pf_relation(data@, op, end as int, mold) is None);
                    }
                    return None;
                }
                Some(x) => x,
            };
            if j2 > end || len > (end - j2) as u64 {
                proof {
                    assert(pf_relation(data@, op, end as int, mold) is None);
                }
                return None;
            }
            let k = j2 + (len as usize);
            if !read_packed_i32(data, j2, k, &mut roles_sid) {
                proof {
                    assert(pf_relation(data@, op, end as int, mold) is None);
                }
                return None;
            }
            p = k;
            proof {
                assert(pf_relation(data@, op, end as int, mold) == pf_relation(
                    data@,
                    p as int,
                    end as int,
                    SpecRelation {
                            id: id,
                            keys: keys@,
                            vals: vals@,
                            info: opt_view(info),
                            roles_sid: roles_sid@,
                            memids: memids@,
                            types: types@,
                        },
                ));
            }
        } else if fno == 9 && wt == 2 {
            let (len, j2) = match read_varint(data, j) {
                None => {
                    proof {
                        assert(pf_relation(data@, op, end as int, mold) is None);
                    }
                    return None;
                }
                Some(x) => x,
            };
            if j2 > end || len > (end - j2) as u64 {
                proof {
                    assert(pf_relation(data@, op, end as int, mold) is None);
                }
                return None;
            }
            let k = j2 + (len as usize);
            if !read_packed_sint64(data, j2, k, &mut memids) {
                proof {
                    assert(pf_relation(data@, op, end as int, mold) is None);
                }
                return None;
            }
            p = k;
            proof {
                assert(pf_relation(data@, op, end as int, mold) == pf_relation(
                    data@,
                    p as int,
                    end as int,
                    SpecRelation {
                            id: id,
                            keys: keys@,
                            vals: vals@,
                            info: opt_view(info),
                            roles_sid: roles_sid@,
                            memids: memids@,
                            types: types@,
                        },
                ));
            }
        } else if fno == 10 && wt == 2 {
            let (len, j2) = match read_varint(data, j) {
                None => {
                    proof {
                        assert(pf_relation(data@, op, end as int, mold) is None);
                    }
                    return None;
                }
                Some(x) => x,
            };
            if j2 > end || len > (end - j2) as u64 {
                proof {
                    assert(pf_relation(data@, op, end as int, mold) is None);
                }
                return None;
            }
            let k = j2 + (len as usize);
            if !read_packed_i32(data, j2, k, &mut types) {
                proof {
                    assert(pf_relation(data@, op, end as int, mold) is None);
                }
                return None;
            }
            p = k;
            proof {
                assert(pf_relation(data@, op, end as int, mold) == pf_relation(
                    data@,
                    p as int,
                    end as int,
                    SpecRelation {
                            id: id,
                            keys: keys@,
                            vals: vals@,
                            info: opt_view(info),
                            roles_sid: roles_sid@,
                            memids: memids@,
                            types: types@,
                        },
                ));
            }
        } else {
            let k = match skip_field(data, j, end, wt) {
                None => {
                    proof {
                        assert(pf_relation(data@, op, end as int, mold) is None);
                    }
                    return None;
                }
                Some(k) => k,
            };
            p = k;
            proof {
                assert(pf_relation(data@, op, end as int, mold) == pf_relation(
                    data@,
                    p as int,
                    end as int,
                    SpecRelation {
                            id: id,
                            keys: keys@,
                            vals: vals@,
                            info: opt_view(info),
                            roles_sid: roles_sid@,
                            memids: memids@,
                            types: types@,
                        },
                ));
            }
        }
    }
    proof {
        assert(pf_relation(
            data@,
            p as int,
            end as int,
            SpecRelation {
                    id: id,
                    keys: keys@,
                    vals: vals@,
                    info: opt_view(info),
                    roles_sid: roles_sid@,
                    memids: memids@,
                    types: types@,
                },
        ) == Some(SpecRelation {
                    id: id,
                    keys: keys@,
                    vals: vals@,
                    info: opt_view(info),
                    roles_sid: roles_sid@,
                    memids: memids@,
                    types: types@,
                }));
    }
    Some(Relation { id, keys, vals, info, roles_sid, memids, types })
}

#[derive(Clone, Debug)]
pub struct PrimitiveGroup {
    pub nodes: Vec<Node>,
    pub dense: Option<DenseNodes>,
    pub ways: Vec<Way>,
    pub relations: Vec<Relation>,
}

/// Mathematical image of a `PrimitiveGroup`.
pub struct SpecPrimitiveGroup {
    pub nodes: Seq<SpecNode>,
    pub dense: Option<SpecDenseNodes>,
    pub ways: Seq<SpecWay>,
    pub relations: Seq<SpecRelation>,
}

impl View for PrimitiveGroup {
    type V = SpecPrimitiveGroup;

    open spec fn view(&self) -> SpecPrimitiveGroup {
        SpecPrimitiveGroup {
            nodes: seq_view(self.nodes@),
            dense: opt_view(self.dense),
            ways: seq_view(self.ways@),
            relations: seq_view(self.relations@),
        }
    }
}

/// One pass of the `PrimitiveGroup` field loop over `[i, end)`.
pub open spec fn pf_primitivegroup(d: Seq<u8>, i: int, end: int, m: SpecPrimitiveGroup) -> Option<SpecPrimitiveGroup>
    decreases end - i,
{
    if i < 0 || i > end || end > d.len() {
        None
    } else if i == end {
        Some(m)
    } else {
        match dec_varint(d, i) {
            None => None,
            Some((tag, j)) => if j <= i || j > end {
                None
            } else {
                let fno = tag / 8;
                let wt = tag % 8;
                if fno == 1 && wt == 2 {
                    match dec_varint(d, j) {
                        None => None,
                        Some((len, j2)) => if j2 <= i || j2 + len > end {
                            None
                        } else {
                            match spec_parse_node(d, j2, j2 + len) {
                                None => None,
                                Some(sub) => pf_primitivegroup(d, j2 + len, end, SpecPrimitiveGroup { nodes: m.nodes.push(sub), dense: m.dense, ways: m.ways, relations: m.relations }),
                            }
                        },
                    }
                } else if fno == 2 && wt == 2 {
                    match dec_varint(d, j) {
                        None => None,
                        Some((len, j2)) => if j2 <= i || j2 + len > end {
                            None
                        } else {
                            match spec_parse_densenodes(d, j2, j2 + len) {
                                None => None,
                                Some(sub) => pf_primitivegroup(d, j2 + len, end, SpecPrimitiveGroup { nodes: m.nodes, dense: Some(sub), ways: m.ways, relations: m.relations }),
                            }
                        },
                    }
                } else if fno == 3 && wt == 2 {
                    match dec_varint(d, j) {
                        None => None,
                        Some((len, j2)) => if j2 <= i || j2 + len > end {
                            None
                        } else {
                            match spec_parse_way(d, j2, j2 + len) {
                                None => None,
                                Some(sub) => pf_primitivegroup(d, j2 + len, end, SpecPrimitiveGroup { nodes: m.nodes, dense: m.dense, ways: m.ways.push(sub), relations: m.relations }),
                            }
                        },
                    }
                } else if fno == 4 && wt == 2 {
                    match dec_varint(d, j) {
                        None => None,
                        Some((len, j2)) => if j2 <= i || j2 + len > end {
                            None
                        } else {
                            match spec_parse_relation(d, j2, j2 + len) {
                                None => None,
                                Some(sub) => pf_primitivegroup(d, j2 + len, end, SpecPrimitiveGroup { nodes: m.nodes, dense: m.dense, ways: m.ways, relations: m.relations.push(sub) }),
                            }
                        },
                    }
                } else {
                    match spec_skip(d, j, end, wt) {
                        None => None,
                        Some(k) => if k <= i {
                            None
                        } else {
                            pf_primitivegroup(d, k, end, m)
                        },
                    }
                }
            },
        }
    }
}

pub open spec fn init_primitivegroup() -> SpecPrimitiveGroup {
    SpecPrimitiveGroup { nodes: Seq::empty(), dense: None, ways: Seq::empty(), relations: Seq::empty() }
}

/// What the bytes `[lo, hi)` mean as a `PrimitiveGroup`, if anything.
pub open spec fn spec_parse_primitivegroup(d: Seq<u8>, lo: int, hi: int) -> Option<SpecPrimitiveGroup> {
    pf_primitivegroup(d, lo, hi, init_primitivegroup())
}

/// Parse a `PrimitiveGroup` from `[pos, end)`.
#[verifier::rlimit(100)]
#[verifier::spinoff_prover]
pub fn parse_primitivegroup(data: &[u8], pos: usize, end: usize) -> (r: Option<PrimitiveGroup>)
    requires
        pos <= end <= data@.len(),
    ensures
        r is None ==> spec_parse_primitivegroup(data@, pos as int, end as int) is None,
        r matches Some(msg) ==> spec_parse_primitivegroup(data@, pos as int, end as int) == Some(msg@),
{
    let mut nodes: Vec<Node> = Vec::new();
    let mut dense: Option<DenseNodes> = None;
    let mut ways: Vec<Way> = Vec::new();
    let mut relations: Vec<Relation> = Vec::new();
    proof {
        assert(seq_view(nodes@) =~= Seq::empty());
        assert(seq_view(ways@) =~= Seq::empty());
        assert(seq_view(relations@) =~= Seq::empty());
    }
    let mut p = pos;
    while p < end
        invariant
            pos <= p <= end <= data@.len(),
            pf_primitivegroup(
                data@,
                p as int,
                end as int,
                SpecPrimitiveGroup {
                        nodes: seq_view(nodes@),
                        dense: opt_view(dense),
                        ways: seq_view(ways@),
                        relations: seq_view(relations@),
                    },
            ) == pf_primitivegroup(data@, pos as int, end as int, init_primitivegroup()),
        decreases end - p,
    {
        let ghost op = p as int;
        let ghost mold = SpecPrimitiveGroup {
                    nodes: seq_view(nodes@),
                    dense: opt_view(dense),
                    ways: seq_view(ways@),
                    relations: seq_view(relations@),
                };
        let (tag, j) = match read_varint(data, p) {
            None => {
                proof {
                    assert(pf_primitivegroup(data@, op, end as int, mold) is None);
                }
                return None;
            }
            Some(x) => x,
        };
        if j > end {
            proof {
                assert(pf_primitivegroup(data@, op, end as int, mold) is None);
            }
            return None;
        }
        let fno = tag / 8;
        let wt = tag % 8;
        if fno == 1 && wt == 2 {
            let (len, j2) = match read_varint(data, j) {
                None => {
                    proof {
                        assert(pf_primitivegroup(data@, op, end as int, mold) is None);
                    }
                    return None;
                }
                Some(x) => x,
            };
            if j2 > end || len > (end - j2) as u64 {
                proof {
                    assert(pf_primitivegroup(data@, op, end as int, mold) is None);
                }
                return None;
            }
            let k = j2 + (len as usize);
            let sub = match parse_node(data, j2, k) {
                None => {
                    proof {
                        assert(pf_primitivegroup(data@, op, end as int, mold) is None);
                    }
                    return None;
                }
                Some(x) => x,
            };
            let ghost sv = sub@;
            nodes.push(sub);
            p = k;
            proof {
                assert(seq_view(nodes@) =~= mold.nodes.push(sv));
            }
            proof {
                assert(pf_primitivegroup(data@, op, end as int, mold) == pf_primitivegroup(
                    data@,
                    p as int,
                    end as int,
                    SpecPrimitiveGroup {
                            nodes: seq_view(nodes@),
                            dense: opt_view(dense),
                            ways: seq_view(ways@),
                            relations: seq_view(relations@),
                        },
                ));
            }
        } else if fno == 2 && wt == 2 {
            let (len, j2) = match read_varint(data, j) {
                None => {
                    proof {
                        assert(pf_primitivegroup(data@, op, end as int, mold) is None);
                    }
                    return None;
                }
                Some(x) => x,
            };
            if j2 > end || len > (end - j2) as u64 {
                proof {
                    assert(pf_primitivegroup(data@, op, end as int, mold) is None);
                }
                return None;
            }
            let k = j2 + (len as usize);
            let sub = match parse_densenodes(data, j2, k) {
                None => {
                    proof {
                        assert(pf_primitivegroup(data@, op, end as int, mold) is None);
                    }
                    return None;
                }
                Some(x) => x,
            };
            dense = Some(sub);
            p = k;
            proof {
                assert(pf_primitivegroup(data@, op, end as int, mold) == pf_primitivegroup(
                    data@,
                    p as int,
                    end as int,
                    SpecPrimitiveGroup {
                            nodes: seq_view(nodes@),
                            dense: opt_view(dense),
                            ways: seq_view(ways@),
                            relations: seq_view(relations@),
                        },
                ));
            }
        } else if fno == 3 && wt == 2 {
            let (len, j2) = match read_varint(data, j) {
                None => {
                    proof {
                        assert(pf_primitivegroup(data@, op, end as int, mold) is None);
                    }
                    return None;
                }
                Some(x) => x,
            };
            if j2 > end || len > (end - j2) as u64 {
                proof {
                    assert(pf_primitivegroup(data@, op, end as int, mold) is None);
                }
                return None;
            }
            let k = j2 + (len as usize);
            let sub = match parse_way(data, j2, k) {
                None => {
                    proof {
                        assert(pf_primitivegroup(data@, op, end as int, mold) is None);
                    }
                    return None;
                }
                Some(x) => x,
            };
            let ghost sv = sub@;
            ways.push(sub);
            p = k;
            proof {
                assert(seq_view(ways@) =~= mold.ways.push(sv));
            }
            proof {
                assert(pf_primitivegroup(data@, op, end as int, mold) == pf_primitivegroup(
                    data@,
                    p as int,
                    end as int,
                    SpecPrimitiveGroup {
                            nodes: seq_view(nodes@),
                            dense: opt_view(dense),
                            ways: seq_view(ways@),
                            relations: seq_view(relations@),
                        },
                ));
            }
        } else if fno == 4 && wt == 2 {
            let (len, j2) = match read_varint(data, j) {
                None => {
                    proof {
                        assert(pf_primitivegroup(data@, op, end as int, mold) is None);
                    }
                    return None;
                }
                Some(x) => x,
            };
            if j2 > end || len > (end - j2) as u64 {
                proof {
                    assert(pf_primitivegroup(data@, op, end as int, mold) is None);
                }
                return None;
            }
            let k = j2 + (len as usize);
            let sub = match parse_relation(data, j2, k) {
                None => {
                    proof {
                        assert(pf_primitivegroup(data@, op, end as int, mold) is None);
                    }
                    return None;
                }
                Some(x) => x,
            };
            let ghost sv = sub@;
            relations.push(sub);
            p = k;
            proof {
                assert(seq_view(relations@) =~= mold.relations.push(sv));
            }
            proof {
                assert(pf_primitivegroup(data@, op, end as int, mold) == pf_primitivegroup(
                    data@,
                    p as int,
                    end as int,
                    SpecPrimitiveGroup {
                            nodes: seq_view(nodes@),
                            dense: opt_view(dense),
                            ways: seq_view(ways@),
                            relations: seq_view(relations@),
                        },
                ));
            }
        } else {
            let k = match skip_field(data, j, end, wt) {
                None => {
                    proof {
                        assert(pf_primitivegroup(data@, op, end as int, mold) is None);
                    }
                    return None;
                }
                Some(k) => k,
            };
            p = k;
            proof {
                assert(pf_primitivegroup(data@, op, end as int, mold) == pf_primitivegroup(
                    data@,
                    p as int,
                    end as int,
                    SpecPrimitiveGroup {
                            nodes: seq_view(nodes@),
                            dense: opt_view(dense),
                            ways: seq_view(ways@),
                            relations: seq_view(relations@),
                        },
                ));
            }
        }
    }
    proof {
        assert(pf_primitivegroup(
            data@,
            p as int,
            end as int,
            SpecPrimitiveGroup {
                    nodes: seq_view(nodes@),
                    dense: opt_view(dense),
                    ways: seq_view(ways@),
                    relations: seq_view(relations@),
                },
        ) == Some(SpecPrimitiveGroup {
                    nodes: seq_view(nodes@),
                    dense: opt_view(dense),
                    ways: seq_view(ways@),
                    relations: seq_view(relations@),
                }));
    }
    Some(PrimitiveGroup { nodes, dense, ways, relations })
}

#[derive(Clone, Debug)]
pub struct PrimitiveBlock {
    pub stringtable: Option<StringTable>,
    pub primitivegroup: Vec<PrimitiveGroup>,
    pub granularity: Option<i32>,
    pub date_granularity: Option<i32>,
    pub lat_offset: Option<i64>,
    pub lon_offset: Option<i64>,
}

/// Mathematical image of a `PrimitiveBlock`.
pub struct SpecPrimitiveBlock {
    pub stringtable: Option<SpecStringTable>,
    pub primitivegroup: Seq<SpecPrimitiveGroup>,
    pub granularity: Option<i32>,
    pub date_granularity: Option<i32>,
    pub lat_offset: Option<i64>,
    pub lon_offset: Option<i64>,
}

impl View for PrimitiveBlock {
    type V = SpecPrimitiveBlock;

    open spec fn view(&self) -> SpecPrimitiveBlock {
        SpecPrimitiveBlock {
            stringtable: opt_view(self.stringtable),
            primitivegroup: seq_view(self.primitivegroup@),
            granularity: self.granularity,
            date_granularity: self.date_granularity,
            lat_offset: self.lat_offset,
            lon_offset: self.lon_offset,
        }
    }
}

/// One pass of the `PrimitiveBlock` field loop over `[i, end)`.
pub open spec fn pf_primitiveblock(d: Seq<u8>, i: int, end: int, m: SpecPrimitiveBlock) -> Option<SpecPrimitiveBlock>
    decreases end - i,
{
    if i < 0 || i > end || end > d.len() {
        None
    } else if i == end {
        Some(m)
    } else {
        match dec_varint(d, i) {
            None => None,
            Some((tag, j)) => if j <= i || j > end {
                None
            } else {
                let fno = tag / 8;
                let wt = tag % 8;
                if fno == 1 && wt == 2 {
                    match dec_varint(d, j) {
                        None => None,
                        Some((len, j2)) => if j2 <= i || j2 + len > end {
                            None
                        } else {
                            match spec_parse_stringtable(d, j2, j2 + len) {
                                None => None,
                                Some(sub) => pf_primitiveblock(d, j2 + len, end, SpecPrimitiveBlock { stringtable: Some(sub), primitivegroup: m.primitivegroup, granularity: m.granularity, date_granularity: m.date_granularity, lat_offset: m.lat_offset, lon_offset: m.lon_offset }),
                            }
                        },
                    }
                } else if fno == 2 && wt == 2 {
                    match dec_varint(d, j) {
                        None => None,
                        Some((len, j2)) => if j2 <= i || j2 + len > end {
                            None
                        } else {
                            match spec_parse_primitivegroup(d, j2, j2 + len) {
                                None => None,
                                Some(sub) => pf_primitiveblock(d, j2 + len, end, SpecPrimitiveBlock { stringtable: m.stringtable, primitivegroup: m.primitivegroup.push(sub), granularity: m.granularity, date_granularity: m.date_granularity, lat_offset: m.lat_offset, lon_offset: m.lon_offset }),
                            }
                        },
                    }
                } else if fno == 17 && wt == 0 {
                    match dec_varint(d, j) {
                        None => None,
                        Some((v, k)) => if k <= i || k > end {
                            None
                        } else {
                            pf_primitiveblock(d, k, end, SpecPrimitiveBlock { stringtable: m.stringtable, primitivegroup: m.primitivegroup, granularity: Some(u64_to_i32(v)), date_granularity: m.date_granularity, lat_offset: m.lat_offset, lon_offset: m.lon_offset })
                        },
                    }
                } else if fno == 18 && wt == 0 {
                    match dec_varint(d, j) {
                        None => None,
                        Some((v, k)) => if k <= i || k > end {
                            None
                        } else {
                            pf_primitiveblock(d, k, end, SpecPrimitiveBlock { stringtable: m.stringtable, primitivegroup: m.primitivegroup, granularity: m.granularity, date_granularity: Some(u64_to_i32(v)), lat_offset: m.lat_offset, lon_offset: m.lon_offset })
                        },
                    }
                } else if fno == 19 && wt == 0 {
                    match dec_varint(d, j) {
                        None => None,
                        Some((v, k)) => if k <= i || k > end {
                            None
                        } else {
                            pf_primitiveblock(d, k, end, SpecPrimitiveBlock { stringtable: m.stringtable, primitivegroup: m.primitivegroup, granularity: m.granularity, date_granularity: m.date_granularity, lat_offset: Some(u64_to_i64(v)), lon_offset: m.lon_offset })
                        },
                    }
                } else if fno == 20 && wt == 0 {
                    match dec_varint(d, j) {
                        None => None,
                        Some((v, k)) => if k <= i || k > end {
                            None
                        } else {
                            pf_primitiveblock(d, k, end, SpecPrimitiveBlock { stringtable: m.stringtable, primitivegroup: m.primitivegroup, granularity: m.granularity, date_granularity: m.date_granularity, lat_offset: m.lat_offset, lon_offset: Some(u64_to_i64(v)) })
                        },
                    }
                } else {
                    match spec_skip(d, j, end, wt) {
                        None => None,
                        Some(k) => if k <= i {
                            None
                        } else {
                            pf_primitiveblock(d, k, end, m)
                        },
                    }
                }
            },
        }
    }
}

pub open spec fn init_primitiveblock() -> SpecPrimitiveBlock {
    SpecPrimitiveBlock { stringtable: None, primitivegroup: Seq::empty(), granularity: None, date_granularity: None, lat_offset: None, lon_offset: None }
}

/// What the bytes `[lo, hi)` mean as a `PrimitiveBlock`, if anything.
/// The stringtable is a required field.
pub open spec fn spec_parse_primitiveblock(d: Seq<u8>, lo: int, hi: int) -> Option<SpecPrimitiveBlock> {
    match pf_primitiveblock(d, lo, hi, init_primitiveblock()) {
        None => None,
        Some(m) => if m.stringtable is Some {
            Some(m)
        } else {
            None
        },
    }
}

/// Parse a `PrimitiveBlock` from `[pos, end)`.
#[verifier::rlimit(100)]
#[verifier::spinoff_prover]
pub fn parse_primitiveblock(data: &[u8], pos: usize, end: usize) -> (r: Option<PrimitiveBlock>)
    requires
        pos <= end <= data@.len(),
    ensures
        r is None ==> spec_parse_primitiveblock(data@, pos as int, end as int) is None,
        r matches Some(msg) ==> spec_parse_primitiveblock(data@, pos as int, end as int) == Some(msg@),
{
    let mut stringtable: Option<StringTable> = None;
    let mut primitivegroup: Vec<PrimitiveGroup> = Vec::new();
    let mut granularity: Option<i32> = None;
    let mut date_granularity: Option<i32> = None;
    let mut lat_offset: Option<i64> = None;
    let mut lon_offset: Option<i64> = None;
    proof {
        assert(seq_view(primitivegroup@) =~= Seq::empty());
    }
    let mut p = pos;
    while p < end
        invariant
            pos <= p <= end <= data@.len(),
            pf_primitiveblock(
                data@,
                p as int,
                end as int,
                SpecPrimitiveBlock {
                        stringtable: opt_view(stringtable),
                        primitivegroup: seq_view(primitivegroup@),
                        granularity: granularity,
                        date_granularity: date_granularity,
                        lat_offset: lat_offset,
                        lon_offset: lon_offset,
                    },
            ) == pf_primitiveblock(data@, pos as int, end as int, init_primitiveblock()),
        decreases end - p,
    {
        let ghost op = p as int;
        let ghost mold = SpecPrimitiveBlock {
                    stringtable: opt_view(stringtable),
                    primitivegroup: seq_view(primitivegroup@),
                    granularity: granularity,
                    date_granularity: date_granularity,
                    lat_offset: lat_offset,
                    lon_offset: lon_offset,
                };
        let (tag, j) = match read_varint(data, p) {
            None => {
                proof {
                    assert(pf_primitiveblock(data@, op, end as int, mold) is None);
                }
                return None;
            }
            Some(x) => x,
        };
        if j > end {
            proof {
                assert(pf_primitiveblock(data@, op, end as int, mold) is None);
            }
            return None;
        }
        let fno = tag / 8;
        let wt = tag % 8;
        if fno == 1 && wt == 2 {
            let (len, j2) = match read_varint(data, j) {
                None => {
                    proof {
                        assert(pf_primitiveblock(data@, op, end as int, mold) is None);
                    }
                    return None;
                }
                Some(x) => x,
            };
            if j2 > end || len > (end - j2) as u64 {
                proof {
                    assert(pf_primitiveblock(data@, op, end as int, mold) is None);
                }
                return None;
            }
            let k = j2 + (len as usize);
            let sub = match parse_stringtable(data, j2, k) {
                None => {
                    proof {
                        assert(pf_primitiveblock(data@, op, end as int, mold) is None);
                    }
                    return None;
                }
                Some(x) => x,
            };
            stringtable = Some(sub);
            p = k;
            proof {
                assert(pf_primitiveblock(data@, op, end as int, mold) == pf_primitiveblock(
                    data@,
                    p as int,
                    end as int,
                    SpecPrimitiveBlock {
                            stringtable: opt_view(stringtable),
                            primitivegroup: seq_view(primitivegroup@),
                            granularity: granularity,
                            date_granularity: date_granularity,
                            lat_offset: lat_offset,
                            lon_offset: lon_offset,
                        },
                ));
            }
        } else if fno == 2 && wt == 2 {
            let (len, j2) = match read_varint(data, j) {
                None => {
                    proof {
                        assert(pf_primitiveblock(data@, op, end as int, mold) is None);
                    }
                    return None;
                }
                Some(x) => x,
            };
            if j2 > end || len > (end - j2) as u64 {
                proof {
                    assert(pf_primitiveblock(data@, op, end as int, mold) is None);
                }
                return None;
            }
            let k = j2 + (len as usize);
            let sub = match parse_primitivegroup(data, j2, k) {
                None => {
                    proof {
                        assert(pf_primitiveblock(data@, op, end as int, mold) is None);
                    }
                    return None;
                }
                Some(x) => x,
            };
            let ghost sv = sub@;
            primitivegroup.push(sub);
            p = k;
            proof {
                assert(seq_view(primitivegroup@) =~= mold.primitivegroup.push(sv));
            }
            proof {
                assert(pf_primitiveblock(data@, op, end as int, mold) == pf_primitiveblock(
                    data@,
                    p as int,
                    end as int,
                    SpecPrimitiveBlock {
                            stringtable: opt_view(stringtable),
                            primitivegroup: seq_view(primitivegroup@),
                            granularity: granularity,
                            date_granularity: date_granularity,
                            lat_offset: lat_offset,
                            lon_offset: lon_offset,
                        },
                ));
            }
        } else if fno == 17 && wt == 0 {
            let (v, k) = match read_varint(data, j) {
                None => {
                    proof {
                        assert(pf_primitiveblock(data@, op, end as int, mold) is None);
                    }
                    return None;
                }
                Some(x) => x,
            };
            if k > end {
                proof {
                assert(pf_primitiveblock(data@, op, end as int, mold) is None);
                }
                return None;
            }
            granularity = Some(varint_to_i32(v));
            p = k;
            proof {
                assert(pf_primitiveblock(data@, op, end as int, mold) == pf_primitiveblock(
                    data@,
                    p as int,
                    end as int,
                    SpecPrimitiveBlock {
                            stringtable: opt_view(stringtable),
                            primitivegroup: seq_view(primitivegroup@),
                            granularity: granularity,
                            date_granularity: date_granularity,
                            lat_offset: lat_offset,
                            lon_offset: lon_offset,
                        },
                ));
            }
        } else if fno == 18 && wt == 0 {
            let (v, k) = match read_varint(data, j) {
                None => {
                    proof {
                        assert(pf_primitiveblock(data@, op, end as int, mold) is None);
                    }
                    return None;
                }
                Some(x) => x,
            };
            if k > end {
                proof {
                assert(pf_primitiveblock(data@, op, end as int, mold) is None);
                }
                return None;
            }
            date_granularity = Some(varint_to_i32(v));
            p = k;
            proof {
                assert(pf_primitiveblock(data@, op, end as int, mold) == pf_primitiveblock(
                    data@,
                    p as int,
                    end as int,
                    SpecPrimitiveBlock {
                            stringtable: opt_view(stringtable),
                            primitivegroup: seq_view(primitivegroup@),
                            granularity: granularity,
                            date_granularity: date_granularity,
                            lat_offset: lat_offset,
                            lon_offset: lon_offset,
                        },
                ));
            }
        } else if fno == 19 && wt == 0 {
            let (v, k) = match read_varint(data, j) {
                None => {
                    proof {
                        assert(pf_primitiveblock(data@, op, end as int, mold) is None);
                    }
                    return None;
                }
                Some(x) => x,
            };
            if k > end {
                proof {
                assert(pf_primitiveblock(data@, op, end as int, mold) is None);
                }
                return None;
            }
            lat_offset = Some(varint_to_i64(v));
            p = k;
            proof {
                assert(pf_primitiveblock(data@, op, end as int, mold) == pf_primitiveblock(
                    data@,
                    p as int,
                    end as int,
                    SpecPrimitiveBlock {
                            stringtable: opt_view(stringtable),
                            primitivegroup: seq_view(primitivegroup@),
                            granularity: granularity,
                            date_granularity: date_granularity,
                            lat_offset: lat_offset,
                            lon_offset: lon_offset,
                        },
                ));
            }
        } else if fno == 20 && wt == 0 {
            let (v, k) = match read_varint(data, j) {
                None => {
                    proof {
                        assert(pf_primitiveblock(data@, op, end as int, mold) is None);
                    }
                    return None;
                }
                Some(x) => x,
            };
            if k > end {
                proof {
                assert(pf_primitiveblock(data@, op, end as int, mold) is None);
                }
                return None;
            }
            lon_offset = Some(varint_to_i64(v));
            p = k;
            proof {
                assert(pf_primitiveblock(data@, op, end as int, mold) == pf_primitiveblock(
                    data@,
                    p as int,
                    end as int,
                    SpecPrimitiveBlock {
                            stringtable: opt_view(stringtable),
                            primitivegroup: seq_view(primitivegroup@),
                            granularity: granularity,
                            date_granularity: date_granularity,
                            lat_offset: lat_offset,
                            lon_offset: lon_offset,
                        },
                ));
            }
        } else {
            let k = match skip_field(data, j, end, wt) {
                None => {
                    proof {
                        assert(pf_primitiveblock(data@, op, end as int, mold) is None);
                    }
                    return None;
                }
                Some(k) => k,
            };
            p = k;
            proof {
                assert(pf_primitiveblock(data@, op, end as int, mold) == pf_primitiveblock(
                    data@,
                    p as int,
                    end as int,
                    SpecPrimitiveBlock {
                            stringtable: opt_view(stringtable),
                            primitivegroup: seq_view(primitivegroup@),
                            granularity: granularity,
                            date_granularity: date_granularity,
                            lat_offset: lat_offset,
                            lon_offset: lon_offset,
                        },
                ));
            }
        }
    }
    proof {
        assert(pf_primitiveblock(
            data@,
            p as int,
            end as int,
            SpecPrimitiveBlock {
                    stringtable: opt_view(stringtable),
                    primitivegroup: seq_view(primitivegroup@),
                    granularity: granularity,
                    date_granularity: date_granularity,
                    lat_offset: lat_offset,
                    lon_offset: lon_offset,
                },
        ) == Some(SpecPrimitiveBlock {
                    stringtable: opt_view(stringtable),
                    primitivegroup: seq_view(primitivegroup@),
                    granularity: granularity,
                    date_granularity: date_granularity,
                    lat_offset: lat_offset,
                    lon_offset: lon_offset,
                }));
    }
    if stringtable.is_some() {
        Some(PrimitiveBlock { stringtable, primitivegroup, granularity, date_granularity, lat_offset, lon_offset })
    } else {
        None
    }
}

/// Concatenated `string` fields, one per entry.
pub open spec fn enc_str_fields(fno: u64, vs: Seq<Seq<char>>) -> Seq<u8>
    decreases vs.len(),
{
    if vs.len() == 0 {
        Seq::<u8>::empty()
    } else {
        enc_str_fields(fno, vs.drop_last()) + enc_field_bytes(fno, encode_utf8(vs.last()))
    }
}

/// Concatenated `bytes` fields, one per entry.
pub open spec fn enc_bytes_fields(fno: u64, vs: Seq<Seq<u8>>) -> Seq<u8>
    decreases vs.len(),
{
    if vs.len() == 0 {
        Seq::<u8>::empty()
    } else {
        enc_bytes_fields(fno, vs.drop_last()) + enc_field_bytes(fno, vs.last())
    }
}

/// Concatenated `Node` message fields, one per entry.
pub open spec fn enc_node_fields(fno: u64, vs: Seq<SpecNode>) -> Seq<u8>
    decreases vs.len(),
{
    if vs.len() == 0 {
        Seq::<u8>::empty()
    } else {
        enc_node_fields(fno, vs.drop_last()) + enc_field_bytes(fno, enc_node(vs.last()))
    }
}

/// Concatenated `Way` message fields, one per entry.
pub open spec fn enc_way_fields(fno: u64, vs: Seq<SpecWay>) -> Seq<u8>
    decreases vs.len(),
{
    if vs.len() == 0 {
        Seq::<u8>::empty()
    } else {
        enc_way_fields(fno, vs.drop_last()) + enc_field_bytes(fno, enc_way(vs.last()))
    }
}

/// Concatenated `Relation` message fields, one per entry.
pub open spec fn enc_relation_fields(fno: u64, vs: Seq<SpecRelation>) -> Seq<u8>
    decreases vs.len(),
{
    if vs.len() == 0 {
        Seq::<u8>::empty()
    } else {
        enc_relation_fields(fno, vs.drop_last()) + enc_field_bytes(fno, enc_relation(vs.last()))
    }
}

/// Concatenated `PrimitiveGroup` message fields, one per entry.
pub open spec fn enc_primitivegroup_fields(fno: u64, vs: Seq<SpecPrimitiveGroup>) -> Seq<u8>
    decreases vs.len(),
{
    if vs.len() == 0 {
        Seq::<u8>::empty()
    } else {
        enc_primitivegroup_fields(fno, vs.drop_last()) + enc_field_bytes(fno, enc_primitivegroup(vs.last()))
    }
}

pub open spec fn enc_headerbbox_left(m: HeaderBBox) -> Seq<u8> {
    match m.left {
        Some(v) => enc_field_varint(1, zigzag_enc(v)),
        None => Seq::<u8>::empty(),
    }
}

pub open spec fn enc_headerbbox_right(m: HeaderBBox) -> Seq<u8> {
    match m.right {
        Some(v) => enc_field_varint(2, zigzag_enc(v)),
        None => Seq::<u8>::empty(),
    }
}

pub open spec fn enc_headerbbox_top(m: HeaderBBox) -> Seq<u8> {
    match m.top {
        Some(v) => enc_field_varint(3, zigzag_enc(v)),
        None => Seq::<u8>::empty(),
    }
}

pub open spec fn enc_headerbbox_bottom(m: HeaderBBox) -> Seq<u8> {
    match m.bottom {
        Some(v) => enc_field_varint(4, zigzag_enc(v)),
        None => Seq::<u8>::empty(),
    }
}

/// Canonical encoding of a `HeaderBBox`: fields in ascending order.
pub open spec fn enc_headerbbox(m: HeaderBBox) -> Seq<u8> {
    enc_headerbbox_left(m) + enc_headerbbox_right(m) + enc_headerbbox_top(m) + enc_headerbbox_bottom(m)
}

/// Append the encoding of a `HeaderBBox` to `out`.
#[verifier::rlimit(100)]
#[verifier::spinoff_prover]
pub fn write_headerbbox(out: &mut Vec<u8>, m: &HeaderBBox)
    ensures
        final(out)@ == old(out)@ + enc_headerbbox(m@),
{
    let ghost ck_left = out@;
    match &m.left {
        Some(v) => write_field_varint(out, 1, zigzag_encode((*v))),
        None => (),
    }
    proof {
        assert(out@ =~= ck_left + enc_headerbbox_left(m@));
    }
    let ghost acc_1 = enc_headerbbox_left(m@);
    let ghost ck_right = out@;
    match &m.right {
        Some(v) => write_field_varint(out, 2, zigzag_encode((*v))),
        None => (),
    }
    proof {
        assert(out@ =~= ck_right + enc_headerbbox_right(m@));
    }
    proof {
        vstd::seq_lib::lemma_concat_associative(old(out)@, acc_1, enc_headerbbox_right(m@));
    }
    let ghost acc_2 = acc_1 + enc_headerbbox_right(m@);
    let ghost ck_top = out@;
    match &m.top {
        Some(v) => write_field_varint(out, 3, zigzag_encode((*v))),
        None => (),
    }
    proof {
        assert(out@ =~= ck_top + enc_headerbbox_top(m@));
    }
    proof {
        vstd::seq_lib::lemma_concat_associative(old(out)@, acc_2, enc_headerbbox_top(m@));
    }
    let ghost acc_3 = acc_2 + enc_headerbbox_top(m@);
    let ghost ck_bottom = out@;
    match &m.bottom {
        Some(v) => write_field_varint(out, 4, zigzag_encode((*v))),
        None => (),
    }
    proof {
        assert(out@ =~= ck_bottom + enc_headerbbox_bottom(m@));
    }
    proof {
        vstd::seq_lib::lemma_concat_associative(old(out)@, acc_3, enc_headerbbox_bottom(m@));
    }
    let ghost acc_4 = acc_3 + enc_headerbbox_bottom(m@);
    proof {
        assert(acc_4 == enc_headerbbox(m@));
    }
}

pub open spec fn enc_stringtable_s(m: SpecStringTable) -> Seq<u8> {
    enc_bytes_fields(1, m.s)
}

/// Canonical encoding of a `StringTable`: fields in ascending order.
pub open spec fn enc_stringtable(m: SpecStringTable) -> Seq<u8> {
    enc_stringtable_s(m)
}

/// Append the encoding of a `StringTable` to `out`.
#[verifier::rlimit(100)]
#[verifier::spinoff_prover]
pub fn write_stringtable(out: &mut Vec<u8>, m: &StringTable)
    ensures
        final(out)@ == old(out)@ + enc_stringtable(m@),
{
    let ghost ck_s = out@;
    let ghost before_s = out@;
    let n_s = m.s.len();
    let mut i_s: usize = 0;
    while i_s < n_s
        invariant
            i_s <= n_s == m.s@.len(),
            out@ == before_s + enc_bytes_fields(1, seq_view(m.s@).subrange(0, i_s as int)),
        decreases n_s - i_s,
    {
        write_field_bytes(out, 1, m.s[i_s].as_slice());
        proof {
            assert(seq_view(m.s@).subrange(0, i_s + 1).drop_last() =~= seq_view(m.s@).subrange(0, i_s as int));
            assert(seq_view(m.s@).subrange(0, i_s + 1).last() == seq_view(m.s@)[i_s as int]);
            assert(out@ =~= before_s + enc_bytes_fields(1, seq_view(m.s@).subrange(0, i_s + 1)));
        }
        i_s += 1;
    }
    proof {
        assert(seq_view(m.s@).subrange(0, n_s as int) =~= seq_view(m.s@));
    }
    proof {
        assert(out@ =~= ck_s + enc_stringtable_s(m@));
    }
    let ghost acc_1 = enc_stringtable_s(m@);
    proof {
        assert(acc_1 == enc_stringtable(m@));
    }
}

pub open spec fn enc_info_version(m: Info) -> Seq<u8> {
    match m.version {
        Some(v) => enc_field_varint(1, i64_to_u64(v as i64)),
        None => Seq::<u8>::empty(),
    }
}

pub open spec fn enc_info_timestamp(m: Info) -> Seq<u8> {
    match m.timestamp {
        Some(v) => enc_field_varint(2, i64_to_u64(v)),
        None => Seq::<u8>::empty(),
    }
}

pub open spec fn enc_info_changeset(m: Info) -> Seq<u8> {
    match m.changeset {
        Some(v) => enc_field_varint(3, i64_to_u64(v)),
        None => Seq::<u8>::empty(),
    }
}

pub open spec fn enc_info_uid(m: Info) -> Seq<u8> {
    match m.uid {
        Some(v) => enc_field_varint(4, i64_to_u64(v as i64)),
        None => Seq::<u8>::empty(),
    }
}

pub open spec fn enc_info_user_sid(m: Info) -> Seq<u8> {
    match m.user_sid {
        Some(v) => enc_field_varint(5, v as u64),
        None => Seq::<u8>::empty(),
    }
}

pub open spec fn enc_info_visible(m: Info) -> Seq<u8> {
    match m.visible {
        Some(v) => enc_field_varint(6, if v { 1u64 } else { 0u64 }),
        None => Seq::<u8>::empty(),
    }
}

/// Canonical encoding of a `Info`: fields in ascending order.
pub open spec fn enc_info(m: Info) -> Seq<u8> {
    enc_info_version(m) + enc_info_timestamp(m) + enc_info_changeset(m) + enc_info_uid(m) + enc_info_user_sid(m) + enc_info_visible(m)
}

/// Append the encoding of a `Info` to `out`.
#[verifier::rlimit(100)]
#[verifier::spinoff_prover]
pub fn write_info(out: &mut Vec<u8>, m: &Info)
    ensures
        final(out)@ == old(out)@ + enc_info(m@),
{
    let ghost ck_version = out@;
    match &m.version {
        Some(v) => write_field_varint(out, 1, i64_to_varint((*v) as i64)),
        None => (),
    }
    proof {
        assert(out@ =~= ck_version + enc_info_version(m@));
    }
    let ghost acc_1 = enc_info_version(m@);
    let ghost ck_timestamp = out@;
    match &m.timestamp {
        Some(v) => write_field_varint(out, 2, i64_to_varint((*v))),
        None => (),
    }
    proof {
        assert(out@ =~= ck_timestamp + enc_info_timestamp(m@));
    }
    proof {
        vstd::seq_lib::lemma_concat_associative(old(out)@, acc_1, enc_info_timestamp(m@));
    }
    let ghost acc_2 = acc_1 + enc_info_timestamp(m@);
    let ghost ck_changeset = out@;
    match &m.changeset {
        Some(v) => write_field_varint(out, 3, i64_to_varint((*v))),
        None => (),
    }
    proof {
        assert(out@ =~= ck_changeset + enc_info_changeset(m@));
    }
    proof {
        vstd::seq_lib::lemma_concat_associative(old(out)@, acc_2, enc_info_changeset(m@));
    }
    let ghost acc_3 = acc_2 + enc_info_changeset(m@);
    let ghost ck_uid = out@;
    match &m.uid {
        Some(v) => write_field_varint(out, 4, i64_to_varint((*v) as i64)),
        None => (),
    }
    proof {
        assert(out@ =~= ck_uid + enc_info_uid(m@));
    }
    proof {
        vstd::seq_lib::lemma_concat_associative(old(out)@, acc_3, enc_info_uid(m@));
    }
    let ghost acc_4 = acc_3 + enc_info_uid(m@);
    let ghost ck_user_sid = out@;
    match &m.user_sid {
        Some(v) => write_field_varint(out, 5, (*v) as u64),
        None => (),
    }
    proof {
        assert(out@ =~= ck_user_sid + enc_info_user_sid(m@));
    }
    proof {
        vstd::seq_lib::lemma_concat_associative(old(out)@, acc_4, enc_info_user_sid(m@));
    }
    let ghost acc_5 = acc_4 + enc_info_user_sid(m@);
    let ghost ck_visible = out@;
    match &m.visible {
        Some(v) => write_field_varint(out, 6, if (*v) { 1u64 } else { 0u64 }),
        None => (),
    }
    proof {
        assert(out@ =~= ck_visible + enc_info_visible(m@));
    }
    proof {
        vstd::seq_lib::lemma_concat_associative(old(out)@, acc_5, enc_info_visible(m@));
    }
    let ghost acc_6 = acc_5 + enc_info_visible(m@);
    proof {
        assert(acc_6 == enc_info(m@));
    }
}

pub open spec fn enc_headerblock_bbox(m: SpecHeaderBlock) -> Seq<u8> {
    match m.bbox {
        Some(sub) => enc_field_bytes(1, enc_headerbbox(sub)),
        None => Seq::<u8>::empty(),
    }
}

pub open spec fn enc_headerblock_required_features(m: SpecHeaderBlock) -> Seq<u8> {
    enc_str_fields(4, m.required_features)
}

pub open spec fn enc_headerblock_optional_features(m: SpecHeaderBlock) -> Seq<u8> {
    enc_str_fields(5, m.optional_features)
}

pub open spec fn enc_headerblock_writingprogram(m: SpecHeaderBlock) -> Seq<u8> {
    match m.writingprogram {
        Some(t) => enc_field_bytes(16, encode_utf8(t)),
        None => Seq::<u8>::empty(),
    }
}

pub open spec fn enc_headerblock_source(m: SpecHeaderBlock) -> Seq<u8> {
    match m.source {
        Some(t) => enc_field_bytes(17, encode_utf8(t)),
        None => Seq::<u8>::empty(),
    }
}

pub open spec fn enc_headerblock_osmosis_replication_timestamp(m: SpecHeaderBlock) -> Seq<u8> {
    match m.osmosis_replication_timestamp {
        Some(v) => enc_field_varint(32, i64_to_u64(v)),
        None => Seq::<u8>::empty(),
    }
}

pub open spec fn enc_headerblock_osmosis_replication_sequence_number(m: SpecHeaderBlock) -> Seq<u8> {
    match m.osmosis_replication_sequence_number {
        Some(v) => enc_field_varint(33, i64_to_u64(v)),
        None => Seq::<u8>::empty(),
    }
}

pub open spec fn enc_headerblock_osmosis_replication_base_url(m: SpecHeaderBlock) -> Seq<u8> {
    match m.osmosis_replication_base_url {
        Some(t) => enc_field_bytes(34, encode_utf8(t)),
        None => Seq::<u8>::empty(),
    }
}

/// Canonical encoding of a `HeaderBlock`: fields in ascending order.
pub open spec fn enc_headerblock(m: SpecHeaderBlock) -> Seq<u8> {
    enc_headerblock_bbox(m) + enc_headerblock_required_features(m) + enc_headerblock_optional_features(m) + enc_headerblock_writingprogram(m) + enc_headerblock_source(m) + enc_headerblock_osmosis_replication_timestamp(m) + enc_headerblock_osmosis_replication_sequence_number(m) + enc_headerblock_osmosis_replication_base_url(m)
}

/// Append the encoding of a `HeaderBlock` to `out`.
#[verifier::rlimit(100)]
#[verifier::spinoff_prover]
pub fn write_headerblock(out: &mut Vec<u8>, m: &HeaderBlock)
    ensures
        final(out)@ == old(out)@ + enc_headerblock(m@),
{
    let ghost ck_bbox = out@;
    match &m.bbox {
        Some(sub) => {
            let mut tmp_bbox: Vec<u8> = Vec::new();
            write_headerbbox(&mut tmp_bbox, sub);
            write_field_payload(out, 1, tmp_bbox);
        }
        None => (),
    }
    proof {
        assert(out@ =~= ck_bbox + enc_headerblock_bbox(m@));
    }
    let ghost acc_1 = enc_headerblock_bbox(m@);
    let ghost ck_required_features = out@;
    let ghost before_required_features = out@;
    let n_required_features = m.required_features.len();
    let mut i_required_features: usize = 0;
    while i_required_features < n_required_features
        invariant
            i_required_features <= n_required_features == m.required_features@.len(),
            out@ == before_required_features + enc_str_fields(4, seq_view(m.required_features@).subrange(0, i_required_features as int)),
        decreases n_required_features - i_required_features,
    {
        write_field_bytes(out, 4, m.required_features[i_required_features].as_str().as_bytes());
        proof {
            assert(seq_view(m.required_features@).subrange(0, i_required_features + 1).drop_last() =~= seq_view(m.required_features@).subrange(0, i_required_features as int));
            assert(seq_view(m.required_features@).subrange(0, i_required_features + 1).last() == seq_view(m.required_features@)[i_required_features as int]);
            assert(out@ =~= before_required_features + enc_str_fields(4, seq_view(m.required_features@).subrange(0, i_required_features + 1)));
        }
        i_required_features += 1;
    }
    proof {
        assert(seq_view(m.required_features@).subrange(0, n_required_features as int) =~= seq_view(m.required_features@));
    }
    proof {
        assert(out@ =~= ck_required_features + enc_headerblock_required_features(m@));
    }
    proof {
        vstd::seq_lib::lemma_concat_associative(old(out)@, acc_1, enc_headerblock_required_features(m@));
    }
    let ghost acc_2 = acc_1 + enc_headerblock_required_features(m@);
    let ghost ck_optional_features = out@;
    let ghost before_optional_features = out@;
    let n_optional_features = m.optional_features.len();
    let mut i_optional_features: usize = 0;
    while i_optional_features < n_optional_features
        invariant
            i_optional_features <= n_optional_features == m.optional_features@.len(),
            out@ == before_optional_features + enc_str_fields(5, seq_view(m.optional_features@).subrange(0, i_optional_features as int)),
        decreases n_optional_features - i_optional_features,
    {
        write_field_bytes(out, 5, m.optional_features[i_optional_features].as_str().as_bytes());
        proof {
            assert(seq_view(m.optional_features@).subrange(0, i_optional_features + 1).drop_last() =~= seq_view(m.optional_features@).subrange(0, i_optional_features as int));
            assert(seq_view(m.optional_features@).subrange(0, i_optional_features + 1).last() == seq_view(m.optional_features@)[i_optional_features as int]);
            assert(out@ =~= before_optional_features + enc_str_fields(5, seq_view(m.optional_features@).subrange(0, i_optional_features + 1)));
        }
        i_optional_features += 1;
    }
    proof {
        assert(seq_view(m.optional_features@).subrange(0, n_optional_features as int) =~= seq_view(m.optional_features@));
    }
    proof {
        assert(out@ =~= ck_optional_features + enc_headerblock_optional_features(m@));
    }
    proof {
        vstd::seq_lib::lemma_concat_associative(old(out)@, acc_2, enc_headerblock_optional_features(m@));
    }
    let ghost acc_3 = acc_2 + enc_headerblock_optional_features(m@);
    let ghost ck_writingprogram = out@;
    match &m.writingprogram {
        Some(t) => write_field_bytes(out, 16, t.as_str().as_bytes()),
        None => (),
    }
    proof {
        assert(out@ =~= ck_writingprogram + enc_headerblock_writingprogram(m@));
    }
    proof {
        vstd::seq_lib::lemma_concat_associative(old(out)@, acc_3, enc_headerblock_writingprogram(m@));
    }
    let ghost acc_4 = acc_3 + enc_headerblock_writingprogram(m@);
    let ghost ck_source = out@;
    match &m.source {
        Some(t) => write_field_bytes(out, 17, t.as_str().as_bytes()),
        None => (),
    }
    proof {
        assert(out@ =~= ck_source + enc_headerblock_source(m@));
    }
    proof {
        vstd::seq_lib::lemma_concat_associative(old(out)@, acc_4, enc_headerblock_source(m@));
    }
    let ghost acc_5 = acc_4 + enc_headerblock_source(m@);
    let ghost ck_osmosis_replication_timestamp = out@;
    match &m.osmosis_replication_timestamp {
        Some(v) => write_field_varint(out, 32, i64_to_varint((*v))),
        None => (),
    }
    proof {
        assert(out@ =~= ck_osmosis_replication_timestamp + enc_headerblock_osmosis_replication_timestamp(m@));
    }
    proof {
        vstd::seq_lib::lemma_concat_associative(old(out)@, acc_5, enc_headerblock_osmosis_replication_timestamp(m@));
    }
    let ghost acc_6 = acc_5 + enc_headerblock_osmosis_replication_timestamp(m@);
    let ghost ck_osmosis_replication_sequence_number = out@;
    match &m.osmosis_replication_sequence_number {
        Some(v) => write_field_varint(out, 33, i64_to_varint((*v))),
        None => (),
    }
    proof {
        assert(out@ =~= ck_osmosis_replication_sequence_number + enc_headerblock_osmosis_replication_sequence_number(m@));
    }
    proof {
        vstd::seq_lib::lemma_concat_associative(old(out)@, acc_6, enc_headerblock_osmosis_replication_sequence_number(m@));
    }
    let ghost acc_7 = acc_6 + enc_headerblock_osmosis_replication_sequence_number(m@);
    let ghost ck_osmosis_replication_base_url = out@;
    match &m.osmosis_replication_base_url {
        Some(t) => write_field_bytes(out, 34, t.as_str().as_bytes()),
        None => (),
    }
    proof {
        assert(out@ =~= ck_osmosis_replication_base_url + enc_headerblock_osmosis_replication_base_url(m@));
    }
    proof {
        vstd::seq_lib::lemma_concat_associative(old(out)@, acc_7, enc_headerblock_osmosis_replication_base_url(m@));
    }
    let ghost acc_8 = acc_7 + enc_headerblock_osmosis_replication_base_url(m@);
    proof {
        assert(acc_8 == enc_headerblock(m@));
    }
}

pub open spec fn enc_denseinfo_version(m: SpecDenseInfo) -> Seq<u8> {
    if m.version.len() == 0 {
        Seq::<u8>::empty()
    } else {
        enc_field_bytes(1, enc_packed_i32(m.version))
    }
}

pub open spec fn enc_denseinfo_timestamp(m: SpecDenseInfo) -> Seq<u8> {
    if m.timestamp.len() == 0 {
        Seq::<u8>::empty()
    } else {
        enc_field_bytes(2, enc_packed_sint64(m.timestamp))
    }
}

pub open spec fn enc_denseinfo_changeset(m: SpecDenseInfo) -> Seq<u8> {
    if m.changeset.len() == 0 {
        Seq::<u8>::empty()
    } else {
        enc_field_bytes(3, enc_packed_sint64(m.changeset))
    }
}

pub open spec fn enc_denseinfo_uid(m: SpecDenseInfo) -> Seq<u8> {
    if m.uid.len() == 0 {
        Seq::<u8>::empty()
    } else {
        enc_field_bytes(4, enc_packed_sint32(m.uid))
    }
}

pub open spec fn enc_denseinfo_user_sid(m: SpecDenseInfo) -> Seq<u8> {
    if m.user_sid.len() == 0 {
        Seq::<u8>::empty()
    } else {
        enc_field_bytes(5, enc_packed_sint32(m.user_sid))
    }
}

pub open spec fn enc_denseinfo_visible(m: SpecDenseInfo) -> Seq<u8> {
    if m.visible.len() == 0 {
        Seq::<u8>::empty()
    } else {
        enc_field_bytes(6, enc_packed_bool(m.visible))
    }
}

/// Canonical encoding of a `DenseInfo`: fields in ascending order.
pub open spec fn enc_denseinfo(m: SpecDenseInfo) -> Seq<u8> {
    enc_denseinfo_version(m) + enc_denseinfo_timestamp(m) + enc_denseinfo_changeset(m) + enc_denseinfo_uid(m) + enc_denseinfo_user_sid(m) + enc_denseinfo_visible(m)
}

/// Append the encoding of a `DenseInfo` to `out`.
#[verifier::rlimit(100)]
#[verifier::spinoff_prover]
pub fn write_denseinfo(out: &mut Vec<u8>, m: &DenseInfo)
    ensures
        final(out)@ == old(out)@ + enc_denseinfo(m@),
{
    let ghost ck_version = out@;
    if m.version.len() > 0 {
        let mut tmp_version: Vec<u8> = Vec::new();
        write_packed_i32(&mut tmp_version, m.version.as_slice());
        write_field_payload(out, 1, tmp_version);
    }
    proof {
        assert(out@ =~= ck_version + enc_denseinfo_version(m@));
    }
    let ghost acc_1 = enc_denseinfo_version(m@);
    let ghost ck_timestamp = out@;
    if m.timestamp.len() > 0 {
        let mut tmp_timestamp: Vec<u8> = Vec::new();
        write_packed_sint64(&mut tmp_timestamp, m.timestamp.as_slice());
        write_field_payload(out, 2, tmp_timestamp);
    }
    proof {
        assert(out@ =~= ck_timestamp + enc_denseinfo_timestamp(m@));
    }
    proof {
        vstd::seq_lib::lemma_concat_associative(old(out)@, acc_1, enc_denseinfo_timestamp(m@));
    }
    let ghost acc_2 = acc_1 + enc_denseinfo_timestamp(m@);
    let ghost ck_changeset = out@;
    if m.changeset.len() > 0 {
        let mut tmp_changeset: Vec<u8> = Vec::new();
        write_packed_sint64(&mut tmp_changeset, m.changeset.as_slice());
        write_field_payload(out, 3, tmp_changeset);
    }
    proof {
        assert(out@ =~= ck_changeset + enc_denseinfo_changeset(m@));
    }
    proof {
        vstd::seq_lib::lemma_concat_associative(old(out)@, acc_2, enc_denseinfo_changeset(m@));
    }
    let ghost acc_3 = acc_2 + enc_denseinfo_changeset(m@);
    let ghost ck_uid = out@;
    if m.uid.len() > 0 {
        let mut tmp_uid: Vec<u8> = Vec::new();
        write_packed_sint32(&mut tmp_uid, m.uid.as_slice());
        write_field_payload(out, 4, tmp_uid);
    }
    proof {
        assert(out@ =~= ck_uid + enc_denseinfo_uid(m@));
    }
    proof {
        vstd::seq_lib::lemma_concat_associative(old(out)@, acc_3, enc_denseinfo_uid(m@));
    }
    let ghost acc_4 = acc_3 + enc_denseinfo_uid(m@);
    let ghost ck_user_sid = out@;
    if m.user_sid.len() > 0 {
        let mut tmp_user_sid: Vec<u8> = Vec::new();
        write_packed_sint32(&mut tmp_user_sid, m.user_sid.as_slice());
        write_field_payload(out, 5, tmp_user_sid);
    }
    proof {
        assert(out@ =~= ck_user_sid + enc_denseinfo_user_sid(m@));
    }
    proof {
        vstd::seq_lib::lemma_concat_associative(old(out)@, acc_4, enc_denseinfo_user_sid(m@));
    }
    let ghost acc_5 = acc_4 + enc_denseinfo_user_sid(m@);
    let ghost ck_visible = out@;
    if m.visible.len() > 0 {
        let mut tmp_visible: Vec<u8> = Vec::new();
        write_packed_bool(&mut tmp_visible, m.visible.as_slice());
        write_field_payload(out, 6, tmp_visible);
    }
    proof {
        assert(out@ =~= ck_visible + enc_denseinfo_visible(m@));
    }
    proof {
        vstd::seq_lib::lemma_concat_associative(old(out)@, acc_5, enc_denseinfo_visible(m@));
    }
    let ghost acc_6 = acc_5 + enc_denseinfo_visible(m@);
    proof {
        assert(acc_6 == enc_denseinfo(m@));
    }
}

pub open spec fn enc_densenodes_id(m: SpecDenseNodes) -> Seq<u8> {
    if m.id.len() == 0 {
        Seq::<u8>::empty()
    } else {
        enc_field_bytes(1, enc_packed_sint64(m.id))
    }
}

pub open spec fn enc_densenodes_denseinfo(m: SpecDenseNodes) -> Seq<u8> {
    match m.denseinfo {
        Some(sub) => enc_field_bytes(5, enc_denseinfo(sub)),
        None => Seq::<u8>::empty(),
    }
}

pub open spec fn enc_densenodes_lat(m: SpecDenseNodes) -> Seq<u8> {
    if m.lat.len() == 0 {
        Seq::<u8>::empty()
    } else {
        enc_field_bytes(8, enc_packed_sint64(m.lat))
    }
}

pub open spec fn enc_densenodes_lon(m: SpecDenseNodes) -> Seq<u8> {
    if m.lon.len() == 0 {
        Seq::<u8>::empty()
    } else {
        enc_field_bytes(9, enc_packed_sint64(m.lon))
    }
}

pub open spec fn enc_densenodes_keys_vals(m: SpecDenseNodes) -> Seq<u8> {
    if m.keys_vals.len() == 0 {
        Seq::<u8>::empty()
    } else {
        enc_field_bytes(10, enc_packed_i32(m.keys_vals))
    }
}

/// Canonical encoding of a `DenseNodes`: fields in ascending order.
pub open spec fn enc_densenodes(m: SpecDenseNodes) -> Seq<u8> {
    enc_densenodes_id(m) + enc_densenodes_denseinfo(m) + enc_densenodes_lat(m) + enc_densenodes_lon(m) + enc_densenodes_keys_vals(m)
}

/// Append the encoding of a `DenseNodes` to `out`.
#[verifier::rlimit(100)]
#[verifier::spinoff_prover]
pub fn write_densenodes(out: &mut Vec<u8>, m: &DenseNodes)
    ensures
        final(out)@ == old(out)@ + enc_densenodes(m@),
{
    let ghost ck_id = out@;
    if m.id.len() > 0 {
        let mut tmp_id: Vec<u8> = Vec::new();
        write_packed_sint64(&mut tmp_id, m.id.as_slice());
        write_field_payload(out, 1, tmp_id);
    }
    proof {
        assert(out@ =~= ck_id + enc_densenodes_id(m@));
    }
    let ghost acc_1 = enc_densenodes_id(m@);
    let ghost ck_denseinfo = out@;
    match &m.denseinfo {
        Some(sub) => {
            let mut tmp_denseinfo: Vec<u8> = Vec::new();
            write_denseinfo(&mut tmp_denseinfo, sub);
            write_field_payload(out, 5, tmp_denseinfo);
        }
        None => (),
    }
    proof {
        assert(out@ =~= ck_denseinfo + enc_densenodes_denseinfo(m@));
    }
    proof {
        vstd::seq_lib::lemma_concat_associative(old(out)@, acc_1, enc_densenodes_denseinfo(m@));
    }
    let ghost acc_2 = acc_1 + enc_densenodes_denseinfo(m@);
    let ghost ck_lat = out@;
    if m.lat.len() > 0 {
        let mut tmp_lat: Vec<u8> = Vec::new();
        write_packed_sint64(&mut tmp_lat, m.lat.as_slice());
        write_field_payload(out, 8, tmp_lat);
    }
    proof {
        assert(out@ =~= ck_lat + enc_densenodes_lat(m@));
    }
    proof {
        vstd::seq_lib::lemma_concat_associative(old(out)@, acc_2, enc_densenodes_lat(m@));
    }
    let ghost acc_3 = acc_2 + enc_densenodes_lat(m@);
    let ghost ck_lon = out@;
    if m.lon.len() > 0 {
        let mut tmp_lon: Vec<u8> = Vec::new();
        write_packed_sint64(&mut tmp_lon, m.lon.as_slice());
        write_field_payload(out, 9, tmp_lon);
    }
    proof {
        assert(out@ =~= ck_lon + enc_densenodes_lon(m@));
    }
    proof {
        vstd::seq_lib::lemma_concat_associative(old(out)@, acc_3, enc_densenodes_lon(m@));
    }
    let ghost acc_4 = acc_3 + enc_densenodes_lon(m@);
    let ghost ck_keys_vals = out@;
    if m.keys_vals.len() > 0 {
        let mut tmp_keys_vals: Vec<u8> = Vec::new();
        write_packed_i32(&mut tmp_keys_vals, m.keys_vals.as_slice());
        write_field_payload(out, 10, tmp_keys_vals);
    }
    proof {
        assert(out@ =~= ck_keys_vals + enc_densenodes_keys_vals(m@));
    }
    proof {
        vstd::seq_lib::lemma_concat_associative(old(out)@, acc_4, enc_densenodes_keys_vals(m@));
    }
    let ghost acc_5 = acc_4 + enc_densenodes_keys_vals(m@);
    proof {
        assert(acc_5 == enc_densenodes(m@));
    }
}

pub open spec fn enc_node_id(m: SpecNode) -> Seq<u8> {
    match m.id {
        Some(v) => enc_field_varint(1, zigzag_enc(v)),
        None => Seq::<u8>::empty(),
    }
}

pub open spec fn enc_node_keys(m: SpecNode) -> Seq<u8> {
    if m.keys.len() == 0 {
        Seq::<u8>::empty()
    } else {
        enc_field_bytes(2, enc_packed_u32(m.keys))
    }
}

pub open spec fn enc_node_vals(m: SpecNode) -> Seq<u8> {
    if m.vals.len() == 0 {
        Seq::<u8>::empty()
    } else {
        enc_field_bytes(3, enc_packed_u32(m.vals))
    }
}

pub open spec fn enc_node_info(m: SpecNode) -> Seq<u8> {
    match m.info {
        Some(sub) => enc_field_bytes(4, enc_info(sub)),
        None => Seq::<u8>::empty(),
    }
}

pub open spec fn enc_node_lat(m: SpecNode) -> Seq<u8> {
    match m.lat {
        Some(v) => enc_field_varint(8, zigzag_enc(v)),
        None => Seq::<u8>::empty(),
    }
}

pub open spec fn enc_node_lon(m: SpecNode) -> Seq<u8> {
    match m.lon {
        Some(v) => enc_field_varint(9, zigzag_enc(v)),
        None => Seq::<u8>::empty(),
    }
}

/// Canonical encoding of a `Node`: fields in ascending order.
pub open spec fn enc_node(m: SpecNode) -> Seq<u8> {
    enc_node_id(m) + enc_node_keys(m) + enc_node_vals(m) + enc_node_info(m) + enc_node_lat(m) + enc_node_lon(m)
}

/// Append the encoding of a `Node` to `out`.
#[verifier::rlimit(100)]
#[verifier::spinoff_prover]
pub fn write_node(out: &mut Vec<u8>, m: &Node)
    ensures
        final(out)@ == old(out)@ + enc_node(m@),
{
    let ghost ck_id = out@;
    match &m.id {
        Some(v) => write_field_varint(out, 1, zigzag_encode((*v))),
        None => (),
    }
    proof {
        assert(out@ =~= ck_id + enc_node_id(m@));
    }
    let ghost acc_1 = enc_node_id(m@);
    let ghost ck_keys = out@;
    if m.keys.len() > 0 {
        let mut tmp_keys: Vec<u8> = Vec::new();
        write_packed_u32(&mut tmp_keys, m.keys.as_slice());
        write_field_payload(out, 2, tmp_keys);
    }
    proof {
        assert(out@ =~= ck_keys + enc_node_keys(m@));
    }
    proof {
        vstd::seq_lib::lemma_concat_associative(old(out)@, acc_1, enc_node_keys(m@));
    }
    let ghost acc_2 = acc_1 + enc_node_keys(m@);
    let ghost ck_vals = out@;
    if m.vals.len() > 0 {
        let mut tmp_vals: Vec<u8> = Vec::new();
        write_packed_u32(&mut tmp_vals, m.vals.as_slice());
        write_field_payload(out, 3, tmp_vals);
    }
    proof {
        assert(out@ =~= ck_vals + enc_node_vals(m@));
    }
    proof {
        vstd::seq_lib::lemma_concat_associative(old(out)@, acc_2, enc_node_vals(m@));
    }
    let ghost acc_3 = acc_2 + enc_node_vals(m@);
    let ghost ck_info = out@;
    match &m.info {
        Some(sub) => {
            let mut tmp_info: Vec<u8> = Vec::new();
            write_info(&mut tmp_info, sub);
            write_field_payload(out, 4, tmp_info);
        }
        None => (),
    }
    proof {
        assert(out@ =~= ck_info + enc_node_info(m@));
    }
    proof {
        vstd::seq_lib::lemma_concat_associative(old(out)@, acc_3, enc_node_info(m@));
    }
    let ghost acc_4 = acc_3 + enc_node_info(m@);
    let ghost ck_lat = out@;
    match &m.lat {
        Some(v) => write_field_varint(out, 8, zigzag_encode((*v))),
        None => (),
    }
    proof {
        assert(out@ =~= ck_lat + enc_node_lat(m@));
    }
    proof {
        vstd::seq_lib::lemma_concat_associative(old(out)@, acc_4, enc_node_lat(m@));
    }
    let ghost acc_5 = acc_4 + enc_node_lat(m@);
    let ghost ck_lon = out@;
    match &m.lon {
        Some(v) => write_field_varint(out, 9, zigzag_encode((*v))),
        None => (),
    }
    proof {
        assert(out@ =~= ck_lon + enc_node_lon(m@));
    }
    proof {
        vstd::seq_lib::lemma_concat_associative(old(out)@, acc_5, enc_node_lon(m@));
    }
    let ghost acc_6 = acc_5 + enc_node_lon(m@);
    proof {
        assert(acc_6 == enc_node(m@));
    }
}

pub open spec fn enc_way_id(m: SpecWay) -> Seq<u8> {
    match m.id {
        Some(v) => enc_field_varint(1, i64_to_u64(v)),
        None => Seq::<u8>::empty(),
    }
}

pub open spec fn enc_way_keys(m: SpecWay) -> Seq<u8> {
    if m.keys.len() == 0 {
        Seq::<u8>::empty()
    } else {
        enc_field_bytes(2, enc_packed_u32(m.keys))
    }
}

pub open spec fn enc_way_vals(m: SpecWay) -> Seq<u8> {
    if m.vals.len() == 0 {
        Seq::<u8>::empty()
    } else {
        enc_field_bytes(3, enc_packed_u32(m.vals))
    }
}

pub open spec fn enc_way_info(m: SpecWay) -> Seq<u8> {
    match m.info {
        Some(sub) => enc_field_bytes(4, enc_info(sub)),
        None => Seq::<u8>::empty(),
    }
}

pub open spec fn enc_way_refs(m: SpecWay) -> Seq<u8> {
    if m.refs.len() == 0 {
        Seq::<u8>::empty()
    } else {
        enc_field_bytes(8, enc_packed_sint64(m.refs))
    }
}

pub open spec fn enc_way_lat(m: SpecWay) -> Seq<u8> {
    if m.lat.len() == 0 {
        Seq::<u8>::empty()
    } else {
        enc_field_bytes(9, enc_packed_sint64(m.lat))
    }
}

pub open spec fn enc_way_lon(m: SpecWay) -> Seq<u8> {
    if m.lon.len() == 0 {
        Seq::<u8>::empty()
    } else {
        enc_field_bytes(10, enc_packed_sint64(m.lon))
    }
}

/// Canonical encoding of a `Way`: fields in ascending order.
pub open spec fn enc_way(m: SpecWay) -> Seq<u8> {
    enc_way_id(m) + enc_way_keys(m) + enc_way_vals(m) + enc_way_info(m) + enc_way_refs(m) + enc_way_lat(m) + enc_way_lon(m)
}

/// Append the encoding of a `Way` to `out`.
#[verifier::rlimit(100)]
#[verifier::spinoff_prover]
pub fn write_way(out: &mut Vec<u8>, m: &Way)
    ensures
        final(out)@ == old(out)@ + enc_way(m@),
{
    let ghost ck_id = out@;
    match &m.id {
        Some(v) => write_field_varint(out, 1, i64_to_varint((*v))),
        None => (),
    }
    proof {
        assert(out@ =~= ck_id + enc_way_id(m@));
    }
    let ghost acc_1 = enc_way_id(m@);
    let ghost ck_keys = out@;
    if m.keys.len() > 0 {
        let mut tmp_keys: Vec<u8> = Vec::new();
        write_packed_u32(&mut tmp_keys, m.keys.as_slice());
        write_field_payload(out, 2, tmp_keys);
    }
    proof {
        assert(out@ =~= ck_keys + enc_way_keys(m@));
    }
    proof {
        vstd::seq_lib::lemma_concat_associative(old(out)@, acc_1, enc_way_keys(m@));
    }
    let ghost acc_2 = acc_1 + enc_way_keys(m@);
    let ghost ck_vals = out@;
    if m.vals.len() > 0 {
        let mut tmp_vals: Vec<u8> = Vec::new();
        write_packed_u32(&mut tmp_vals, m.vals.as_slice());
        write_field_payload(out, 3, tmp_vals);
    }
    proof {
        assert(out@ =~= ck_vals + enc_way_vals(m@));
    }
    proof {
        vstd::seq_lib::lemma_concat_associative(old(out)@, acc_2, enc_way_vals(m@));
    }
    let ghost acc_3 = acc_2 + enc_way_vals(m@);
    let ghost ck_info = out@;
    match &m.info {
        Some(sub) => {
            let mut tmp_info: Vec<u8> = Vec::new();
            write_info(&mut tmp_info, sub);
            write_field_payload(out, 4, tmp_info);
        }
        None => (),
    }
    proof {
        assert(out@ =~= ck_info + enc_way_info(m@));
    }
    proof {
        vstd::seq_lib::lemma_concat_associative(old(out)@, acc_3, enc_way_info(m@));
    }
    let ghost acc_4 = acc_3 + enc_way_info(m@);
    let ghost ck_refs = out@;
    if m.refs.len() > 0 {
        let mut tmp_refs: Vec<u8> = Vec::new();
        write_packed_sint64(&mut tmp_refs, m.refs.as_slice());
        write_field_payload(out, 8, tmp_refs);
    }
    proof {
        assert(out@ =~= ck_refs + enc_way_refs(m@));
    }
    proof {
        vstd::seq_lib::lemma_concat_associative(old(out)@, acc_4, enc_way_refs(m@));
    }
    let ghost acc_5 = acc_4 + enc_way_refs(m@);
    let ghost ck_lat = out@;
    if m.lat.len() > 0 {
        let mut tmp_lat: Vec<u8> = Vec::new();
        write_packed_sint64(&mut tmp_lat, m.lat.as_slice());
        write_field_payload(out, 9, tmp_lat);
    }
    proof {
        assert(out@ =~= ck_lat + enc_way_lat(m@));
    }
    proof {
        vstd::seq_lib::lemma_concat_associative(old(out)@, acc_5, enc_way_lat(m@));
    }
    let ghost acc_6 = acc_5 + enc_way_lat(m@);
    let ghost ck_lon = out@;
    if m.lon.len() > 0 {
        let mut tmp_lon: Vec<u8> = Vec::new();
        write_packed_sint64(&mut tmp_lon, m.lon.as_slice());
        write_field_payload(out, 10, tmp_lon);
    }
    proof {
        assert(out@ =~= ck_lon + enc_way_lon(m@));
    }
    proof {
        vstd::seq_lib::lemma_concat_associative(old(out)@, acc_6, enc_way_lon(m@));
    }
    let ghost acc_7 = acc_6 + enc_way_lon(m@);
    proof {
        assert(acc_7 == enc_way(m@));
    }
}

pub open spec fn enc_relation_id(m: SpecRelation) -> Seq<u8> {
    match m.id {
        Some(v) => enc_field_varint(1, i64_to_u64(v)),
        None => Seq::<u8>::empty(),
    }
}

pub open spec fn enc_relation_keys(m: SpecRelation) -> Seq<u8> {
    if m.keys.len() == 0 {
        Seq::<u8>::empty()
    } else {
        enc_field_bytes(2, enc_packed_u32(m.keys))
    }
}

pub open spec fn enc_relation_vals(m: SpecRelation) -> Seq<u8> {
    if m.vals.len() == 0 {
        Seq::<u8>::empty()
    } else {
        enc_field_bytes(3, enc_packed_u32(m.vals))
    }
}

pub open spec fn enc_relation_info(m: SpecRelation) -> Seq<u8> {
    match m.info {
        Some(sub) => enc_field_bytes(4, enc_info(sub)),
        None => Seq::<u8>::empty(),
    }
}

pub open spec fn enc_relation_roles_sid(m: SpecRelation) -> Seq<u8> {
    if m.roles_sid.len() == 0 {
        Seq::<u8>::empty()
    } else {
        enc_field_bytes(8, enc_packed_i32(m.roles_sid))
    }
}

pub open spec fn enc_relation_memids(m: SpecRelation) -> Seq<u8> {
    if m.memids.len() == 0 {
        Seq::<u8>::empty()
    } else {
        enc_field_bytes(9, enc_packed_sint64(m.memids))
    }
}

pub open spec fn enc_relation_types(m: SpecRelation) -> Seq<u8> {
    if m.types.len() == 0 {
        Seq::<u8>::empty()
    } else {
        enc_field_bytes(10, enc_packed_i32(m.types))
    }
}

/// Canonical encoding of a `Relation`: fields in ascending order.
pub open spec fn enc_relation(m: SpecRelation) -> Seq<u8> {
    enc_relation_id(m) + enc_relation_keys(m) + enc_relation_vals(m) + enc_relation_info(m) + enc_relation_roles_sid(m) + enc_relation_memids(m) + enc_relation_types(m)
}

/// Append the encoding of a `Relation` to `out`.
#[verifier::rlimit(100)]
#[verifier::spinoff_prover]
pub fn write_relation(out: &mut Vec<u8>, m: &Relation)
    ensures
        final(out)@ == old(out)@ + enc_relation(m@),
{
    let ghost ck_id = out@;
    match &m.id {
        Some(v) => write_field_varint(out, 1, i64_to_varint((*v))),
        None => (),
    }
    proof {
        assert(out@ =~= ck_id + enc_relation_id(m@));
    }
    let ghost acc_1 = enc_relation_id(m@);
    let ghost ck_keys = out@;
    if m.keys.len() > 0 {
        let mut tmp_keys: Vec<u8> = Vec::new();
        write_packed_u32(&mut tmp_keys, m.keys.as_slice());
        write_field_payload(out, 2, tmp_keys);
    }
    proof {
        assert(out@ =~= ck_keys + enc_relation_keys(m@));
    }
    proof {
        vstd::seq_lib::lemma_concat_associative(old(out)@, acc_1, enc_relation_keys(m@));
    }
    let ghost acc_2 = acc_1 + enc_relation_keys(m@);
    let ghost ck_vals = out@;
    if m.vals.len() > 0 {
        let mut tmp_vals: Vec<u8> = Vec::new();
        write_packed_u32(&mut tmp_vals, m.vals.as_slice());
        write_field_payload(out, 3, tmp_vals);
    }
    proof {
        assert(out@ =~= ck_vals + enc_relation_vals(m@));
    }
    proof {
        vstd::seq_lib::lemma_concat_associative(old(out)@, acc_2, enc_relation_vals(m@));
    }
    let ghost acc_3 = acc_2 + enc_relation_vals(m@);
    let ghost ck_info = out@;
    match &m.info {
        Some(sub) => {
            let mut tmp_info: Vec<u8> = Vec::new();
            write_info(&mut tmp_info, sub);
            write_field_payload(out, 4, tmp_info);
        }
        None => (),
    }
    proof {
        assert(out@ =~= ck_info + enc_relation_info(m@));
    }
    proof {
        vstd::seq_lib::lemma_concat_associative(old(out)@, acc_3, enc_relation_info(m@));
    }
    let ghost acc_4 = acc_3 + enc_relation_info(m@);
    let ghost ck_roles_sid = out@;
    if m.roles_sid.len() > 0 {
        let mut tmp_roles_sid: Vec<u8> = Vec::new();
        write_packed_i32(&mut tmp_roles_sid, m.roles_sid.as_slice());
        write_field_payload(out, 8, tmp_roles_sid);
    }
    proof {
        assert(out@ =~= ck_roles_sid + enc_relation_roles_sid(m@));
    }
    proof {
        vstd::seq_lib::lemma_concat_associative(old(out)@, acc_4, enc_relation_roles_sid(m@));
    }
    let ghost acc_5 = acc_4 + enc_relation_roles_sid(m@);
    let ghost ck_memids = out@;
    if m.memids.len() > 0 {
        let mut tmp_memids: Vec<u8> = Vec::new();
        write_packed_sint64(&mut tmp_memids, m.memids.as_slice());
        write_field_payload(out, 9, tmp_memids);
    }
    proof {
        assert(out@ =~= ck_memids + enc_relation_memids(m@));
    }
    proof {
        vstd::seq_lib::lemma_concat_associative(old(out)@, acc_5, enc_relation_memids(m@));
    }
    let ghost acc_6 = acc_5 + enc_relation_memids(m@);
    let ghost ck_types = out@;
    if m.types.len() > 0 {
        let mut tmp_types: Vec<u8> = Vec::new();
        write_packed_i32(&mut tmp_types, m.types.as_slice());
        write_field_payload(out, 10, tmp_types);
    }
    proof {
        assert(out@ =~= ck_types + enc_relation_types(m@));
    }
    proof {
        vstd::seq_lib::lemma_concat_associative(old(out)@, acc_6, enc_relation_types(m@));
    }
    let ghost acc_7 = acc_6 + enc_relation_types(m@);
    proof {
        assert(acc_7 == enc_relation(m@));
    }
}

pub open spec fn enc_primitivegroup_nodes(m: SpecPrimitiveGroup) -> Seq<u8> {
    enc_node_fields(1, m.nodes)
}

pub open spec fn enc_primitivegroup_dense(m: SpecPrimitiveGroup) -> Seq<u8> {
    match m.dense {
        Some(sub) => enc_field_bytes(2, enc_densenodes(sub)),
        None => Seq::<u8>::empty(),
    }
}

pub open spec fn enc_primitivegroup_ways(m: SpecPrimitiveGroup) -> Seq<u8> {
    enc_way_fields(3, m.ways)
}

pub open spec fn enc_primitivegroup_relations(m: SpecPrimitiveGroup) -> Seq<u8> {
    enc_relation_fields(4, m.relations)
}

/// Canonical encoding of a `PrimitiveGroup`: fields in ascending order.
pub open spec fn enc_primitivegroup(m: SpecPrimitiveGroup) -> Seq<u8> {
    enc_primitivegroup_nodes(m) + enc_primitivegroup_dense(m) + enc_primitivegroup_ways(m) + enc_primitivegroup_relations(m)
}

/// Append the encoding of a `PrimitiveGroup` to `out`.
#[verifier::rlimit(100)]
#[verifier::spinoff_prover]
pub fn write_primitivegroup(out: &mut Vec<u8>, m: &PrimitiveGroup)
    ensures
        final(out)@ == old(out)@ + enc_primitivegroup(m@),
{
    let ghost ck_nodes = out@;
    let ghost before_nodes = out@;
    let n_nodes = m.nodes.len();
    let mut i_nodes: usize = 0;
    while i_nodes < n_nodes
        invariant
            i_nodes <= n_nodes == m.nodes@.len(),
            out@ == before_nodes + enc_node_fields(1, seq_view(m.nodes@).subrange(0, i_nodes as int)),
        decreases n_nodes - i_nodes,
    {
        let mut tmp_nodes: Vec<u8> = Vec::new();
        write_node(&mut tmp_nodes, &m.nodes[i_nodes]);
        write_field_payload(out, 1, tmp_nodes);
        proof {
            assert(seq_view(m.nodes@).subrange(0, i_nodes + 1).drop_last() =~= seq_view(m.nodes@).subrange(0, i_nodes as int));
            assert(seq_view(m.nodes@).subrange(0, i_nodes + 1).last() == seq_view(m.nodes@)[i_nodes as int]);
            assert(out@ =~= before_nodes + enc_node_fields(1, seq_view(m.nodes@).subrange(0, i_nodes + 1)));
        }
        i_nodes += 1;
    }
    proof {
        assert(seq_view(m.nodes@).subrange(0, n_nodes as int) =~= seq_view(m.nodes@));
    }
    proof {
        assert(out@ =~= ck_nodes + enc_primitivegroup_nodes(m@));
    }
    let ghost acc_1 = enc_primitivegroup_nodes(m@);
    let ghost ck_dense = out@;
    match &m.dense {
        Some(sub) => {
            let mut tmp_dense: Vec<u8> = Vec::new();
            write_densenodes(&mut tmp_dense, sub);
            write_field_payload(out, 2, tmp_dense);
        }
        None => (),
    }
    proof {
        assert(out@ =~= ck_dense + enc_primitivegroup_dense(m@));
    }
    proof {
        vstd::seq_lib::lemma_concat_associative(old(out)@, acc_1, enc_primitivegroup_dense(m@));
    }
    let ghost acc_2 = acc_1 + enc_primitivegroup_dense(m@);
    let ghost ck_ways = out@;
    let ghost before_ways = out@;
    let n_ways = m.ways.len();
    let mut i_ways: usize = 0;
    while i_ways < n_ways
        invariant
            i_ways <= n_ways == m.ways@.len(),
            out@ == before_ways + enc_way_fields(3, seq_view(m.ways@).subrange(0, i_ways as int)),
        decreases n_ways - i_ways,
    {
        let mut tmp_ways: Vec<u8> = Vec::new();
        write_way(&mut tmp_ways, &m.ways[i_ways]);
        write_field_payload(out, 3, tmp_ways);
        proof {
            assert(seq_view(m.ways@).subrange(0, i_ways + 1).drop_last() =~= seq_view(m.ways@).subrange(0, i_ways as int));
            assert(seq_view(m.ways@).subrange(0, i_ways + 1).last() == seq_view(m.ways@)[i_ways as int]);
            assert(out@ =~= before_ways + enc_way_fields(3, seq_view(m.ways@).subrange(0, i_ways + 1)));
        }
        i_ways += 1;
    }
    proof {
        assert(seq_view(m.ways@).subrange(0, n_ways as int) =~= seq_view(m.ways@));
    }
    proof {
        assert(out@ =~= ck_ways + enc_primitivegroup_ways(m@));
    }
    proof {
        vstd::seq_lib::lemma_concat_associative(old(out)@, acc_2, enc_primitivegroup_ways(m@));
    }
    let ghost acc_3 = acc_2 + enc_primitivegroup_ways(m@);
    let ghost ck_relations = out@;
    let ghost before_relations = out@;
    let n_relations = m.relations.len();
    let mut i_relations: usize = 0;
    while i_relations < n_relations
        invariant
            i_relations <= n_relations == m.relations@.len(),
            out@ == before_relations + enc_relation_fields(4, seq_view(m.relations@).subrange(0, i_relations as int)),
        decreases n_relations - i_relations,
    {
        let mut tmp_relations: Vec<u8> = Vec::new();
        write_relation(&mut tmp_relations, &m.relations[i_relations]);
        write_field_payload(out, 4, tmp_relations);
        proof {
            assert(seq_view(m.relations@).subrange(0, i_relations + 1).drop_last() =~= seq_view(m.relations@).subrange(0, i_relations as int));
            assert(seq_view(m.relations@).subrange(0, i_relations + 1).last() == seq_view(m.relations@)[i_relations as int]);
            assert(out@ =~= before_relations + enc_relation_fields(4, seq_view(m.relations@).subrange(0, i_relations + 1)));
        }
        i_relations += 1;
    }
    proof {
        assert(seq_view(m.relations@).subrange(0, n_relations as int) =~= seq_view(m.relations@));
    }
    proof {
        assert(out@ =~= ck_relations + enc_primitivegroup_relations(m@));
    }
    proof {
        vstd::seq_lib::lemma_concat_associative(old(out)@, acc_3, enc_primitivegroup_relations(m@));
    }
    let ghost acc_4 = acc_3 + enc_primitivegroup_relations(m@);
    proof {
        assert(acc_4 == enc_primitivegroup(m@));
    }
}

pub open spec fn enc_primitiveblock_stringtable(m: SpecPrimitiveBlock) -> Seq<u8> {
    match m.stringtable {
        Some(sub) => enc_field_bytes(1, enc_stringtable(sub)),
        None => Seq::<u8>::empty(),
    }
}

pub open spec fn enc_primitiveblock_primitivegroup(m: SpecPrimitiveBlock) -> Seq<u8> {
    enc_primitivegroup_fields(2, m.primitivegroup)
}

pub open spec fn enc_primitiveblock_granularity(m: SpecPrimitiveBlock) -> Seq<u8> {
    match m.granularity {
        Some(v) => enc_field_varint(17, i64_to_u64(v as i64)),
        None => Seq::<u8>::empty(),
    }
}

pub open spec fn enc_primitiveblock_date_granularity(m: SpecPrimitiveBlock) -> Seq<u8> {
    match m.date_granularity {
        Some(v) => enc_field_varint(18, i64_to_u64(v as i64)),
        None => Seq::<u8>::empty(),
    }
}

pub open spec fn enc_primitiveblock_lat_offset(m: SpecPrimitiveBlock) -> Seq<u8> {
    match m.lat_offset {
        Some(v) => enc_field_varint(19, i64_to_u64(v)),
        None => Seq::<u8>::empty(),
    }
}

pub open spec fn enc_primitiveblock_lon_offset(m: SpecPrimitiveBlock) -> Seq<u8> {
    match m.lon_offset {
        Some(v) => enc_field_varint(20, i64_to_u64(v)),
        None => Seq::<u8>::empty(),
    }
}

/// Canonical encoding of a `PrimitiveBlock`: fields in ascending order.
pub open spec fn enc_primitiveblock(m: SpecPrimitiveBlock) -> Seq<u8> {
    enc_primitiveblock_stringtable(m) + enc_primitiveblock_primitivegroup(m) + enc_primitiveblock_granularity(m) + enc_primitiveblock_date_granularity(m) + enc_primitiveblock_lat_offset(m) + enc_primitiveblock_lon_offset(m)
}

/// Append the encoding of a `PrimitiveBlock` to `out`.
#[verifier::rlimit(100)]
#[verifier::spinoff_prover]
pub fn write_primitiveblock(out: &mut Vec<u8>, m: &PrimitiveBlock)
    ensures
        final(out)@ == old(out)@ + enc_primitiveblock(m@),
{
    let ghost ck_stringtable = out@;
    match &m.stringtable {
        Some(sub) => {
            let mut tmp_stringtable: Vec<u8> = Vec::new();
            write_stringtable(&mut tmp_stringtable, sub);
            write_field_payload(out, 1, tmp_stringtable);
        }
        None => (),
    }
    proof {
        assert(out@ =~= ck_stringtable + enc_primitiveblock_stringtable(m@));
    }
    let ghost acc_1 = enc_primitiveblock_stringtable(m@);
    let ghost ck_primitivegroup = out@;
    let ghost before_primitivegroup = out@;
    let n_primitivegroup = m.primitivegroup.len();
    let mut i_primitivegroup: usize = 0;
    while i_primitivegroup < n_primitivegroup
        invariant
            i_primitivegroup <= n_primitivegroup == m.primitivegroup@.len(),
            out@ == before_primitivegroup + enc_primitivegroup_fields(2, seq_view(m.primitivegroup@).subrange(0, i_primitivegroup as int)),
        decreases n_primitivegroup - i_primitivegroup,
    {
        let mut tmp_primitivegroup: Vec<u8> = Vec::new();
        write_primitivegroup(&mut tmp_primitivegroup, &m.primitivegroup[i_primitivegroup]);
        write_field_payload(out, 2, tmp_primitivegroup);
        proof {
            assert(seq_view(m.primitivegroup@).subrange(0, i_primitivegroup + 1).drop_last() =~= seq_view(m.primitivegroup@).subrange(0, i_primitivegroup as int));
            assert(seq_view(m.primitivegroup@).subrange(0, i_primitivegroup + 1).last() == seq_view(m.primitivegroup@)[i_primitivegroup as int]);
            assert(out@ =~= before_primitivegroup + enc_primitivegroup_fields(2, seq_view(m.primitivegroup@).subrange(0, i_primitivegroup + 1)));
        }
        i_primitivegroup += 1;
    }
    proof {
        assert(seq_view(m.primitivegroup@).subrange(0, n_primitivegroup as int) =~= seq_view(m.primitivegroup@));
    }
    proof {
        assert(out@ =~= ck_primitivegroup + enc_primitiveblock_primitivegroup(m@));
    }
    proof {
        vstd::seq_lib::lemma_concat_associative(old(out)@, acc_1, enc_primitiveblock_primitivegroup(m@));
    }
    let ghost acc_2 = acc_1 + enc_primitiveblock_primitivegroup(m@);
    let ghost ck_granularity = out@;
    match &m.granularity {
        Some(v) => write_field_varint(out, 17, i64_to_varint((*v) as i64)),
        None => (),
    }
    proof {
        assert(out@ =~= ck_granularity + enc_primitiveblock_granularity(m@));
    }
    proof {
        vstd::seq_lib::lemma_concat_associative(old(out)@, acc_2, enc_primitiveblock_granularity(m@));
    }
    let ghost acc_3 = acc_2 + enc_primitiveblock_granularity(m@);
    let ghost ck_date_granularity = out@;
    match &m.date_granularity {
        Some(v) => write_field_varint(out, 18, i64_to_varint((*v) as i64)),
        None => (),
    }
    proof {
        assert(out@ =~= ck_date_granularity + enc_primitiveblock_date_granularity(m@));
    }
    proof {
        vstd::seq_lib::lemma_concat_associative(old(out)@, acc_3, enc_primitiveblock_date_granularity(m@));
    }
    let ghost acc_4 = acc_3 + enc_primitiveblock_date_granularity(m@);
    let ghost ck_lat_offset = out@;
    match &m.lat_offset {
        Some(v) => write_field_varint(out, 19, i64_to_varint((*v))),
        None => (),
    }
    proof {
        assert(out@ =~= ck_lat_offset + enc_primitiveblock_lat_offset(m@));
    }
    proof {
        vstd::seq_lib::lemma_concat_associative(old(out)@, acc_4, enc_primitiveblock_lat_offset(m@));
    }
    let ghost acc_5 = acc_4 + enc_primitiveblock_lat_offset(m@);
    let ghost ck_lon_offset = out@;
    match &m.lon_offset {
        Some(v) => write_field_varint(out, 20, i64_to_varint((*v))),
        None => (),
    }
    proof {
        assert(out@ =~= ck_lon_offset + enc_primitiveblock_lon_offset(m@));
    }
    proof {
        vstd::seq_lib::lemma_concat_associative(old(out)@, acc_5, enc_primitiveblock_lon_offset(m@));
    }
    let ghost acc_6 = acc_5 + enc_primitiveblock_lon_offset(m@);
    proof {
        assert(acc_6 == enc_primitiveblock(m@));
    }
}

impl HeaderBBox {
    /// An empty message: every field absent.
    pub fn new_msg() -> (r: HeaderBBox)
        ensures
            r@ == init_headerbbox(),
    {
        let r = HeaderBBox { left: None, right: None, top: None, bottom: None };
        proof {
        }
        r
    }
}

impl StringTable {
    /// An empty message: every field absent.
    pub fn new_msg() -> (r: StringTable)
        ensures
            r@ == init_stringtable(),
    {
        let r = StringTable { s: Vec::new() };
        proof {
            assert(crate::strutil::seq_view(r.s@) =~= init_stringtable().s);
        }
        r
    }
}

impl Info {
    /// An empty message: every field absent.
    pub fn new_msg() -> (r: Info)
        ensures
            r@ == init_info(),
    {
        let r = Info { version: None, timestamp: None, changeset: None, uid: None, user_sid: None, visible: None };
        proof {
        }
        r
    }
}

impl HeaderBlock {
    /// An empty message: every field absent.
    pub fn new_msg() -> (r: HeaderBlock)
        ensures
            r@ == init_headerblock(),
    {
        let r = HeaderBlock { bbox: None, required_features: Vec::new(), optional_features: Vec::new(), writingprogram: None, source: None, osmosis_replication_timestamp: None, osmosis_replication_sequence_number: None, osmosis_replication_base_url: None };
        proof {
            assert(crate::strutil::seq_view(r.required_features@) =~= init_headerblock().required_features);
            assert(crate::strutil::seq_view(r.optional_features@) =~= init_headerblock().optional_features);
        }
        r
    }
}

impl DenseInfo {
    /// An empty message: every field absent.
    pub fn new_msg() -> (r: DenseInfo)
        ensures
            r@ == init_denseinfo(),
    {
        let r = DenseInfo { version: Vec::new(), timestamp: Vec::new(), changeset: Vec::new(), uid: Vec::new(), user_sid: Vec::new(), visible: Vec::new() };
        proof {
            assert(r.version@ =~= init_denseinfo().version);
            assert(r.timestamp@ =~= init_denseinfo().timestamp);
            assert(r.changeset@ =~= init_denseinfo().changeset);
            assert(r.uid@ =~= init_denseinfo().uid);
            assert(r.user_sid@ =~= init_denseinfo().user_sid);
            assert(r.visible@ =~= init_denseinfo().visible);
        }
        r
    }
}

impl DenseNodes {
    /// An empty message: every field absent.
    pub fn new_msg() -> (r: DenseNodes)
        ensures
            r@ == init_densenodes(),
    {
        let r = DenseNodes { id: Vec::new(), denseinfo: None, lat: Vec::new(), lon: Vec::new(), keys_vals: Vec::new() };
        proof {
            assert(r.id@ =~= init_densenodes().id);
            assert(r.lat@ =~= init_densenodes().lat);
            assert(r.lon@ =~= init_densenodes().lon);
            assert(r.keys_vals@ =~= init_densenodes().keys_vals);
        }
        r
    }
}

impl Node {
    /// An empty message: every field absent.
    pub fn new_msg() -> (r: Node)
        ensures
            r@ == init_node(),
    {
        let r = Node { id: None, keys: Vec::new(), vals: Vec::new(), info: None, lat: None, lon: None };
        proof {
            assert(r.keys@ =~= init_node().keys);
            assert(r.vals@ =~= init_node().vals);
        }
        r
    }
}

impl Way {
    /// An empty message: every field absent.
    pub fn new_msg() -> (r: Way)
        ensures
            r@ == init_way(),
    {
        let r = Way { id: None, keys: Vec::new(), vals: Vec::new(), info: None, refs: Vec::new(), lat: Vec::new(), lon: Vec::new() };
        proof {
            assert(r.keys@ =~= init_way().keys);
            assert(r.vals@ =~= init_way().vals);
            assert(r.refs@ =~= init_way().refs);
            assert(r.lat@ =~= init_way().lat);
            assert(r.lon@ =~= init_way().lon);
        }
        r
    }
}

impl Relation {
    /// An empty message: every field absent.
    pub fn new_msg() -> (r: Relation)
        ensures
            r@ == init_relation(),
    {
        let r = Relation { id: None, keys: Vec::new(), vals: Vec::new(), info: None, roles_sid: Vec::new(), memids: Vec::new(), types: Vec::new() };
        proof {
            assert(r.keys@ =~= init_relation().keys);
            assert(r.vals@ =~= init_relation().vals);
            assert(r.roles_sid@ =~= init_relation().roles_sid);
            assert(r.memids@ =~= init_relation().memids);
            assert(r.types@ =~= init_relation().types);
        }
        r
    }
}

impl PrimitiveGroup {
    /// An empty message: every field absent.
    pub fn new_msg() -> (r: PrimitiveGroup)
        ensures
            r@ == init_primitivegroup(),
    {
        let r = PrimitiveGroup { nodes: Vec::new(), dense: None, ways: Vec::new(), relations: Vec::new() };
        proof {
            assert(crate::strutil::seq_view(r.nodes@) =~= init_primitivegroup().nodes);
            assert(crate::strutil::seq_view(r.ways@) =~= init_primitivegroup().ways);
            assert(crate::strutil::seq_view(r.relations@) =~= init_primitivegroup().relations);
        }
        r
    }
}

impl PrimitiveBlock {
    /// An empty message: every field absent.
    pub fn new_msg() -> (r: PrimitiveBlock)
        ensures
            r@ == init_primitiveblock(),
    {
        let r = PrimitiveBlock { stringtable: None, primitivegroup: Vec::new(), granularity: None, date_granularity: None, lat_offset: None, lon_offset: None };
        proof {
            assert(crate::strutil::seq_view(r.primitivegroup@) =~= init_primitiveblock().primitivegroup);
        }
        r
    }
}

/// A node in the one shape the block builder emits that also fits on
/// the wire: no metadata message, and packed tag arrays of encodable
/// length.
pub open spec fn wire_sized_node(m: SpecNode) -> bool {
    &&& m.info is None
    &&& enc_packed_u32(m.keys).len() < 0x1_0000_0000_0000_0000
    &&& enc_packed_u32(m.vals).len() < 0x1_0000_0000_0000_0000
}

/// A group holding sparse nodes only, each of them wire-sized.
pub open spec fn nodes_only_group(g: SpecPrimitiveGroup) -> bool {
    &&& g.dense is None
    &&& g.ways.len() == 0
    &&& g.relations.len() == 0
    &&& forall|k: int|
        0 <= k < g.nodes.len() ==> (wire_sized_node(#[trigger] g.nodes[k]) && enc_node(
            g.nodes[k],
        ).len() < 0x1_0000_0000_0000_0000)
}

/// The packed `uint32` encoding starts with its first value's varint.
proof fn lemma_enc_packed_u32_first(vs: Seq<u32>)
    requires
        vs.len() > 0,
    ensures
        enc_packed_u32(vs) == enc_varint(vs[0] as u64) + enc_packed_u32(vs.drop_first()),
    decreases vs.len(),
{
    if vs.len() == 1 {
        assert(vs.drop_last() =~= Seq::<u32>::empty());
        assert(vs.drop_first() =~= Seq::<u32>::empty());
        assert(Seq::<u8>::empty() + enc_varint(vs[0] as u64) =~= enc_varint(vs[0] as u64));
        assert(enc_varint(vs[0] as u64) + Seq::<u8>::empty() =~= enc_varint(vs[0] as u64));
    } else {
        let head = vs.drop_last();
        lemma_enc_packed_u32_first(head);
        assert(head[0] == vs[0]);
        assert(vs.drop_first().drop_last() =~= head.drop_first());
        assert(vs.drop_first().last() == vs.last());
        vstd::seq_lib::lemma_concat_associative(
            enc_varint(vs[0] as u64),
            enc_packed_u32(head.drop_first()),
            enc_varint(vs.last() as u64),
        );
    }
}

/// Decoding inverts the packed `uint32` encoding, continuing any
/// accumulator.
proof fn lemma_dec_packed_u32_round_trip(s: Seq<u8>, i: int, vs: Seq<u32>, acc: Seq<u32>)
    requires
        0 <= i,
        i + enc_packed_u32(vs).len() <= s.len(),
        s.subrange(i, i + enc_packed_u32(vs).len() as int) == enc_packed_u32(vs),
    ensures
        dec_packed_u32(s, i, i + enc_packed_u32(vs).len() as int, acc) == Some(acc + vs),
    decreases vs.len(),
{
    if vs.len() == 0 {
        assert(acc + vs =~= acc);
    } else {
        lemma_enc_packed_u32_first(vs);
        let v0 = enc_varint(vs[0] as u64);
        let rest = enc_packed_u32(vs.drop_first());
        lemma_concat_split(s, i, v0, rest);
        lemma_varint_round_trip(s, i, vs[0] as u64);
        lemma_enc_varint_len(vs[0] as u64);
        assert(u64_to_u32(vs[0] as u64) == vs[0]);
        lemma_dec_packed_u32_round_trip(s, i + v0.len() as int, vs.drop_first(), acc.push(vs[0]));
        assert(acc.push(vs[0]) + vs.drop_first() =~= acc + vs);
    }
}

/// Parsing inverts encoding for a wire-sized `Node`.
#[verifier::rlimit(100)]
#[verifier::spinoff_prover]
pub proof fn lemma_node_round_trip(s: Seq<u8>, lo: int, m: SpecNode)
    requires
        0 <= lo,
        lo + enc_node(m).len() <= s.len(),
        s.subrange(lo, lo + enc_node(m).len() as int) == enc_node(m),
        wire_sized_node(m),
    ensures
        spec_parse_node(s, lo, lo + enc_node(m).len() as int) == Some(m),
{
    let f1 = enc_node_id(m);
    let f2 = enc_node_keys(m);
    let f3 = enc_node_vals(m);
    let f5 = enc_node_lat(m);
    let f6 = enc_node_lon(m);
    let e = enc_node(m);
    let hi = lo + e.len() as int;
    assert(enc_node_info(m) =~= Seq::<u8>::empty());
    assert(e =~= f1 + (f2 + (f3 + (f5 + f6))));
    lemma_concat_split(s, lo, f1, f2 + (f3 + (f5 + f6)));
    let p1 = lo + f1.len() as int;
    lemma_concat_split(s, p1, f2, f3 + (f5 + f6));
    let p2 = p1 + f2.len() as int;
    lemma_concat_split(s, p2, f3, f5 + f6);
    let p3 = p2 + f3.len() as int;

    let m0 = init_node();
    let m1 = SpecNode {
        id: m.id,
        keys: m0.keys,
        vals: m0.vals,
        info: m0.info,
        lat: m0.lat,
        lon: m0.lon,
    };
    if m.id is Some {
        lemma_field_varint_at(s, lo, hi, 1, zigzag_enc(m.id->Some_0));
        lemma_zigzag_round_trip(m.id->Some_0);
        assert(pf_node(s, lo, hi, m0) == pf_node(s, p1, hi, m1));
    } else {
        assert(m1 == m0);
    }
    let m2 = SpecNode {
        id: m1.id,
        keys: m.keys,
        vals: m1.vals,
        info: m1.info,
        lat: m1.lat,
        lon: m1.lon,
    };
    if m.keys.len() > 0 {
        lemma_msg_field_at(s, p1, hi, 2, enc_packed_u32(m.keys));
        let j2 = p1 + enc_tag(2, 2).len() + enc_varint(enc_packed_u32(m.keys).len() as u64).len();
        lemma_dec_packed_u32_round_trip(s, j2 as int, m.keys, m1.keys);
        assert(m1.keys + m.keys =~= m.keys);
        assert(pf_node(s, p1, hi, m1) == pf_node(s, p2, hi, m2));
    } else {
        assert(m.keys =~= m1.keys);
        assert(m2 == m1);
    }
    let m3 = SpecNode {
        id: m2.id,
        keys: m2.keys,
        vals: m.vals,
        info: m2.info,
        lat: m2.lat,
        lon: m2.lon,
    };
    if m.vals.len() > 0 {
        lemma_msg_field_at(s, p2, hi, 3, enc_packed_u32(m.vals));
        let j2 = p2 + enc_tag(3, 2).len() + enc_varint(enc_packed_u32(m.vals).len() as u64).len();
        lemma_dec_packed_u32_round_trip(s, j2 as int, m.vals, m2.vals);
        assert(m2.vals + m.vals =~= m.vals);
        assert(pf_node(s, p2, hi, m2) == pf_node(s, p3, hi, m3));
    } else {
        assert(m.vals =~= m2.vals);
        assert(m3 == m2);
    }
    assert(m3 == (SpecNode {
        id: m.id,
        keys: m.keys,
        vals: m.vals,
        info: m.info,
        lat: None,
        lon: None,
    }));
    assert(s.subrange(p3, hi) == f5 + f6);
    lemma_node_round_trip_tail(s, p3, hi, m, m3);
}

/// The coordinate tail of the node round trip: the last two fields
/// parse onto an otherwise finished partial node.
#[verifier::rlimit(100)]
#[verifier::spinoff_prover]
proof fn lemma_node_round_trip_tail(s: Seq<u8>, p3: int, hi: int, m: SpecNode, m3: SpecNode)
    requires
        0 <= p3,
        hi == p3 + enc_node_lat(m).len() + enc_node_lon(m).len(),
        hi <= s.len(),
        s.subrange(p3, hi) == enc_node_lat(m) + enc_node_lon(m),
        m3 == (SpecNode {
            id: m.id,
            keys: m.keys,
            vals: m.vals,
            info: m.info,
            lat: None,
            lon: None,
        }),
        m.info is None,
    ensures
        pf_node(s, p3, hi, m3) == Some(m),
{
    let f5 = enc_node_lat(m);
    let f6 = enc_node_lon(m);
    lemma_concat_split(s, p3, f5, f6);
    let p4 = p3 + f5.len() as int;
    let m4 = SpecNode {
        id: m3.id,
        keys: m3.keys,
        vals: m3.vals,
        info: m3.info,
        lat: m.lat,
        lon: m3.lon,
    };
    if m.lat is Some {
        lemma_field_varint_at(s, p3, hi, 8, zigzag_enc(m.lat->Some_0));
        lemma_zigzag_round_trip(m.lat->Some_0);
        assert(pf_node(s, p3, hi, m3) == pf_node(s, p4, hi, m4));
    } else {
        assert(m4 == m3);
    }
    let m5 = SpecNode {
        id: m4.id,
        keys: m4.keys,
        vals: m4.vals,
        info: m4.info,
        lat: m4.lat,
        lon: m.lon,
    };
    if m.lon is Some {
        lemma_field_varint_at(s, p4, hi, 9, zigzag_enc(m.lon->Some_0));
        lemma_zigzag_round_trip(m.lon->Some_0);
        assert(pf_node(s, p4, hi, m4) == pf_node(s, hi, hi, m5));
    } else {
        assert(m5 == m4);
    }
    assert(pf_node(s, hi, hi, m5) == Some(m5));
    assert(m5 == m);
}

/// A run of `bytes` fields starts with its first entry's field.
proof fn lemma_enc_bytes_fields_first(fno: u64, vs: Seq<Seq<u8>>)
    requires
        vs.len() > 0,
    ensures
        enc_bytes_fields(fno, vs) == enc_field_bytes(fno, vs[0]) + enc_bytes_fields(
            fno,
            vs.drop_first(),
        ),
    decreases vs.len(),
{
    if vs.len() == 1 {
        assert(vs.drop_last() =~= Seq::<Seq<u8>>::empty());
        assert(vs.drop_first() =~= Seq::<Seq<u8>>::empty());
        assert(Seq::<u8>::empty() + enc_field_bytes(fno, vs[0]) =~= enc_field_bytes(fno, vs[0]));
        assert(enc_field_bytes(fno, vs[0]) + Seq::<u8>::empty() =~= enc_field_bytes(fno, vs[0]));
    } else {
        let head = vs.drop_last();
        lemma_enc_bytes_fields_first(fno, head);
        assert(head[0] == vs[0]);
        assert(vs.drop_first().drop_last() =~= head.drop_first());
        assert(vs.drop_first().last() == vs.last());
        vstd::seq_lib::lemma_concat_associative(
            enc_field_bytes(fno, vs[0]),
            enc_bytes_fields(fno, head.drop_first()),
            enc_field_bytes(fno, vs.last()),
        );
    }
}

/// The stringtable field loop consumes a run of entry fields, appending
/// the entries in order.
proof fn lemma_stringtable_run(s: Seq<u8>, i: int, end: int, vs: Seq<Seq<u8>>, m: SpecStringTable)
    requires
        0 <= i,
        i + enc_bytes_fields(1, vs).len() <= end <= s.len(),
        s.subrange(i, i + enc_bytes_fields(1, vs).len() as int) == enc_bytes_fields(1, vs),
        forall|k: int| 0 <= k < vs.len() ==> (#[trigger] vs[k]).len() < 0x1_0000_0000_0000_0000,
    ensures
        pf_stringtable(s, i, end, m) == pf_stringtable(
            s,
            i + enc_bytes_fields(1, vs).len() as int,
            end,
            SpecStringTable { s: m.s + vs },
        ),
    decreases vs.len(),
{
    if vs.len() == 0 {
        assert(m.s + vs =~= m.s);
        assert(SpecStringTable { s: m.s + vs } == m);
    } else {
        lemma_enc_bytes_fields_first(1, vs);
        let fld = enc_field_bytes(1, vs[0]);
        lemma_concat_split(s, i, fld, enc_bytes_fields(1, vs.drop_first()));
        lemma_field_bytes_at(s, i, end, 1, vs[0]);
        let m1 = SpecStringTable { s: m.s.push(vs[0]) };
        assert(pf_stringtable(s, i, end, m) == pf_stringtable(s, i + fld.len() as int, end, m1));
        assert(forall|k: int|
            0 <= k < vs.drop_first().len() ==> #[trigger] vs.drop_first()[k] == vs[k + 1]);
        lemma_stringtable_run(s, i + fld.len() as int, end, vs.drop_first(), m1);
        assert(m.s.push(vs[0]) + vs.drop_first() =~= m.s + vs);
    }
}

/// Parsing inverts encoding for a `StringTable` of encodable entries.
pub proof fn lemma_stringtable_round_trip(s: Seq<u8>, lo: int, m: SpecStringTable)
    requires
        0 <= lo,
        lo + enc_stringtable(m).len() <= s.len(),
        s.subrange(lo, lo + enc_stringtable(m).len() as int) == enc_stringtable(m),
        forall|k: int| 0 <= k < m.s.len() ==> (#[trigger] m.s[k]).len() < 0x1_0000_0000_0000_0000,
    ensures
        spec_parse_stringtable(s, lo, lo + enc_stringtable(m).len() as int) == Some(m),
{
    let hi = lo + enc_stringtable(m).len() as int;
    lemma_stringtable_run(s, lo, hi, m.s, init_stringtable());
    assert(Seq::<Seq<u8>>::empty() + m.s =~= m.s);
    assert(pf_stringtable(s, hi, hi, SpecStringTable { s: m.s }) == Some(
        SpecStringTable { s: m.s },
    ));
    assert(SpecStringTable { s: m.s } == m);
}

/// A run of `Node` message fields starts with its first node's field.
proof fn lemma_enc_node_fields_first(fno: u64, vs: Seq<SpecNode>)
    requires
        vs.len() > 0,
    ensures
        enc_node_fields(fno, vs) == enc_field_bytes(fno, enc_node(vs[0])) + enc_node_fields(
            fno,
            vs.drop_first(),
        ),
    decreases vs.len(),
{
    if vs.len() == 1 {
        assert(vs.drop_last() =~= Seq::<SpecNode>::empty());
        assert(vs.drop_first() =~= Seq::<SpecNode>::empty());
        assert(Seq::<u8>::empty() + enc_field_bytes(fno, enc_node(vs[0])) =~= enc_field_bytes(
            fno,
            enc_node(vs[0]),
        ));
        assert(enc_field_bytes(fno, enc_node(vs[0])) + Seq::<u8>::empty() =~= enc_field_bytes(
            fno,
            enc_node(vs[0]),
        ));
    } else {
        let head = vs.drop_last();
        lemma_enc_node_fields_first(fno, head);
        assert(head[0] == vs[0]);
        assert(vs.drop_first().drop_last() =~= head.drop_first());
        assert(vs.drop_first().last() == vs.last());
        vstd::seq_lib::lemma_concat_associative(
            enc_field_bytes(fno, enc_node(vs[0])),
            enc_node_fields(fno, head.drop_first()),
            enc_field_bytes(fno, enc_node(vs.last())),
        );
    }
}

/// The group field loop consumes a run of node fields, appending the
/// nodes in order.
#[verifier::rlimit(100)]
#[verifier::spinoff_prover]
proof fn lemma_node_fields_run(
    s: Seq<u8>,
    i: int,
    end: int,
    vs: Seq<SpecNode>,
    m: SpecPrimitiveGroup,
)
    requires
        0 <= i,
        i + enc_node_fields(1, vs).len() <= end <= s.len(),
        s.subrange(i, i + enc_node_fields(1, vs).len() as int) == enc_node_fields(1, vs),
        forall|k: int|
            0 <= k < vs.len() ==> (wire_sized_node(#[trigger] vs[k]) && enc_node(vs[k]).len()
                < 0x1_0000_0000_0000_0000),
    ensures
        pf_primitivegroup(s, i, end, m) == pf_primitivegroup(
            s,
            i + enc_node_fields(1, vs).len() as int,
            end,
            SpecPrimitiveGroup {
                nodes: m.nodes + vs,
                dense: m.dense,
                ways: m.ways,
                relations: m.relations,
            },
        ),
    decreases vs.len(),
{
    if vs.len() == 0 {
        assert(m.nodes + vs =~= m.nodes);
        assert(SpecPrimitiveGroup {
            nodes: m.nodes + vs,
            dense: m.dense,
            ways: m.ways,
            relations: m.relations,
        } == m);
    } else {
        lemma_enc_node_fields_first(1, vs);
        let pl = enc_node(vs[0]);
        let fld = enc_field_bytes(1, pl);
        lemma_concat_split(s, i, fld, enc_node_fields(1, vs.drop_first()));
        lemma_msg_field_at(s, i, end, 1, pl);
        let j2 = i + enc_tag(1, 2).len() + enc_varint(pl.len() as u64).len();
        lemma_node_round_trip(s, j2 as int, vs[0]);
        let m1 = SpecPrimitiveGroup {
            nodes: m.nodes.push(vs[0]),
            dense: m.dense,
            ways: m.ways,
            relations: m.relations,
        };
        assert(pf_primitivegroup(s, i, end, m) == pf_primitivegroup(
            s,
            i + fld.len() as int,
            end,
            m1,
        ));
        assert(forall|k: int|
            0 <= k < vs.drop_first().len() ==> #[trigger] vs.drop_first()[k] == vs[k + 1]);
        lemma_node_fields_run(s, i + fld.len() as int, end, vs.drop_first(), m1);
        assert(m.nodes.push(vs[0]) + vs.drop_first() =~= m.nodes + vs);
    }
}

/// Parsing inverts encoding for a nodes-only `PrimitiveGroup`.
pub proof fn lemma_primitivegroup_round_trip(s: Seq<u8>, lo: int, g: SpecPrimitiveGroup)
    requires
        0 <= lo,
        lo + enc_primitivegroup(g).len() <= s.len(),
        s.subrange(lo, lo + enc_primitivegroup(g).len() as int) == enc_primitivegroup(g),
        nodes_only_group(g),
    ensures
        spec_parse_primitivegroup(s, lo, lo + enc_primitivegroup(g).len() as int) == Some(g),
{
    let hi = lo + enc_primitivegroup(g).len() as int;
    assert(g.ways =~= Seq::<SpecWay>::empty());
    assert(g.relations =~= Seq::<SpecRelation>::empty());
    assert(enc_primitivegroup(g) =~= enc_node_fields(1, g.nodes));
    lemma_node_fields_run(s, lo, hi, g.nodes, init_primitivegroup());
    let final_m = SpecPrimitiveGroup {
        nodes: Seq::<SpecNode>::empty() + g.nodes,
        dense: None,
        ways: Seq::empty(),
        relations: Seq::empty(),
    };
    assert(Seq::<SpecNode>::empty() + g.nodes =~= g.nodes);
    assert(pf_primitivegroup(s, hi, hi, final_m) == Some(final_m));
    assert(final_m == g);
}

/// A run of `PrimitiveGroup` message fields starts with its first
/// group's field.
proof fn lemma_enc_group_fields_first(fno: u64, vs: Seq<SpecPrimitiveGroup>)
    requires
        vs.len() > 0,
    ensures
        enc_primitivegroup_fields(fno, vs) == enc_field_bytes(fno, enc_primitivegroup(vs[0]))
            + enc_primitivegroup_fields(fno, vs.drop_first()),
    decreases vs.len(),
{
    if vs.len() == 1 {
        assert(vs.drop_last() =~= Seq::<SpecPrimitiveGroup>::empty());
        assert(vs.drop_first() =~= Seq::<SpecPrimitiveGroup>::empty());
        assert(Seq::<u8>::empty() + enc_field_bytes(fno, enc_primitivegroup(vs[0]))
            =~= enc_field_bytes(fno, enc_primitivegroup(vs[0])));
        assert(enc_field_bytes(fno, enc_primitivegroup(vs[0])) + Seq::<u8>::empty()
            =~= enc_field_bytes(fno, enc_primitivegroup(vs[0])));
    } else {
        let head = vs.drop_last();
        lemma_enc_group_fields_first(fno, head);
        assert(head[0] == vs[0]);
        assert(vs.drop_first().drop_last() =~= head.drop_first());
        assert(vs.drop_first().last() == vs.last());
        vstd::seq_lib::lemma_concat_associative(
            enc_field_bytes(fno, enc_primitivegroup(vs[0])),
            enc_primitivegroup_fields(fno, head.drop_first()),
            enc_field_bytes(fno, enc_primitivegroup(vs.last())),
        );
    }
}

/// The block field loop consumes a run of group fields, appending the
/// groups in order.
#[verifier::rlimit(100)]
#[verifier::spinoff_prover]
proof fn lemma_group_fields_run(
    s: Seq<u8>,
    i: int,
    end: int,
    vs: Seq<SpecPrimitiveGroup>,
    m: SpecPrimitiveBlock,
)
    requires
        0 <= i,
        i + enc_primitivegroup_fields(2, vs).len() <= end <= s.len(),
        s.subrange(i, i + enc_primitivegroup_fields(2, vs).len() as int)
            == enc_primitivegroup_fields(2, vs),
        forall|k: int|
            0 <= k < vs.len() ==> (nodes_only_group(#[trigger] vs[k]) && enc_primitivegroup(
                vs[k],
            ).len() < 0x1_0000_0000_0000_0000),
    ensures
        pf_primitiveblock(s, i, end, m) == pf_primitiveblock(
            s,
            i + enc_primitivegroup_fields(2, vs).len() as int,
            end,
            SpecPrimitiveBlock {
                stringtable: m.stringtable,
                primitivegroup: m.primitivegroup + vs,
                granularity: m.granularity,
                date_granularity: m.date_granularity,
                lat_offset: m.lat_offset,
                lon_offset: m.lon_offset,
            },
        ),
    decreases vs.len(),
{
    if vs.len() == 0 {
        assert(m.primitivegroup + vs =~= m.primitivegroup);
        assert(SpecPrimitiveBlock {
            stringtable: m.stringtable,
            primitivegroup: m.primitivegroup + vs,
            granularity: m.granularity,
            date_granularity: m.date_granularity,
            lat_offset: m.lat_offset,
            lon_offset: m.lon_offset,
        } == m);
    } else {
        lemma_enc_group_fields_first(2, vs);
        let pl = enc_primitivegroup(vs[0]);
        let fld = enc_field_bytes(2, pl);
        lemma_concat_split(s, i, fld, enc_primitivegroup_fields(2, vs.drop_first()));
        lemma_msg_field_at(s, i, end, 2, pl);
        let j2 = i + enc_tag(2, 2).len() + enc_varint(pl.len() as u64).len();
        lemma_primitivegroup_round_trip(s, j2 as int, vs[0]);
        let m1 = SpecPrimitiveBlock {
            stringtable: m.stringtable,
            primitivegroup: m.primitivegroup.push(vs[0]),
            granularity: m.granularity,
            date_granularity: m.date_granularity,
            lat_offset: m.lat_offset,
            lon_offset: m.lon_offset,
        };
        assert(pf_primitiveblock(s, i, end, m) == pf_primitiveblock(
            s,
            i + fld.len() as int,
            end,
            m1,
        ));
        assert(forall|k: int|
            0 <= k < vs.drop_first().len() ==> #[trigger] vs.drop_first()[k] == vs[k + 1]);
        lemma_group_fields_run(s, i + fld.len() as int, end, vs.drop_first(), m1);
        assert(m.primitivegroup.push(vs[0]) + vs.drop_first() =~= m.primitivegroup + vs);
    }
}

/// Block round trip: parsing inverts encoding for every block the
/// block builder can produce — a stringtable and nodes-only groups,
/// with the block-wide defaults left unset.  Together with the framing
/// round trip this pins down that a written block is read back whole.
#[verifier::rlimit(100)]
#[verifier::spinoff_prover]
pub proof fn lemma_primitiveblock_round_trip(b: SpecPrimitiveBlock)
    requires
        b.stringtable matches Some(st) && ({
            &&& forall|k: int|
                0 <= k < st.s.len() ==> (#[trigger] st.s[k]).len() < 0x1_0000_0000_0000_0000
            &&& enc_stringtable(st).len() < 0x1_0000_0000_0000_0000
        }),
        b.granularity is None,
        b.date_granularity is None,
        b.lat_offset is None,
        b.lon_offset is None,
        forall|k: int|
            0 <= k < b.primitivegroup.len() ==> (nodes_only_group(#[trigger] b.primitivegroup[k])
                && enc_primitivegroup(b.primitivegroup[k]).len() < 0x1_0000_0000_0000_0000),
    ensures
        spec_parse_primitiveblock(
            enc_primitiveblock(b),
            0,
            enc_primitiveblock(b).len() as int,
        ) == Some(b),
{
    let s = enc_primitiveblock(b);
    let st = b.stringtable->Some_0;
    let f1 = enc_field_bytes(1, enc_stringtable(st));
    let f2 = enc_primitivegroup_fields(2, b.primitivegroup);
    let hi = s.len() as int;
    assert(s =~= f1 + f2);
    assert(s.subrange(0, hi) =~= s);
    lemma_concat_split(s, 0, f1, f2);
    let p1 = f1.len() as int;
    lemma_msg_field_at(s, 0, hi, 1, enc_stringtable(st));
    let j2 = enc_tag(1, 2).len() + enc_varint(enc_stringtable(st).len() as u64).len();
    lemma_stringtable_round_trip(s, j2 as int, st);
    let m0 = init_primitiveblock();
    let m1 = SpecPrimitiveBlock {
        stringtable: Some(st),
        primitivegroup: m0.primitivegroup,
        granularity: m0.granularity,
        date_granularity: m0.date_granularity,
        lat_offset: m0.lat_offset,
        lon_offset: m0.lon_offset,
    };
    assert(pf_primitiveblock(s, 0, hi, m0) == pf_primitiveblock(s, p1, hi, m1));
    lemma_group_fields_run(s, p1, hi, b.primitivegroup, m1);
    let final_m = SpecPrimitiveBlock {
        stringtable: Some(st),
        primitivegroup: Seq::<SpecPrimitiveGroup>::empty() + b.primitivegroup,
        granularity: None,
        date_granularity: None,
        lat_offset: None,
        lon_offset: None,
    };
    assert(Seq::<SpecPrimitiveGroup>::empty() + b.primitivegroup =~= b.primitivegroup);
    assert(pf_primitiveblock(s, hi, hi, final_m) == Some(final_m));
    assert(final_m == b);
}

} // verus!

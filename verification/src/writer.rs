//! Encode and write blobs and blocks, and the framing round-trip law.

use vstd::prelude::*;
use crate::blob::{
    Blob, MAX_BLOB_HEADER_SIZE, MAX_BLOB_MESSAGE_SIZE, SpecBlobRead, spec_payload_ok,
    spec_read_blob, spec_read_frame, SpecFrame,
};
use crate::block::{HeaderBlock, PrimitiveBlock};
use crate::error::{BlobError, Error, ErrorKind, IoErrorKind, new_blob_error, new_error};
use crate::fileformat;
use crate::fileformat::{
    SpecBlob, SpecBlobHeader, enc_blob, enc_blob_header, lemma_blob_header_round_trip,
    lemma_blob_round_trip, wf_blob, wf_blob_header, write_blob_header_msg, write_blob_msg,
};
use crate::osmformat;
use crate::osmformat::{
    SpecNode, SpecPrimitiveBlock, SpecPrimitiveGroup, enc_headerblock, enc_primitivegroup,
    enc_primitiveblock, enc_stringtable, lemma_primitiveblock_round_trip, nodes_only_group,
    write_headerblock, write_primitiveblock,
};
use crate::pbf::lemma_concat_split;
use crate::strutil::seq_view;
use vstd::string::StringSliceAdditionalSpecFns;
use crate::wire::{be32, be32_bytes, lemma_be32_round_trip, write_be32};
use crate::zlib::{inflate_of, zlib_deflate};

verus! {

/// How a block is stored inside its blob.
#[derive(Clone, Copy, Debug, Eq, PartialEq)]
pub enum BlobEncoding {
    /// The block bytes are stored uncompressed.
    Raw,
    /// The block bytes are zlib-compressed at the given level (0 to 9).
    Zlib {
        /// Compression level: 0 stores, 9 compresses hardest.
        level: u32,
    },
}

/// One whole framed record: the big-endian size of the encoded header,
/// the header, the blob.
pub open spec fn enc_frame(h: SpecBlobHeader, b: SpecBlob) -> Seq<u8> {
    be32_bytes(enc_blob_header(h).len() as u32) + enc_blob_header(h) + enc_blob(b)
}

/// A header whose declared size is the actual size of the encoded blob.
pub open spec fn consistent_frame(h: SpecBlobHeader, b: SpecBlob) -> bool {
    &&& h.datasize == enc_blob(b).len()
    &&& enc_blob_header(h).len() < MAX_BLOB_HEADER_SIZE
    &&& wf_blob_header(h)
    &&& wf_blob(b)
}

/// A writer that frames blobs into a byte buffer.
#[derive(Clone, Debug)]
pub struct BlobWriter {
    out: Vec<u8>,
}

impl View for BlobWriter {
    type V = Seq<u8>;

    closed spec fn view(&self) -> Seq<u8> {
        self.out@
    }
}

impl BlobWriter {
    /// A writer that appends to the given buffer.
    pub fn new(out: Vec<u8>) -> (r: BlobWriter)
        ensures
            r@ == out@,
    {
        BlobWriter { out }
    }

    /// The bytes written so far.
    pub fn into_inner(self) -> (r: Vec<u8>)
        ensures
            r@ == self@,
    {
        self.out
    }

    /// Frame one record from its two messages.  The header's declared
    /// `datasize` is set to the actual size of the encoded blob, and the
    /// 64 KiB header ceiling is enforced; on failure nothing is written.
    pub(crate) fn write_blob_raw(
        &mut self,
        header: fileformat::BlobHeader,
        blob: fileformat::Blob,
    ) -> (r: Result<(), Error>)
        ensures
            enc_blob(blob@).len() > i32::MAX ==> (r matches Err(e) && e@ == ErrorKind::Blob(
                BlobError::MessageTooBig { size: enc_blob(blob@).len() as u64 },
            ) && final(self)@ == old(self)@),
            enc_blob(blob@).len() <= i32::MAX ==> ({
                let fixed = SpecBlobHeader {
                    type_: header@.type_,
                    indexdata: header@.indexdata,
                    datasize: enc_blob(blob@).len() as i32,
                };
                if enc_blob_header(fixed).len() >= MAX_BLOB_HEADER_SIZE {
                    r matches Err(e) && e@ == ErrorKind::Blob(
                        BlobError::HeaderTooBig { size: enc_blob_header(fixed).len() as u64 },
                    ) && final(self)@ == old(self)@
                } else {
                    r is Ok && final(self)@ == old(self)@ + enc_frame(fixed, blob@)
                }
            }),
    {
        let mut blob_bytes: Vec<u8> = Vec::new();
        write_blob_msg(&mut blob_bytes, &blob);
        if blob_bytes.len() > (i32::MAX as usize) {
            return Err(new_blob_error(BlobError::MessageTooBig { size: blob_bytes.len() as u64 }));
        }
        let mut fixed = header;
        fixed.datasize = blob_bytes.len() as i32;
        let mut hdr_bytes: Vec<u8> = Vec::new();
        write_blob_header_msg(&mut hdr_bytes, &fixed);
        if (hdr_bytes.len() as u64) >= MAX_BLOB_HEADER_SIZE {
            return Err(new_blob_error(BlobError::HeaderTooBig { size: hdr_bytes.len() as u64 }));
        }
        write_be32(&mut self.out, hdr_bytes.len() as u32);
        self.out.append(&mut hdr_bytes);
        self.out.append(&mut blob_bytes);
        proof {
            assert(final(self)@ =~= old(self)@ + enc_frame(
                SpecBlobHeader {
                    type_: header@.type_,
                    indexdata: header@.indexdata,
                    datasize: enc_blob(blob@).len() as i32,
                },
                blob@,
            ));
        }
        Ok(())
    }

    /// Frame one already-assembled blob record.
    pub fn write_blob(&mut self, blob: Blob) -> (r: Result<(), Error>)
        ensures
            enc_blob(blob@.blob).len() > i32::MAX ==> r is Err && final(self)@ == old(self)@,
            enc_blob(blob@.blob).len() <= i32::MAX ==> ({
                let fixed = SpecBlobHeader {
                    type_: blob@.header.type_,
                    indexdata: blob@.header.indexdata,
                    datasize: enc_blob(blob@.blob).len() as i32,
                };
                if enc_blob_header(fixed).len() >= MAX_BLOB_HEADER_SIZE {
                    r is Err && final(self)@ == old(self)@
                } else {
                    r is Ok && final(self)@ == old(self)@ + enc_frame(fixed, blob@.blob)
                }
            }),
    {
        proof {
            crate::blob::lemma_blob_fields(blob);
        }
        self.write_blob_raw(blob.header, blob.blob)
    }
}

/// The encoded blob exceeds its payloads by at most a few tag and
/// length bytes.
proof fn lemma_enc_blob_len(b: SpecBlob)
    ensures
        enc_blob(b).len() <= (match b.raw {
            Some(x) => x.len(),
            None => 0,
        }) + (match b.zlib_data {
            Some(z) => z.len(),
            None => 0,
        }) + 60,
{
    if b.raw is Some {
        crate::wire::lemma_enc_varint_len((8 * 1 + 2) as u64);
        crate::wire::lemma_enc_varint_len(b.raw->Some_0.len() as u64);
    }
    if b.raw_size is Some {
        crate::wire::lemma_enc_varint_len((8 * 2 + 0) as u64);
        crate::wire::lemma_enc_varint_len(crate::wire::i64_to_u64(b.raw_size->Some_0 as i64));
    }
    if b.zlib_data is Some {
        crate::wire::lemma_enc_varint_len((8 * 3 + 2) as u64);
        crate::wire::lemma_enc_varint_len(b.zlib_data->Some_0.len() as u64);
    }
}

/// The encoded header of a framed block stays far under the 64 KiB
/// header ceiling: its type string is short and it carries no index
/// data.
proof fn lemma_enc_blob_header_len(h: SpecBlobHeader)
    requires
        h.indexdata is None,
    ensures
        enc_blob_header(h).len() <= 4 * h.type_.len() + 40,
{
    crate::strutil::lemma_encode_utf8_len(h.type_);
    crate::wire::lemma_enc_varint_len((8 * 1 + 2) as u64);
    crate::wire::lemma_enc_varint_len(vstd::utf8::encode_utf8(h.type_).len() as u64);
    crate::wire::lemma_enc_varint_len((8 * 3 + 0) as u64);
    crate::wire::lemma_enc_varint_len(crate::wire::i64_to_u64(h.datasize as i64));
}

/// Turn block bytes into a `Blob` message under the given encoding,
/// enforcing the 32 MiB ceiling on the uncompressed size.
pub(crate) fn encode_block_data(block_data: Vec<u8>, encoding: BlobEncoding) -> (r: Result<
    fileformat::Blob,
    Error,
>)
    requires
        (encoding matches BlobEncoding::Zlib { level } ==> level <= 9),
    ensures
        block_data@.len() >= MAX_BLOB_MESSAGE_SIZE ==> (r matches Err(e) && e@ == ErrorKind::Blob(
            BlobError::MessageTooBig { size: block_data@.len() as u64 },
        )),
        block_data@.len() < MAX_BLOB_MESSAGE_SIZE && encoding is Raw ==> (r matches Ok(b) && b@
            == (SpecBlob {
            raw: Some(block_data@),
            raw_size: Some(block_data@.len() as i32),
            zlib_data: None,
        })),
        (block_data@.len() < MAX_BLOB_MESSAGE_SIZE && encoding matches BlobEncoding::Zlib { .. })
            ==> match r {
            Ok(b) => {
                &&& b@.raw is None
                &&& b@.raw_size == Some(block_data@.len() as i32)
                &&& b@.zlib_data matches Some(z) && inflate_of(z) == Some(block_data@)
            },
            Err(e) => e@ == ErrorKind::Io(IoErrorKind::Other),
        },
{
    if (block_data.len() as u64) >= MAX_BLOB_MESSAGE_SIZE {
        return Err(new_blob_error(BlobError::MessageTooBig { size: block_data.len() as u64 }));
    }
    let raw_size = block_data.len() as i32;
    match encoding {
        BlobEncoding::Raw => Ok(
            fileformat::Blob { raw: Some(block_data), raw_size: Some(raw_size), zlib_data: None },
        ),
        BlobEncoding::Zlib { level } => {
            match zlib_deflate(block_data.as_slice(), level) {
                Some(z) => Ok(
                    fileformat::Blob { raw: None, raw_size: Some(raw_size), zlib_data: Some(z) },
                ),
                None => Err(new_error(ErrorKind::Io(IoErrorKind::Other))),
            }
        }
    }
}

impl BlobWriter {
    /// Write a blob that carries the given `HeaderBlock` (usually the
    /// first blob of a file).
    pub fn write_header_block(&mut self, block: HeaderBlock, encoding: BlobEncoding) -> (r: Result<
        (),
        Error,
    >)
        requires
            (encoding matches BlobEncoding::Zlib { level } ==> level <= 9),
        ensures
            r is Err ==> final(self)@ == old(self)@,
            r is Ok && encoding is Raw ==> ({
                let body = enc_headerblock(block@);
                let bl = SpecBlob {
                    raw: Some(body),
                    raw_size: Some(body.len() as i32),
                    zlib_data: None,
                };
                exists|h: SpecBlobHeader|
                    {
                        &&& #[trigger] consistent_frame(h, bl)
                        &&& h.type_ == "OSMHeader"@
                        &&& final(self)@ == old(self)@ + enc_frame(h, bl)
                    }
            }),
            (r is Ok && encoding matches BlobEncoding::Zlib { .. }) ==> ({
                let body = enc_headerblock(block@);
                exists|h: SpecBlobHeader, bl: SpecBlob|
                    {
                        &&& #[trigger] consistent_frame(h, bl)
                        &&& h.type_ == "OSMHeader"@
                        &&& bl.raw is None
                        &&& bl.zlib_data matches Some(z) && inflate_of(z) == Some(body)
                        &&& final(self)@ == old(self)@ + enc_frame(h, bl)
                    }
            }),
            (encoding is Raw && enc_headerblock(block@).len() < MAX_BLOB_MESSAGE_SIZE) ==> r
                is Ok,
            r matches Err(e) ==> (enc_headerblock(block@).len() >= MAX_BLOB_MESSAGE_SIZE && e@
                == ErrorKind::Blob(
                BlobError::MessageTooBig { size: enc_headerblock(block@).len() as u64 },
            )) || (encoding matches BlobEncoding::Zlib { .. } && (e@ == ErrorKind::Io(
                IoErrorKind::Other,
            ) || e@ matches ErrorKind::Blob(BlobError::MessageTooBig { .. }))),
    {
        let mut block_data: Vec<u8> = Vec::new();
        write_headerblock(&mut block_data, &block.into_message());
        proof {
            assert(block_data@ =~= enc_headerblock(block@));
        }
        self.write_block_message(block_data, true, encoding)
    }

    /// Write a blob that carries the given `PrimitiveBlock`.
    pub fn write_primitive_block(
        &mut self,
        block: PrimitiveBlock,
        encoding: BlobEncoding,
    ) -> (r: Result<(), Error>)
        requires
            (encoding matches BlobEncoding::Zlib { level } ==> level <= 9),
        ensures
            r is Err ==> final(self)@ == old(self)@,
            r is Ok && encoding is Raw ==> ({
                let body = enc_primitiveblock(block@);
                let bl = SpecBlob {
                    raw: Some(body),
                    raw_size: Some(body.len() as i32),
                    zlib_data: None,
                };
                exists|h: SpecBlobHeader|
                    {
                        &&& #[trigger] consistent_frame(h, bl)
                        &&& h.type_ == "OSMData"@
                        &&& final(self)@ == old(self)@ + enc_frame(h, bl)
                    }
            }),
            (r is Ok && encoding matches BlobEncoding::Zlib { .. }) ==> ({
                let body = enc_primitiveblock(block@);
                exists|h: SpecBlobHeader, bl: SpecBlob|
                    {
                        &&& #[trigger] consistent_frame(h, bl)
                        &&& h.type_ == "OSMData"@
                        &&& bl.raw is None
                        &&& bl.zlib_data matches Some(z) && inflate_of(z) == Some(body)
                        &&& final(self)@ == old(self)@ + enc_frame(h, bl)
                    }
            }),
            (encoding is Raw && enc_primitiveblock(block@).len() < MAX_BLOB_MESSAGE_SIZE) ==> r
                is Ok,
            r matches Err(e) ==> (enc_primitiveblock(block@).len() >= MAX_BLOB_MESSAGE_SIZE && e@
                == ErrorKind::Blob(
                BlobError::MessageTooBig { size: enc_primitiveblock(block@).len() as u64 },
            )) || (encoding matches BlobEncoding::Zlib { .. } && (e@ == ErrorKind::Io(
                IoErrorKind::Other,
            ) || e@ matches ErrorKind::Blob(BlobError::MessageTooBig { .. }))),
    {
        let mut block_data: Vec<u8> = Vec::new();
        write_primitiveblock(&mut block_data, &block.into_message());
        proof {
            assert(block_data@ =~= enc_primitiveblock(block@));
        }
        self.write_block_message(block_data, false, encoding)
    }

    /// Shared tail of the two block writers: encode the payload, build
    /// the header, frame the record.
    #[verifier::rlimit(100)]
    #[verifier::spinoff_prover]
    fn write_block_message(
        &mut self,
        block_data: Vec<u8>,
        is_header: bool,
        encoding: BlobEncoding,
    ) -> (r: Result<(), Error>)
        requires
            (encoding matches BlobEncoding::Zlib { level } ==> level <= 9),
        ensures
            r is Err ==> final(self)@ == old(self)@,
            r is Ok && encoding is Raw ==> ({
                let bl = SpecBlob {
                    raw: Some(block_data@),
                    raw_size: Some(block_data@.len() as i32),
                    zlib_data: None,
                };
                exists|h: SpecBlobHeader|
                    {
                        &&& #[trigger] consistent_frame(h, bl)
                        &&& h.type_ == (if is_header {
                            "OSMHeader"@
                        } else {
                            "OSMData"@
                        })
                        &&& final(self)@ == old(self)@ + enc_frame(h, bl)
                    }
            }),
            (r is Ok && encoding matches BlobEncoding::Zlib { .. }) ==> exists|
                h: SpecBlobHeader,
                bl: SpecBlob,
            |
                {
                    &&& #[trigger] consistent_frame(h, bl)
                    &&& h.type_ == (if is_header {
                        "OSMHeader"@
                    } else {
                        "OSMData"@
                    })
                    &&& bl.raw is None
                    &&& bl.zlib_data matches Some(z) && inflate_of(z) == Some(block_data@)
                    &&& final(self)@ == old(self)@ + enc_frame(h, bl)
                },
            (encoding is Raw && block_data@.len() < MAX_BLOB_MESSAGE_SIZE) ==> r is Ok,
            r matches Err(e) ==> (block_data@.len() >= MAX_BLOB_MESSAGE_SIZE && e@
                == ErrorKind::Blob(BlobError::MessageTooBig { size: block_data@.len() as u64 }))
                || (encoding matches BlobEncoding::Zlib { .. } && (e@ == ErrorKind::Io(
                IoErrorKind::Other,
            ) || e@ matches ErrorKind::Blob(BlobError::MessageTooBig { .. }))),
    {
        let ghost body = block_data@;
        let blob = match encode_block_data(block_data, encoding) {
            Ok(b) => b,
            Err(e) => {
                return Err(e);
            }
        };
        let type_string = if is_header {
            let t: &str = "OSMHeader";
            t
        } else {
            let t: &str = "OSMData";
            t
        };
        let header = fileformat::BlobHeader {
            type_: type_string.to_owned(),
            indexdata: None,
            datasize: 0,
        };
        let ghost hv = header@;
        let ghost bv = blob@;
        proof {
            let fixed = SpecBlobHeader {
                type_: hv.type_,
                indexdata: hv.indexdata,
                datasize: enc_blob(bv).len() as i32,
            };
            reveal_strlit("OSMHeader");
            reveal_strlit("OSMData");
            assert(("OSMHeader"@).len() == 9);
            assert(("OSMData"@).len() == 7);
            lemma_enc_blob_len(bv);
            lemma_enc_blob_header_len(fixed);
            assert(enc_blob_header(fixed).len() < MAX_BLOB_HEADER_SIZE);
            if encoding is Raw {
                assert(enc_blob(bv).len() <= body.len() + 60);
                assert(enc_blob(bv).len() <= i32::MAX);
            }
        }
        let r = self.write_blob_raw(header, blob);
        match r {
            Ok(_) => {
                proof {
                    let fixed = SpecBlobHeader {
                        type_: hv.type_,
                        indexdata: hv.indexdata,
                        datasize: enc_blob(bv).len() as i32,
                    };
                    crate::wire::lemma_enc_varint_len((8 * 1 + 2) as u64);
                    crate::wire::lemma_enc_varint_len(vstd::utf8::encode_utf8(hv.type_).len() as u64);
                    assert(consistent_frame(fixed, bv));
                    if encoding is Raw {
                        assert(final(self)@ == old(self)@ + enc_frame(fixed, bv));
                    } else {
                        assert(final(self)@ == old(self)@ + enc_frame(fixed, bv));
                    }
                }
                Ok(())
            }
            Err(e) => Err(e),
        }
    }
}

/// Write-read round trip at block granularity: the `Raw` blob that
/// `write_primitive_block` emits for a block the builder can produce
/// selects the encoded block as its payload, and parsing that payload
/// yields exactly the block again.  With `lemma_frame_round_trip` this
/// closes the loop from a written block to the block read back.
pub proof fn lemma_block_write_read(b: SpecPrimitiveBlock)
    requires
        b.stringtable matches Some(st) && ({
            &&& forall|k: int|
                0 <= k < st.s.len() ==> (#[trigger] st.s[k]).len() < 0x1_0000_0000_0000_0000
            &&& enc_stringtable(st).len() < 0x1_0000_0000_0000_0000
        }),
        b.granularity is None,
        b.date_granularity is None,
        b.lat_offset is None,
        b.lon_offset is None,
        forall|k: int|
            0 <= k < b.primitivegroup.len() ==> (nodes_only_group(#[trigger] b.primitivegroup[k])
                && enc_primitivegroup(b.primitivegroup[k]).len() < 0x1_0000_0000_0000_0000),
        enc_primitiveblock(b).len() < MAX_BLOB_MESSAGE_SIZE,
    ensures
        ({
            let body = enc_primitiveblock(b);
            let bl = SpecBlob {
                raw: Some(body),
                raw_size: Some(body.len() as i32),
                zlib_data: None,
            };
            &&& spec_payload_ok(bl) == Some(body)
            &&& osmformat::spec_parse_primitiveblock(body, 0, body.len() as int) == Some(b)
        }),
{
    lemma_primitiveblock_round_trip(b);
}

/// Reading inverts writing, one record at a time: wherever the bytes of a
/// consistently framed record sit in a stream, reading at that position
/// yields exactly that record and stops right after it.
pub proof fn lemma_frame_round_trip(d: Seq<u8>, i: int, h: SpecBlobHeader, b: SpecBlob)
    requires
        0 <= i,
        i + enc_frame(h, b).len() <= d.len(),
        d.subrange(i, i + enc_frame(h, b).len() as int) == enc_frame(h, b),
        consistent_frame(h, b),
        h.datasize <= i32::MAX,
    ensures
        spec_read_blob(d, i) == (SpecBlobRead::Read {
            header: h,
            blob: b,
            next: i + enc_frame(h, b).len(),
        }),
{
    let hb = enc_blob_header(h);
    let bb = enc_blob(b);
    let pre = be32_bytes(hb.len() as u32);
    let e = enc_frame(h, b);
    assert(e == (pre + hb) + bb);
    assert(e =~= pre + (hb + bb));
    lemma_concat_split(d, i, pre, hb + bb);
    lemma_concat_split(d, i + 4, hb, bb);
    lemma_be32_round_trip(hb.len() as u32);
    assert(d[i] == pre[0] && d[i + 1] == pre[1] && d[i + 2] == pre[2] && d[i + 3] == pre[3]) by {
        assert(d.subrange(i, i + 4)[0] == pre[0]);
        assert(d.subrange(i, i + 4)[1] == pre[1]);
        assert(d.subrange(i, i + 4)[2] == pre[2]);
        assert(d.subrange(i, i + 4)[3] == pre[3]);
    };
    assert(be32(d[i], d[i + 1], d[i + 2], d[i + 3]) == hb.len());
    lemma_blob_header_round_trip(d, i + 4, h);
    lemma_blob_round_trip(d, i + 4 + hb.len() as int, b);
    assert(spec_read_frame(d, i) == (SpecFrame::Frame {
        header: h,
        body_start: i + 4 + hb.len() as int,
        next: i + e.len() as int,
    }));
}

/// The concatenated encoding of a list of records.
pub open spec fn enc_frames(rs: Seq<(SpecBlobHeader, SpecBlob)>) -> Seq<u8>
    decreases rs.len(),
{
    if rs.len() == 0 {
        Seq::<u8>::empty()
    } else {
        enc_frames(rs.drop_last()) + enc_frame(rs.last().0, rs.last().1)
    }
}

/// Where the `k`-th record starts inside the concatenated encoding.
pub open spec fn frame_offset(rs: Seq<(SpecBlobHeader, SpecBlob)>, k: int) -> int {
    enc_frames(rs.take(k)).len() as int
}

proof fn lemma_enc_frames_take_succ(rs: Seq<(SpecBlobHeader, SpecBlob)>, k: int)
    requires
        0 <= k < rs.len(),
    ensures
        enc_frames(rs.take(k + 1)) == enc_frames(rs.take(k)) + enc_frame(rs[k].0, rs[k].1),
{
    assert(rs.take(k + 1).drop_last() =~= rs.take(k));
    assert(rs.take(k + 1).last() == rs[k]);
}

proof fn lemma_enc_frames_prefix(rs: Seq<(SpecBlobHeader, SpecBlob)>, m: int)
    requires
        0 <= m <= rs.len(),
    ensures
        enc_frames(rs.take(m)).len() <= enc_frames(rs).len(),
        enc_frames(rs).subrange(0, enc_frames(rs.take(m)).len() as int) == enc_frames(rs.take(m)),
    decreases rs.len(),
{
    if m == rs.len() {
        assert(rs.take(m) =~= rs);
        assert(enc_frames(rs).subrange(0, enc_frames(rs).len() as int) =~= enc_frames(rs));
    } else {
        let head = rs.drop_last();
        assert(rs.take(m) =~= head.take(m));
        lemma_enc_frames_prefix(head, m);
        let pm = enc_frames(head.take(m)).len() as int;
        assert(enc_frames(rs) == enc_frames(head) + enc_frame(rs.last().0, rs.last().1));
        assert(enc_frames(rs).subrange(0, pm) =~= enc_frames(head).subrange(0, pm));
    }
}

/// Round-trip framing: write any list of consistently framed records and
/// the reader returns them all, in order, each at its partial-sum offset.
pub proof fn lemma_round_trip_framing(rs: Seq<(SpecBlobHeader, SpecBlob)>, k: int)
    requires
        0 <= k < rs.len(),
        forall|j: int|
            0 <= j < rs.len() ==> #[trigger] consistent_frame(rs[j].0, rs[j].1) && rs[j].0.datasize
                <= i32::MAX,
    ensures
        spec_read_blob(enc_frames(rs), frame_offset(rs, k)) == (SpecBlobRead::Read {
            header: rs[k].0,
            blob: rs[k].1,
            next: frame_offset(rs, k + 1),
        }),
{
    let d = enc_frames(rs);
    let off = frame_offset(rs, k);
    lemma_enc_frames_take_succ(rs, k);
    lemma_enc_frames_prefix(rs, k + 1);
    let a = enc_frames(rs.take(k));
    let f = enc_frame(rs[k].0, rs[k].1);
    assert(d.subrange(0, a.len() + f.len() as int) == a + f);
    lemma_concat_split(d, 0, a, f);
    lemma_frame_round_trip(d, off, rs[k].0, rs[k].1);
}


/// The first index at which a stringtable holds the given entry.
pub open spec fn first_index(st: Seq<Seq<u8>>, e: Seq<u8>) -> Option<int>
    decreases st.len(),
{
    if st.len() == 0 {
        None
    } else if st[0] == e {
        Some(0)
    } else {
        match first_index(st.drop_first(), e) {
            None => None,
            Some(i) => Some(i + 1),
        }
    }
}

/// Interning one entry: the table (unchanged, or with the entry pushed)
/// and the entry's index.
pub open spec fn st_insert(st: Seq<Seq<u8>>, e: Seq<u8>) -> (Seq<Seq<u8>>, int) {
    match first_index(st, e) {
        Some(i) => (st, i),
        None => (st.push(e), st.len() as int),
    }
}

proof fn lemma_first_index_found(st: Seq<Seq<u8>>, e: Seq<u8>, i: int)
    requires
        0 <= i < st.len(),
        st[i] == e,
        forall|k: int| 0 <= k < i ==> st[k] != e,
    ensures
        first_index(st, e) == Some(i),
    decreases st.len(),
{
    if i > 0 {
        assert(st.drop_first()[i - 1] == e);
        assert(forall|k: int| 0 <= k < i - 1 ==> #[trigger] st.drop_first()[k] == st[k + 1]);
        lemma_first_index_found(st.drop_first(), e, i - 1);
    }
}

proof fn lemma_first_index_missing(st: Seq<Seq<u8>>, e: Seq<u8>)
    requires
        forall|k: int| 0 <= k < st.len() ==> st[k] != e,
    ensures
        first_index(st, e) is None,
    decreases st.len(),
{
    if st.len() > 0 {
        assert(forall|k: int|
            0 <= k < st.drop_first().len() ==> #[trigger] st.drop_first()[k] == st[k + 1]);
        lemma_first_index_missing(st.drop_first(), e);
    }
}

/// A builder for one `PrimitiveBlock`, with an auto-deduplicating
/// stringtable whose index 0 is the reserved blank entry.
pub struct BlockBuilder {
    blob_writer: BlobWriter,
    strings: Vec<Vec<u8>>,
    groups: Vec<osmformat::PrimitiveGroup>,
}

impl View for BlockBuilder {
    type V = (Seq<u8>, Seq<Seq<u8>>, Seq<SpecPrimitiveGroup>);

    closed spec fn view(&self) -> (Seq<u8>, Seq<Seq<u8>>, Seq<SpecPrimitiveGroup>) {
        (self.blob_writer@, seq_view(self.strings@), seq_view(self.groups@))
    }
}

/// The block a builder's state stands for.
pub open spec fn built_block(strings: Seq<Seq<u8>>, groups: Seq<SpecPrimitiveGroup>)
    -> SpecPrimitiveBlock {
    SpecPrimitiveBlock {
        stringtable: Some(osmformat::SpecStringTable { s: strings }),
        primitivegroup: groups,
        granularity: None,
        date_granularity: None,
        lat_offset: None,
        lon_offset: None,
    }
}

impl BlockBuilder {
    /// A builder writing through the given writer; the stringtable
    /// starts with the one reserved blank entry.
    pub fn new(blob_writer: BlobWriter) -> (r: BlockBuilder)
        ensures
            r@.0 == blob_writer@,
            r@.1 == seq![Seq::<u8>::empty()],
            r@.2 == Seq::<SpecPrimitiveGroup>::empty(),
    {
        let blank: Vec<u8> = Vec::new();
        let mut strings: Vec<Vec<u8>> = Vec::new();
        strings.push(blank);
        let r = BlockBuilder { blob_writer, strings, groups: Vec::new() };
        proof {
            assert(r@.1 =~= seq![Seq::<u8>::empty()]);
            assert(r@.2 =~= Seq::<SpecPrimitiveGroup>::empty());
        }
        r
    }

    /// The index of the given entry in the stringtable, inserting it
    /// first if it is not yet there.
    pub fn add_string_table_entry(&mut self, entry: Vec<u8>) -> (r: usize)
        ensures
            ({
                let (st1, idx) = st_insert(old(self)@.1, entry@);
                &&& r == idx
                &&& final(self)@.1 == st1
                &&& final(self)@.0 == old(self)@.0
                &&& final(self)@.2 == old(self)@.2
            }),
    {
        let n = self.strings.len();
        let mut i: usize = 0;
        while i < n
            invariant
                i <= n == self.strings@.len(),
                forall|k: int| 0 <= k < i ==> seq_view(self.strings@)[k] != entry@,
            decreases n - i,
        {
            if crate::strutil::bytes_eq(self.strings[i].as_slice(), entry.as_slice()) {
                proof {
                    assert(seq_view(self.strings@)[i as int] == entry@);
                    lemma_first_index_found(seq_view(self.strings@), entry@, i as int);
                }
                return i;
            }
            i += 1;
        }
        proof {
            lemma_first_index_missing(seq_view(self.strings@), entry@);
        }
        let ghost st0 = seq_view(self.strings@);
        self.strings.push(entry);
        proof {
            assert(seq_view(self.strings@) =~= st0.push(entry@));
        }
        n
    }

    /// Start a group of nodes inside this block.
    pub fn node_group(self) -> (r: NodeGroupBuilder)
        ensures
            r@.0 == self@,
            r@.1 == (osmformat::init_primitivegroup()),
    {
        NodeGroupBuilder { block_builder: self, group: osmformat::PrimitiveGroup::new_msg() }
    }

    /// Encode the block, frame it as an `OSMData` blob, and hand the
    /// writer back.
    #[verifier::rlimit(100)]
    #[verifier::spinoff_prover]
    pub fn finish(self, encoding: BlobEncoding) -> (r: Result<BlobWriter, Error>)
        requires
            (encoding matches BlobEncoding::Zlib { level } ==> level <= 9),
        ensures
            r matches Ok(w) ==> ({
                let body = enc_primitiveblock(built_block(self@.1, self@.2));
                exists|h: SpecBlobHeader, bl: SpecBlob|
                    {
                        &&& #[trigger] consistent_frame(h, bl)
                        &&& h.type_ == "OSMData"@
                        &&& (encoding is Raw ==> bl.raw == Some(body))
                        &&& (encoding matches BlobEncoding::Zlib { .. } ==> (bl.raw is None && (
                        bl.zlib_data matches Some(z) && inflate_of(z) == Some(body))))
                        &&& w@ == self@.0 + enc_frame(h, bl)
                    }
            }),
            (encoding is Raw && enc_primitiveblock(built_block(self@.1, self@.2)).len()
                < MAX_BLOB_MESSAGE_SIZE) ==> r is Ok,
            r matches Err(e) ==> (enc_primitiveblock(built_block(self@.1, self@.2)).len()
                >= MAX_BLOB_MESSAGE_SIZE && e@ == ErrorKind::Blob(
                BlobError::MessageTooBig {
                    size: enc_primitiveblock(built_block(self@.1, self@.2)).len() as u64,
                },
            )) || (encoding matches BlobEncoding::Zlib { .. } && (e@ == ErrorKind::Io(
                IoErrorKind::Other,
            ) || e@ matches ErrorKind::Blob(BlobError::MessageTooBig { .. }))),
    {
        let BlockBuilder { mut blob_writer, strings, groups } = self;
        let block = osmformat::PrimitiveBlock {
            stringtable: Some(osmformat::StringTable { s: strings }),
            primitivegroup: groups,
            granularity: None,
            date_granularity: None,
            lat_offset: None,
            lon_offset: None,
        };
        proof {
            assert(block@ == built_block(self@.1, self@.2));
        }
        match blob_writer.write_primitive_block(PrimitiveBlock::new(block), encoding) {
            Ok(_) => Ok(blob_writer),
            Err(e) => Err(e),
        }
    }
}

/// A builder for one group of nodes.
pub struct NodeGroupBuilder {
    block_builder: BlockBuilder,
    group: osmformat::PrimitiveGroup,
}

impl View for NodeGroupBuilder {
    type V = ((Seq<u8>, Seq<Seq<u8>>, Seq<SpecPrimitiveGroup>), SpecPrimitiveGroup);

    closed spec fn view(&self) -> (
        (Seq<u8>, Seq<Seq<u8>>, Seq<SpecPrimitiveGroup>),
        SpecPrimitiveGroup,
    ) {
        (self.block_builder@, self.group@)
    }
}

impl NodeGroupBuilder {
    /// Start a node inside this group.
    pub fn node_builder(self) -> (r: NodeBuilder)
        ensures
            r@.0 == self@,
            r@.1 == (osmformat::init_node()),
    {
        NodeBuilder { group_builder: self, node: osmformat::Node::new_msg() }
    }

    /// Add the finished group to the block and hand the builder back.
    pub fn finish(self) -> (r: BlockBuilder)
        ensures
            r@.0 == self@.0.0,
            r@.1 == self@.0.1,
            r@.2 == self@.0.2.push(self@.1),
    {
        let NodeGroupBuilder { mut block_builder, group } = self;
        let ghost gv = group@;
        block_builder.groups.push(group);
        proof {
            assert(seq_view(block_builder.groups@) =~= self@.0.2.push(gv));
        }
        block_builder
    }
}

/// A fluent builder for one node.
pub struct NodeBuilder {
    group_builder: NodeGroupBuilder,
    node: osmformat::Node,
}

impl View for NodeBuilder {
    type V = (
        (((Seq<u8>, Seq<Seq<u8>>, Seq<SpecPrimitiveGroup>)), SpecPrimitiveGroup),
        SpecNode,
    );

    closed spec fn view(&self) -> (
        (((Seq<u8>, Seq<Seq<u8>>, Seq<SpecPrimitiveGroup>)), SpecPrimitiveGroup),
        SpecNode,
    ) {
        (self.group_builder@, self.node@)
    }
}

impl NodeBuilder {
    /// Set the node's id.
    pub fn id(self, id: i64) -> (r: NodeBuilder)
        ensures
            r@.0 == self@.0,
            r@.1 == (SpecNode { id: Some(id), ..self@.1 }),
    {
        let NodeBuilder { group_builder, mut node } = self;
        node.id = Some(id);
        NodeBuilder { group_builder, node }
    }

    /// Set the node's coordinates in raw block units (nanodegrees
    /// divided by the block's granularity).
    pub fn raw_latlon(self, lat: i64, lon: i64) -> (r: NodeBuilder)
        ensures
            r@.0 == self@.0,
            r@.1 == (SpecNode { lat: Some(lat), lon: Some(lon), ..self@.1 }),
    {
        let NodeBuilder { group_builder, mut node } = self;
        node.lat = Some(lat);
        node.lon = Some(lon);
        NodeBuilder { group_builder, node }
    }

    /// Add one key/value tag, interning both strings.
    #[verifier::rlimit(100)]
    pub fn add_tag(self, key: &str, val: &str) -> (r: NodeBuilder)
        ensures
            ({
                let st0 = self@.0.0.1;
                let (st1, ki) = st_insert(st0, key.spec_bytes());
                let (st2, vi) = st_insert(st1, val.spec_bytes());
                &&& r@.0.0.0 == self@.0.0.0
                &&& r@.0.1 == self@.0.1
                &&& r@.0.0.1 == st2
                &&& r@.0.0.2 == self@.0.0.2
                &&& (ki <= u32::MAX && vi <= u32::MAX ==> r@.1 == (SpecNode {
                    keys: self@.1.keys.push(ki as u32),
                    vals: self@.1.vals.push(vi as u32),
                    ..self@.1
                }))
            }),
    {
        let NodeBuilder { mut group_builder, mut node } = self;
        let k = group_builder.block_builder.add_string_table_entry(
            vstd::slice::slice_to_vec(key.as_bytes()),
        );
        let v = group_builder.block_builder.add_string_table_entry(
            vstd::slice::slice_to_vec(val.as_bytes()),
        );
        if k <= (u32::MAX as usize) && v <= (u32::MAX as usize) {
            node.keys.push(k as u32);
            node.vals.push(v as u32);
        }
        NodeBuilder { group_builder, node }
    }

    /// Add the finished node to its group and hand the builder back.
    pub fn finish(self) -> (r: NodeGroupBuilder)
        ensures
            r@.0 == self@.0.0,
            r@.1 == (SpecPrimitiveGroup { nodes: self@.0.1.nodes.push(self@.1), ..self@.0.1 }),
    {
        let NodeBuilder { mut group_builder, node } = self;
        let ghost nv = node@;
        group_builder.group.nodes.push(node);
        proof {
            assert(seq_view(group_builder.group.nodes@) =~= self@.0.1.nodes.push(nv));
        }
        group_builder
    }
}

} // verus!

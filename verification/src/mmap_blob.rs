//! Iterate over blobs held in one borrowed byte slice, without copying
//! payload bytes.  The semantics are those of `spec_read_frame`, shared
//! with the owning reader.

use vstd::prelude::*;
use crate::blob::{
    BlobDecode, BlobType, ByteOffset, MAX_BLOB_HEADER_SIZE, SpecFrame, decode_payload,
    spec_blob_type_matches, spec_parse_location, spec_payload_err, spec_payload_ok,
    spec_read_frame,
};
use crate::block::{HeaderBlock, PrimitiveBlock};
use crate::error::{
    BlobError, Error, ErrorKind, IoErrorKind, ProtobufLocation, new_blob_error, new_error,
    new_protobuf_error,
};
use crate::fileformat;
use crate::fileformat::SpecBlobHeader;
use crate::osmformat;
use crate::strutil::str_eq;
use crate::wire::read_be32;

verus! {

/// A PBF blob borrowed out of a mapped byte slice: the decoded header
/// and the payload bytes, still encoded.
#[derive(Clone, Debug)]
pub struct MmapBlob<'a> {
    header: fileformat::BlobHeader,
    data: &'a [u8],
    offset: ByteOffset,
}

/// Mathematical image of an `MmapBlob`.
pub struct SpecMmapBlob {
    pub header: SpecBlobHeader,
    pub data: Seq<u8>,
    pub offset: ByteOffset,
}

impl<'a> View for MmapBlob<'a> {
    type V = SpecMmapBlob;

    closed spec fn view(&self) -> SpecMmapBlob {
        SpecMmapBlob { header: self.header@, data: self.data@, offset: self.offset }
    }
}

impl<'a> MmapBlob<'a> {
    /// The type of the blob without decoding its content.
    pub fn get_type(&self) -> (r: BlobType<'_>)
        ensures
            spec_blob_type_matches(self@.header.type_, r),
    {
        let t = self.header.type_.as_str();
        if str_eq(t, "OSMHeader") {
            BlobType::OsmHeader
        } else if str_eq(t, "OSMData") {
            BlobType::OsmData
        } else {
            BlobType::Unknown(t)
        }
    }

    /// The byte offset of the blob from the start of its slice.
    pub fn offset(&self) -> (r: ByteOffset)
        ensures
            r == self@.offset,
    {
        self.offset
    }

    /// Parse the payload as a `Blob` message and decode it by its type
    /// tag, enforcing the 32 MiB ceiling.
    #[verifier::rlimit(100)]
    #[verifier::spinoff_prover]
    pub fn decode(&'a self) -> (r: Result<BlobDecode<'a>, Error>)
        ensures
            fileformat::spec_parse_blob(self@.data, 0, self@.data.len() as int) is None
                ==> (r matches Err(e) && e@ == (ErrorKind::Protobuf {
                location: ProtobufLocation::BlobContent,
            })),
            fileformat::spec_parse_blob(self@.data, 0, self@.data.len() as int) matches Some(bm)
                ==> {
                &&& self@.header.type_ == "OSMHeader"@ ==> match r {
                    Ok(BlobDecode::OsmHeader(h)) => spec_payload_ok(bm) matches Some(d)
                        && osmformat::spec_parse_headerblock(d, 0, d.len() as int) == Some(h@),
                    Ok(_) => false,
                    Err(e) => spec_payload_ok(bm) is None && spec_payload_err(bm, e@) || (
                    spec_payload_ok(bm) matches Some(d) && osmformat::spec_parse_headerblock(
                        d,
                        0,
                        d.len() as int,
                    ) is None && e@ == (ErrorKind::Protobuf { location: spec_parse_location(bm) })),
                }
                &&& self@.header.type_ == "OSMData"@ ==> match r {
                    Ok(BlobDecode::OsmData(b)) => spec_payload_ok(bm) matches Some(d)
                        && osmformat::spec_parse_primitiveblock(d, 0, d.len() as int) == Some(b@),
                    Ok(_) => false,
                    Err(e) => spec_payload_ok(bm) is None && spec_payload_err(bm, e@) || (
                    spec_payload_ok(bm) matches Some(d) && osmformat::spec_parse_primitiveblock(
                        d,
                        0,
                        d.len() as int,
                    ) is None && e@ == (ErrorKind::Protobuf { location: spec_parse_location(bm) })),
                }
                &&& self@.header.type_ != "OSMHeader"@ && self@.header.type_ != "OSMData"@
                    ==> match r {
                    Ok(BlobDecode::Unknown(x)) => x@ == self@.header.type_,
                    _ => false,
                }
            },
    {
        proof {
            reveal_strlit("OSMHeader");
            reveal_strlit("OSMData");
            assert(("OSMHeader"@).len() == 9);
            assert(("OSMData"@).len() == 7);
            assert("OSMHeader"@ != "OSMData"@);
        }
        let blob = match fileformat::parse_blob(self.data, 0, self.data.len()) {
            Some(b) => b,
            None => {
                return Err(new_protobuf_error(ProtobufLocation::BlobContent));
            }
        };
        match self.get_type() {
            BlobType::OsmHeader => {
                let data = match decode_payload(&blob) {
                    Ok(d) => d,
                    Err(e) => {
                        return Err(e);
                    }
                };
                match osmformat::parse_headerblock(data.as_slice(), 0, data.len()) {
                    Some(h) => Ok(BlobDecode::OsmHeader(Box::new(HeaderBlock::new(h)))),
                    None => {
                        let location = if blob.raw.is_some() {
                            ProtobufLocation::RawBlobData
                        } else {
                            ProtobufLocation::BlobZlibData
                        };
                        Err(new_protobuf_error(location))
                    }
                }
            }
            BlobType::OsmData => {
                let data = match decode_payload(&blob) {
                    Ok(d) => d,
                    Err(e) => {
                        return Err(e);
                    }
                };
                match osmformat::parse_primitiveblock(data.as_slice(), 0, data.len()) {
                    Some(b) => Ok(BlobDecode::OsmData(PrimitiveBlock::new(b))),
                    None => {
                        let location = if blob.raw.is_some() {
                            ProtobufLocation::RawBlobData
                        } else {
                            ProtobufLocation::BlobZlibData
                        };
                        Err(new_protobuf_error(location))
                    }
                }
            }
            BlobType::Unknown(x) => Ok(BlobDecode::Unknown(x)),
        }
    }
}

/// Mathematical image of an `MmapBlobReader`.
pub struct SpecMmapBlobReader {
    pub data: Seq<u8>,
    pub offset: int,
    pub ok: bool,
}

/// A reader over a borrowed byte slice that yields `MmapBlob`s, payload
/// bytes borrowed rather than copied.  Terminal after the first failure.
#[derive(Clone, Debug)]
pub struct MmapBlobReader<'a> {
    data: &'a [u8],
    offset: usize,
    last_blob_ok: bool,
}

impl<'a> View for MmapBlobReader<'a> {
    type V = SpecMmapBlobReader;

    closed spec fn view(&self) -> SpecMmapBlobReader {
        SpecMmapBlobReader { data: self.data@, offset: self.offset as int, ok: self.last_blob_ok }
    }
}

impl<'a> MmapBlobReader<'a> {
    /// A reader over the whole given slice.
    pub fn new(data: &'a [u8]) -> (r: MmapBlobReader<'a>)
        ensures
            r@ == (SpecMmapBlobReader { data: data@, offset: 0, ok: true }),
    {
        MmapBlobReader { data, offset: 0, last_blob_ok: true }
    }

    /// Move the cursor to the given byte offset.  A position past the end
    /// is clamped to the end.
    pub fn seek(&mut self, pos: ByteOffset)
        ensures
            final(self)@ == (SpecMmapBlobReader {
                offset: if pos.0 <= old(self)@.data.len() {
                    pos.0 as int
                } else {
                    old(self)@.data.len() as int
                },
                ..old(self)@
            }),
    {
        let n = self.data.len();
        if pos.0 <= n as u64 {
            self.offset = pos.0 as usize;
        } else {
            self.offset = n;
        }
    }

    /// Read the next blob's frame; the payload bytes are borrowed from
    /// the slice.  `None` at a clean end of input and after any earlier
    /// failure; a failure (an over-sized header, a truncated record, a
    /// malformed header message) makes the reader terminal.
    #[verifier::rlimit(100)]
    #[verifier::spinoff_prover]
    pub fn next(&mut self) -> (r: Option<Result<MmapBlob<'a>, Error>>)
        ensures
            !old(self)@.ok ==> r is None && final(self)@ == old(self)@,
            old(self)@.ok ==> match spec_read_frame(old(self)@.data, old(self)@.offset) {
                SpecFrame::Eof => r is None && final(self)@ == old(self)@,
                SpecFrame::Fail(e) => r matches Some(Err(err)) && err@ == e && final(self)@
                    == (SpecMmapBlobReader { ok: false, ..old(self)@ }),
                SpecFrame::Frame { header, body_start, next } => r matches Some(Ok(mb)) && mb@
                    == (SpecMmapBlob {
                    header,
                    data: old(self)@.data.subrange(body_start, next),
                    offset: ByteOffset(old(self)@.offset as u64),
                }) && final(self)@ == (SpecMmapBlobReader { offset: next, ..old(self)@ }),
            },
    {
        if !self.last_blob_ok {
            return None;
        }
        let n = self.data.len();
        let pos = self.offset;
        if pos >= n {
            return None;
        }
        if n - pos < 4 {
            self.last_blob_ok = false;
            return Some(Err(new_blob_error(BlobError::InvalidHeaderSize)));
        }
        let hs32 = read_be32(self.data, pos);
        let hs64 = hs32 as u64;
        if hs64 >= MAX_BLOB_HEADER_SIZE {
            self.last_blob_ok = false;
            return Some(Err(new_blob_error(BlobError::HeaderTooBig { size: hs64 })));
        }
        let hs = hs32 as usize;
        if hs > n - (pos + 4) {
            self.last_blob_ok = false;
            return Some(Err(new_error(ErrorKind::Io(IoErrorKind::UnexpectedEof))));
        }
        let header = match fileformat::parse_blob_header(self.data, pos + 4, pos + 4 + hs) {
            Some(h) => h,
            None => {
                self.last_blob_ok = false;
                return Some(
                    Err(new_protobuf_error(ProtobufLocation::BlobHeader)),
                );
            }
        };
        let body_start = pos + 4 + hs;
        if header.datasize < 0 || (header.datasize as u64) > ((n - body_start) as u64) {
            self.last_blob_ok = false;
            return Some(Err(new_error(ErrorKind::Io(IoErrorKind::UnexpectedEof))));
        }
        let next = body_start + (header.datasize as usize);
        let body = vstd::slice::slice_subrange(self.data, body_start, next);
        self.offset = next;
        Some(Ok(MmapBlob { header, data: body, offset: ByteOffset(pos as u64) }))
    }
}

} // verus!

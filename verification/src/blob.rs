//! Read and decode blobs.
//!
//! A PBF file is a sequence of records, each framed as a 4-byte big-endian
//! header size, a `BlobHeader` message, and a `Blob` message of the size
//! the header declares.  `spec_read_frame` is the mathematical description
//! of one record; every reader is proved against it.

use vstd::prelude::*;
use crate::block::{HeaderBlock, PrimitiveBlock};
use crate::error::{
    BlobError, Error, ErrorKind, IoErrorKind, ProtobufLocation, new_blob_error, new_error,
    new_protobuf_error,
};
use crate::fileformat;
use crate::fileformat::{SpecBlob, SpecBlobHeader};
use crate::osmformat;
use crate::strutil::str_eq;
use crate::wire::{be32, read_be32};
use crate::zlib::{InflateOutcome, inflate_of, zlib_inflate};

verus! {

/// Maximum allowed `BlobHeader` size in bytes.
pub const MAX_BLOB_HEADER_SIZE: u64 = 64 * 1024;

/// Maximum allowed uncompressed `Blob` content size in bytes.
pub const MAX_BLOB_MESSAGE_SIZE: u64 = 32 * 1024 * 1024;

/// The content type of a blob.
#[derive(Clone, Copy, Debug, Eq, PartialEq)]
pub enum BlobType<'a> {
    /// The blob contains a `HeaderBlock`.
    OsmHeader,
    /// The blob contains a `PrimitiveBlock`.
    OsmData,
    /// An unknown blob type with the given string identifier.  Parsers
    /// should ignore unknown blobs they do not expect.
    Unknown(&'a str),
}

impl<'a> BlobType<'a> {
    /// The string identifier of this blob type.
    pub fn as_str(&self) -> (r: &'a str)
        ensures
            r@ == match *self {
                BlobType::OsmHeader => "OSMHeader"@,
                BlobType::OsmData => "OSMData"@,
                BlobType::Unknown(x) => x@,
            },
    {
        match self {
            BlobType::OsmHeader => "OSMHeader",
            BlobType::OsmData => "OSMData",
            BlobType::Unknown(x) => x,
        }
    }
}

/// Which of the three type cases a type string falls in.
pub open spec fn spec_blob_type_matches<'a>(t: Seq<char>, r: BlobType<'a>) -> bool {
    match r {
        BlobType::OsmHeader => t == "OSMHeader"@,
        BlobType::OsmData => t == "OSMData"@,
        BlobType::Unknown(x) => x@ == t && t != "OSMHeader"@ && t != "OSMData"@,
    }
}

/// The offset of a blob in bytes from stream start.
#[derive(Clone, Copy, Debug, Eq, PartialEq, Structural)]
pub struct ByteOffset(pub u64);

/// A decoded record: the blob's header and payload messages, and, when
/// the source tracks offsets, the byte offset the record began at.
#[derive(Clone, Debug)]
pub struct Blob {
    pub(crate) header: fileformat::BlobHeader,
    pub(crate) blob: fileformat::Blob,
    pub(crate) offset: Option<ByteOffset>,
}

/// Mathematical image of a `Blob` record.
pub struct SpecBlobRecord {
    pub header: SpecBlobHeader,
    pub blob: SpecBlob,
    pub offset: Option<ByteOffset>,
}

impl View for Blob {
    type V = SpecBlobRecord;

    closed spec fn view(&self) -> SpecBlobRecord {
        SpecBlobRecord { header: self.header@, blob: self.blob@, offset: self.offset }
    }
}

/// How a blob record's view relates to its parts.
pub(crate) proof fn lemma_blob_fields(b: Blob)
    ensures
        b@.header == b.header@,
        b@.blob == b.blob@,
        b@.offset == b.offset,
{
}

/// The decoded content of a blob (analogous to `BlobType`).
#[derive(Debug)]
pub enum BlobDecode<'a> {
    /// The blob contains a `HeaderBlock`.
    OsmHeader(Box<HeaderBlock>),
    /// The blob contains a `PrimitiveBlock`.
    OsmData(PrimitiveBlock),
    /// An unknown blob type with the given string identifier.
    Unknown(&'a str),
}

/// The payload a blob yields when decoding succeeds: the raw bytes if
/// present and under the ceiling, else the inflated zlib bytes if present,
/// well-formed and under the ceiling.
pub open spec fn spec_payload_ok(b: SpecBlob) -> Option<Seq<u8>> {
    match b.raw {
        Some(r) => if r.len() < MAX_BLOB_MESSAGE_SIZE {
            Some(r)
        } else {
            None
        },
        None => match b.zlib_data {
            Some(z) => match inflate_of(z) {
                Some(d) => if d.len() < MAX_BLOB_MESSAGE_SIZE {
                    Some(d)
                } else {
                    None
                },
                None => None,
            },
            None => None,
        },
    }
}

/// The error a failed payload decode is allowed to carry.  Only a
/// malformed zlib stream leaves a choice (the decoder cannot always tell
/// an over-sized stream from a corrupt one without inflating it whole).
pub open spec fn spec_payload_err(b: SpecBlob, e: ErrorKind) -> bool {
    match b.raw {
        Some(r) => r.len() >= MAX_BLOB_MESSAGE_SIZE && e == ErrorKind::Blob(
            BlobError::MessageTooBig { size: r.len() as u64 },
        ),
        None => match b.zlib_data {
            Some(z) => match inflate_of(z) {
                Some(d) => d.len() >= MAX_BLOB_MESSAGE_SIZE && e == ErrorKind::Blob(
                    BlobError::MessageTooBig { size: MAX_BLOB_MESSAGE_SIZE },
                ),
                None => e == (ErrorKind::Protobuf { location: ProtobufLocation::BlobZlibData })
                    || e == ErrorKind::Blob(
                    BlobError::MessageTooBig { size: MAX_BLOB_MESSAGE_SIZE },
                ),
            },
            None => e == ErrorKind::Blob(BlobError::Empty),
        },
    }
}

/// Select and decompress a blob's payload, enforcing the 32 MiB ceiling.
pub(crate) fn decode_payload(blob: &fileformat::Blob) -> (r: Result<Vec<u8>, Error>)
    ensures
        r matches Ok(v) ==> spec_payload_ok(blob@) == Some(v@),
        spec_payload_ok(blob@) matches Some(d) ==> r matches Ok(v) && v@ == d,
        r matches Err(e) ==> spec_payload_ok(blob@) is None && spec_payload_err(blob@, e@),
{
    match &blob.raw {
        Some(x) => {
            if (x.len() as u64) < MAX_BLOB_MESSAGE_SIZE {
                Ok(vstd::slice::slice_to_vec(x.as_slice()))
            } else {
                Err(new_blob_error(BlobError::MessageTooBig { size: x.len() as u64 }))
            }
        }
        None => match &blob.zlib_data {
            Some(z) => match zlib_inflate(z.as_slice(), MAX_BLOB_MESSAGE_SIZE) {
                InflateOutcome::Done(v) => Ok(v),
                InflateOutcome::TooBig => Err(
                    new_blob_error(BlobError::MessageTooBig { size: MAX_BLOB_MESSAGE_SIZE }),
                ),
                InflateOutcome::Corrupt => Err(
                    new_protobuf_error(ProtobufLocation::BlobZlibData),
                ),
            },
            None => Err(new_blob_error(BlobError::Empty)),
        },
    }
}

/// The parse stage each payload error location belongs to.
pub open spec fn spec_parse_location(b: SpecBlob) -> ProtobufLocation {
    if b.raw is Some {
        ProtobufLocation::RawBlobData
    } else {
        ProtobufLocation::BlobZlibData
    }
}

impl Blob {
    /// Assemble a blob record from its two messages and its offset.
    pub fn new(
        header: fileformat::BlobHeader,
        blob: fileformat::Blob,
        offset: Option<ByteOffset>,
    ) -> (r: Blob)
        ensures
            r@ == (SpecBlobRecord { header: header@, blob: blob@, offset }),
    {
        Blob { header, blob, offset }
    }

    /// The type of the blob, from its header's type string, without
    /// decoding the content.
    pub fn get_type(&self) -> (r: BlobType<'_>)
        ensures
            spec_blob_type_matches(self@.header.type_, r),
    {
        let t = self.header.type_.as_str();
        if str_eq(t, "OSMHeader") {
            BlobType::OsmHeader
        } else if str_eq(t, "OSMData") {
            BlobType::OsmData
        } else {
            BlobType::Unknown(t)
        }
    }

    /// The byte offset of the blob from the start of its source, when the
    /// source tracks offsets.
    pub fn offset(&self) -> (r: Option<ByteOffset>)
        ensures
            r == self@.offset,
    {
        self.offset
    }

    /// Decode the blob to a `HeaderBlock`: select and decompress the
    /// payload under the 32 MiB ceiling, then parse it.
    #[verifier::rlimit(100)]
    #[verifier::spinoff_prover]
    pub fn to_headerblock(&self) -> (r: Result<HeaderBlock, Error>)
        ensures
            r matches Ok(h) ==> spec_payload_ok(self@.blob) matches Some(d)
                && osmformat::spec_parse_headerblock(d, 0, d.len() as int) == Some(h@),
            spec_payload_ok(self@.blob) matches Some(d) ==> match osmformat::spec_parse_headerblock(
                d,
                0,
                d.len() as int,
            ) {
                Some(hb) => r matches Ok(h) && h@ == hb,
                None => r matches Err(e) && e@ == (ErrorKind::Protobuf {
                    location: spec_parse_location(self@.blob),
                }),
            },
            spec_payload_ok(self@.blob) is None ==> (r matches Err(e) && spec_payload_err(
                self@.blob,
                e@,
            )),
    {
        let data = match decode_payload(&self.blob) {
            Ok(d) => d,
            Err(e) => {
                return Err(e);
            }
        };
        match osmformat::parse_headerblock(data.as_slice(), 0, data.len()) {
            Some(h) => Ok(HeaderBlock::new(h)),
            None => {
                let location = if self.blob.raw.is_some() {
                    ProtobufLocation::RawBlobData
                } else {
                    ProtobufLocation::BlobZlibData
                };
                Err(new_protobuf_error(location))
            }
        }
    }

    /// Decode the blob to a `PrimitiveBlock`, like `to_headerblock`.
    #[verifier::rlimit(100)]
    #[verifier::spinoff_prover]
    pub fn to_primitiveblock(&self) -> (r: Result<PrimitiveBlock, Error>)
        ensures
            r matches Ok(b) ==> spec_payload_ok(self@.blob) matches Some(d)
                && osmformat::spec_parse_primitiveblock(d, 0, d.len() as int) == Some(b@),
            spec_payload_ok(self@.blob) matches Some(d) ==> match
                osmformat::spec_parse_primitiveblock(d, 0, d.len() as int) {
                Some(bb) => r matches Ok(b) && b@ == bb,
                None => r matches Err(e) && e@ == (ErrorKind::Protobuf {
                    location: spec_parse_location(self@.blob),
                }),
            },
            spec_payload_ok(self@.blob) is None ==> (r matches Err(e) && spec_payload_err(
                self@.blob,
                e@,
            )),
    {
        let data = match decode_payload(&self.blob) {
            Ok(d) => d,
            Err(e) => {
                return Err(e);
            }
        };
        match osmformat::parse_primitiveblock(data.as_slice(), 0, data.len()) {
            Some(b) => Ok(PrimitiveBlock::new(b)),
            None => {
                let location = if self.blob.raw.is_some() {
                    ProtobufLocation::RawBlobData
                } else {
                    ProtobufLocation::BlobZlibData
                };
                Err(new_protobuf_error(location))
            }
        }
    }

    /// Decode the blob by its type tag: header blobs to `HeaderBlock`,
    /// data blobs to `PrimitiveBlock`, anything else passed through as
    /// `Unknown`.
    #[verifier::rlimit(100)]
    #[verifier::spinoff_prover]
    pub fn decode(&self) -> (r: Result<BlobDecode<'_>, Error>)
        ensures
            self@.header.type_ == "OSMHeader"@ ==> match r {
                Ok(BlobDecode::OsmHeader(h)) => spec_payload_ok(self@.blob) matches Some(d)
                    && osmformat::spec_parse_headerblock(d, 0, d.len() as int) == Some(h@),
                Ok(_) => false,
                Err(_) => true,
            },
            self@.header.type_ == "OSMData"@ ==> match r {
                Ok(BlobDecode::OsmData(b)) => spec_payload_ok(self@.blob) matches Some(d)
                    && osmformat::spec_parse_primitiveblock(d, 0, d.len() as int) == Some(b@),
                Ok(_) => false,
                Err(_) => true,
            },
            self@.header.type_ != "OSMHeader"@ && self@.header.type_ != "OSMData"@ ==> match r {
                Ok(BlobDecode::Unknown(x)) => x@ == self@.header.type_,
                _ => false,
            },
            r is Err ==> spec_payload_ok(self@.blob) is None || (match spec_payload_ok(
                self@.blob,
            ) {
                Some(d) => (self@.header.type_ == "OSMHeader"@ && osmformat::spec_parse_headerblock(
                    d,
                    0,
                    d.len() as int,
                ) is None) || (self@.header.type_ == "OSMData"@
                    && osmformat::spec_parse_primitiveblock(d, 0, d.len() as int) is None),
                None => true,
            }),
    {
        proof {
            reveal_strlit("OSMHeader");
            reveal_strlit("OSMData");
            assert(("OSMHeader"@).len() == 9);
            assert(("OSMData"@).len() == 7);
            assert("OSMHeader"@ != "OSMData"@);
        }
        match self.get_type() {
            BlobType::OsmHeader => {
                match self.to_headerblock() {
                    Ok(block) => Ok(BlobDecode::OsmHeader(Box::new(block))),
                    Err(e) => Err(e),
                }
            }
            BlobType::OsmData => {
                match self.to_primitiveblock() {
                    Ok(block) => Ok(BlobDecode::OsmData(block)),
                    Err(e) => Err(e),
                }
            }
            BlobType::Unknown(x) => Ok(BlobDecode::Unknown(x)),
        }
    }
}

/// A blob header together with its public accessors.
#[derive(Clone, Debug)]
pub struct BlobHeader {
    header: fileformat::BlobHeader,
}

impl View for BlobHeader {
    type V = SpecBlobHeader;

    closed spec fn view(&self) -> SpecBlobHeader {
        self.header@
    }
}

impl BlobHeader {
    /// Wrap a decoded header message.
    pub fn new(header: fileformat::BlobHeader) -> (r: BlobHeader)
        ensures
            r@ == header@,
    {
        BlobHeader { header }
    }

    /// The type of the following blob.
    pub fn blob_type(&self) -> (r: BlobType<'_>)
        ensures
            spec_blob_type_matches(self@.type_, r),
    {
        let t = self.header.type_.as_str();
        if str_eq(t, "OSMHeader") {
            BlobType::OsmHeader
        } else if str_eq(t, "OSMData") {
            BlobType::OsmData
        } else {
            BlobType::Unknown(t)
        }
    }

    /// The declared size of the following blob in bytes.
    pub fn get_blob_size(&self) -> (r: i32)
        ensures
            r == self@.datasize,
    {
        self.header.datasize
    }
}

/// One framed record, read at a position of a byte string: the end of the
/// input, a failure, or the record's header and payload byte range.
pub enum SpecFrame {
    /// The position is at or past the end of the input: clean end.
    Eof,
    /// The record is malformed; reading fails with this error.
    Fail(ErrorKind),
    /// A well-formed record.
    Frame {
        /// The decoded `BlobHeader`.
        header: SpecBlobHeader,
        /// Where the `Blob` message's bytes start.
        body_start: int,
        /// Where the record (and the `Blob` message) ends.
        next: int,
    },
}

/// Read one record frame at position `i` of `d`: the four-byte big-endian
/// header size (rejected at 64 KiB), the `BlobHeader` message, and the
/// declared payload range.
pub open spec fn spec_read_frame(d: Seq<u8>, i: int) -> SpecFrame {
    if i < 0 {
        SpecFrame::Fail(ErrorKind::Io(IoErrorKind::Other))
    } else if i >= d.len() {
        SpecFrame::Eof
    } else if i + 4 > d.len() {
        SpecFrame::Fail(ErrorKind::Blob(BlobError::InvalidHeaderSize))
    } else {
        let hs = be32(d[i], d[i + 1], d[i + 2], d[i + 3]) as int;
        if hs >= MAX_BLOB_HEADER_SIZE {
            SpecFrame::Fail(ErrorKind::Blob(BlobError::HeaderTooBig { size: hs as u64 }))
        } else if i + 4 + hs > d.len() {
            SpecFrame::Fail(ErrorKind::Io(IoErrorKind::UnexpectedEof))
        } else {
            match fileformat::spec_parse_blob_header(d, i + 4, i + 4 + hs) {
                None => SpecFrame::Fail(
                    ErrorKind::Protobuf { location: ProtobufLocation::BlobHeader },
                ),
                Some(h) => if h.datasize < 0 || i + 4 + hs + h.datasize > d.len() {
                    SpecFrame::Fail(ErrorKind::Io(IoErrorKind::UnexpectedEof))
                } else {
                    SpecFrame::Frame {
                        header: h,
                        body_start: i + 4 + hs,
                        next: i + 4 + hs + h.datasize,
                    }
                },
            }
        }
    }
}

/// One fully decoded record: the frame, with the `Blob` message parsed.
pub enum SpecBlobRead {
    /// The position is at or past the end of the input.
    Eof,
    /// The record is malformed.
    Fail(ErrorKind),
    /// A record and where the next one starts.
    Read {
        /// The decoded `BlobHeader`.
        header: SpecBlobHeader,
        /// The decoded `Blob`.
        blob: SpecBlob,
        /// Where the record ends.
        next: int,
    },
}

/// Read and decode one whole record at position `i` of `d`.
pub open spec fn spec_read_blob(d: Seq<u8>, i: int) -> SpecBlobRead {
    match spec_read_frame(d, i) {
        SpecFrame::Eof => SpecBlobRead::Eof,
        SpecFrame::Fail(e) => SpecBlobRead::Fail(e),
        SpecFrame::Frame { header, body_start, next } => match fileformat::spec_parse_blob(
            d,
            body_start,
            next,
        ) {
            None => SpecBlobRead::Fail(
                ErrorKind::Protobuf { location: ProtobufLocation::BlobContent },
            ),
            Some(b) => SpecBlobRead::Read { header, blob: b, next },
        },
    }
}

/// A reader's cursor is a byte index: never negative.
pub proof fn lemma_blob_reader_offset_nonneg(r: BlobReader)
    ensures
        r@.offset >= 0,
{
}

/// Reading a record always advances past the position and stays inside
/// the input.
pub proof fn lemma_read_advances(d: Seq<u8>, i: int)
    ensures
        spec_read_blob(d, i) matches SpecBlobRead::Read { header, blob, next } ==> i < next
            <= d.len(),
{
}

/// Reading a frame always advances past the position and stays inside
/// the input.
pub proof fn lemma_frame_advances(d: Seq<u8>, i: int)
    ensures
        spec_read_frame(d, i) matches SpecFrame::Frame { header, body_start, next } ==> i < next
            <= d.len(),
{
}

/// A position to seek a reader to.
#[derive(Clone, Copy, Debug, Eq, PartialEq, Structural)]
pub enum SeekFrom {
    /// Bytes from the start of the input.
    Start(u64),
    /// Bytes relative to the end of the input.
    End(i64),
    /// Bytes relative to the current position.
    Current(i64),
}

/// Mathematical image of a `BlobReader`.
pub struct SpecBlobReader {
    pub data: Seq<u8>,
    pub offset: int,
    pub ok: bool,
    pub seekable: bool,
}

/// A reader for PBF data held in memory that yields `Blob`s one at a
/// time.  After any failure other than a clean end of input, the reader
/// is terminal: every later call yields `None`.
#[derive(Clone, Debug)]
pub struct BlobReader {
    data: Vec<u8>,
    offset: usize,
    last_blob_ok: bool,
    seekable: bool,
}

impl View for BlobReader {
    type V = SpecBlobReader;

    closed spec fn view(&self) -> SpecBlobReader {
        SpecBlobReader {
            data: self.data@,
            offset: self.offset as int,
            ok: self.last_blob_ok,
            seekable: self.seekable,
        }
    }
}

impl BlobReader {
    /// A reader over the given bytes that does not track offsets (the
    /// returned blobs carry no offset).
    pub fn new(data: Vec<u8>) -> (r: BlobReader)
        ensures
            r@ == (SpecBlobReader { data: data@, offset: 0, ok: true, seekable: false }),
    {
        BlobReader { data, offset: 0, last_blob_ok: true, seekable: false }
    }

    /// A seekable reader over the given bytes; every returned blob
    /// carries its starting offset.
    pub fn new_seekable(data: Vec<u8>) -> (r: Result<BlobReader, Error>)
        ensures
            r matches Ok(b) && b@ == (SpecBlobReader {
                data: data@,
                offset: 0,
                ok: true,
                seekable: true,
            }),
    {
        Ok(BlobReader { data, offset: 0, last_blob_ok: true, seekable: true })
    }

    /// Read the next blob.  `None` at a clean end of input and after any
    /// earlier failure; a failure is returned once and makes the reader
    /// terminal, so a record with an over-sized header or a corrupt
    /// message stops the iteration for good.
    #[verifier::rlimit(100)]
    #[verifier::spinoff_prover]
    pub fn next(&mut self) -> (r: Option<Result<Blob, Error>>)
        ensures
            !old(self)@.ok ==> r is None && final(self)@ == old(self)@,
            old(self)@.ok ==> match spec_read_blob(old(self)@.data, old(self)@.offset) {
                SpecBlobRead::Eof => r is None && final(self)@ == old(self)@,
                SpecBlobRead::Fail(e) => r matches Some(Err(err)) && err@ == e && final(self)@
                    == (SpecBlobReader { ok: false, ..old(self)@ }),
                SpecBlobRead::Read { header, blob, next } => r matches Some(Ok(b)) && b@
                    == (SpecBlobRecord {
                    header,
                    blob,
                    offset: if old(self)@.seekable {
                        Some(ByteOffset(old(self)@.offset as u64))
                    } else {
                        None
                    },
                }) && final(self)@ == (SpecBlobReader { offset: next, ..old(self)@ }),
            },
    {
        if !self.last_blob_ok {
            return None;
        }
        let n = self.data.len();
        let pos = self.offset;
        if pos >= n {
            return None;
        }
        if n - pos < 4 {
            self.last_blob_ok = false;
            return Some(Err(new_blob_error(BlobError::InvalidHeaderSize)));
        }
        let hs32 = read_be32(self.data.as_slice(), pos);
        let hs64 = hs32 as u64;
        if hs64 >= MAX_BLOB_HEADER_SIZE {
            self.last_blob_ok = false;
            return Some(Err(new_blob_error(BlobError::HeaderTooBig { size: hs64 })));
        }
        let hs = hs32 as usize;
        if hs > n - (pos + 4) {
            self.last_blob_ok = false;
            return Some(Err(new_error(ErrorKind::Io(IoErrorKind::UnexpectedEof))));
        }
        let header = match fileformat::parse_blob_header(self.data.as_slice(), pos + 4, pos + 4
            + hs) {
            Some(h) => h,
            None => {
                self.last_blob_ok = false;
                return Some(
                    Err(new_protobuf_error(ProtobufLocation::BlobHeader)),
                );
            }
        };
        let body_start = pos + 4 + hs;
        if header.datasize < 0 || (header.datasize as u64) > ((n - body_start) as u64) {
            self.last_blob_ok = false;
            return Some(Err(new_error(ErrorKind::Io(IoErrorKind::UnexpectedEof))));
        }
        let next = body_start + (header.datasize as usize);
        let blob = match fileformat::parse_blob(self.data.as_slice(), body_start, next) {
            Some(b) => b,
            None => {
                self.last_blob_ok = false;
                return Some(
                    Err(new_protobuf_error(ProtobufLocation::BlobContent)),
                );
            }
        };
        let offset = if self.seekable {
            Some(ByteOffset(pos as u64))
        } else {
            None
        };
        self.offset = next;
        Some(Ok(Blob { header, blob, offset }))
    }

    /// Read the next header and skip the payload bytes: the fast path for
    /// scanning a file's structure.  Returns the header and the offset
    /// the record began at.
    #[verifier::rlimit(100)]
    #[verifier::spinoff_prover]
    pub fn next_header_skip_blob(&mut self) -> (r: Option<
        Result<(BlobHeader, Option<ByteOffset>), Error>,
    >)
        ensures
            !old(self)@.ok ==> r is None && final(self)@ == old(self)@,
            old(self)@.ok ==> match spec_read_frame(old(self)@.data, old(self)@.offset) {
                SpecFrame::Eof => r is None && final(self)@ == old(self)@,
                SpecFrame::Fail(e) => r matches Some(Err(err)) && err@ == e && final(self)@
                    == (SpecBlobReader { ok: false, ..old(self)@ }),
                SpecFrame::Frame { header, body_start, next } => r matches Some(Ok(p)) && p.0@
                    == header && p.1 == (if old(self)@.seekable {
                    Some(ByteOffset(old(self)@.offset as u64))
                } else {
                    Option::<ByteOffset>::None
                }) && final(self)@ == (SpecBlobReader { offset: next, ..old(self)@ }),
            },
    {
        if !self.last_blob_ok {
            return None;
        }
        let n = self.data.len();
        let pos = self.offset;
        if pos >= n {
            return None;
        }
        if n - pos < 4 {
            self.last_blob_ok = false;
            return Some(Err(new_blob_error(BlobError::InvalidHeaderSize)));
        }
        let hs32 = read_be32(self.data.as_slice(), pos);
        let hs64 = hs32 as u64;
        if hs64 >= MAX_BLOB_HEADER_SIZE {
            self.last_blob_ok = false;
            return Some(Err(new_blob_error(BlobError::HeaderTooBig { size: hs64 })));
        }
        let hs = hs32 as usize;
        if hs > n - (pos + 4) {
            self.last_blob_ok = false;
            return Some(Err(new_error(ErrorKind::Io(IoErrorKind::UnexpectedEof))));
        }
        let header = match fileformat::parse_blob_header(self.data.as_slice(), pos + 4, pos + 4
            + hs) {
            Some(h) => h,
            None => {
                self.last_blob_ok = false;
                return Some(
                    Err(new_protobuf_error(ProtobufLocation::BlobHeader)),
                );
            }
        };
        let body_start = pos + 4 + hs;
        if header.datasize < 0 || (header.datasize as u64) > ((n - body_start) as u64) {
            self.last_blob_ok = false;
            return Some(Err(new_error(ErrorKind::Io(IoErrorKind::UnexpectedEof))));
        }
        let next = body_start + (header.datasize as usize);
        let offset = if self.seekable {
            Some(ByteOffset(pos as u64))
        } else {
            None
        };
        self.offset = next;
        Some(Ok((BlobHeader { header }, offset)))
    }

    /// Seek to a byte offset from the start of the input.  A position
    /// past the end is deliberately clamped to the end, so the next
    /// read reports a clean end of input instead of a phantom position
    /// beyond the data.
    pub fn seek(&mut self, pos: ByteOffset) -> (r: Result<(), Error>)
        ensures
            r is Ok,
            final(self)@ == (SpecBlobReader {
                offset: if pos.0 <= old(self)@.data.len() {
                    pos.0 as int
                } else {
                    old(self)@.data.len() as int
                },
                ..old(self)@
            }),
    {
        let n = self.data.len();
        if pos.0 <= n as u64 {
            self.offset = pos.0 as usize;
        } else {
            self.offset = n;
        }
        Ok(())
    }

    /// Seek relative to the start, the end or the current position, and
    /// return the new absolute offset.  A target before the start
    /// fails; one past the end is deliberately clamped to the end, and
    /// the clamped position is what is returned.
    pub fn seek_raw(&mut self, pos: SeekFrom) -> (r: Result<u64, Error>)
        ensures
            ({
                let target: int = match pos {
                    SeekFrom::Start(x) => x as int,
                    SeekFrom::End(delta) => old(self)@.data.len() + delta,
                    SeekFrom::Current(delta) => old(self)@.offset + delta,
                };
                if target < 0 {
                    r is Err && final(self)@ == old(self)@
                } else {
                    r matches Ok(v) && v == (if target <= old(self)@.data.len() {
                        target
                    } else {
                        old(self)@.data.len() as int
                    }) && final(self)@ == (SpecBlobReader {
                        offset: if target <= old(self)@.data.len() {
                            target
                        } else {
                            old(self)@.data.len() as int
                        },
                        ..old(self)@
                    })
                }
            }),
    {
        let n = self.data.len();
        let target: i128 = match pos {
            SeekFrom::Start(x) => x as i128,
            SeekFrom::End(delta) => n as i128 + delta as i128,
            SeekFrom::Current(delta) => self.offset as i128 + delta as i128,
        };
        if target < 0 {
            return Err(new_error(ErrorKind::Io(IoErrorKind::Other)));
        }
        let new_off: usize = if target <= n as i128 {
            target as usize
        } else {
            n
        };
        self.offset = new_off;
        Ok(new_off as u64)
    }

    /// Seek to `pos` and read the blob there; a clean end of input at
    /// `pos` is an unexpected-end-of-file error here.
    #[verifier::rlimit(100)]
    #[verifier::spinoff_prover]
    pub fn blob_from_offset(&mut self, pos: ByteOffset) -> (r: Result<Blob, Error>)
        ensures
            final(self)@.data == old(self)@.data,
            final(self)@.seekable == old(self)@.seekable,
            ({
                let o: int = if pos.0 <= old(self)@.data.len() {
                    pos.0 as int
                } else {
                    old(self)@.data.len() as int
                };
                if !old(self)@.ok {
                    r matches Err(e) && e@ == ErrorKind::Io(IoErrorKind::UnexpectedEof)
                } else {
                    match spec_read_blob(old(self)@.data, o) {
                        SpecBlobRead::Eof => r matches Err(e) && e@ == ErrorKind::Io(
                            IoErrorKind::UnexpectedEof,
                        ),
                        SpecBlobRead::Fail(e) => r matches Err(err) && err@ == e,
                        SpecBlobRead::Read { header, blob, next } => r matches Ok(b) && b@
                            == (SpecBlobRecord {
                            header,
                            blob,
                            offset: if old(self)@.seekable {
                                Some(ByteOffset(o as u64))
                            } else {
                                None
                            },
                        }) && final(self)@ == (SpecBlobReader { offset: next, ..old(self)@ }),
                    }
                }
            }),
    {
        let _ = self.seek(pos);
        match self.next() {
            Some(Ok(b)) => Ok(b),
            Some(Err(e)) => Err(e),
            None => Err(new_error(ErrorKind::Io(IoErrorKind::UnexpectedEof))),
        }
    }
}

} // verus!

//! The errors that reading or writing PBF data can produce.

use vstd::prelude::*;

verus! {

/// Which decoder stage a Protocol Buffer parse failure came from.
#[derive(Clone, Copy, Debug, PartialEq, Eq, Structural)]
pub enum ProtobufLocation {
    /// The `BlobHeader` message in front of a blob.
    BlobHeader,
    /// The `Blob` message itself.
    BlobContent,
    /// The block message inside an uncompressed blob payload.
    RawBlobData,
    /// The block message inside a zlib-compressed blob payload.
    BlobZlibData,
    /// Encoding a blob while writing.
    WritingBlob,
}

/// The byte-stream failures the framed reader can surface.
#[derive(Clone, Copy, Debug, PartialEq, Eq, Structural)]
pub enum IoErrorKind {
    /// The input ended in the middle of a record.
    UnexpectedEof,
    /// Any other failure of the underlying byte source.
    Other,
}

/// An error that occurs when decoding a blob.
#[derive(Clone, Copy, Debug, PartialEq, Eq, Structural)]
pub enum BlobError {
    /// The four header-size bytes are missing or cut short.
    InvalidHeaderSize,
    /// The blob header is at least as large as the 64 KiB ceiling.
    HeaderTooBig {
        /// Declared blob header size in bytes.
        size: u64,
    },
    /// The blob content reaches the 32 MiB decompressed-size ceiling.
    MessageTooBig {
        /// Blob content size in bytes.
        size: u64,
    },
    /// The blob has neither a `raw` nor a `zlib_data` payload.
    Empty,
}

/// The specific type of an error.
#[derive(Clone, Copy, Debug, PartialEq, Eq, Structural)]
pub enum ErrorKind {
    /// An error of the underlying byte stream.
    Io(IoErrorKind),
    /// A Protocol Buffer message failed to decode.
    Protobuf {
        /// The decoder stage that failed.
        location: ProtobufLocation,
    },
    /// The stringtable entry at `index` is not valid UTF-8.
    StringtableUtf8 {
        /// The out-of-line entry's index.
        index: usize,
    },
    /// An element referenced a stringtable index past the table's end.
    StringtableIndexOutOfBounds {
        /// The referenced index.
        index: usize,
    },
    /// An error that occurs when decoding a blob.
    Blob(BlobError),
}

/// An error that can occur when reading PBF files.
#[derive(Clone, Copy, Debug)]
pub struct Error {
    kind: ErrorKind,
}

impl View for Error {
    type V = ErrorKind;

    closed spec fn view(&self) -> ErrorKind {
        self.kind
    }
}

impl Error {
    /// Return the specific type of this error.
    pub fn kind(&self) -> (r: &ErrorKind)
        ensures
            *r == self@,
    {
        &self.kind
    }

    /// Unwrap this error into its underlying type.
    pub fn into_kind(self) -> (r: ErrorKind)
        ensures
            r == self@,
    {
        self.kind
    }

    /// A short, fixed description of the error.
    pub fn description(&self) -> (r: &'static str)
        ensures
            r@ == spec_description(self@),
    {
        match self.kind {
            ErrorKind::Io(IoErrorKind::UnexpectedEof) => "io error: unexpected EOF",
            ErrorKind::Io(IoErrorKind::Other) => "io error",
            ErrorKind::Protobuf { .. } => "protobuf error",
            ErrorKind::StringtableUtf8 { .. } => "UTF-8 error in stringtable",
            ErrorKind::StringtableIndexOutOfBounds { .. } => "stringtable index out of bounds",
            ErrorKind::Blob(BlobError::InvalidHeaderSize) => "blob header size could not be decoded",
            ErrorKind::Blob(BlobError::HeaderTooBig { .. }) => "blob header is too big",
            ErrorKind::Blob(BlobError::MessageTooBig { .. }) => "blob message is too big",
            ErrorKind::Blob(BlobError::Empty) => "blob is missing fields 'raw' and 'zlib_data'",
        }
    }
}

/// The description each kind of error carries.
pub open spec fn spec_description(kind: ErrorKind) -> Seq<char> {
    match kind {
        ErrorKind::Io(IoErrorKind::UnexpectedEof) => "io error: unexpected EOF"@,
        ErrorKind::Io(IoErrorKind::Other) => "io error"@,
        ErrorKind::Protobuf { .. } => "protobuf error"@,
        ErrorKind::StringtableUtf8 { .. } => "UTF-8 error in stringtable"@,
        ErrorKind::StringtableIndexOutOfBounds { .. } => "stringtable index out of bounds"@,
        ErrorKind::Blob(BlobError::InvalidHeaderSize) => "blob header size could not be decoded"@,
        ErrorKind::Blob(BlobError::HeaderTooBig { .. }) => "blob header is too big"@,
        ErrorKind::Blob(BlobError::MessageTooBig { .. }) => "blob message is too big"@,
        ErrorKind::Blob(BlobError::Empty) => "blob is missing fields 'raw' and 'zlib_data'"@,
    }
}

/// Wrap an error kind.
pub fn new_error(kind: ErrorKind) -> (r: Error)
    ensures
        r@ == kind,
{
    Error { kind }
}

/// Wrap a blob decoding error.
pub fn new_blob_error(kind: BlobError) -> (r: Error)
    ensures
        r@ == ErrorKind::Blob(kind),
{
    Error { kind: ErrorKind::Blob(kind) }
}

/// Wrap a Protocol Buffer decoding error with its stage.
pub fn new_protobuf_error(location: ProtobufLocation) -> (r: Error)
    ensures
        r@ == (ErrorKind::Protobuf { location }),
{
    Error { kind: ErrorKind::Protobuf { location } }
}

} // verus!

//! Zlib compression and decompression through the `flate2` crate.
//!
//! Decompression is deterministic: what a zlib stream inflates to is a
//! function of its bytes alone, named here by `inflate_of`.

use vstd::prelude::*;

verus! {

/// What a byte string inflates to as a zlib stream: `None` when the bytes
/// are not a well-formed stream, otherwise the decompressed bytes.
pub uninterp spec fn inflate_of(data: Seq<u8>) -> Option<Seq<u8>>;

/// What one attempt to inflate a stream under a size ceiling produced.
pub enum InflateOutcome {
    /// The whole stream inflated to fewer bytes than the ceiling.
    Done(Vec<u8>),
    /// The output reached the ceiling before the stream ended.
    TooBig,
    /// The bytes are not a well-formed zlib stream.
    Corrupt,
}

/// Relies on flate2's `ZlibDecoder`: inflating is a pure function of the
/// compressed bytes, it fails exactly on malformed streams, and reading
/// through `take(cap)` caps the output at `cap` bytes.
#[verifier::external_body]
pub(crate) fn zlib_inflate(data: &[u8], cap: u64) -> (r: InflateOutcome)
    ensures
        r matches InflateOutcome::Done(v) ==> inflate_of(data@) == Some(v@) && v@.len() < cap,
        r is TooBig ==> !(inflate_of(data@) matches Some(s) && s.len() < cap),
        r is Corrupt ==> inflate_of(data@) is None,
{
    let decoder = flate2::read::ZlibDecoder::new(data);
    let mut limited = std::io::Read::take(decoder, cap);
    let mut out: Vec<u8> = Vec::new();
    match std::io::Read::read_to_end(&mut limited, &mut out) {
        Err(_) => InflateOutcome::Corrupt,
        Ok(_) => {
            if (out.len() as u64) >= cap {
                InflateOutcome::TooBig
            } else {
                InflateOutcome::Done(out)
            }
        }
    }
}

/// Relies on flate2's `ZlibEncoder`: compressing produces a zlib stream
/// that inflates back to the input bytes.
#[verifier::external_body]
pub(crate) fn zlib_deflate(data: &[u8], level: u32) -> (r: Option<Vec<u8>>)
    requires
        level <= 9,
    ensures
        r matches Some(v) ==> inflate_of(v@) == Some(data@),
{
    let mut enc = flate2::write::ZlibEncoder::new(Vec::new(), flate2::Compression::new(level));
    if std::io::Write::write_all(&mut enc, data).is_err() {
        return None;
    }
    enc.finish().ok()
}

} // verus!

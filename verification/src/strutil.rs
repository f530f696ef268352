//! Byte-string helpers: UTF-8 decoding and byte-wise string equality.

use vstd::prelude::*;
use vstd::string::StringSliceAdditionalSpecFns;
use vstd::utf8::{decode_utf8, encode_utf8, encode_utf8_first_scalar, valid_utf8};

verus! {

/// The element-wise view of an optional viewable value.
pub open spec fn opt_view<T: View>(v: Option<T>) -> Option<T::V> {
    match v {
        Some(x) => Some(x@),
        None => None,
    }
}

/// The element-wise view of a sequence of viewable values.
pub open spec fn seq_view<T: View>(v: Seq<T>) -> Seq<T::V> {
    Seq::new(v.len(), |i: int| v[i]@)
}

/// Relies on std's `str::from_utf8`: it succeeds exactly on valid UTF-8
/// input and the returned string borrows the same bytes.
#[verifier::external_body]
pub fn try_str_from_utf8(b: &[u8]) -> (r: Option<&str>)
    ensures
        r matches Some(t) ==> t.spec_bytes() == b@ && valid_utf8(b@),
        r is None ==> !valid_utf8(b@),
{
    core::str::from_utf8(b).ok()
}

/// A UTF-8 encoding takes at most four bytes per character.
pub proof fn lemma_encode_utf8_len(chars: Seq<char>)
    ensures
        encode_utf8(chars).len() <= 4 * chars.len(),
    decreases chars.len(),
{
    if chars.len() > 0 {
        lemma_encode_utf8_len(chars.drop_first());
    }
}

/// Encoding a character sequence as UTF-8 always yields valid UTF-8, and
/// decoding recovers the characters.
pub proof fn lemma_encode_utf8_inverse(chars: Seq<char>)
    ensures
        valid_utf8(encode_utf8(chars)),
        decode_utf8(encode_utf8(chars)) == chars,
    decreases chars.len(),
{
    if chars.len() == 0 {
        assert(encode_utf8(chars).len() == 0);
        assert(decode_utf8(encode_utf8(chars)) =~= chars);
    } else {
        let bytes = encode_utf8(chars);
        let first = vstd::utf8::encode_scalar(chars[0] as u32);
        let rest = encode_utf8(chars.drop_first());
        assert(bytes == first + rest);
        encode_utf8_first_scalar(chars);
        assert(vstd::utf8::length_of_first_scalar(bytes) == first.len());
        assert(vstd::utf8::pop_first_scalar(bytes) =~= rest);
        lemma_encode_utf8_inverse(chars.drop_first());
        assert(decode_utf8(bytes) == seq![
            vstd::utf8::decode_first_scalar(bytes) as char,
        ] + decode_utf8(rest));
        assert(vstd::utf8::decode_first_scalar(bytes) == chars[0] as u32);
        vstd::utf8::char_u32_cast(chars[0], chars[0] as u32);
        assert(decode_utf8(bytes) =~= chars);
    }
}

/// Equal UTF-8 byte images mean equal strings, and conversely.
pub proof fn lemma_spec_bytes_eq(a: Seq<char>, b: Seq<char>)
    ensures
        (encode_utf8(a) == encode_utf8(b)) <==> (a == b),
{
    if encode_utf8(a) == encode_utf8(b) {
        lemma_encode_utf8_inverse(a);
        lemma_encode_utf8_inverse(b);
    }
}

/// Compare two byte slices for equality.
pub fn bytes_eq(a: &[u8], b: &[u8]) -> (r: bool)
    ensures
        r == (a@ == b@),
{
    if a.len() != b.len() {
        assert(a@ != b@);
        return false;
    }
    let n = a.len();
    let mut i: usize = 0;
    while i < n
        invariant
            n == a@.len() == b@.len(),
            i <= n,
            forall|k: int| 0 <= k < i ==> a@[k] == b@[k],
        decreases n - i,
    {
        if a[i] != b[i] {
            return false;
        }
        i += 1;
    }
    proof {
        assert(a@ =~= b@);
    }
    true
}

/// Compare two strings for equality, byte-wise.
pub fn str_eq(a: &str, b: &str) -> (r: bool)
    ensures
        r == (a@ == b@),
{
    let r = bytes_eq(a.as_bytes(), b.as_bytes());
    proof {
        lemma_spec_bytes_eq(a@, b@);
    }
    r
}

/// Decode bytes into an owned string; `None` exactly on invalid UTF-8.
pub fn string_from_bytes(b: &[u8]) -> (r: Option<String>)
    ensures
        r matches Some(t) ==> valid_utf8(b@) && t@ == decode_utf8(b@) && encode_utf8(t@) == b@,
        r is None ==> !valid_utf8(b@),
{
    match try_str_from_utf8(b) {
        None => None,
        Some(t) => {
            proof {
                lemma_encode_utf8_inverse(t@);
            }
            Some(t.to_owned())
        }
    }
}

} // verus!

//! File content as bytes: the binary check and UTF-8 decoding.
use vstd::prelude::*;
use vstd::utf8::*;

verus! {

/// How many leading bytes the binary check looks at.
pub const BINARY_PROBE: usize = 8192;

/// A NUL byte occurs among the first `BINARY_PROBE` bytes.
pub open spec fn binary_bytes(b: Seq<u8>) -> bool {
    exists|i: int| 0 <= i < b.len() && i < BINARY_PROBE && b[i] == 0
}

/// Whether content looks binary: a NUL byte among its first 8 KiB.
pub fn looks_binary(bytes: &[u8]) -> (r: bool)
    ensures
        r == binary_bytes(bytes@),
{
    let n = if bytes.len() < BINARY_PROBE {
        bytes.len()
    } else {
        BINARY_PROBE
    };
    let mut i: usize = 0;
    while i < n
        invariant
            i <= n <= bytes@.len(),
            n <= BINARY_PROBE,
            n == bytes@.len() || n == BINARY_PROBE,
            forall|k: int| 0 <= k < i ==> bytes@[k] != 0,
        decreases n - i,
    {
        if bytes[i] == 0 {
            return true;
        }
        i = i + 1;
    }
    false
}

/// `std::str::from_utf8`, owned: the text when the bytes are valid UTF-8.
/// std documents that it succeeds exactly on valid UTF-8 and yields the
/// decoded characters.
#[verifier::external_body]
pub(crate) fn decode_utf8_strict(bytes: &[u8]) -> (r: Option<String>)
    ensures
        r is Some <==> valid_utf8(bytes@),
        r matches Some(s) ==> s@ == decode_utf8(bytes@),
{
    match std::str::from_utf8(bytes) {
        Ok(s) => Some(s.to_string()),
        Err(_) => None,
    }
}

/// What `String::from_utf8_lossy` returns for a byte sequence.
pub uninterp spec fn lossy_text(bytes: Seq<u8>) -> Seq<char>;

/// `String::from_utf8_lossy`, owned. Invalid sequences become U+FFFD; the
/// result is named `lossy_text`, and on valid UTF-8 it is the decoded text,
/// as std documents.
#[verifier::external_body]
pub(crate) fn decode_utf8_lossy(bytes: &[u8]) -> (r: String)
    ensures
        r@ == lossy_text(bytes@),
        valid_utf8(bytes@) ==> r@ == decode_utf8(bytes@),
{
    String::from_utf8_lossy(bytes).into_owned()
}

} // verus!

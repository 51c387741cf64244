//! Base64 through the `data_encoding` crate.
//!
//! The encodings themselves are named, not restated: the contracts below
//! carry only what the crate's documentation promises, namely that encoding
//! and decoding are inverse of each other.

use vstd::prelude::*;

verus! {

/// The padded base64 text of `data` (RFC 4648 alphabet).
pub uninterp spec fn base64_encoding(data: Seq<u8>) -> Seq<char>;

/// Padded base64 decoding of `text`, or the error rendered by `Display`
/// and by `Debug`, in that order.
pub uninterp spec fn base64_decoding(text: Seq<char>) -> Result<Seq<u8>, (Seq<char>, Seq<char>)>;

/// Unpadded base64 decoding of `input`, or the debug text of the error.
pub uninterp spec fn base64_nopad_decoding(input: Seq<u8>) -> Result<Seq<u8>, Seq<char>>;

/// Calls `data_encoding::base64::encode`. The result is named
/// `base64_encoding`; as the crate documents, decoding it gives `data`
/// back.
#[verifier::external_body]
pub(crate) fn base64_encode(data: &[u8]) -> (text: String)
    ensures
        text@ == base64_encoding(data@),
        base64_decoding(text@) is Ok,
        base64_decoding(text@)->Ok_0 == data@,
{
    ::data_encoding::base64::encode(data)
}

/// Calls `data_encoding::base64::decode` on the bytes of `text`, the error
/// rendered by `Display` and by `Debug`. The result is named
/// `base64_decoding`. As the crate documents, encoding and decoding are
/// inverse of each other: whatever it decodes encodes back to `text`, and
/// it refuses no text that is the encoding of some bytes.
#[verifier::external_body]
pub(crate) fn base64_decode(text: &str) -> (res: Result<Vec<u8>, (String, String)>)
    ensures
        match res {
            Ok(data) => base64_decoding(text@) matches Ok(d) && d == data@,
            Err((shown, debug)) => base64_decoding(text@) matches Err(m) && m == (
                shown@,
                debug@,
            ),
        },
        res is Ok ==> base64_encoding(res->Ok_0@) == text@,
        res is Err ==> forall|data: Seq<u8>| #[trigger] base64_encoding(data) != text@,
{
    match ::data_encoding::base64::decode(text.as_bytes()) {
        Ok(data) => Ok(data),
        Err(e) => Err((format!("{}", e), format!("{:?}", e))),
    }
}

/// Calls `data_encoding::base64::encode_nopad_len`: the number of symbols
/// of the unpadded encoding of `len` bytes, 8 * len / 6 rounded up.
#[verifier::external_body]
pub(crate) fn base64_encode_nopad_len(len: usize) -> (n: usize)
    requires
        8 * len + 5 <= usize::MAX,
    ensures
        n == (8 * len + 5) / 6,
{
    ::data_encoding::base64::encode_nopad_len(len)
}

/// Calls `data_encoding::base64::decode_nopad_mut` into `output`, the error
/// rendered by `Debug`. On success `output` holds the decoding named
/// `base64_nopad_decoding`; on failure nothing is said of `output`, which
/// the crate may have partly written. The requirement on `N` rules out the
/// crate's assertion on the output length.
#[verifier::external_body]
pub(crate) fn base64_decode_nopad_into<const N: usize>(input: &[u8], output: &mut [u8; N]) -> (res:
    Result<(), String>)
    requires
        6 * input@.len() <= usize::MAX,
        N == 6 * input@.len() / 8,
    ensures
        match base64_nopad_decoding(input@) {
            Ok(data) => res is Ok && final(output)@ == data,
            Err(msg) => res matches Err(e) && e@ == msg,
        },
{
    match ::data_encoding::base64::decode_nopad_mut(input, output) {
        Ok(()) => Ok(()),
        Err(e) => Err(format!("{:?}", e)),
    }
}

} // verus!

//! Base64, in the two alphabets that are in use: the standard one with padding
//! for what the service is sent and what is kept on disk, and the one for URLs
//! without padding for what a caller is handed.
use base64::engine::general_purpose::{STANDARD, URL_SAFE_NO_PAD};
use base64::Engine;
use vstd::prelude::*;

verus! {

/// What the standard engine of `base64` writes for bytes.
pub uninterp spec fn base64(bytes: Seq<u8>) -> Seq<char>;

/// What the standard engine of `base64` reads from a text, where it can.
pub uninterp spec fn base64_read(text: Seq<char>) -> Option<Seq<u8>>;

/// What the URL-safe engine of `base64` writes for bytes, without padding.
pub uninterp spec fn base64url(bytes: Seq<u8>) -> Seq<char>;

/// What the URL-safe engine of `base64` reads from a text, where it can.
pub uninterp spec fn base64url_read(text: Seq<char>) -> Option<Seq<u8>>;

/// The bytes in an outcome that may be none.
pub open spec fn seq_of(r: Option<Vec<u8>>) -> Option<Seq<u8>> {
    match r {
        Some(bytes) => Some(bytes@),
        None => None,
    }
}

/// `STANDARD.encode` of `base64`: the text for the bytes, from which
/// `STANDARD.decode` reads them back.
#[verifier::external_body]
pub(crate) fn encode_standard(bytes: &[u8]) -> (r: String)
    ensures
        r@ == base64(bytes@),
        base64_read(r@) == Some(bytes@),
{
    STANDARD.encode(bytes)
}

/// `STANDARD.decode` of `base64`: the bytes that the text stands for, or none.
#[verifier::external_body]
pub(crate) fn decode_standard(text: &str) -> (r: Option<Vec<u8>>)
    ensures
        seq_of(r) == base64_read(text@),
{
    STANDARD.decode(text).ok()
}

/// `URL_SAFE_NO_PAD.encode` of `base64`: the text for the bytes, from which
/// `URL_SAFE_NO_PAD.decode` reads them back.
#[verifier::external_body]
pub(crate) fn encode_url(bytes: &[u8]) -> (r: String)
    ensures
        r@ == base64url(bytes@),
        base64url_read(r@) == Some(bytes@),
{
    URL_SAFE_NO_PAD.encode(bytes)
}

/// `URL_SAFE_NO_PAD.decode` of `base64`: the bytes that the text stands for,
/// or none.
#[verifier::external_body]
pub(crate) fn decode_url(text: &str) -> (r: Option<Vec<u8>>)
    ensures
        seq_of(r) == base64url_read(text@),
{
    URL_SAFE_NO_PAD.decode(text).ok()
}

} // verus!

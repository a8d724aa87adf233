//! The cryptographic steps of a signature: SHA-256, HMAC-SHA256 and base64.
//!
//! The three are computed by the `sha2`, `hmac` and `base64` crates. What they
//! compute is named, not restated: contracts say which bytes go into which
//! step.

use base64::Engine;
use hmac::Mac;
use sha2::Digest;
use vstd::prelude::*;

verus! {

/// The SHA-256 digest of `data`.
pub uninterp spec fn sha256(data: Seq<u8>) -> Seq<u8>;

/// The HMAC-SHA256 code of `message` under `key`.
pub uninterp spec fn hmac_sha256(key: Seq<u8>, message: Seq<u8>) -> Seq<u8>;

/// The base64 text of `data`: standard alphabet, with padding.
pub uninterp spec fn base64(data: Seq<u8>) -> Seq<char>;

/// The bytes that the base64 text `text` stands for, or `None` where it is
/// not base64 in the standard alphabet with canonical padding.
pub uninterp spec fn base64_decoded(text: Seq<char>) -> Option<Seq<u8>>;

/// Whether the base64 text of `len` bytes has a length that fits a `usize`.
pub open spec fn base64_fits(len: nat) -> bool {
    len / 3 * 4 + 4 <= usize::MAX
}

/// `sha2::Sha256::digest` hashes `data` in one call; the digest has 32 bytes.
#[verifier::external_body]
pub(crate) fn sha256_digest(data: &[u8]) -> (r: Vec<u8>)
    ensures
        r@ == sha256(data@),
        r@.len() == 32,
{
    sha2::Sha256::digest(data).to_vec()
}

/// `hmac::Hmac::<Sha256>` keyed with `key` by `new_from_slice`, fed `message`
/// by `update`, and closed by `finalize`. HMAC takes a key of any length, so
/// `new_from_slice` returns `Ok` on every key; the code has 32 bytes. An error
/// would come back as its `Display` text.
#[verifier::external_body]
pub(crate) fn hmac_sha256_code(key: &[u8], message: &[u8]) -> (r: Result<Vec<u8>, String>)
    ensures
        r is Ok,
        r->Ok_0@ == hmac_sha256(key@, message@),
        r->Ok_0@.len() == 32,
{
    let mut mac = hmac::Hmac::<sha2::Sha256>::new_from_slice(key).map_err(|e| e.to_string())?;
    mac.update(message);
    Ok(mac.finalize().into_bytes().to_vec())
}

/// The length of the base64 text of `len` bytes: four characters for each
/// three bytes, the last group padded.
pub open spec fn base64_len(len: nat) -> nat {
    (len + 2) / 3 * 4
}

/// `encode` of `base64::engine::general_purpose::STANDARD`. The text has
/// four characters for each three bytes begun. It panics where the length of
/// the text overflows, which `requires` leaves out.
#[verifier::external_body]
pub(crate) fn base64_encode(data: &[u8]) -> (r: String)
    requires
        base64_fits(data@.len()),
    ensures
        r@ == base64(data@),
        r@.len() == base64_len(data@.len()),
{
    base64::engine::general_purpose::STANDARD.encode(data)
}

/// `decode` of `base64::engine::general_purpose::STANDARD`; its error comes
/// back as its `Display` text.
#[verifier::external_body]
pub(crate) fn base64_decode(text: &str) -> (r: Result<Vec<u8>, String>)
    ensures
        match r {
            Ok(data) => base64_decoded(text@) == Some(data@),
            Err(_) => base64_decoded(text@) is None,
        },
{
    base64::engine::general_purpose::STANDARD.decode(text).map_err(|e| e.to_string())
}

} // verus!

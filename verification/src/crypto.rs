//! The cryptographic primitives the token processor relies on, behind
//! trusted declarations: the MAC that signs a token and the hash that
//! protects a stored password.

use sha2::Digest;
use vstd::prelude::*;

verus! {

/// What HMAC-SHA512 followed by base64url yields for a key and a message: a
/// fixed function of the two alone, the same in every process.
pub uninterp spec fn hs512_sig_of(secret: Seq<u8>, message: Seq<u8>) -> Seq<u8>;

/// What the SHA-512 digest of a byte string reads as in lower-case hex.
pub uninterp spec fn sha512_hex_of(bytes: Seq<u8>) -> Seq<char>;

/// Relies on jsonwebtoken's `crypto::sign` with `Algorithm::HS512` and an
/// `EncodingKey::from_secret` key: for an HMAC algorithm its `rust_crypto`
/// backend accepts any secret and returns the base64url text of the
/// HMAC-SHA512 tag, a deterministic function of secret and message; every
/// byte of that text is in the base64url alphabet. jsonwebtoken routes the
/// call through a process-wide provider registry; this contract assumes the
/// process keeps the crate's default `rust_crypto` provider, the only one
/// compiled in here, and never installs another before first use.
#[verifier::external_body]
pub(crate) fn hs512_sign(secret: &[u8], message: &[u8]) -> (r: Vec<u8>)
    ensures
        r@ == hs512_sig_of(secret@, message@),
        forall|i: int| 0 <= i < r@.len() ==> crate::b64::is_b64_byte(#[trigger] r@[i]),
{
    jsonwebtoken::crypto::sign(
        message,
        &jsonwebtoken::EncodingKey::from_secret(secret),
        jsonwebtoken::Algorithm::HS512,
    ).expect("HMAC signing is infallible").into_bytes()
}

/// Relies on sha2's `Sha512::digest` and the lower-case hex rendering of its
/// 64-byte output: a deterministic function of the input bytes, two hex
/// characters per digest byte.
#[verifier::external_body]
pub(crate) fn sha512_hex(bytes: &[u8]) -> (r: String)
    ensures
        r@ == sha512_hex_of(bytes@),
        r@.len() == 128,
{
    format!("{:x}", sha2::Sha512::digest(bytes))
}

} // verus!

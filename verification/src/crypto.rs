//! Trusted bindings to the encoding and cryptography crates the server
//! relies on: base64, SHA-256 and RSA signatures over PEM keys.
//!
//! Each binding's result is a function of its arguments alone, so it is
//! given a name that the callers' contracts speak of.

use base64::Engine;
use sha2::Digest;
use vstd::prelude::*;
use vstd::utf8::{encode_utf8, valid_utf8};

verus! {

/// What base64's standard-alphabet, padded encoding returns for these bytes.
pub uninterp spec fn b64_standard(bytes: Seq<u8>) -> Seq<char>;

/// What base64's standard-alphabet, padded decoding returns for this text.
pub uninterp spec fn b64_standard_decoded(text: Seq<char>) -> Option<Seq<u8>>;

/// What base64's URL-safe, padded encoding returns for these bytes.
pub uninterp spec fn b64_urlsafe(bytes: Seq<u8>) -> Seq<char>;

/// What base64's URL-safe, padded decoding returns for this text.
pub uninterp spec fn b64_urlsafe_decoded(text: Seq<char>) -> Option<Seq<u8>>;

/// What base64's URL-safe, unpadded decoding returns for this text.
pub uninterp spec fn b64_urlsafe_nopad_decoded(text: Seq<char>) -> Option<Seq<u8>>;

/// The SHA-256 digest of these bytes.
pub uninterp spec fn sha256_of(bytes: Seq<u8>) -> Seq<u8>;

/// The RSA-SHA256 signature of `data` under the PEM private key `key_pem`,
/// or `None` when the key does not parse.
pub uninterp spec fn rsa_sha256_signed(key_pem: Seq<u8>, data: Seq<u8>) -> Option<Seq<u8>>;

/// Whether `signature` verifies over `data` under the PEM public key
/// `key_pem`.
pub uninterp spec fn rsa_sha256_verified(key_pem: Seq<u8>, data: Seq<u8>, signature: Seq<u8>) -> bool;

/// Relies on base64's `STANDARD` engine: the encoding of the input bytes.
#[verifier::external_body]
pub fn base64_encode(data: &[u8]) -> (r: String)
    ensures
        r@ == b64_standard(data@),
        data@.len() == 0 ==> r@.len() == 0,
{
    base64::engine::general_purpose::STANDARD.encode(data)
}

/// Relies on base64's `STANDARD` engine: the decoding of the input text.
#[verifier::external_body]
pub fn base64_decode(text: &str) -> (r: Option<Vec<u8>>)
    ensures
        match r {
            Some(v) => b64_standard_decoded(text@) == Some(v@),
            None => b64_standard_decoded(text@) is None,
        },
{
    match base64::engine::general_purpose::STANDARD.decode(text.as_bytes()) {
        Ok(v) => Some(v),
        Err(_) => None,
    }
}

/// Relies on base64's `URL_SAFE` engine: the encoding of the input bytes.
#[verifier::external_body]
pub fn base64_urlsafe_encode(data: &[u8]) -> (r: String)
    ensures
        r@ == b64_urlsafe(data@),
        data@.len() == 0 ==> r@.len() == 0,
{
    base64::engine::general_purpose::URL_SAFE.encode(data)
}

/// Relies on base64's `URL_SAFE` engine: the decoding of the input text.
#[verifier::external_body]
pub fn base64_urlsafe_decode(text: &str) -> (r: Option<Vec<u8>>)
    ensures
        match r {
            Some(v) => b64_urlsafe_decoded(text@) == Some(v@),
            None => b64_urlsafe_decoded(text@) is None,
        },
{
    match base64::engine::general_purpose::URL_SAFE.decode(text.as_bytes()) {
        Ok(v) => Some(v),
        Err(_) => None,
    }
}

/// Relies on base64's `URL_SAFE_NO_PAD` engine: the decoding of the input
/// text (the form JWT segments use).
#[verifier::external_body]
pub fn base64_urlsafe_nopad_decode(text: &str) -> (r: Option<Vec<u8>>)
    ensures
        match r {
            Some(v) => b64_urlsafe_nopad_decoded(text@) == Some(v@),
            None => b64_urlsafe_nopad_decoded(text@) is None,
        },
{
    match base64::engine::general_purpose::URL_SAFE_NO_PAD.decode(text.as_bytes()) {
        Ok(v) => Some(v),
        Err(_) => None,
    }
}

/// Relies on sha2's `Sha256::digest`: the 32-byte digest of the input.
#[verifier::external_body]
pub fn sha256(data: &[u8]) -> (r: Vec<u8>)
    ensures
        r@ == sha256_of(data@),
        r@.len() == 32,
{
    sha2::Sha256::digest(data).to_vec()
}

/// Relies on openssl's `Rsa::private_key_from_pem`, `PKey::from_rsa` and
/// `Signer` with SHA-256: the PKCS#1 signature of `data`, which is a
/// function of the key and the data.
#[verifier::external_body]
pub fn rsa_sign(key_pem: &[u8], data: &[u8]) -> (r: Option<Vec<u8>>)
    ensures
        match r {
            Some(v) => rsa_sha256_signed(key_pem@, data@) == Some(v@),
            None => rsa_sha256_signed(key_pem@, data@) is None,
        },
{
    let rsa = openssl::rsa::Rsa::private_key_from_pem(key_pem).ok()?;
    let pkey = openssl::pkey::PKey::from_rsa(rsa).ok()?;
    let digest = openssl::hash::MessageDigest::sha256();
    let mut signer = openssl::sign::Signer::new(digest, &pkey).ok()?;
    signer.update(data).ok()?;
    signer.sign_to_vec().ok()
}

/// Relies on openssl's `Rsa::public_key_from_pem`, `PKey::from_rsa` and
/// `Verifier` with SHA-256: whether the signature checks out; `false` when
/// the key does not parse.
#[verifier::external_body]
pub fn rsa_verify(key_pem: &[u8], data: &[u8], signature: &[u8]) -> (r: bool)
    ensures
        r == rsa_sha256_verified(key_pem@, data@, signature@),
{
    let Ok(rsa) = openssl::rsa::Rsa::public_key_from_pem(key_pem) else { return false };
    let Ok(pkey) = openssl::pkey::PKey::from_rsa(rsa) else { return false };
    let digest = openssl::hash::MessageDigest::sha256();
    let Ok(mut verifier) = openssl::sign::Verifier::new(digest, &pkey) else { return false };
    if verifier.update(data).is_err() {
        return false;
    }
    verifier.verify(signature).unwrap_or(false)
}

/// Relies on std's `String::from_utf8`: decodes exactly the valid UTF-8 byte
/// strings, to the characters those bytes encode.
#[verifier::external_body]
pub fn utf8_to_string(bytes: Vec<u8>) -> (r: Option<String>)
    ensures
        match r {
            Some(s) => valid_utf8(bytes@) && encode_utf8(s@) == bytes@,
            None => !valid_utf8(bytes@),
        },
{
    String::from_utf8(bytes).ok()
}

} // verus!

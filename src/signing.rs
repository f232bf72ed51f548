//! HMAC-SHA1 signing of a base string, with the digest in base64.
use vstd::prelude::*;
use vstd::string::*;
use vstd::utf8::*;

verus! {

/// The HMAC-SHA1 digest of `message` under `key`.
pub uninterp spec fn hmac_sha1_digest(key: Seq<u8>, message: Seq<u8>) -> Seq<u8>;

/// Base64 text of `bytes`, standard alphabet, with padding.
pub uninterp spec fn base64_standard(bytes: Seq<u8>) -> Seq<char>;

/// Relies on rust-crypto's Hmac over Sha1 (`Hmac::new`, `Mac::input`,
/// `Mac::result`): the raw HMAC-SHA1 code of `message` under `key`.
#[verifier::external_body]
fn hmac_sha1(key: &[u8], message: &[u8]) -> (r: Vec<u8>)
    ensures
        r@ == hmac_sha1_digest(key@, message@),
{
    let mut mac = crypto::hmac::Hmac::new(crypto::sha1::Sha1::new(), key);
    crypto::mac::Mac::input(&mut mac, message);
    crypto::mac::Mac::result(&mut mac).code().to_vec()
}

/// Relies on base64::encode: the standard alphabet, with padding.
#[verifier::external_body]
fn base64_encode(bytes: &[u8]) -> (r: String)
    ensures
        r@ == base64_standard(bytes@),
{
    base64::encode(bytes)
}

/// The signature of a base string: HMAC-SHA1 over its UTF-8 bytes, keyed by
/// the UTF-8 bytes of `key`, as base64.
pub open spec fn signature(base: Seq<char>, key: Seq<char>) -> Seq<char> {
    base64_standard(hmac_sha1_digest(encode_utf8(key), encode_utf8(base)))
}

/// Signs `base` with `key`.
pub fn sign(base: &str, key: &str) -> (r: String)
    ensures
        r@ == signature(base@, key@),
{
    let digest = hmac_sha1(key.as_bytes(), base.as_bytes());
    base64_encode(digest.as_slice())
}

} // verus!

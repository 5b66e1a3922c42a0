use vstd::prelude::*;
use vstd::utf8::{encode_utf8, valid_utf8};

verus! {

/// Relies on `String::from_utf8`: it succeeds exactly on valid UTF-8, and the
/// string it returns is made of the given bytes.
#[verifier::external_body]
pub(crate) fn string_from_utf8(bytes: Vec<u8>) -> (r: Option<String>)
    ensures
        r is Some <==> valid_utf8(bytes@),
        r is Some ==> encode_utf8(r->Some_0@) == bytes@,
{
    match String::from_utf8(bytes) {
        Ok(s) => Some(s),
        Err(_) => None,
    }
}

} // verus!

verus! {

/// A character of the URL-safe base64 alphabet (`A-Z a-z 0-9 - _`).
pub open spec fn url_safe_char(c: char) -> bool {
    let u = c as u32;
    (65 <= u <= 90) || (97 <= u <= 122) || (48 <= u <= 57) || u == 45 || u == 95
}

pub open spec fn url_safe(s: Seq<char>) -> bool {
    forall|k: int| 0 <= k < s.len() ==> url_safe_char(#[trigger] s[k])
}

/// The unpadded URL-safe base64 text of some bytes.
pub uninterp spec fn b64url_of(b: Seq<u8>) -> Seq<char>;

/// The HS256 signature (HMAC-SHA256, as unpadded URL-safe base64) of a message under a key.
pub uninterp spec fn hs256_of(message: Seq<u8>, key: Seq<u8>) -> Seq<char>;

/// Relies on base64's `URL_SAFE_NO_PAD.encode`: the text uses the URL-safe
/// alphabet without padding, and no other bytes have the same text.
#[verifier::external_body]
pub(crate) fn b64url_encode(b: &[u8]) -> (r: String)
    ensures
        r@ == b64url_of(b@),
        url_safe(r@),
        forall|x: Seq<u8>| b64url_of(x) == r@ ==> x == b@,
{
    base64::Engine::encode(&base64::engine::general_purpose::URL_SAFE_NO_PAD, b)
}

/// Relies on base64's `URL_SAFE_NO_PAD.decode`: it accepts exactly the texts
/// that encoding produces and returns the one byte string behind them.
#[verifier::external_body]
pub(crate) fn b64url_decode(s: &str) -> (r: Option<Vec<u8>>)
    ensures
        match r {
            Some(v) => b64url_of(v@) == s@ && forall|x: Seq<u8>| b64url_of(x) == s@ ==> x == v@,
            None => forall|x: Seq<u8>| b64url_of(x) != s@,
        },
{
    match base64::Engine::decode(&base64::engine::general_purpose::URL_SAFE_NO_PAD, s) {
        Ok(v) => Some(v),
        Err(_) => None,
    }
}

/// Relies on `jsonwebtoken::crypto::sign` with HS256, which always succeeds for
/// HMAC and returns the MAC as unpadded URL-safe base64.
#[verifier::external_body]
pub(crate) fn sign_hs256(message: &[u8], key: &[u8]) -> (r: Option<String>)
    ensures
        r is Some,
        r->Some_0@ == hs256_of(message@, key@),
        url_safe(r->Some_0@),
{
    let k = jsonwebtoken::EncodingKey::from_secret(key);
    match jsonwebtoken::crypto::sign(message, &k, jsonwebtoken::Algorithm::HS256) {
        Ok(s) => Some(s),
        Err(_) => None,
    }
}

/// Relies on `jsonwebtoken::crypto::verify` with HS256, which re-signs the
/// message with the key and compares the result with `signature`.
#[verifier::external_body]
pub(crate) fn verify_hs256(signature: &str, message: &[u8], key: &[u8]) -> (r: bool)
    ensures
        r == (signature@ == hs256_of(message@, key@)),
{
    let k = jsonwebtoken::DecodingKey::from_secret(key);
    match jsonwebtoken::crypto::verify(signature, message, &k, jsonwebtoken::Algorithm::HS256) {
        Ok(ok) => ok,
        Err(_) => false,
    }
}

/// A character of the hyphenated lowercase text of a UUID.
pub open spec fn id_char(c: char) -> bool {
    c == '-' || ('0' <= c && c <= '9') || ('a' <= c && c <= 'f')
}

/// Whether `password` matches the bcrypt verifier `verifier`.
pub uninterp spec fn bcrypt_matches(password: Seq<char>, verifier: Seq<char>) -> bool;

/// Relies on `uuid::Uuid::new_v4` and its `Display` form: a fresh random
/// identifier written as 36 characters of lowercase hex digits and hyphens.
#[verifier::external_body]
pub(crate) fn fresh_token_id() -> (r: String)
    ensures
        r@.len() == 36,
        forall|k: int| 0 <= k < r@.len() ==> id_char(#[trigger] r@[k]),
{
    uuid::Uuid::new_v4().to_string()
}

/// Relies on `bcrypt::verify`, which re-hashes `password` with the cost and
/// salt held in `verifier` and compares; a malformed verifier matches nothing.
#[verifier::external_body]
pub(crate) fn bcrypt_verify(password: &str, verifier: &str) -> (r: bool)
    ensures
        r == bcrypt_matches(password@, verifier@),
{
    match bcrypt::verify(password, verifier) {
        Ok(ok) => ok,
        Err(_) => false,
    }
}

/// Relies on `chrono::Utc::now().timestamp()`: the current time in seconds since the epoch.
#[verifier::external_body]
pub(crate) fn now_seconds() -> (r: i64) {
    chrono::Utc::now().timestamp()
}

} // verus!

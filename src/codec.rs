use vstd::prelude::*;
use vstd::string::{StrSliceExecFns, StringExecFns, StringSliceAdditionalSpecFns};
use vstd::utf8::encode_utf8;
use crate::claims::{Claims, ClaimsView};
use crate::outside::{b64url_decode, b64url_encode, b64url_of, hs256_of, sign_hs256, url_safe, verify_hs256};
use crate::payload::{encodable, is_encodable, lemma_parsed_encodable, lemma_payload_round_trip, parse_payload, payload_bytes, read_payload, write_payload};
use crate::text::{find_char, first_from, lemma_first_from, lemma_first_from_bounds, same_text};

verus! {

/// Why a token could not be produced.
#[derive(Clone, Copy, Debug, PartialEq, Eq, Structural)]
pub enum EncodeError {
    /// A text field holds a control character.
    Unencodable,
    /// The random identifiers drawn for the two tokens of a pair kept coinciding.
    DuplicateId,
}

/// Why a token was not accepted.
#[derive(Clone, Copy, Debug, PartialEq, Eq, Structural)]
pub enum DecodeError {
    Malformed,
    BadSignature,
    Expired,
}

/// The base64 text of the fixed header `{"typ":"JWT","alg":"HS256"}`.
pub open spec fn header_text() -> Seq<char> {
    seq![
        'e', 'y', 'J', '0', 'e', 'X', 'A', 'i', 'O', 'i', 'J', 'K', 'V', '1', 'Q', 'i', 'L', 'C',
        'J', 'h', 'b', 'G', 'c', 'i', 'O', 'i', 'J', 'I', 'U', 'z', 'I', '1', 'N', 'i', 'J', '9',
    ]
}

/// The signed part of a token: header and payload.
pub open spec fn message_of(c: ClaimsView) -> Seq<char> {
    header_text() + seq!['.'] + b64url_of(payload_bytes(c))
}

/// The full token of `c` signed with `key`.
pub open spec fn token_text(c: ClaimsView, key: Seq<u8>) -> Seq<char> {
    message_of(c) + seq!['.'] + hs256_of(encode_utf8(message_of(c)), key)
}

/// What decoding a well-made token of `c` gives at `now`.
pub open spec fn expected_decode(c: ClaimsView, now: u64) -> Result<ClaimsView, DecodeError> {
    if now < c.exp {
        Ok(c)
    } else {
        Err(DecodeError::Expired)
    }
}

/// `t` is the token of `c` under `key`, and decodes to `c` exactly until `c.exp`.
pub open spec fn issued_token(t: Seq<char>, key: Seq<u8>, c: ClaimsView) -> bool {
    &&& t == token_text(c, key)
    &&& forall|now: u64| #[trigger] decode_result(t, key, now) == expected_decode(c, now)
}

/// The bytes whose base64 text is `s`, if any.
pub open spec fn b64_bytes(s: Seq<char>) -> Option<Seq<u8>> {
    if exists|b: Seq<u8>| b64url_of(b) == s {
        Some(choose|b: Seq<u8>| b64url_of(b) == s)
    } else {
        None
    }
}

/// What decoding token text `t` under `key` at time `now` gives.
pub open spec fn decode_result(t: Seq<char>, key: Seq<u8>, now: u64) -> Result<ClaimsView, DecodeError> {
    let d1 = first_from(t, 0, '.');
    let d2 = first_from(t, d1 + 1, '.');
    let d3 = first_from(t, d2 + 1, '.');
    if !(d1 < t.len() && d2 < t.len() && d3 == t.len()) {
        Err(DecodeError::Malformed)
    } else if t.subrange(0, d1) != header_text() {
        Err(DecodeError::Malformed)
    } else if t.subrange(d2 + 1, t.len() as int) != hs256_of(encode_utf8(t.subrange(0, d2)), key) {
        Err(DecodeError::BadSignature)
    } else {
        match b64_bytes(t.subrange(d1 + 1, d2)) {
            None => Err(DecodeError::Malformed),
            Some(p) => match parse_payload(p) {
                None => Err(DecodeError::Malformed),
                Some(c) => if c.exp <= now {
                    Err(DecodeError::Expired)
                } else {
                    Ok(c)
                },
            },
        }
    }
}

proof fn lemma_url_safe_no_dot(s: Seq<char>)
    requires
        url_safe(s),
    ensures
        forall|k: int| 0 <= k < s.len() ==> s[k] != '.',
{
    assert forall|k: int| 0 <= k < s.len() implies s[k] != '.' by {
        if s[k] == '.' {
            assert(crate::outside::url_safe_char(s[k]));
        }
    }
}

/// A token made from encodable claims decodes back to them before it expires.
proof fn lemma_token_round_trip(c: ClaimsView, key: Seq<u8>, now: u64)
    requires
        encodable(c),
        url_safe(b64url_of(payload_bytes(c))),
        url_safe(hs256_of(encode_utf8(message_of(c)), key)),
        forall|x: Seq<u8>| #[trigger] b64url_of(x) == b64url_of(payload_bytes(c)) ==> x == payload_bytes(c),
    ensures
        decode_result(token_text(c, key), key, now) == expected_decode(c, now),
{
    let h = header_text();
    let b = b64url_of(payload_bytes(c));
    let m = message_of(c);
    let s = hs256_of(encode_utf8(m), key);
    let t = token_text(c, key);
    lemma_url_safe_no_dot(b);
    lemma_url_safe_no_dot(s);
    let d1 = h.len() as int;
    let d2 = d1 + 1 + b.len();
    assert(t.len() == d2 + 1 + s.len());
    assert(t[d1] == '.');
    assert forall|k: int| 0 <= k < d1 implies t[k] != '.' by {
        assert(t[k] == h[k]);
    }
    lemma_first_from(t, 0, d1, '.');
    assert(t[d2] == '.');
    assert forall|k: int| d1 + 1 <= k < d2 implies t[k] != '.' by {
        assert(t[k] == b[k - d1 - 1]);
    }
    lemma_first_from(t, d1 + 1, d2, '.');
    assert forall|k: int| d2 + 1 <= k < t.len() implies t[k] != '.' by {
        assert(t[k] == s[k - d2 - 1]);
    }
    lemma_first_from(t, d2 + 1, t.len() as int, '.');
    assert(t.subrange(0, d1) =~= h);
    assert(t.subrange(0, d2) =~= m);
    assert(t.subrange(d2 + 1, t.len() as int) =~= s);
    assert(t.subrange(d1 + 1, d2) =~= b);
    assert(b64_bytes(b) == Some(payload_bytes(c)));
    lemma_payload_round_trip(c);
}

/// A token is accepted only if its last part is the HS256 signature, under
/// `key`, of everything before the last dot.
pub proof fn lemma_signature_required(t: Seq<char>, key: Seq<u8>, now: u64)
    requires
        decode_result(t, key, now) is Ok,
    ensures
        exists|m: Seq<char>| t == m + seq!['.'] + #[trigger] hs256_of(encode_utf8(m), key),
{
    let d1 = first_from(t, 0, '.');
    let d2 = first_from(t, d1 + 1, '.');
    lemma_first_from_bounds(t, 0, '.');
    lemma_first_from_bounds(t, d1 + 1, '.');
    let m = t.subrange(0, d2);
    assert(t =~= m + seq!['.'] + t.subrange(d2 + 1, t.len() as int));
    assert(t == m + seq!['.'] + hs256_of(encode_utf8(m), key));
}

/// The claims of an accepted token can always be written again.
pub proof fn lemma_decoded_encodable(t: Seq<char>, key: Seq<u8>, now: u64)
    requires
        decode_result(t, key, now) is Ok,
    ensures
        encodable(decode_result(t, key, now)->Ok_0),
{
    let d1 = first_from(t, 0, '.');
    let d2 = first_from(t, d1 + 1, '.');
    let p = b64_bytes(t.subrange(d1 + 1, d2))->Some_0;
    lemma_parsed_encodable(p);
}

fn header() -> (r: &'static str)
    ensures
        r@ == header_text(),
{
    let r = "eyJ0eXAiOiJKV1QiLCJhbGciOiJIUzI1NiJ9";
    proof {
        reveal_strlit("eyJ0eXAiOiJKV1QiLCJhbGciOiJIUzI1NiJ9");
    }
    assert(r@ =~= header_text());
    r
}

fn dot() -> (r: &'static str)
    ensures
        r@ == seq!['.'],
{
    let r = ".";
    proof {
        reveal_strlit(".");
    }
    assert(r@ =~= seq!['.']);
    r
}

/// Signs `claims` with `secret` into a three-part token (header, payload, signature).
pub fn encode(claims: &Claims, secret: &str) -> (r: Result<String, EncodeError>)
    ensures
        r is Ok <==> encodable(claims@),
        r is Err ==> r == Err::<String, EncodeError>(EncodeError::Unencodable),
        r is Ok ==> issued_token(r->Ok_0@, secret.spec_bytes(), claims@),
{
    if !is_encodable(claims) {
        return Err(EncodeError::Unencodable);
    }
    let payload = write_payload(claims);
    let body = b64url_encode(payload.as_slice());
    let mut msg = String::from_str(header());
    msg.append(dot());
    msg.append(body.as_str());
    assert(msg@ =~= message_of(claims@));
    let sig = match sign_hs256(msg.as_str().as_bytes(), secret.as_bytes()) {
        Some(s) => s,
        None => {
            return Err(EncodeError::Unencodable);
        },
    };
    let mut token = msg;
    token.append(dot());
    token.append(sig.as_str());
    assert(token@ =~= token_text(claims@, secret.spec_bytes()));
    proof {
        assert forall|now: u64| #[trigger] decode_result(token@, secret.spec_bytes(), now)
            == expected_decode(claims@, now) by {
            lemma_token_round_trip(claims@, secret.spec_bytes(), now);
        }
    }
    Ok(token)
}

/// Checks the token's shape, header and signature under `secret`, reads its
/// claims and rejects it at and after its expiry instant.
pub fn decode(token: &str, secret: &str, now: u64) -> (r: Result<Claims, DecodeError>)
    ensures
        match r {
            Ok(c) => decode_result(token@, secret.spec_bytes(), now) == Ok::<ClaimsView, DecodeError>(c@),
            Err(e) => decode_result(token@, secret.spec_bytes(), now) == Err::<ClaimsView, DecodeError>(e),
        },
{
    let ghost t = token@;
    let n = token.unicode_len();
    let d1 = find_char(token, 0, '.');
    if d1 >= n {
        return Err(DecodeError::Malformed);
    }
    let d2 = find_char(token, d1 + 1, '.');
    if d2 >= n {
        return Err(DecodeError::Malformed);
    }
    let d3 = find_char(token, d2 + 1, '.');
    if d3 != n {
        return Err(DecodeError::Malformed);
    }
    proof {
        lemma_first_from_bounds(t, 0, '.');
        lemma_first_from_bounds(t, d1 + 1, '.');
    }
    if !same_text(token.substring_char(0, d1), header()) {
        return Err(DecodeError::Malformed);
    }
    let msg = token.substring_char(0, d2);
    let sig = token.substring_char(d2 + 1, n);
    if !verify_hs256(sig, msg.as_bytes(), secret.as_bytes()) {
        return Err(DecodeError::BadSignature);
    }
    let body = token.substring_char(d1 + 1, d2);
    let payload = match b64url_decode(body) {
        Some(p) => p,
        None => {
            return Err(DecodeError::Malformed);
        },
    };
    assert(b64_bytes(body@) == Some(payload@));
    let claims = match read_payload(payload.as_slice()) {
        Some(c) => c,
        None => {
            return Err(DecodeError::Malformed);
        },
    };
    if claims.exp <= now {
        return Err(DecodeError::Expired);
    }
    Ok(claims)
}

} // verus!

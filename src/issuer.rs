use vstd::prelude::*;
use vstd::string::StringSliceAdditionalSpecFns;
use crate::claims::{Claims, ClaimsView, JwtTokenPair, TokenType};
use crate::codec::{encode, issued_token, EncodeError};
use crate::outside::{fresh_token_id, id_char, now_seconds};
use crate::payload::{encodable, plain_byte, plain_field};
use vstd::utf8::{encode_utf8, is_ascii_chars, is_ascii_chars_encode_utf8};

verus! {

/// Lifetime of an access token, in seconds.
pub const ACCESS_TTL: u64 = 600;

/// Lifetime of a refresh token, in seconds.
pub const REFRESH_TTL: u64 = 1800;

pub open spec fn claims_of(sub: Seq<char>, exp: u64, t: TokenType, jti: Seq<char>) -> ClaimsView {
    ClaimsView { sub, exp, token_type: t, jti }
}

/// `p` holds an access token of `a` and a refresh token of `b`, both signed with `key`.
pub open spec fn pair_of(p: JwtTokenPair, key: Seq<u8>, a: ClaimsView, b: ClaimsView) -> bool {
    &&& issued_token(p.access_token@, key, a)
    &&& issued_token(p.refresh_token@, key, b)
}

/// The claims an issued pair carries for `sub` at `now`.
pub open spec fn pair_claims(
    sub: Seq<char>,
    now: u64,
    access_ttl: u64,
    refresh_ttl: u64,
    a: ClaimsView,
    b: ClaimsView,
) -> bool {
    &&& a.sub == sub && b.sub == sub
    &&& a.exp == now + access_ttl && b.exp == now + refresh_ttl
    &&& a.token_type == TokenType::Access && b.token_type == TokenType::Refresh
    &&& a.jti != b.jti
}

/// Issues a pair for `subject` with the given token identifiers.
pub fn issue_pair_with_ids(
    subject: &str,
    secret: &str,
    access_ttl: u64,
    refresh_ttl: u64,
    now: u64,
    access_id: String,
    refresh_id: String,
) -> (r: Result<JwtTokenPair, EncodeError>)
    requires
        now + access_ttl <= u64::MAX,
        now + refresh_ttl <= u64::MAX,
    ensures
        ({
            let a = claims_of(subject@, (now + access_ttl) as u64, TokenType::Access, access_id@);
            let b = claims_of(subject@, (now + refresh_ttl) as u64, TokenType::Refresh, refresh_id@);
            &&& access_id@ == refresh_id@ ==> r == Err::<JwtTokenPair, EncodeError>(
                EncodeError::DuplicateId,
            )
            &&& access_id@ != refresh_id@ ==> (r is Ok <==> encodable(a) && encodable(b))
            &&& access_id@ != refresh_id@ && r is Err ==> r == Err::<JwtTokenPair, EncodeError>(
                EncodeError::Unencodable,
            )
            &&& r is Ok ==> pair_of(r->Ok_0, secret.spec_bytes(), a, b)
        }),
{
    if access_id == refresh_id {
        return Err(EncodeError::DuplicateId);
    }
    let access = Claims {
        sub: subject.to_owned(),
        exp: now + access_ttl,
        token_type: TokenType::Access,
        jti: access_id,
    };
    let refresh = Claims {
        sub: subject.to_owned(),
        exp: now + refresh_ttl,
        token_type: TokenType::Refresh,
        jti: refresh_id,
    };
    let access_token = match encode(&access, secret) {
        Ok(t) => t,
        Err(e) => {
            return Err(e);
        },
    };
    let refresh_token = match encode(&refresh, secret) {
        Ok(t) => t,
        Err(e) => {
            return Err(e);
        },
    };
    Ok(JwtTokenPair { access_token, refresh_token })
}

/// Identifiers of the UUID text form hold no control character.
proof fn lemma_id_plain(s: Seq<char>)
    requires
        forall|k: int| 0 <= k < s.len() ==> id_char(#[trigger] s[k]),
    ensures
        plain_field(encode_utf8(s)),
{
    assert(is_ascii_chars(s));
    is_ascii_chars_encode_utf8(s);
    let e = encode_utf8(s);
    assert forall|k: int| 0 <= k < e.len() implies plain_byte(#[trigger] e[k]) by {
        assert(id_char(s[k]));
        assert(s[k] as u8 == e[k]);
    }
}

/// Issues a pair for `subject` with fresh random token identifiers, drawing the
/// refresh identifier once more if it equals the access identifier.
pub fn issue_pair(subject: &str, secret: &str, access_ttl: u64, refresh_ttl: u64, now: u64) -> (r:
    Result<JwtTokenPair, EncodeError>)
    requires
        now + access_ttl <= u64::MAX,
        now + refresh_ttl <= u64::MAX,
    ensures
        !plain_field(encode_utf8(subject@)) ==> r is Err,
        plain_field(encode_utf8(subject@)) ==> r is Ok || r == Err::<JwtTokenPair, EncodeError>(
            EncodeError::DuplicateId,
        ),
        r is Err ==> r == Err::<JwtTokenPair, EncodeError>(EncodeError::Unencodable) || r == Err::<
            JwtTokenPair,
            EncodeError,
        >(EncodeError::DuplicateId),
        r is Ok ==> exists|a: ClaimsView, b: ClaimsView|
            #[trigger] pair_claims(subject@, now, access_ttl, refresh_ttl, a, b) && #[trigger] pair_of(
                r->Ok_0,
                secret.spec_bytes(),
                a,
                b,
            ),
{
    let access_id = fresh_token_id();
    let mut refresh_id = fresh_token_id();
    if refresh_id == access_id {
        refresh_id = fresh_token_id();
    }
    proof {
        lemma_id_plain(access_id@);
        lemma_id_plain(refresh_id@);
    }
    let ghost a = claims_of(subject@, (now + access_ttl) as u64, TokenType::Access, access_id@);
    let ghost b = claims_of(subject@, (now + refresh_ttl) as u64, TokenType::Refresh, refresh_id@);
    let r = issue_pair_with_ids(subject, secret, access_ttl, refresh_ttl, now, access_id, refresh_id);
    assert(r is Ok ==> pair_claims(subject@, now, access_ttl, refresh_ttl, a, b) && pair_of(
        r->Ok_0,
        secret.spec_bytes(),
        a,
        b,
    ));
    r
}

/// The current time as seconds since the epoch.
pub fn current_time() -> (r: u64)
    ensures
        r <= i64::MAX,
{
    let t = now_seconds();
    if t < 0 {
        0
    } else {
        t as u64
    }
}

impl JwtTokenPair {
    /// A fresh pair for `user_email`: access for ten minutes, refresh for thirty.
    pub fn generate_for(user_email: String, secret: String) -> (r: Result<JwtTokenPair, EncodeError>)
        ensures
            !plain_field(encode_utf8(user_email@)) ==> r is Err,
            plain_field(encode_utf8(user_email@)) ==> r is Ok || r == Err::<JwtTokenPair, EncodeError>(
                EncodeError::DuplicateId,
            ),
            r is Err ==> r == Err::<JwtTokenPair, EncodeError>(EncodeError::Unencodable) || r
                == Err::<JwtTokenPair, EncodeError>(EncodeError::DuplicateId),
            r is Ok ==> exists|now: u64, a: ClaimsView, b: ClaimsView|
                #[trigger] pair_claims(user_email@, now, ACCESS_TTL, REFRESH_TTL, a, b) && #[trigger] pair_of(
                    r->Ok_0,
                    encode_utf8(secret@),
                    a,
                    b,
                ),
    {
        let now = current_time();
        issue_pair(user_email.as_str(), secret.as_str(), ACCESS_TTL, REFRESH_TTL, now)
    }
}

} // verus!

use vstd::prelude::*;
use vstd::string::StringSliceAdditionalSpecFns;
use crate::claims::{Claims, ClaimsView, JwtTokenPair, TokenType};
use crate::codec::{decode_result, DecodeError, EncodeError};
use crate::payload::plain_field;
use vstd::utf8::encode_utf8;
use crate::issuer::{issue_pair, pair_claims, pair_of, ACCESS_TTL, REFRESH_TTL};
use crate::validator::{validate, validate_result, ValidationError};

verus! {

/// The only errors that leave the token lifecycle.
#[derive(Clone, Copy, Debug, PartialEq, Eq, Structural)]
pub enum AuthError {
    NotFound,
    WrongPassword,
    Unauthorized,
    TokenReplayed,
    /// The account store or the replay ledger could not be reached.
    Transient,
    /// A token could not be written for the subject.
    Encoding,
    /// The random identifiers drawn for a new pair kept coinciding.
    IdCollision,
}

/// A failure reported by the account store or the replay ledger.
#[derive(Clone, Copy, Debug, PartialEq, Eq, Structural)]
pub struct StoreFailure;

/// `r` is a fresh pair for `sub` issued at `now` and signed with `key`; it fails
/// only on a repeated identifier clash, or with `Encoding` for a subject that
/// holds a control character.
pub open spec fn issued_for(r: Result<JwtTokenPair, AuthError>, sub: Seq<char>, key: Seq<u8>, now: u64) -> bool {
    match r {
        Ok(p) => fresh_pair(p, sub, key, now),
        Err(e) => e == AuthError::IdCollision || (e == AuthError::Encoding && !plain_field(
            encode_utf8(sub),
        )),
    }
}

/// `p` holds an access and a refresh token for `sub` issued at `now`, signed with `key`.
pub open spec fn fresh_pair(p: JwtTokenPair, sub: Seq<char>, key: Seq<u8>, now: u64) -> bool {
    exists|a: ClaimsView, b: ClaimsView|
        #[trigger] pair_claims(sub, now, ACCESS_TTL, REFRESH_TTL, a, b) && #[trigger] pair_of(
            p,
            key,
            a,
            b,
        )
}

fn issue_for(subject: &str, secret: &str, now: u64) -> (r: Result<JwtTokenPair, AuthError>)
    requires
        now + REFRESH_TTL <= u64::MAX,
    ensures
        issued_for(r, subject@, secret.spec_bytes(), now),
{
    match issue_pair(subject, secret, ACCESS_TTL, REFRESH_TTL, now) {
        Ok(p) => {
            proof {
                let (a, b) = choose|a: ClaimsView, b: ClaimsView|
                    #[trigger] pair_claims(subject@, now, ACCESS_TTL, REFRESH_TTL, a, b)
                        && #[trigger] pair_of(p, secret.spec_bytes(), a, b);
                assert(pair_claims(subject@, now, ACCESS_TTL, REFRESH_TTL, a, b));
                assert(pair_of(p, secret.spec_bytes(), a, b));
                assert(fresh_pair(p, subject@, secret.spec_bytes(), now));
            }
            Ok(p)
        },
        Err(EncodeError::DuplicateId) => Err(AuthError::IdCollision),
        Err(EncodeError::Unencodable) => Err(AuthError::Encoding),
    }
}

/// Login. `verified` is what the account store and the password verifier
/// reported for the presented email: no account, or whether the password matched.
pub fn login(
    email: &str,
    verified: Result<Option<bool>, StoreFailure>,
    secret: &str,
    now: u64,
) -> (r: Result<JwtTokenPair, AuthError>)
    requires
        now + REFRESH_TTL <= u64::MAX,
    ensures
        match verified {
            Err(_) => r == Err::<JwtTokenPair, AuthError>(AuthError::Transient),
            Ok(None) => r == Err::<JwtTokenPair, AuthError>(AuthError::NotFound),
            Ok(Some(false)) => r == Err::<JwtTokenPair, AuthError>(AuthError::WrongPassword),
            Ok(Some(true)) => issued_for(r, email@, secret.spec_bytes(), now),
        },
{
    match verified {
        Err(_) => Err(AuthError::Transient),
        Ok(None) => Err(AuthError::NotFound),
        Ok(Some(false)) => Err(AuthError::WrongPassword),
        Ok(Some(true)) => issue_for(email, secret, now),
    }
}

/// First step of a refresh: the presented token must be a valid refresh token.
pub fn refresh_start(token: &str, secret: &str, now: u64) -> (r: Result<Claims, AuthError>)
    ensures
        match validate_result(token@, secret.spec_bytes(), TokenType::Refresh, now) {
            Ok(c) => r matches Ok(d) && d@ == c,
            Err(_) => r == Err::<Claims, AuthError>(AuthError::Unauthorized),
        },
{
    match validate(token, secret, TokenType::Refresh, now) {
        Ok(c) => Ok(c),
        Err(_) => Err(AuthError::Unauthorized),
    }
}

/// Second step: given whether the ledger holds the token's id, the time the
/// ledger entry must live (the token's remaining lifetime).
pub fn refresh_ttl(claims: &Claims, spent: Result<bool, StoreFailure>, now: u64) -> (r: Result<u64, AuthError>)
    ensures
        match spent {
            Err(_) => r == Err::<u64, AuthError>(AuthError::Transient),
            Ok(true) => r == Err::<u64, AuthError>(AuthError::Unauthorized),
            Ok(false) => if claims.exp <= now {
                r == Err::<u64, AuthError>(AuthError::Unauthorized)
            } else {
                r == Ok::<u64, AuthError>((claims.exp - now) as u64)
            },
        },
{
    match spent {
        Err(_) => Err(AuthError::Transient),
        Ok(true) => Err(AuthError::Unauthorized),
        Ok(false) => {
            if claims.exp <= now {
                Err(AuthError::Unauthorized)
            } else {
                Ok(claims.exp - now)
            }
        },
    }
}

/// Last step: given whether this call was the first to write the ledger entry,
/// a new pair for the token's subject.
pub fn refresh_finish(
    claims: &Claims,
    first_writer: Result<bool, StoreFailure>,
    secret: &str,
    now: u64,
) -> (r: Result<JwtTokenPair, AuthError>)
    requires
        now + REFRESH_TTL <= u64::MAX,
    ensures
        match first_writer {
            Err(_) => r == Err::<JwtTokenPair, AuthError>(AuthError::Transient),
            Ok(false) => r == Err::<JwtTokenPair, AuthError>(AuthError::Unauthorized),
            Ok(true) => issued_for(r, claims.sub@, secret.spec_bytes(), now),
        },
{
    match first_writer {
        Err(_) => Err(AuthError::Transient),
        Ok(false) => Err(AuthError::Unauthorized),
        Ok(true) => issue_for(claims.sub.as_str(), secret, now),
    }
}

/// First step of an identity lookup: the subject of a valid access token.
pub fn identity_subject(token: &str, secret: &str, now: u64) -> (r: Result<String, AuthError>)
    ensures
        match validate_result(token@, secret.spec_bytes(), TokenType::Access, now) {
            Ok(c) => r matches Ok(s) && s@ == c.sub,
            Err(_) => r == Err::<String, AuthError>(AuthError::Unauthorized),
        },
{
    match validate(token, secret, TokenType::Access, now) {
        Ok(c) => Ok(c.sub),
        Err(_) => Err(AuthError::Unauthorized),
    }
}

/// Last step of an identity lookup: what the account store returned for the subject.
pub fn identity_result(found: Result<Option<String>, StoreFailure>) -> (r: Result<String, AuthError>)
    ensures
        match found {
            Err(_) => r == Err::<String, AuthError>(AuthError::Transient),
            Ok(None) => r == Err::<String, AuthError>(AuthError::NotFound),
            Ok(Some(n)) => r matches Ok(s) && s@ == n@,
        },
{
    match found {
        Err(_) => Err(AuthError::Transient),
        Ok(None) => Err(AuthError::NotFound),
        Ok(Some(n)) => Ok(n),
    }
}

} // verus!

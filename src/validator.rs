use vstd::prelude::*;
use vstd::string::StringSliceAdditionalSpecFns;
use crate::claims::{Claims, ClaimsView, TokenType};
use crate::codec::{decode, decode_result, expected_decode, issued_token, DecodeError};

verus! {

/// Why a presented token was refused; decode failures are not told apart.
#[derive(Clone, Copy, Debug, PartialEq, Eq, Structural)]
pub enum ValidationError {
    Invalid,
    WrongType,
}

/// What validating token text `t` as `expected` gives.
pub open spec fn validate_result(t: Seq<char>, key: Seq<u8>, expected: TokenType, now: u64) -> Result<
    ClaimsView,
    ValidationError,
> {
    match decode_result(t, key, now) {
        Err(_) => Err(ValidationError::Invalid),
        Ok(c) => if c.token_type != expected {
            Err(ValidationError::WrongType)
        } else {
            Ok(c)
        },
    }
}

pub open spec fn other_type(t: TokenType) -> TokenType {
    match t {
        TokenType::Access => TokenType::Refresh,
        TokenType::Refresh => TokenType::Access,
    }
}

/// Decodes `token` and checks that it was issued as `expected`.
pub fn validate(token: &str, secret: &str, expected: TokenType, now: u64) -> (r: Result<
    Claims,
    ValidationError,
>)
    ensures
        match r {
            Ok(c) => validate_result(token@, secret.spec_bytes(), expected, now) == Ok::<
                ClaimsView,
                ValidationError,
            >(c@),
            Err(e) => validate_result(token@, secret.spec_bytes(), expected, now) == Err::<
                ClaimsView,
                ValidationError,
            >(e),
        },
{
    match decode(token, secret, now) {
        Err(_) => Err(ValidationError::Invalid),
        Ok(c) => {
            if c.token_type != expected {
                Err(ValidationError::WrongType)
            } else {
                Ok(c)
            }
        },
    }
}

/// An issued token validates as its own type exactly while it is unexpired,
/// and never validates as the other type.
pub proof fn lemma_type_separation(t: Seq<char>, key: Seq<u8>, c: ClaimsView, now: u64)
    requires
        issued_token(t, key, c),
    ensures
        validate_result(t, key, c.token_type, now) is Ok <==> now < c.exp,
        validate_result(t, key, other_type(c.token_type), now) is Err,
{
    assert(decode_result(t, key, now) == expected_decode(c, now));
}

/// An issued token is refused at its expiry instant and later, and accepted one
/// second before it.
pub proof fn lemma_expiry_boundary(t: Seq<char>, key: Seq<u8>, c: ClaimsView, now: u64)
    requires
        issued_token(t, key, c),
    ensures
        now >= c.exp ==> decode_result(t, key, now) == Err::<ClaimsView, DecodeError>(
            DecodeError::Expired,
        ),
        now + 1 == c.exp ==> decode_result(t, key, now) == Ok::<ClaimsView, DecodeError>(c),
{
    assert(decode_result(t, key, now) == expected_decode(c, now));
}

/// Decoding a token made by `encode` gives back exactly its claims while it is unexpired.
pub proof fn lemma_round_trip(t: Seq<char>, key: Seq<u8>, c: ClaimsView, now: u64)
    requires
        issued_token(t, key, c),
        now < c.exp,
    ensures
        decode_result(t, key, now) == Ok::<ClaimsView, DecodeError>(c),
{
    assert(decode_result(t, key, now) == expected_decode(c, now));
}

} // verus!

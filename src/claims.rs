use vstd::prelude::*;

verus! {

/// The two kinds of token; one is never accepted where the other is expected.
#[derive(Clone, Copy, Debug, PartialEq, Eq, Structural)]
pub enum TokenType {
    Access,
    Refresh,
}

/// The signed payload of a token.
#[derive(Clone, Debug)]
pub struct Claims {
    /// The principal the token speaks for (an account email).
    pub sub: String,
    /// Seconds since the epoch; the token is invalid at and after this instant.
    pub exp: u64,
    pub token_type: TokenType,
    /// A unique identifier of this token.
    pub jti: String,
}

/// Mathematical value of a `Claims`.
pub struct ClaimsView {
    pub sub: Seq<char>,
    pub exp: u64,
    pub token_type: TokenType,
    pub jti: Seq<char>,
}

impl View for Claims {
    type V = ClaimsView;

    open spec fn view(&self) -> ClaimsView {
        ClaimsView { sub: self.sub@, exp: self.exp, token_type: self.token_type, jti: self.jti@ }
    }
}

/// An access token and a refresh token issued together for one subject.
#[derive(Clone, Debug)]
pub struct JwtTokenPair {
    pub access_token: String,
    pub refresh_token: String,
}

/// A user record as the account store holds it.
#[derive(Clone, Debug)]
pub struct User {
    pub email: String,
    pub username: String,
    pub password: String,
}

/// Credentials presented at login.
#[derive(Clone, Debug)]
pub struct UserLoginCredentials {
    pub email: String,
    pub password: String,
}

impl UserLoginCredentials {
    /// Checks the presented password against a stored one-way (bcrypt) verifier.
    pub fn verify_password(&self, verifier: &str) -> (r: bool)
        ensures
            r == crate::outside::bcrypt_matches(self.password@, verifier@),
    {
        crate::outside::bcrypt_verify(self.password.as_str(), verifier)
    }
}

} // verus!

//! The authentication data the login flow computes: token claims issued at
//! login, the login request's validation rule, and the typed outcomes a
//! failed authentication maps to. Token signing and cookie handling stay
//! with the surrounding application.

use vstd::prelude::*;
use vstd::string::{StrSliceExecFns, StringExecFns};

verus! {

/// Where the token signing keys are read from.
#[derive(Debug)]
pub struct AuthKeysConfig {
    pub encoding: String,
    pub decoding: String,
}

/// The name of the cookie the signed token travels in.
pub const JWT_TOKEN_COOKIE: &'static str = "jwt_token";

/// Token claims; holding them means the client is authenticated. The user
/// identifier is the 128-bit value of the issuer's identifier, zero for
/// the nil identifier.
pub struct Claims {
    pub exp: u64,
    pub nbf: u64,
    pub iat: u64,
    pub user_id: u128,
    pub username: String,
}

impl Claims {
    /// The claims issued at login time `now`: valid from now, for one day,
    /// for the nil user identifier.
    pub fn for_login(now: u64, username: String) -> (r: Self)
        requires
            now + 86400 <= u64::MAX,
        ensures
            r.exp == now + 86400,
            r.nbf == now,
            r.iat == now,
            r.user_id == 0,
            r.username == username,
    {
        Claims { exp: now + 60 * 60 * 24, nbf: now, iat: now, user_id: 0, username }
    }
}

/// A failed authentication, as mapped to a response outcome.
#[derive(Debug, PartialEq, Eq)]
pub enum AuthError {
    TokenCreation,
    InvalidToken,
    InvalidCredentials,
}

impl AuthError {
    /// The status code and message this failure maps to.
    pub fn status_and_message(&self) -> (r: (u16, String))
        ensures
            match self {
                AuthError::TokenCreation => r.0 == 500u16 && r.1@ == "Token creation error"@,
                AuthError::InvalidToken => r.0 == 400u16 && r.1@ == "Invalid token"@,
                AuthError::InvalidCredentials => r.0 == 400u16 && r.1@
                    == "Invalid credentials"@,
            },
    {
        match self {
            AuthError::TokenCreation => (500, String::from_str("Token creation error")),
            AuthError::InvalidToken => (400, String::from_str("Invalid token")),
            AuthError::InvalidCredentials => (400, String::from_str("Invalid credentials")),
        }
    }
}

/// A login request's credentials.
pub struct AuthorizeRequest {
    pub username: String,
    pub password: String,
}

impl AuthorizeRequest {
    /// The request is accepted: both fields between 1 and 63 characters.
    pub fn validate(&self) -> (r: bool)
        ensures
            r == (1 <= self.username@.len() <= 63 && 1 <= self.password@.len() <= 63),
    {
        let u = self.username.as_str().unicode_len();
        let p = self.password.as_str().unicode_len();
        1 <= u && u <= 63 && 1 <= p && p <= 63
    }
}

/// A successful login's response body.
pub struct AuthorizeResponse {
    pub token: String,
}

impl AuthorizeResponse {
    pub fn new(token: String) -> (r: Self)
        ensures
            r.token == token,
    {
        Self { token }
    }
}

} // verus!

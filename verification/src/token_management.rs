//! Bearer-token claims: the claim payload for a user session with a
//! one-hour validity. Signing and verifying the encoded token is the
//! surrounding program's business.

use vstd::prelude::*;

verus! {

/// The claim payload of a token: subject and expiry.
pub struct Claims {
    pub sub: String,
    pub exp: u64,
}

/// How long an issued token stays valid, in seconds.
pub const TOKEN_TERM_SECS: u64 = 3600;

/// Issues and inspects token claims under a shared secret.
pub struct TokenManager {
    pub secret: String,
}

impl TokenManager {
    /// A manager holding the signing secret.
    pub fn new(secret: String) -> (r: TokenManager)
        ensures
            r.secret@ == secret@,
    {
        TokenManager { secret }
    }

    /// The claims for a user at issue time: valid for the token term
    /// from now.
    pub fn claims_for(&self, user_id: &str, now: u64) -> (r: Claims)
        ensures
            r.sub@ == user_id@,
            r.exp == if now <= u64::MAX - TOKEN_TERM_SECS {
                (now + TOKEN_TERM_SECS) as u64
            } else {
                u64::MAX
            },
    {
        let exp = if now <= u64::MAX - TOKEN_TERM_SECS {
            now + TOKEN_TERM_SECS
        } else {
            u64::MAX
        };
        Claims { sub: user_id.to_owned(), exp }
    }

    /// Whether claims are still valid at the given time.
    pub fn claims_valid_at(&self, claims: &Claims, now: u64) -> (r: bool)
        ensures
            r <==> claims.exp > now,
    {
        claims.exp > now
    }
}

} // verus!

//! What a token says about its bearer, and until when it says so.

use chrono::{Duration, Utc};
use vstd::prelude::*;

verus! {

/// `chrono::TimeDelta`, a span of time. Opaque to the verifier.
#[verifier::external_type_specification]
#[verifier::external_body]
pub struct ExTimeDelta(chrono::TimeDelta);

/// `Utc::now` and `DateTime::timestamp`: the time of the call, in seconds
/// since the Unix epoch. Nothing is claimed of it.
#[verifier::external_body]
fn unix_now() -> i64 {
    Utc::now().timestamp()
}

/// `Utc::now`, `DateTime::checked_add_signed` and `DateTime::timestamp`: the
/// time that lies `span` after the call, in seconds since the Unix epoch;
/// `None` where that time is beyond what a `DateTime` holds. Nothing is
/// claimed of it.
#[verifier::external_body]
fn unix_after(span: Duration) -> Option<i64> {
    Utc::now().checked_add_signed(span).map(|t| t.timestamp())
}

/// The claims of a token.
#[derive(Clone, Debug, Hash, PartialEq, Eq)]
pub struct JwtData {
    pub username: String,
    pub permissions: Vec<String>,
    /// The time from which the token is expired, in seconds since the Unix
    /// epoch.
    pub exp: i64,
}

impl JwtData {
    /// The claims of a token that expires at `exp`.
    pub fn expiring_at(username: String, permissions: Vec<String>, exp: i64) -> (data: Self)
        ensures
            data.username == username,
            data.permissions == permissions,
            data.exp == exp,
    {
        Self { username, permissions, exp }
    }

    /// The claims of a token that expires `token_duration` from now; `None`
    /// where that time is beyond what the clock's type holds.
    pub fn new(username: String, permissions: Vec<String>, token_duration: Duration) -> (r:
        Option<Self>)
        ensures
            r matches Some(data) ==> data.username == username && data.permissions == permissions,
    {
        Self::expiring(username, permissions, unix_after(token_duration))
    }

    /// Whether the token is expired at the time `now`: it is from its expiry
    /// time on.
    pub open spec fn expired_at(&self, now: i64) -> bool {
        self.exp <= now
    }

    /// Whether the token is expired at the time `now`.
    pub fn is_expired_at(&self, now: i64) -> (r: bool)
        ensures
            r == self.expired_at(now),
    {
        self.exp <= now
    }

    /// Whether the token is expired now: the answer of `is_expired_at` for
    /// the time that the clock shows.
    pub fn is_expired(&self) -> (r: bool)
        ensures
            exists|now: i64| r == #[trigger] self.expired_at(now),
    {
        let now = unix_now();
        let r = self.is_expired_at(now);
        assert(r == self.expired_at(now));
        r
    }

    /// The claims of a token for the expiry time that the clock gave: the
    /// claims that expire at that time, and none where the clock gave none.
    pub fn expiring(username: String, permissions: Vec<String>, expiry: Option<i64>) -> (r:
        Option<Self>)
        ensures
            match expiry {
                Some(exp) => r matches Some(data) && data.username == username
                    && data.permissions == permissions && data.exp == exp,
                None => r is None,
            },
    {
        match expiry {
            Some(exp) => Some(Self::expiring_at(username, permissions, exp)),
            None => None,
        }
    }
}

} // verus!

use vstd::prelude::*;
use crate::error::AuthError;

verus! {

/// Seconds in one day.
pub const SECONDS_PER_DAY: u64 = 86400;

/// Process-wide settings of the token issuer and the request gate, built once
/// at start-up and then only read.
pub struct AuthConfig {
    secret: Vec<u8>,
    lifetime_secs: u64,
}

impl AuthConfig {
    /// A usable configuration has a non-empty secret and a positive lifetime.
    pub open spec fn wf(&self) -> bool {
        self.secret_spec().len() > 0 && self.lifetime_spec() > 0
    }

    pub closed spec fn secret_spec(&self) -> Seq<u8> {
        self.secret@
    }

    pub closed spec fn lifetime_spec(&self) -> u64 {
        self.lifetime_secs
    }

    /// Builds the configuration from the signing secret and the token lifetime
    /// in days. An empty secret, a zero lifetime or one whose length in seconds
    /// does not fit in `u64` is a configuration error.
    pub fn new(secret: Vec<u8>, lifetime_days: u64) -> (r: Result<AuthConfig, AuthError>)
        ensures
            match r {
                Ok(c) => {
                    &&& c.wf()
                    &&& c.secret_spec() == secret@
                    &&& c.lifetime_spec() == lifetime_days * SECONDS_PER_DAY
                },
                Err(e) => {
                    &&& e == AuthError::Configuration
                    &&& (secret@.len() == 0 || lifetime_days == 0
                        || lifetime_days * SECONDS_PER_DAY > u64::MAX)
                },
            },
    {
        if secret.len() == 0 || lifetime_days == 0 {
            return Err(AuthError::Configuration);
        }
        match lifetime_days.checked_mul(SECONDS_PER_DAY) {
            Some(secs) => Ok(AuthConfig { secret, lifetime_secs: secs }),
            None => Err(AuthError::Configuration),
        }
    }

    /// The signing secret.
    pub fn secret(&self) -> (r: &[u8])
        ensures
            r@ == self.secret_spec(),
    {
        self.secret.as_slice()
    }

    /// The token lifetime in seconds.
    pub fn lifetime_secs(&self) -> (r: u64)
        ensures
            r == self.lifetime_spec(),
    {
        self.lifetime_secs
    }
}

} // verus!

use vstd::prelude::*;
use crate::config::AuthConfig;
use crate::error::AuthError;
use crate::models::Claims;
use crate::payload::claims_json;
use crate::token::{accepts, validate_token};

verus! {

/// The request gate of the protected routes. `credentials` is the bearer
/// token that the HTTP layer took from the `Authorization` header, if there
/// was one. The request proceeds with the claims of an accepted token; a
/// missing, malformed, forged or expired token gives one and the same
/// authentication error.
pub fn validator(config: &AuthConfig, credentials: Option<&str>, now: u64) -> (r: Result<
    Claims,
    AuthError,
>)
    requires
        config.wf(),
    ensures
        credentials is None ==> r == Err::<Claims, AuthError>(AuthError::Authentication),
        r matches Ok(c) ==> credentials matches Some(t) && accepts(
            t@,
            config.secret_spec(),
            now,
            c.id,
            c.username@,
            c.exp,
        ),
        forall|id: i32, username: Seq<char>, exp: u64|
            #![trigger claims_json(id, username, exp)]
            credentials is Some && accepts(
                credentials->Some_0@,
                config.secret_spec(),
                now,
                id,
                username,
                exp,
            ) ==> (r matches Ok(c) && c.id == id && c.username@ == username && c.exp == exp),
        r matches Err(e) ==> e == AuthError::Authentication,
{
    match credentials {
        Some(token) => validate_token(config, token, now),
        None => Err(AuthError::Authentication),
    }
}

} // verus!

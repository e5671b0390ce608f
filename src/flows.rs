use vstd::prelude::*;
use vstd::utf8::encode_utf8;
use crate::config::AuthConfig;
use crate::error::AuthError;
use crate::hasher::{
    argon2_phc, hash_password, is_fresh_salt, is_hash_of, verify_outcome, verify_password_hash,
};
use crate::models::{AccountRecord, CredentialsSignIn, CredentialsSignUp};
use crate::token::{accepts, can_issue, carries, generate_token};

verus! {

/// The account that sign-up asks the store to create: the plaintext password
/// is already replaced by its hash.
pub struct NewAccount {
    pub username: String,
    pub email: String,
    pub password_hash: String,
}

/// The first half of sign-up, before the store is asked to create the
/// account: hashes the password.
pub fn sign_up_account(credentials: CredentialsSignUp) -> (r: Result<NewAccount, AuthError>)
    ensures
        credentials.password@.len() == 0 ==> r is Err,
        credentials.password@.len() > 0 && encode_utf8(credentials.password@).len() <= u32::MAX
            ==> r is Ok,
        r matches Ok(a) ==> a.username@ == credentials.username@ && a.email@
            == credentials.email@ && is_hash_of(
            encode_utf8(credentials.password@),
            a.password_hash@,
        ) && exists|salt: Seq<char>|
            is_fresh_salt(salt) && a.password_hash@ == #[trigger] argon2_phc(
                encode_utf8(credentials.password@),
                salt,
            ),
        r matches Err(e) ==> e == AuthError::Validation,
{
    let CredentialsSignUp { username, password, email } = credentials;
    match hash_password(password) {
        Ok(password_hash) => Ok(NewAccount { username, email, password_hash }),
        Err(e) => Err(e),
    }
}

/// The second half of sign-up: the store's answer to the creation, the new
/// account's identifier and username or nothing, becomes a token or a generic
/// store error.
pub fn sign_up_token(config: &AuthConfig, created: Option<(i32, String)>, now: u64) -> (r: Result<
    String,
    AuthError,
>)
    requires
        config.wf(),
    ensures
        created is None ==> r == Err::<String, AuthError>(AuthError::Store),
        created matches Some((id, username)) ==> {
            &&& r is Ok <==> can_issue(config, id, username@, now)
            &&& r matches Ok(t) ==> carries(
                t@,
                config.secret_spec(),
                id,
                username@,
                (now + config.lifetime_spec()) as u64,
            )
            &&& r matches Err(e) ==> e == AuthError::Configuration
        },
{
    match created {
        Some((id, username)) => generate_token(config, id, username, now),
        None => Err(AuthError::Store),
    }
}

/// What the account store answered when asked for a username.
pub enum AccountLookup {
    Found(AccountRecord),
    NotFound,
    Failed,
}

/// Sign-in: `account` is what the store answered for the requested username.
/// A failed lookup is a store error.
/// An unknown username and a wrong password give the same authentication
/// error; a corrupt stored hash gives an integrity error; otherwise a token
/// is issued for the account.
pub fn sign_in(
    config: &AuthConfig,
    credentials: &CredentialsSignIn,
    account: AccountLookup,
    now: u64,
) -> (r: Result<String, AuthError>)
    requires
        config.wf(),
    ensures
        account is NotFound ==> r == Err::<String, AuthError>(AuthError::Authentication),
        account is Failed ==> r == Err::<String, AuthError>(AuthError::Store),
        account matches AccountLookup::Found(a) ==> ({
            let outcome = verify_outcome(encode_utf8(credentials.password@), a.password_hash@);
            &&& outcome == Ok::<bool, AuthError>(false) ==> r == Err::<String, AuthError>(
                AuthError::Authentication,
            )
            &&& outcome == Err::<bool, AuthError>(AuthError::Integrity) ==> r == Err::<
                String,
                AuthError,
            >(AuthError::Integrity)
            &&& outcome == Ok::<bool, AuthError>(true) ==> {
                &&& r is Ok <==> can_issue(config, a.id, a.username@, now)
                &&& r matches Ok(t) ==> carries(
                    t@,
                    config.secret_spec(),
                    a.id,
                    a.username@,
                    (now + config.lifetime_spec()) as u64,
                )
                &&& r matches Err(e) ==> e == AuthError::Configuration
            }
        }),
{
    match account {
        AccountLookup::NotFound => Err(AuthError::Authentication),
        AccountLookup::Failed => Err(AuthError::Store),
        AccountLookup::Found(a) => match verify_password_hash(credentials.password.as_str().as_bytes(), &a.password_hash) {
            Ok(true) => generate_token(config, a.id, a.username, now),
            Ok(false) => Err(AuthError::Authentication),
            Err(e) => Err(e),
        },
    }
}

/// A token issued to an account at sign-up or sign-in is accepted on the
/// protected routes, as that account, at any time before it expires.
pub proof fn lemma_issued_token_opens_gate(
    token: Seq<char>,
    secret: Seq<u8>,
    id: i32,
    username: Seq<char>,
    exp: u64,
    now: u64,
)
    requires
        carries(token, secret, id, username, exp),
        now < exp,
    ensures
        accepts(token, secret, now, id, username, exp),
{
}

} // verus!

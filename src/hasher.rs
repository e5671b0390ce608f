use vstd::prelude::*;
use argon2::password_hash::rand_core::OsRng;
use argon2::password_hash::{PasswordHash, PasswordHasher, PasswordVerifier, Salt, SaltString};
use argon2::Argon2;
use crate::error::AuthError;
use vstd::utf8::encode_utf8;
use crate::text::lemma_split_at;

verus! {

#[verifier::external_type_specification]
#[verifier::external_body]
pub struct ExPasswordHashError(argon2::password_hash::Error);

/// Whether a text parses as a PHC password-hash string.
pub uninterp spec fn phc_parses(phc: Seq<char>) -> bool;

/// Whether Argon2 accepts a password against a parsed PHC string, re-deriving
/// the digest with the algorithm, parameters and salt written in the string.
pub uninterp spec fn argon2_accepts(password: Seq<u8>, phc: Seq<char>) -> bool;

/// `phc` is a hash of `password`: it parses, and it verifies that password.
pub open spec fn is_hash_of(password: Seq<u8>, phc: Seq<char>) -> bool {
    phc_parses(phc) && argon2_accepts(password, phc)
}

/// What verifying `password` against the stored `phc` gives.
pub open spec fn verify_outcome(password: Seq<u8>, phc: Seq<char>) -> Result<bool, AuthError> {
    if phc_parses(phc) {
        Ok(argon2_accepts(password, phc))
    } else {
        Err(AuthError::Integrity)
    }
}

/// A password verifies against every hash made of it.
pub proof fn lemma_hash_then_verify(password: Seq<u8>, phc: Seq<char>)
    requires
        is_hash_of(password, phc),
    ensures
        verify_outcome(password, phc) == Ok::<bool, AuthError>(true),
{
}

/// Whether Argon2 takes a salt text: `Salt::from_b64` accepts it and it
/// decodes to at least eight bytes.
pub uninterp spec fn argon2_salt_fits(salt: Seq<char>) -> bool;

/// The B64 text of the Argon2id digest (default cost, 32 bytes) of a password
/// under a salt.
pub uninterp spec fn argon2_digest(password: Seq<u8>, salt: Seq<char>) -> Seq<char>;

/// A character of the B64 alphabet that salts are written in.
pub open spec fn is_salt_char(c: char) -> bool {
    ('A' <= c <= 'Z') || ('a' <= c <= 'z') || ('0' <= c <= '9') || c == '+' || c == '/'
}

pub open spec fn is_salt_text(s: Seq<char>) -> bool {
    forall|i: int| 0 <= i < s.len() ==> is_salt_char(#[trigger] s[i])
}

/// A salt as `fresh_salt` draws it: sixteen random bytes in 22 B64 characters.
pub open spec fn is_fresh_salt(s: Seq<char>) -> bool {
    s.len() == 22 && is_salt_text(s) && argon2_salt_fits(s)
}

/// `$argon2id$v=19$m=19456,t=2,p=1$`: the algorithm, its version and its cost
/// parameters, as a PHC string begins.
pub open spec fn phc_prefix() -> Seq<char> {
    seq![
        '$', 'a', 'r', 'g', 'o', 'n', '2', 'i', 'd', '$', 'v', '=', '1', '9', '$', 'm', '=', '1',
        '9', '4', '5', '6', ',', 't', '=', '2', ',', 'p', '=', '1', '$',
    ]
}

/// The PHC string of a password hashed under a salt: the prefix, the salt and
/// the digest, separated by `$`.
pub open spec fn argon2_phc(password: Seq<u8>, salt: Seq<char>) -> Seq<char> {
    phc_prefix() + salt + seq!['$'] + argon2_digest(password, salt)
}

/// Relies on `SaltString::generate` over the operating system's random source:
/// sixteen random bytes written as 22 B64 characters, which Argon2 takes.
#[verifier::external_body]
fn fresh_salt() -> (r: String)
    ensures
        is_fresh_salt(r@),
{
    SaltString::generate(&mut OsRng).as_str().to_owned()
}

/// Relies on `Salt::from_b64` and `Argon2::hash_password` (Argon2id, version
/// 19, default cost) and the PHC string form of the result. It fails only on a
/// password over `u32::MAX` bytes or a salt that Argon2 does not take. The
/// string names the algorithm, its parameters and the salt, so parsing it and
/// re-deriving with the same password gives the same digest: the string
/// verifies that password.
#[verifier::external_body]
fn argon2_hash(password: &[u8], salt: &str) -> (r: Result<String, argon2::password_hash::Error>)
    ensures
        password@.len() <= u32::MAX && argon2_salt_fits(salt@) ==> r is Ok,
        password@.len() > u32::MAX ==> r is Err,
        r matches Ok(phc) ==> phc@ == phc_prefix() + salt@ + seq!['$'] + argon2_digest(
            password@,
            salt@,
        ) && phc_parses(phc@) && argon2_accepts(password@, phc@),
{
    let salt = Salt::from_b64(salt)?;
    Argon2::default().hash_password(password, salt).map(|h| h.to_string())
}

/// Relies on `PasswordHash::new`, which fails exactly on a malformed PHC
/// string, and on `Argon2::verify_password`, which re-derives the digest with
/// the string's parameters and salt and compares in constant time.
#[verifier::external_body]
fn argon2_verify(password: &[u8], phc: &str) -> (r: Result<bool, argon2::password_hash::Error>)
    ensures
        r is Ok <==> phc_parses(phc@),
        r matches Ok(b) ==> b == argon2_accepts(password@, phc@),
{
    let parsed = PasswordHash::new(phc)?;
    Ok(Argon2::default().verify_password(password, &parsed).is_ok())
}

/// Hashes a password under a given salt into a PHC string. An empty password
/// is refused before any hashing work.
pub fn hash_password_with_salt(password: String, salt: &str) -> (r: Result<String, AuthError>)
    ensures
        password@.len() == 0 ==> r == Err::<String, AuthError>(AuthError::Validation),
        password@.len() > 0 && encode_utf8(password@).len() <= u32::MAX && argon2_salt_fits(salt@)
            ==> r is Ok,
        r matches Ok(phc) ==> phc@ == argon2_phc(encode_utf8(password@), salt@) && is_hash_of(
            encode_utf8(password@),
            phc@,
        ),
        r matches Err(e) ==> e == AuthError::Validation,
{
    if password.as_str().is_empty() {
        return Err(AuthError::Validation);
    }
    match argon2_hash(password.as_str().as_bytes(), salt) {
        Ok(phc) => Ok(phc),
        Err(_) => Err(AuthError::Validation),
    }
}

/// Hashes a password with a fresh random salt into a self-describing PHC
/// string. An empty password is refused before any hashing work.
pub fn hash_password(password: String) -> (r: Result<String, AuthError>)
    ensures
        password@.len() == 0 ==> r == Err::<String, AuthError>(AuthError::Validation),
        password@.len() > 0 && encode_utf8(password@).len() <= u32::MAX ==> r is Ok,
        r matches Ok(phc) ==> is_hash_of(encode_utf8(password@), phc@) && exists|salt: Seq<char>|
            is_fresh_salt(salt) && phc@ == #[trigger] argon2_phc(encode_utf8(password@), salt),
        r matches Err(e) ==> e == AuthError::Validation,
{
    let salt = fresh_salt();
    let r = hash_password_with_salt(password, salt.as_str());
    proof {
        if r is Ok {
            assert(is_fresh_salt(salt@) && r->Ok_0@ == argon2_phc(encode_utf8(password@), salt@));
        }
    }
    r
}

/// Hashes of one password under two different salts differ.
pub proof fn lemma_salts_separate_hashes(password: Seq<u8>, salt1: Seq<char>, salt2: Seq<char>)
    requires
        is_salt_text(salt1),
        is_salt_text(salt2),
        salt1 != salt2,
    ensures
        argon2_phc(password, salt1) != argon2_phc(password, salt2),
{
    if argon2_phc(password, salt1) == argon2_phc(password, salt2) {
        let n = phc_prefix().len() as int;
        let t = argon2_phc(password, salt1);
        let d1 = argon2_digest(password, salt1);
        let d2 = argon2_digest(password, salt2);
        assert(t.subrange(n, t.len() as int) =~= salt1 + seq!['$'] + d1);
        assert(t.subrange(n, t.len() as int) =~= salt2 + seq!['$'] + d2);
        lemma_split_at(salt1, d1, salt2, d2, '$');
    }
}

/// Checks a password against a stored PHC string: `Ok(false)` for a wrong
/// password, an integrity error when the stored string is malformed.
pub fn verify_password_hash(password_bytes: &[u8], password_hash: &String) -> (r: Result<bool, AuthError>)
    ensures
        r == verify_outcome(password_bytes@, password_hash@),
{
    match argon2_verify(password_bytes, password_hash.as_str()) {
        Ok(b) => Ok(b),
        Err(_) => Err(AuthError::Integrity),
    }
}

} // verus!

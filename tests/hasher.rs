use listkeeper::error::AuthError;
use listkeeper::hasher::{hash_password, hash_password_with_salt, verify_password_hash};

#[test]
fn hashed_password_verifies() {
    let phc = hash_password(String::from("correct-horse")).unwrap();
    assert_eq!(verify_password_hash(b"correct-horse", &phc), Ok(true));
}

#[test]
fn other_password_does_not_verify() {
    let phc = hash_password(String::from("correct-horse")).unwrap();
    assert_eq!(verify_password_hash(b"correct-horsf", &phc), Ok(false));
    assert_eq!(verify_password_hash(b"wrong", &phc), Ok(false));
}

#[test]
fn two_hashes_of_one_password_differ_and_both_verify() {
    let a = hash_password(String::from("hunter2")).unwrap();
    let b = hash_password(String::from("hunter2")).unwrap();
    assert_ne!(a, b);
    assert_eq!(verify_password_hash(b"hunter2", &a), Ok(true));
    assert_eq!(verify_password_hash(b"hunter2", &b), Ok(true));
}

#[test]
fn hash_is_a_self_describing_argon2id_string() {
    let phc = hash_password(String::from("p")).unwrap();
    assert!(phc.starts_with("$argon2id$v=19$"));
    assert!(!phc.contains("p$p"));
    assert_ne!(phc, "p");
}

#[test]
fn empty_password_is_refused() {
    assert_eq!(hash_password(String::new()), Err(AuthError::Validation));
}

#[test]
fn malformed_hash_is_an_integrity_error() {
    let bad = String::from("not a phc string");
    assert_eq!(verify_password_hash(b"anything", &bad), Err(AuthError::Integrity));
    let empty = String::new();
    assert_eq!(verify_password_hash(b"anything", &empty), Err(AuthError::Integrity));
}

#[test]
fn unicode_password_round_trips() {
    let phc = hash_password(String::from("pässwörd✓")).unwrap();
    assert_eq!(verify_password_hash("pässwörd✓".as_bytes(), &phc), Ok(true));
    assert_eq!(verify_password_hash("passwörd✓".as_bytes(), &phc), Ok(false));
}

#[test]
fn hash_embeds_algorithm_cost_and_salt() {
    let salt = "c2FsdHNhbHRzYWx0c2FsdA";
    let phc = hash_password_with_salt(String::from("correct-horse"), salt).unwrap();
    let prefix = format!("$argon2id$v=19$m=19456,t=2,p=1${}$", salt);
    assert!(phc.starts_with(&prefix));
    assert_eq!(phc.len(), prefix.len() + 43);
    assert_eq!(hash_password_with_salt(String::from("correct-horse"), salt).unwrap(), phc);
    assert_eq!(verify_password_hash(b"correct-horse", &phc), Ok(true));
}

#[test]
fn different_salts_give_different_hashes() {
    let a = hash_password_with_salt(String::from("pw"), "c2FsdHNhbHRzYWx0c2FsdA").unwrap();
    let b = hash_password_with_salt(String::from("pw"), "b3RoZXJzYWx0b3RoZXJzYQ").unwrap();
    assert_ne!(a, b);
}

#[test]
fn fresh_hash_carries_a_22_character_salt() {
    let phc = hash_password(String::from("pw")).unwrap();
    let fields: Vec<&str> = phc.split('$').collect();
    assert_eq!(fields.len(), 6);
    assert_eq!(fields[1], "argon2id");
    assert_eq!(fields[4].len(), 22);
}

#[test]
fn unusable_salt_or_empty_password_is_refused() {
    assert_eq!(hash_password_with_salt(String::from("pw"), "abc"), Err(AuthError::Validation));
    assert_eq!(hash_password_with_salt(String::from("pw"), "not b64!"), Err(AuthError::Validation));
    assert_eq!(hash_password_with_salt(String::new(), "c2FsdHNhbHRzYWx0c2FsdA"), Err(AuthError::Validation));
}

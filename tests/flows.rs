use listkeeper::config::AuthConfig;
use listkeeper::error::AuthError;
use listkeeper::flows::{sign_in, sign_up_account, sign_up_token, AccountLookup, NewAccount};
use listkeeper::gate::validator;
use listkeeper::hasher::hash_password;
use listkeeper::models::{AccountRecord, CredentialsSignIn, CredentialsSignUp};

/// An account store kept in memory: usernames and emails are unique.
struct Store {
    accounts: Vec<(i32, NewAccount)>,
}

impl Store {
    fn create(&mut self, a: NewAccount) -> Option<(i32, String)> {
        if self.accounts.iter().any(|(_, b)| b.username == a.username || b.email == a.email) {
            return None;
        }
        let id = self.accounts.len() as i32 + 1;
        let username = a.username.clone();
        self.accounts.push((id, a));
        Some((id, username))
    }

    fn find(&self, username: &str) -> AccountLookup {
        match self.accounts.iter().find(|(_, a)| a.username == username) {
            Some((id, a)) => AccountLookup::Found(AccountRecord {
                id: *id,
                username: a.username.clone(),
                password_hash: a.password_hash.clone(),
            }),
            None => AccountLookup::NotFound,
        }
    }
}

fn sign_in_as(c: &AuthConfig, store: &Store, username: &str, password: &str, now: u64) -> Result<String, AuthError> {
    let creds = CredentialsSignIn { username: String::from(username), password: String::from(password) };
    sign_in(c, &creds, store.find(username), now)
}

#[test]
fn sign_up_then_sign_in_end_to_end() {
    let c = AuthConfig::new(b"server secret".to_vec(), 1).unwrap();
    let mut store = Store { accounts: Vec::new() };
    let now: u64 = 1_700_000_000;

    let account = sign_up_account(CredentialsSignUp {
        username: String::from("alice"),
        password: String::from("correct-horse"),
        email: String::from("a@x.com"),
    })
    .unwrap();
    assert_ne!(account.password_hash, "correct-horse");
    let token = sign_up_token(&c, store.create(account), now).unwrap();

    let identity = validator(&c, Some(&token), now + 1).unwrap();
    assert_eq!(identity.id, 1);
    assert_eq!(identity.username, "alice");

    let again = sign_in_as(&c, &store, "alice", "correct-horse", now + 5).unwrap();
    assert_eq!(validator(&c, Some(&again), now + 6).unwrap().id, 1);

    let wrong_password = sign_in_as(&c, &store, "alice", "wrong", now + 7).err().unwrap();
    let unknown_user = sign_in_as(&c, &store, "mallory", "correct-horse", now + 7).err().unwrap();
    assert_eq!(wrong_password, AuthError::Authentication);
    assert_eq!(wrong_password, unknown_user);
    assert_eq!(wrong_password.message(), "Wrong credentials");

    let expired = validator(&c, Some(&token), now + 86400 + 1).err().unwrap();
    let absent = validator(&c, None, now).err().unwrap();
    assert_eq!(expired, AuthError::Authentication);
    assert_eq!(expired, absent);
}

#[test]
fn duplicate_sign_up_is_a_generic_store_error() {
    let c = AuthConfig::new(b"s".to_vec(), 1).unwrap();
    let mut store = Store { accounts: Vec::new() };
    let first = sign_up_account(CredentialsSignUp {
        username: String::from("bob"),
        password: String::from("pw"),
        email: String::from("b@x.com"),
    })
    .unwrap();
    assert!(sign_up_token(&c, store.create(first), 0).is_ok());
    let second = NewAccount {
        username: String::from("bob"),
        email: String::from("other@x.com"),
        password_hash: String::from("unused"),
    };
    assert_eq!(sign_up_token(&c, store.create(second), 0), Err(AuthError::Store));
    assert_eq!(AuthError::Store.message(), "Internal server error");
}

#[test]
fn sign_up_with_empty_password_is_refused() {
    let r = sign_up_account(CredentialsSignUp {
        username: String::from("eve"),
        password: String::new(),
        email: String::from("e@x.com"),
    });
    assert!(matches!(r, Err(AuthError::Validation)));
}

#[test]
fn corrupt_stored_hash_is_an_integrity_error() {
    let c = AuthConfig::new(b"s".to_vec(), 1).unwrap();
    let record = AccountRecord { id: 4, username: String::from("zed"), password_hash: String::from("plaintext") };
    let creds = CredentialsSignIn { username: String::from("zed"), password: String::from("plaintext") };
    assert_eq!(sign_in(&c, &creds, AccountLookup::Found(record), 0), Err(AuthError::Integrity));
}

#[test]
fn sign_in_token_carries_the_stored_identity() {
    let c = AuthConfig::new(b"s".to_vec(), 2).unwrap();
    let record = AccountRecord {
        id: 77,
        username: String::from("frank"),
        password_hash: hash_password(String::from("pw")).unwrap(),
    };
    let creds = CredentialsSignIn { username: String::from("frank"), password: String::from("pw") };
    let token = sign_in(&c, &creds, AccountLookup::Found(record), 1000).unwrap();
    let claims = validator(&c, Some(&token), 1000).unwrap();
    assert_eq!((claims.id, claims.username.as_str(), claims.exp), (77, "frank", 1000 + 2 * 86400));
}

#[test]
fn failed_account_lookup_is_a_store_error() {
    let c = AuthConfig::new(b"s".to_vec(), 1).unwrap();
    let creds = CredentialsSignIn { username: String::from("amy"), password: String::from("pw") };
    assert_eq!(sign_in(&c, &creds, AccountLookup::Failed, 0), Err(AuthError::Store));
    assert_eq!(sign_in(&c, &creds, AccountLookup::NotFound, 0), Err(AuthError::Authentication));
}

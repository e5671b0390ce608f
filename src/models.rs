use vstd::prelude::*;

verus! {

/// A sign-in request: a username and a plaintext password.
pub struct CredentialsSignIn {
    pub username: String,
    pub password: String,
}

/// A sign-up request: a username, a plaintext password and an email address.
pub struct CredentialsSignUp {
    pub username: String,
    pub password: String,
    pub email: String,
}

/// The identity carried by a session token: the account identifier, its
/// display name, and the expiry instant in seconds since the epoch.
pub struct Claims {
    pub id: i32,
    pub username: String,
    pub exp: u64,
}

/// The body of a request that creates or updates a list.
pub struct ListBody {
    pub title: String,
    pub user_id: Option<i32>,
    pub best_before: i32,
}

/// A stored list.
pub struct List {
    pub id: i32,
    pub title: String,
    pub user_id: Option<i32>,
    pub best_before: i32,
}

/// The body of a request that creates or updates a user.
pub struct UserBody {
    pub username: String,
    pub email: String,
    pub password: String,
}

/// The body of a request that changes the current user's password.
pub struct UserPasswordBody {
    pub password: String,
}

/// What the sign-in flow reads of a stored account: its identifier, its
/// username and its password hash.
pub struct AccountRecord {
    pub id: i32,
    pub username: String,
    pub password_hash: String,
}

} // verus!

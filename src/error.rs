use vstd::prelude::*;

verus! {

/// The error categories of the authentication core.
#[derive(Debug, Clone, Copy, PartialEq, Eq, Structural)]
pub enum AuthError {
    /// Malformed input to the hasher, such as an empty password.
    Validation,
    /// A stored password hash is structurally corrupt.
    Integrity,
    /// Wrong credentials, or a missing, malformed, forged or expired token.
    Authentication,
    /// A missing or unusable signing secret or token lifetime.
    Configuration,
    /// The account store failed to look up or create a record.
    Store,
}

impl AuthError {
    /// A short marker for the category, fit to show to a client.
    pub fn message(&self) -> (r: &'static str)
        ensures
            r@ == match self {
                AuthError::Validation => "Validation error"@,
                AuthError::Authentication => "Wrong credentials"@,
                AuthError::Configuration => "Configuration error"@,
                AuthError::Integrity | AuthError::Store => "Internal server error"@,
            },
    {
        match self {
            AuthError::Validation => "Validation error",
            AuthError::Integrity => "Internal server error",
            AuthError::Authentication => "Wrong credentials",
            AuthError::Configuration => "Configuration error",
            AuthError::Store => "Internal server error",
        }
    }
}

} // verus!

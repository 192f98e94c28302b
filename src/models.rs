//! Records exchanged with the session boundary and the user record store.
use vstd::prelude::*;

verus! {

/// A stored user.
pub struct User {
    pub id: i64,
    pub username: String,
    pub password_hash: String,
    pub email: String,
}

/// The user that an authenticated request acts for.
pub struct CurrentUser(pub User);

/// The public part of a user.
pub struct UserResponse {
    pub id: i64,
    pub username: String,
    pub email: String,
}

impl UserResponse {
    /// The public part of `user`: everything but the password hash.
    pub fn of(user: &User) -> (r: UserResponse)
        ensures
            r.id == user.id,
            r.username@ == user.username@,
            r.email@ == user.email@,
    {
        UserResponse { id: user.id, username: user.username.clone(), email: user.email.clone() }
    }
}

/// Credentials presented at login.
pub struct LoginRequest {
    pub email: String,
    pub password: String,
}

/// Details of a new account.
pub struct RegisterRequest {
    pub username: String,
    pub password: String,
    pub email: String,
}

/// The answer to a registration.
pub struct RegisterResponse {
    pub message: String,
    pub success: bool,
    pub id: i64,
}

/// The answer to a login.
pub struct LoginResponse {
    pub message: String,
    pub success: bool,
}

/// The answer to a token refresh.
pub struct RefreshTokenResponse {
    pub message: String,
    pub success: bool,
}

/// The answer to a logout.
pub struct LogoutResponse {
    pub message: String,
    pub success: bool,
}

} // verus!

use vstd::prelude::*;

verus! {

/// The payload of a login request, handed in by the surrounding application
/// after it has decoded the request body.
pub struct LoginUser {
    pub username: String,
    pub password: String,
}

/// The payload of a registration request, handed in by the surrounding
/// application after it has decoded the request body.
pub struct CreateUser {
    pub username: String,
    pub email: String,
    pub password: String,
}

} // verus!

//! A user as it is stored and as it comes in, and the answers about users.

use crate::response::{CreateResponse, Detail};
use vstd::prelude::*;
use vstd::string::StringExecFns;

verus! {

/// A user of the `user` table.
#[derive(Debug, Clone)]
pub struct User {
    pub id: u32,
    pub username: String,
    pub password: String,
    pub permissions: Vec<String>,
}

impl User {
    pub fn new(id: u32, username: String, password: String, permissions: Vec<String>) -> (user:
        Self)
        ensures
            user.id == id,
            user.username == username,
            user.password == password,
            user.permissions == permissions,
    {
        Self { id, username, password, permissions }
    }

    /// Whether `password` is the password of the user.
    pub fn has_password(&self, password: &String) -> (r: bool)
        ensures
            r == (self.password@ == password@),
    {
        self.password == *password
    }
}

/// What a client sends to log in or to register.
pub struct UserFormBody {
    pub username: String,
    pub password: String,
}

/// What a client gets when it has logged in.
pub struct LoginResponse {
    pub token: String,
}

impl LoginResponse {
    /// The answer to a login that went through: status 200 with the token.
    pub fn new(token: String) -> (r: CreateResponse<LoginResponse>)
        ensures
            r matches CreateResponse::Success(body) && body.token == token,
    {
        let body = LoginResponse { token };
        CreateResponse::Success(body)
    }
}

/// The message that a user was registered.
pub open spec fn registered_message() -> Seq<char> {
    "User registered successfully"@
}

/// An answer that can say that a user was registered.
pub trait RegisterReponse: Sized {
    /// Whether the answer says that the user was registered.
    spec fn says_registered(&self) -> bool;

    fn success() -> (r: Self)
        ensures
            r.says_registered(),
    ;
}

impl RegisterReponse for CreateResponse<Detail> {
    open spec fn says_registered(&self) -> bool {
        self matches CreateResponse::Created(detail) && detail.message@ == registered_message()
    }

    fn success() -> (r: Self) {
        let detail = Detail { message: String::from_str("User registered successfully") };
        CreateResponse::Created(detail)
    }
}

} // verus!

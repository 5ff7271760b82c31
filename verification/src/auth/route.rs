//! The rules of logging in and of registering.

use crate::auth::model::{User, UserFormBody};
use crate::response::{Detail, GenericError};
use vstd::prelude::*;
use vstd::string::StringExecFns;

verus! {

/// The table that holds the users.
pub const USER_TABLE_NAME: &'static str = "user";

/// The permission that every registered user gets.
pub open spec fn granted_permission() -> Seq<char> {
    "MUTATE"@
}

/// The message that a username is taken.
pub open spec fn taken_message() -> Seq<char> {
    "User already exists!"@
}

/// The rules of the `/login` and `/register` endpoints.
pub struct AuthApi;

impl AuthApi {
    /// Lets a user log in who shows the user's password; any other password
    /// is not authorized.
    pub fn check_password(user: User, password: &String) -> (r: Result<User, GenericError>)
        ensures
            match r {
                Ok(same) => same == user && user.password@ == password@,
                Err(e) => {
                    &&& user.password@ != password@
                    &&& e matches GenericError::Unauthorized(detail) && detail.message@
                        == "You are not authorized to do this request"@
                },
            },
    {
        if user.has_password(password) {
            Ok(user)
        } else {
            Err(GenericError::not_authorized())
        }
    }

    /// Lets a username be registered that no user has: `found` is the number
    /// of users that have it. A taken username is a bad request.
    pub fn check_new_username(found: usize) -> (r: Result<(), GenericError>)
        ensures
            match r {
                Ok(_) => found == 0,
                Err(e) => {
                    &&& found > 0
                    &&& e matches GenericError::BadRequest(detail) && detail.message@
                        == taken_message()
                },
            },
    {
        if found > 0 {
            let detail = Detail { message: String::from_str("User already exists!") };
            Err(GenericError::BadRequest(detail))
        } else {
            Ok(())
        }
    }

    /// The user that a registration creates under the id `id`: with the name
    /// and the password of the form, and with the one permission `MUTATE`.
    pub fn new_user(id: u32, form: UserFormBody) -> (user: User)
        ensures
            user.id == id,
            user.username == form.username,
            user.password == form.password,
            user.permissions@.len() == 1,
            user.permissions@[0]@ == granted_permission(),
    {
        let mut permissions: Vec<String> = Vec::new();
        permissions.push(String::from_str("MUTATE"));
        User::new(id, form.username, form.password, permissions)
    }
}

} // verus!

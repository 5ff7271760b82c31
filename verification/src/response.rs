//! The answers that the service gives over HTTP, as plain values: what an
//! answer carries and the status it goes out with.

use crate::json::{json_fields, json_text, object_from, text};
use serde_json::Value;
use vstd::prelude::*;
use vstd::string::StringExecFns;

verus! {

/// A message to the client.
#[derive(Debug)]
pub struct Detail {
    pub message: String,
}

/// An answer of any status: a status code, and a body that holds the data
/// and the message that are there.
pub struct GenericResponse<T> {
    pub status_code_u16: u16,
    pub message: Option<String>,
    pub data: Option<T>,
}

/// The answer to a request for records. `Success` is the answer with
/// status 200.
pub enum FetchResponse<T> {
    Success(T),
    NotFound(Detail),
}

/// The answer to a request to delete a record.
pub enum DeleteResponse {
    Success(Detail),
    NotFound(Detail),
}

/// The answer to a request to create something.
pub enum CreateResponse<T> {
    Created(T),
    Success(T),
    BadRequest(T),
}

/// The answer to a request to change a record.
pub enum UpdateResponse<T> {
    Success(T),
    NotFound(Detail),
}

/// A request that failed.
pub enum GenericError {
    DbLock,
    Internal,
    DbOperation,
    TableNotFound,
    Unauthorized(Detail),
    JwtEncoding,
    BadRequest(Detail),
}

/// The key of the data in the body of an answer.
pub open spec fn body_data_key() -> Seq<char> {
    "data"@
}

/// The key of the message in the body of an answer.
pub open spec fn body_message_key() -> Seq<char> {
    "message"@
}

/// `body` is the body for `data` and `message`: an object that holds the
/// data under `data` if there is any, the message as a JSON string under
/// `message` if there is one, and nothing else.
pub open spec fn is_body(body: Value, data: Option<Value>, message: Option<Seq<char>>) -> bool {
    match json_fields(body) {
        Some(fields) => {
            &&& forall|key: Seq<char>| #[trigger]
                fields.contains_key(key) <==> (key == body_data_key() && data is Some) || (key
                    == body_message_key() && message is Some)
            &&& data matches Some(d) ==> fields[body_data_key()] == d
            &&& message matches Some(m) ==> json_text(fields[body_message_key()]) == Some(m)
        },
        None => false,
    }
}

impl<T> FetchResponse<T> {
    /// The HTTP status of the answer.
    pub fn status(&self) -> (code: u16)
        ensures
            code == match self {
                FetchResponse::Success(_) => 200u16,
                FetchResponse::NotFound(_) => 404u16,
            },
    {
        match self {
            FetchResponse::Success(_) => 200,
            FetchResponse::NotFound(_) => 404,
        }
    }
}

impl DeleteResponse {
    /// The HTTP status of the answer.
    pub fn status(&self) -> (code: u16)
        ensures
            code == match self {
                DeleteResponse::Success(_) => 200u16,
                DeleteResponse::NotFound(_) => 404u16,
            },
    {
        match self {
            DeleteResponse::Success(_) => 200,
            DeleteResponse::NotFound(_) => 404,
        }
    }
}

impl<T> CreateResponse<T> {
    /// The HTTP status of the answer.
    pub fn status(&self) -> (code: u16)
        ensures
            code == match self {
                CreateResponse::Created(_) => 201u16,
                CreateResponse::Success(_) => 200u16,
                CreateResponse::BadRequest(_) => 400u16,
            },
    {
        match self {
            CreateResponse::Created(_) => 201,
            CreateResponse::Success(_) => 200,
            CreateResponse::BadRequest(_) => 400,
        }
    }
}

impl<T> UpdateResponse<T> {
    /// The HTTP status of the answer. A record that is not there to be
    /// changed is answered with 400.
    pub fn status(&self) -> (code: u16)
        ensures
            code == match self {
                UpdateResponse::Success(_) => 200u16,
                UpdateResponse::NotFound(_) => 400u16,
            },
    {
        match self {
            UpdateResponse::Success(_) => 200,
            UpdateResponse::NotFound(_) => 400,
        }
    }
}

impl GenericError {
    /// The failure of a request that the client was not allowed to make.
    pub fn not_authorized() -> (e: Self)
        ensures
            e matches GenericError::Unauthorized(detail) && detail.message@
                == "You are not authorized to do this request"@,
    {
        let detail = Detail {
            message: String::from_str("You are not authorized to do this request"),
        };
        GenericError::Unauthorized(detail)
    }

    /// The HTTP status of the failure.
    pub fn status(&self) -> (code: u16)
        ensures
            code == match self {
                GenericError::Unauthorized(_) => 401u16,
                GenericError::BadRequest(_) => 400u16,
                _ => 500u16,
            },
    {
        match self {
            GenericError::Unauthorized(_) => 401,
            GenericError::BadRequest(_) => 400,
            _ => 500,
        }
    }
}

impl GenericResponse<Value> {
    /// The body of the answer: `None` where it carries neither data nor a
    /// message, so that the answer goes out without a body.
    pub fn body(self) -> (r: Option<Value>)
        ensures
            match r {
                Some(body) => (self.data is Some || self.message is Some) && is_body(
                    body,
                    self.data,
                    match self.message {
                        Some(m) => Some(m@),
                        None => None,
                    },
                ),
                None => self.data is None && self.message is None,
            },
    {
        proof {
            reveal_strlit("data");
            reveal_strlit("message");
            assert(body_data_key().len() == 4);
            assert(body_message_key().len() == 7);
        }
        let mut entries: Vec<(String, Value)> = Vec::new();
        if let Some(data) = self.data {
            entries.push((String::from_str("data"), data));
        }
        if let Some(message) = self.message {
            entries.push((String::from_str("message"), text(message)));
        }
        if entries.len() == 0 {
            return None;
        }
        let ghost listed = entries@;
        let body = object_from(entries);
        proof {
            let fields = json_fields(body)->0;
            assert forall|key: Seq<char>| #[trigger]
                fields.contains_key(key) <==> (key == body_data_key() && self.data is Some) || (key
                    == body_message_key() && self.message is Some) by {
                if self.data is Some {
                    assert(fields.contains_key(listed[0].0@));
                }
                if self.message is Some {
                    assert(fields.contains_key(listed[listed.len() - 1].0@));
                }
            }
            if self.data is Some {
                assert(fields[listed[0].0@] == listed[0].1);
            }
            if self.message is Some {
                assert(fields[listed[listed.len() - 1].0@] == listed[listed.len() - 1].1);
            }
        }
        Some(body)
    }
}

} // verus!

//! The failure taxonomy the surrounding API layer maps to HTTP statuses.

use vstd::prelude::*;

verus! {

/// The three failure kinds that reach the API boundary: an internal fault, a
/// malformed request (with its message), and an unavailable backing store.
#[derive(Debug)]
pub enum ApplicationError {
    InternalServerError,
    BadRequest(String),
    ServiceUnavailable,
}

impl ApplicationError {
    /// The HTTP status code this failure maps to. An unavailable store is
    /// reported as a gateway timeout.
    pub fn status_code(&self) -> (r: u16)
        ensures
            r == (match *self {
                ApplicationError::InternalServerError => 500u16,
                ApplicationError::BadRequest(_) => 400u16,
                ApplicationError::ServiceUnavailable => 504u16,
            }),
    {
        match self {
            ApplicationError::InternalServerError => 500,
            ApplicationError::BadRequest(_) => 400,
            ApplicationError::ServiceUnavailable => 504,
        }
    }

    /// The response body: a bad request carries its message, the other
    /// failures carry none.
    pub fn response_body(&self) -> (r: String)
        ensures
            r@ == (match *self {
                ApplicationError::BadRequest(m) => m@,
                _ => Seq::<char>::empty(),
            }),
    {
        match self {
            ApplicationError::BadRequest(m) => m.clone(),
            _ => String::new(),
        }
    }
}

} // verus!

//! The service's error type, and what a client is answered for each error:
//! an HTTP status and a message. Database details are never shown.

use vstd::prelude::*;
use crate::text::{push_signed_decimal, signed_decimal};

verus! {

/// `sqlx::Error`: the error of a database call, carried through unchanged.
#[verifier::external_type_specification]
#[verifier::external_body]
pub struct ExSqlxError(sqlx::Error);

/// The HTTP statuses this service answers with.
#[derive(PartialEq, Eq, Structural, Debug, Clone, Copy)]
pub enum Status {
    Success,
    Created,
    NoContent,
    BadRequest,
    NotFound,
    InternalServerError,
}

impl Status {
    /// The numeric HTTP status code.
    pub open spec fn spec_code(self) -> u16 {
        match self {
            Status::Success => 200,
            Status::Created => 201,
            Status::NoContent => 204,
            Status::BadRequest => 400,
            Status::NotFound => 404,
            Status::InternalServerError => 500,
        }
    }

    /// The numeric HTTP status code.
    pub fn code(&self) -> (r: u16)
        ensures
            r == self.spec_code(),
    {
        match self {
            Status::Success => 200,
            Status::Created => 201,
            Status::NoContent => 204,
            Status::BadRequest => 400,
            Status::NotFound => 404,
            Status::InternalServerError => 500,
        }
    }
}

/// Everything a request can fail with.
#[derive(Debug)]
pub enum AppError {
    /// The input is invalid; the message goes to the client as it is.
    Validation(String),
    /// No todo has this id.
    NotFound(i64),
    /// The database failed; the details stay in the log.
    Database(sqlx::Error),
}

/// The status a client is answered with for `e`.
pub open spec fn error_status(e: AppError) -> Status {
    match e {
        AppError::Validation(_) => Status::BadRequest,
        AppError::NotFound(_) => Status::NotFound,
        AppError::Database(_) => Status::InternalServerError,
    }
}

/// The text of `todo {id} not found`.
pub open spec fn not_found_text(id: int) -> Seq<char> {
    "todo "@ + signed_decimal(id) + " not found"@
}

/// The message a client receives for `e`.
pub open spec fn client_message(e: AppError) -> Seq<char> {
    match e {
        AppError::Validation(m) => m@,
        AppError::NotFound(id) => not_found_text(id as int),
        AppError::Database(_) => "internal server error"@,
    }
}

impl AppError {
    /// The HTTP status of this error: 400 for invalid input, 404 for an
    /// unknown id, 500 for a database failure.
    pub fn status(&self) -> (r: Status)
        ensures
            r == error_status(*self),
    {
        match self {
            AppError::Validation(_) => Status::BadRequest,
            AppError::NotFound(_) => Status::NotFound,
            AppError::Database(_) => Status::InternalServerError,
        }
    }

    /// The `error` text of the JSON body the client receives. A database
    /// failure is answered with `internal server error` only.
    pub fn message(&self) -> (r: String)
        ensures
            r@ == client_message(*self),
    {
        match self {
            AppError::Validation(m) => m.clone(),
            AppError::NotFound(id) => {
                let mut out = String::from_str("todo ");
                push_signed_decimal(&mut out, *id);
                out.append(" not found");
                out
            },
            AppError::Database(_) => String::from_str("internal server error"),
        }
    }
}

} // verus!

//! What the database-backed requests are answered with, given what the
//! database gave back.

use vstd::prelude::*;
use crate::error::{AppError, Status};
use super::model::Todo;

verus! {

/// The answer to flipping todo `id`, given the row the update returned:
/// that row, or `NotFound` for `id` when no row was updated.
pub fn toggle_outcome(id: i64, row: Option<Todo>) -> (r: Result<Todo, AppError>)
    ensures
        match row {
            Some(t) => r == Ok::<Todo, AppError>(t),
            None => r matches Err(AppError::NotFound(n)) && n == id,
        },
{
    match row {
        Some(t) => Ok(t),
        None => Err(AppError::NotFound(id)),
    }
}

/// The answer to removing todo `id`, given how many rows were removed:
/// `NoContent`, or `NotFound` for `id` when none was.
pub fn delete_outcome(id: i64, rows_affected: u64) -> (r: Result<Status, AppError>)
    ensures
        rows_affected == 0 ==> (r matches Err(AppError::NotFound(n)) && n == id),
        rows_affected > 0 ==> r matches Ok(Status::NoContent),
{
    if rows_affected == 0 {
        return Err(AppError::NotFound(id));
    }
    Ok(Status::NoContent)
}

} // verus!

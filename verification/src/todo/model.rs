//! A stored todo, the creation request, and the validation of its title.

use vstd::prelude::*;
use crate::error::AppError;
use crate::text::{decimal, push_decimal, trim, trimmed};

verus! {

/// The longest title accepted, counted in characters (not bytes).
pub const MAX_TITLE_LEN: usize = 200;

/// A todo as the database stores it.
#[derive(Debug)]
pub struct Todo {
    pub id: i64,
    pub title: String,
    pub done: bool,
}

/// The body of a creation request.
#[derive(Debug)]
pub struct CreateTodo {
    pub title: String,
}

/// The message for a title that is too long: `title must be 200 characters
/// or fewer (got {len})`.
pub open spec fn too_long_text(len: nat) -> Seq<char> {
    "title must be "@ + decimal(MAX_TITLE_LEN as nat) + " characters or fewer (got "@ + decimal(len)
        + ")"@
}

/// What the validation of a raw title gives: the title without surrounding
/// white space, or the message that rejects it.
pub open spec fn title_check(raw: Seq<char>) -> Result<Seq<char>, Seq<char>> {
    let t = trimmed(raw);
    if t.len() == 0 {
        Err("title must not be empty"@)
    } else if t.len() > MAX_TITLE_LEN {
        Err(too_long_text(t.len()))
    } else {
        Ok(t)
    }
}

/// A title is accepted exactly when, without its surrounding white space,
/// it has between 1 and `MAX_TITLE_LEN` characters, every character counted;
/// what is accepted is that trimmed title. A longer one is refused with the
/// message that gives its full length, an empty one with its own message.
pub proof fn titles_are_limited_by_every_character(raw: Seq<char>)
    ensures
        title_check(raw) matches Ok(t) ==> t == trimmed(raw) && 1 <= t.len() <= MAX_TITLE_LEN,
        title_check(raw) is Ok <==> 1 <= trimmed(raw).len() <= MAX_TITLE_LEN,
        trimmed(raw).len() > MAX_TITLE_LEN ==> title_check(raw) == Err::<Seq<char>, Seq<char>>(
            too_long_text(trimmed(raw).len()),
        ),
        trimmed(raw).len() == 0 ==> title_check(raw) == Err::<Seq<char>, Seq<char>>(
            "title must not be empty"@,
        ),
{
}

impl CreateTodo {
    /// The title without its surrounding white space; empty titles and
    /// titles of more than `MAX_TITLE_LEN` characters are refused with a
    /// validation error.
    pub fn validated_title(&self) -> (r: Result<&str, AppError>)
        ensures
            match r {
                Ok(t) => title_check(self.title@) == Ok::<Seq<char>, Seq<char>>(t@),
                Err(AppError::Validation(m)) => title_check(self.title@) == Err::<
                    Seq<char>,
                    Seq<char>,
                >(m@),
                Err(_) => false,
            },
            r matches Ok(t) ==> 1 <= t@.len() <= MAX_TITLE_LEN && t@ == trimmed(self.title@),
            r is Ok <==> 1 <= trimmed(self.title@).len() <= MAX_TITLE_LEN,
    {
        let title = trim(self.title.as_str());
        if title.is_empty() {
            return Err(AppError::Validation(String::from_str("title must not be empty")));
        }
        let len = title.unicode_len();
        if len > MAX_TITLE_LEN {
            let mut msg = String::from_str("title must be ");
            push_decimal(&mut msg, MAX_TITLE_LEN as u64);
            msg.append(" characters or fewer (got ");
            push_decimal(&mut msg, len as u64);
            msg.append(")");
            return Err(AppError::Validation(msg));
        }
        Ok(title)
    }
}

} // verus!

//! The failures of the request pipeline and what a client is told of each.

use crate::auth::AuthorizationError;
use vstd::prelude::*;

verus! {

/// No account carries the username.
#[derive(Debug, Clone, Copy, PartialEq, Eq, Structural)]
pub struct NotFound;

/// The username is taken.
#[derive(Debug, Clone, Copy, PartialEq, Eq, Structural)]
pub struct Conflict;

/// Storage or the hash primitive failed. The detail stays on the server.
#[derive(Debug, Clone, Copy, PartialEq, Eq, Structural)]
pub struct InternalError;

/// The password does not belong to the account.
#[derive(Debug, Clone, Copy, PartialEq, Eq, Structural)]
pub struct NotAuthorized;

/// The balance does not pay for the next level.
#[derive(Debug, Clone, Copy, PartialEq, Eq, Structural)]
pub struct NotEnoughMoney;

/// The account changed between the read and the write. The request may be
/// tried again on a fresh read.
#[derive(Debug, Clone, Copy, PartialEq, Eq, Structural)]
pub struct Outdated;

/// Every way in which a request can fail.
#[derive(Debug, Clone, Copy, PartialEq, Eq, Structural)]
pub enum Rejection {
    /// The header gave no credential.
    Authorization(AuthorizationError),
    /// No account carries the username.
    NotFound(NotFound),
    /// The username is taken.
    Conflict(Conflict),
    /// The password does not belong to the account.
    NotAuthorized(NotAuthorized),
    /// The balance does not pay for the next level.
    NotEnoughMoney(NotEnoughMoney),
    /// The account changed between the read and the write.
    Outdated(Outdated),
    /// Storage or the hash primitive failed.
    Internal(InternalError),
}

/// The status of a header that cannot be read.
pub const BAD_REQUEST: u16 = 400;

/// The status of a wrong password.
pub const UNAUTHORIZED: u16 = 401;

/// The status of an upgrade that the balance does not pay for.
pub const FORBIDDEN: u16 = 403;

/// The status of an unknown username.
pub const NOT_FOUND: u16 = 404;

/// The status of a taken username, and of a write that came too late.
pub const CONFLICT: u16 = 409;

/// The status of a failure on the server's side.
pub const INTERNAL_SERVER_ERROR: u16 = 500;

/// What a client receives for a failed request.
#[derive(Debug, PartialEq, Eq)]
pub struct Reply {
    pub status: u16,
    pub body: String,
}

/// The status that answers a failure.
pub open spec fn status_of(err: Rejection) -> u16 {
    match err {
        Rejection::Authorization(_) => BAD_REQUEST,
        Rejection::NotFound(_) => NOT_FOUND,
        Rejection::Conflict(_) => CONFLICT,
        Rejection::NotAuthorized(_) => UNAUTHORIZED,
        Rejection::NotEnoughMoney(_) => FORBIDDEN,
        Rejection::Outdated(_) => CONFLICT,
        Rejection::Internal(_) => INTERNAL_SERVER_ERROR,
    }
}

/// The sentence that answers a failure. It never carries server detail.
pub open spec fn message_of(err: Rejection) -> Seq<char> {
    match err {
        Rejection::Authorization(e) => crate::auth::message_of(e),
        Rejection::NotFound(_) => "There is no user with that name"@,
        Rejection::Conflict(_) => "The provided username already exists"@,
        Rejection::NotAuthorized(_) => "The password is incorrect"@,
        Rejection::NotEnoughMoney(_) => "Not enough money to upgrade"@,
        Rejection::Outdated(_) => "The account changed in the meantime, please try again"@,
        Rejection::Internal(_) => "Something went wrong, please try again later."@,
    }
}

/// Maps a failure to the status and the sentence for the client.
pub fn handle_rejection(err: &Rejection) -> (reply: Reply)
    ensures
        reply.status == status_of(*err),
        reply.body@ == message_of(*err),
{
    match err {
        Rejection::NotEnoughMoney(_) => Reply {
            status: FORBIDDEN,
            body: "Not enough money to upgrade".to_owned(),
        },
        Rejection::NotFound(_) => Reply {
            status: NOT_FOUND,
            body: "There is no user with that name".to_owned(),
        },
        Rejection::Authorization(e) => Reply { status: BAD_REQUEST, body: e.message() },
        Rejection::NotAuthorized(_) => Reply {
            status: UNAUTHORIZED,
            body: "The password is incorrect".to_owned(),
        },
        Rejection::Conflict(_) => Reply {
            status: CONFLICT,
            body: "The provided username already exists".to_owned(),
        },
        Rejection::Outdated(_) => Reply {
            status: CONFLICT,
            body: "The account changed in the meantime, please try again".to_owned(),
        },
        Rejection::Internal(_) => Reply {
            status: INTERNAL_SERVER_ERROR,
            body: "Something went wrong, please try again later.".to_owned(),
        },
    }
}

/// Turns any failure into an internal error, keeping a success as it is.
pub trait ToInternalError<T> {
    /// The value of a success, if this is one.
    spec fn success(self) -> Option<T>;

    fn to_internal_error(self) -> (mapped: Result<T, Rejection>) where Self: Sized
        ensures
            mapped == (match self.success() {
                Some(value) => Ok::<T, Rejection>(value),
                None => Err(Rejection::Internal(InternalError)),
            }),
    ;
}

impl<T, E> ToInternalError<T> for Result<T, E> {
    open spec fn success(self) -> Option<T> {
        match self {
            Ok(value) => Some(value),
            Err(_) => None,
        }
    }

    fn to_internal_error(self) -> (mapped: Result<T, Rejection>) {
        match self {
            Ok(value) => Ok(value),
            Err(_) => Err(Rejection::Internal(InternalError)),
        }
    }
}

} // verus!

//! Authentication decisions: which user a request acts as, and whether
//! an administrative request carries the right secret.

use vstd::prelude::*;

verus! {

/// Why a request's authentication is refused.
#[derive(Clone, Copy, Debug, PartialEq, Eq, Structural)]
pub enum AuthError {
    /// The request carried a bearer token that does not decode to a
    /// user id.
    InvalidToken,
}

/// The user id a request acts under: with no bearer token the request
/// acts anonymously as id 0; a carried token yields its decoded id, and
/// one that does not decode is refused.
pub fn acting_user(bearer_present: bool, decoded: Option<i32>) -> (r: Result<i32, AuthError>)
    ensures
        !bearer_present ==> r == Ok::<i32, AuthError>(0),
        bearer_present ==> r == match decoded {
            Some(id) => Ok::<i32, AuthError>(id),
            None => Err::<i32, AuthError>(AuthError::InvalidToken),
        },
{
    if !bearer_present {
        Ok(0)
    } else {
        match decoded {
            Some(id) => Ok(id),
            None => Err(AuthError::InvalidToken),
        }
    }
}

/// The database-creation endpoint is authorized exactly when the request
/// body equals the configured secret.
pub fn create_db_authorized(body: &str, secret: &str) -> (r: bool)
    ensures
        r == (body@ == secret@),
{
    crate::textutil::str_eq(body, secret)
}

} // verus!

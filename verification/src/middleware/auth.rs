use vstd::prelude::*;

use crate::api::notice::Notice;
use crate::db::DbError;
use crate::entity::user;

verus! {

/// The first step of authentication, on the request's `token` cookie.
pub enum AuthStep {
    /// Refuse the request with this notice.
    Refuse(Notice),
    /// Look the user up by this token.
    Lookup(String),
}

/// What is done with the request's `token` cookie.
pub open spec fn auth_step(token: Option<String>) -> AuthStep {
    match token {
        None => AuthStep::Refuse(Notice::LoginRequired),
        Some(t) => AuthStep::Lookup(t),
    }
}

/// The verdict, given what looking the token up returned.
pub open spec fn auth_outcome(found: Result<Option<user::Model>, DbError>) -> Result<user::Model, Notice> {
    match found {
        Ok(Some(u)) => Ok(u),
        Ok(None) => Err(Notice::LoginRequired),
        Err(_) => Err(Notice::RemoteError),
    }
}

/// Without a `token` cookie the request is refused; with one, its value is
/// looked up.
pub fn auth_on_cookie(token: Option<String>) -> (r: AuthStep)
    ensures
        r == auth_step(token),
{
    match token {
        None => AuthStep::Refuse(Notice::LoginRequired),
        Some(t) => AuthStep::Lookup(t),
    }
}

/// The verdict once the token was looked up: the user it belongs to is the
/// request's current user; an unknown token is refused as not logged in; a
/// failed lookup is a store error.
pub fn auth_verdict(found: Result<Option<user::Model>, DbError>) -> (r: Result<user::Model, Notice>)
    ensures
        r == auth_outcome(found),
{
    match found {
        Ok(Some(u)) => Ok(u),
        Ok(None) => Err(Notice::LoginRequired),
        Err(_) => Err(Notice::RemoteError),
    }
}

} // verus!

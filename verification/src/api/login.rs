use vstd::prelude::*;

use crate::api::notice::Notice;
use crate::db::DbError;
use crate::db::users::is_new_user_record;
use crate::entity::user;
use crate::middleware::auth::{auth_outcome, auth_step, AuthStep};

verus! {

/// The answer to a login request.
pub enum LoginReply {
    /// The request is refused with this notice.
    Refused(Notice),
    /// The user is logged in: 200 with the session cookie `token` set to this value.
    Accepted { token: String },
}

/// The refusal of a login whose user name or password is empty; `None` when
/// both are given.
pub open spec fn credentials_refusal(user_name: Seq<char>, password: Seq<char>) -> Option<Notice> {
    if user_name.len() == 0 || password.len() == 0 {
        Some(Notice::EmptyCredentials)
    } else {
        None
    }
}

/// The answer to a login, given what looking the user up by name returned.
pub open spec fn login_outcome(found: Result<Option<user::Model>, DbError>, password: Seq<char>) -> LoginReply {
    match found {
        Err(_) => LoginReply::Refused(Notice::RemoteError),
        Ok(None) => LoginReply::Refused(Notice::BadCredentials),
        Ok(Some(u)) => if u.password@ == password {
            LoginReply::Accepted { token: u.token }
        } else {
            LoginReply::Refused(Notice::BadCredentials)
        },
    }
}

/// A user name or password that is empty is refused before the store is asked.
pub fn check_credentials(user_name: &String, password: &String) -> (r: Option<Notice>)
    ensures
        r == credentials_refusal(user_name@, password@),
{
    if user_name.as_str().is_empty() || password.as_str().is_empty() {
        Some(Notice::EmptyCredentials)
    } else {
        None
    }
}

/// The answer once the user was looked up by name: a failed lookup is a
/// store error; a missing user and a wrong password get one and the same
/// refusal; otherwise the user's token is handed out.
pub fn login_reply(found: Result<Option<user::Model>, DbError>, password: &String) -> (r: LoginReply)
    ensures
        r == login_outcome(found, password@),
{
    match found {
        Err(_) => LoginReply::Refused(Notice::RemoteError),
        Ok(None) => LoginReply::Refused(Notice::BadCredentials),
        Ok(Some(u)) => {
            if u.password == *password {
                LoginReply::Accepted { token: u.token }
            } else {
                LoginReply::Refused(Notice::BadCredentials)
            }
        },
    }
}

/// Signing in after registering. Registration stores the record made from
/// the form, under the id the store assigns. When looking the name up, and
/// looking the token up, both find that stored user, then: the credentials
/// pass the emptiness check, every login answers with the stored token, the
/// cookie carrying that token is looked up, and authentication passes the
/// registered user, whose name "who am I" reports.
pub proof fn lemma_registered_user_signs_in(form: user::Model, record: user::Model, stored: user::Model)
    requires
        form.user_name@.len() > 0,
        form.password@.len() > 0,
        is_new_user_record(form, record),
        stored == (user::Model { id: stored.id, ..record }),
    ensures
        credentials_refusal(form.user_name@, form.password@) is None,
        login_outcome(Ok(Some(stored)), form.password@) == (LoginReply::Accepted { token: record.token }),
        auth_step(Some(record.token)) == AuthStep::Lookup(record.token),
        auth_outcome(Ok(Some(stored))) == Ok::<user::Model, Notice>(stored),
        stored.user_name@ == form.user_name@,
        stored.token == record.token,
{
}

} // verus!

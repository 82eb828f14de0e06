use vstd::prelude::*;

use crate::api::notice::Notice;
use crate::db::DbError;
use crate::db::users::CreateUserError;
use crate::entity::user;

verus! {

/// Whether a name may be registered, given what looking it up returned: a
/// failed lookup is a store error, a user found under the name means the name
/// is taken.
pub fn check_name_free(existing: Result<Option<user::Model>, DbError>) -> (r: Result<(), Notice>)
    ensures
        match existing {
            Err(_) => r == Err::<(), Notice>(Notice::RemoteError),
            Ok(Some(_)) => r == Err::<(), Notice>(Notice::UserNameTaken),
            Ok(None) => r == Ok::<(), Notice>(()),
        },
{
    match existing {
        Err(_) => Err(Notice::RemoteError),
        Ok(Some(_)) => Err(Notice::UserNameTaken),
        Ok(None) => Ok(()),
    }
}

/// The answer once the user was stored, or could not be: a name the store
/// refused as taken (two registrations of one name at once) is answered as a
/// taken name; a failed store or random generator is a remote error.
pub fn register_reply(created: Result<user::Model, CreateUserError>) -> (r: Notice)
    ensures
        r == (match created {
            Ok(_) => Notice::Registered,
            Err(CreateUserError::NameTaken) => Notice::UserNameTaken,
            Err(_) => Notice::RemoteError,
        }),
{
    match created {
        Ok(_) => Notice::Registered,
        Err(CreateUserError::NameTaken) => Notice::UserNameTaken,
        Err(_) => Notice::RemoteError,
    }
}

} // verus!

use vstd::prelude::*;

use crate::api::notice::Notice;
use crate::entity::user;

verus! {

/// The answer to "who am I": the session is valid, and this is the user's name.
pub fn me_reply(current_user: &user::Model) -> (r: (Notice, String))
    ensures
        r.0 == Notice::Verified,
        r.1@ == current_user.user_name@,
{
    (Notice::Verified, current_user.user_name.clone())
}

} // verus!

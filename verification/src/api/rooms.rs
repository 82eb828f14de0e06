use vstd::prelude::*;

use crate::api::notice::Notice;
use crate::db::DbError;
use crate::entity::room_user;
use crate::ws::hub::CreateRoomError;

verus! {

/// An empty room name is refused before anything is created.
pub fn check_room_name(room_name: &String) -> (r: Option<Notice>)
    ensures
        r == (if room_name@.len() == 0 {
            Some(Notice::EmptyRoomName)
        } else {
            None::<Notice>
        }),
{
    if room_name.as_str().is_empty() {
        Some(Notice::EmptyRoomName)
    } else {
        None
    }
}

/// The answer when the hub could not create the room.
pub fn create_room_error_notice(err: &CreateRoomError) -> (r: Notice)
    ensures
        r == (match err {
            CreateRoomError::DuplicateRoomName => Notice::DuplicateRoomName,
            CreateRoomError::Db(_) => Notice::RemoteError,
        }),
{
    match err {
        CreateRoomError::DuplicateRoomName => Notice::DuplicateRoomName,
        CreateRoomError::Db(_) => Notice::RemoteError,
    }
}

/// The answer once the creator was entered as the room's first member, or
/// the store failed.
pub fn create_room_reply(joined: Result<room_user::Model, DbError>) -> (r: Notice)
    ensures
        r == (match joined {
            Ok(_) => Notice::RoomCreated,
            Err(_) => Notice::RemoteError,
        }),
{
    match joined {
        Ok(_) => Notice::RoomCreated,
        Err(_) => Notice::RemoteError,
    }
}

} // verus!

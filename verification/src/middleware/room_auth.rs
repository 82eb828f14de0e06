use vstd::prelude::*;

use crate::api::notice::Notice;
use crate::db::DbError;
use crate::entity::RoomId;

verus! {

/// The room a request addresses: its `room_id` path parameter, or room 0
/// (which no room has) when the parameter is missing.
pub fn room_from_path(room_id: Option<u32>) -> (r: RoomId)
    ensures
        r == RoomId(match room_id {
            Some(id) => id,
            None => 0,
        }),
{
    match room_id {
        Some(id) => RoomId(id),
        None => RoomId(0),
    }
}

/// The verdict once membership was looked up: a member passes into the
/// room; anyone else is told the room is not theirs; a failed lookup is a
/// store error.
pub fn room_access(room_id: RoomId, is_member: Result<bool, DbError>) -> (r: Result<RoomId, Notice>)
    ensures
        r == (match is_member {
            Ok(true) => Ok::<RoomId, Notice>(room_id),
            Ok(false) => Err::<RoomId, Notice>(Notice::NotRoomMember),
            Err(_) => Err::<RoomId, Notice>(Notice::RemoteError),
        }),
{
    match is_member {
        Ok(true) => Ok(room_id),
        Ok(false) => Err(Notice::NotRoomMember),
        Err(_) => Err(Notice::RemoteError),
    }
}

} // verus!

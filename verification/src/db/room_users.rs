use vstd::prelude::*;

use crate::entity::RoomId;
use crate::entity::room_user;

verus! {

/// The record `join_room` stores: `user_id` is a member of `room_id`.
pub fn membership_record(room_id: RoomId, user_id: u32) -> (r: room_user::Model)
    ensures
        r == (room_user::Model { room_id: room_id.0, user_id }),
{
    room_user::Model { room_id: room_id.0, user_id }
}

} // verus!

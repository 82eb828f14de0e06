use vstd::prelude::*;

pub mod message;
pub mod room;
pub mod room_user;
pub mod user;

verus! {

/// The identifier of a chat room.
#[derive(Clone, Copy, Debug, PartialEq, Eq, Hash, Structural)]
pub struct RoomId(pub u32);

} // verus!

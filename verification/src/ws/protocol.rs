use vstd::prelude::*;

use crate::entity::message;
use crate::ws::session::{SessionHandle, SessionId};

verus! {

/// What a live room is told to do.
pub enum RoomCommand {
    /// A session enters the room.
    Join { session: SessionHandle },
    /// A session leaves the room.
    Leave { session_id: SessionId },
    /// A member posted a message.
    ClientMessage { message: message::Model },
    /// The room shuts down.
    Stop,
}

} // verus!

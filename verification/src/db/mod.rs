use vstd::prelude::*;

pub mod messages;
pub mod room_users;
pub mod rooms;
pub mod users;

verus! {

/// A failure reported by the store, with the store's own description.
#[derive(Clone, Debug, PartialEq, Eq)]
pub struct DbError {
    pub reason: String,
}

} // verus!

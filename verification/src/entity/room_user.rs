use vstd::prelude::*;

verus! {

/// The membership of one user in one room.
#[derive(Clone, Copy, Debug, PartialEq, Eq, Structural)]
pub struct Model {
    pub room_id: u32,
    pub user_id: u32,
}

} // verus!

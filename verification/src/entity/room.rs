use vstd::prelude::*;

verus! {

/// A chat room as the server stores it.
#[derive(Clone, Debug, PartialEq, Eq)]
pub struct Model {
    pub id: u32,
    pub room_name: String,
    pub password: String,
}

} // verus!

use vstd::prelude::*;

use crate::entity::room;

verus! {

/// The record `create_room` stores for `form`: its name and password; the
/// id is left at 0 for the store to assign.
pub fn new_room_record(form: room::Model) -> (r: room::Model)
    ensures
        r == (room::Model { id: 0, ..form }),
{
    room::Model { id: 0, ..form }
}

} // verus!

use vstd::prelude::*;

verus! {

/// A chat message as the server stores and broadcasts it.
#[derive(Clone, Debug, PartialEq, Eq)]
pub struct Model {
    pub id: u32,
    pub user_name: String,
    pub content: String,
    /// When the message was stored: nanoseconds since the Unix epoch, which
    /// holds every instant of the clock exactly.
    pub timestamp: i128,
    pub room_id: Option<u32>,
    pub user_id: Option<u32>,
}

impl Model {
    /// A field-by-field copy of the message.
    pub fn duplicate(&self) -> (r: Model)
        ensures
            r == *self,
    {
        Model {
            id: self.id,
            user_name: self.user_name.clone(),
            content: self.content.clone(),
            timestamp: self.timestamp,
            room_id: self.room_id,
            user_id: self.user_id,
        }
    }
}

} // verus!

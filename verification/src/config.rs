use vstd::prelude::*;

verus! {

/// Capacity of the command channel of every live room.
pub const WS_CHANNEL_BUFFER: usize = 64;

} // verus!

use vstd::prelude::*;

use std::collections::HashMap;

use crate::db::DbError;
use crate::entity::RoomId;
use crate::entity::room;

verus! {

broadcast use vstd::std_specs::hash::group_hash_axioms;

/// Why a room could not be created.
pub enum CreateRoomError {
    /// The store could not be reached.
    Db(DbError),
    /// A room with that name exists already.
    DuplicateRoomName,
}

/// The live rooms of the hub: for each room id, the channel its room listens on.
pub struct RoomRegistry<S> {
    senders: HashMap<u32, S>,
}

impl<S> RoomRegistry<S> {
    /// Room id to channel.
    pub closed spec fn channels(&self) -> Map<u32, S> {
        self.senders@
    }

    /// A hub with no live room.
    pub fn new() -> (r: RoomRegistry<S>)
        ensures
            r.channels() == Map::<u32, S>::empty(),
    {
        RoomRegistry { senders: HashMap::new() }
    }

    /// Makes `sender` the channel of `room_id`, replacing an earlier one.
    pub fn register(&mut self, room_id: RoomId, sender: S)
        ensures
            final(self).channels() == old(self).channels().insert(room_id.0, sender),
    {
        let _earlier = self.senders.insert(room_id.0, sender);
    }

    /// Registers every room of `rooms` with its channel, in order, so that a
    /// later entry for one id replaces an earlier one. Afterwards a room is
    /// live exactly when it was live before or is listed in `rooms`.
    pub fn register_all(&mut self, rooms: Vec<(RoomId, S)>)
        ensures
            final(self).channels() == with_rooms(old(self).channels(), rooms@),
            forall|k: u32|
                #[trigger] final(self).channels().contains_key(k) <==> old(self).channels().contains_key(k)
                    || exists|i: int| 0 <= i < rooms@.len() && (#[trigger] rooms@[i]).0.0 == k,
    {
        let ghost start = self.channels();
        let ghost all = rooms@;
        let ghost mut done: int = 0;
        let mut rest = rooms;
        while rest.len() > 0
            invariant
                0 <= done <= all.len(),
                rest@ == all.skip(done),
                self.channels() == with_rooms(start, all.take(done)),
            decreases rest.len(),
        {
            proof {
                assert(rest@[0] == all[done]);
                assert(all.take(done + 1).drop_last() == all.take(done));
                assert(all.take(done + 1).last() == all[done]);
            }
            let (room_id, sender) = rest.remove(0);
            self.register(room_id, sender);
            proof {
                done = done + 1;
                assert(rest@ == all.skip(done));
            }
        }
        proof {
            assert(all.take(done) == all);
            lemma_with_rooms_keys(start, all);
        }
    }

    /// The channel of `room_id`, if the room is live.
    pub fn sender(&self, room_id: RoomId) -> (r: Option<&S>)
        ensures
            match r {
                Some(s) => self.channels().contains_key(room_id.0) && *s == self.channels()[room_id.0],
                None => !self.channels().contains_key(room_id.0),
            },
    {
        self.senders.get(&room_id.0)
    }
}

/// `channels` after registering each entry of `rooms` in turn.
pub open spec fn with_rooms<S>(channels: Map<u32, S>, rooms: Seq<(RoomId, S)>) -> Map<u32, S>
    decreases rooms.len(),
{
    if rooms.len() == 0 {
        channels
    } else {
        with_rooms(channels, rooms.drop_last()).insert(rooms.last().0.0, rooms.last().1)
    }
}

/// After registering a list of rooms, a room is live exactly when it was
/// live before or is on the list.
pub proof fn lemma_with_rooms_keys<S>(channels: Map<u32, S>, rooms: Seq<(RoomId, S)>)
    ensures
        forall|k: u32|
            #[trigger] with_rooms(channels, rooms).contains_key(k) <==> channels.contains_key(k)
                || exists|i: int| 0 <= i < rooms.len() && (#[trigger] rooms[i]).0.0 == k,
    decreases rooms.len(),
{
    if rooms.len() > 0 {
        let init = rooms.drop_last();
        let last = rooms.last();
        lemma_with_rooms_keys(channels, init);
        assert(with_rooms(channels, rooms) == with_rooms(channels, init).insert(last.0.0, last.1));
        assert forall|k: u32|
            #[trigger] with_rooms(channels, rooms).contains_key(k) <==> channels.contains_key(k)
                || exists|i: int| 0 <= i < rooms.len() && (#[trigger] rooms[i]).0.0 == k by {
            let listed_before = exists|i: int| 0 <= i < init.len() && (#[trigger] init[i]).0.0 == k;
            assert(with_rooms(channels, init).contains_key(k) <==> channels.contains_key(k) || listed_before);
            if listed_before {
                let i = choose|i: int| 0 <= i < init.len() && (#[trigger] init[i]).0.0 == k;
                assert(init[i] == rooms[i]);
                assert(rooms[i].0.0 == k);
            }
            if k == last.0.0 {
                assert(rooms[rooms.len() - 1].0.0 == k);
            }
            if exists|i: int| 0 <= i < rooms.len() && (#[trigger] rooms[i]).0.0 == k {
                let i = choose|i: int| 0 <= i < rooms.len() && (#[trigger] rooms[i]).0.0 == k;
                if i < init.len() {
                    assert(init[i] == rooms[i]);
                    assert(init[i].0.0 == k);
                } else {
                    assert(rooms[i] == last);
                }
            }
        }
    }
}

/// A registered room is found under its id with the channel it was
/// registered with, and registering leaves every other room's channel as it was.
pub proof fn lemma_register_then_lookup<S>(channels: Map<u32, S>, room_id: RoomId, sender: S, other: u32)
    requires
        other != room_id.0,
    ensures
        channels.insert(room_id.0, sender).contains_key(room_id.0),
        channels.insert(room_id.0, sender)[room_id.0] == sender,
        channels.insert(room_id.0, sender).contains_key(other) == channels.contains_key(other),
        channels.contains_key(other) ==> channels.insert(room_id.0, sender)[other] == channels[other],
{
}

/// The verdict on a requested room name, given what looking the name up in
/// the store returned: a failed lookup is a store error, a room found under
/// the name is a duplicate, otherwise the room may be created.
pub fn check_room_name_free(existing: Result<Option<room::Model>, DbError>) -> (r: Result<(), CreateRoomError>)
    ensures
        match existing {
            Err(e) => r == Err::<(), CreateRoomError>(CreateRoomError::Db(e)),
            Ok(Some(_)) => r == Err::<(), CreateRoomError>(CreateRoomError::DuplicateRoomName),
            Ok(None) => r == Ok::<(), CreateRoomError>(()),
        },
{
    match existing {
        Err(e) => Err(CreateRoomError::Db(e)),
        Ok(Some(_)) => Err(CreateRoomError::DuplicateRoomName),
        Ok(None) => Ok(()),
    }
}

} // verus!

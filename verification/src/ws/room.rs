use vstd::prelude::*;

use crate::entity::RoomId;
use crate::entity::message;
use crate::ws::protocol::RoomCommand;
use crate::ws::session::{SessionHandle, SessionId};

verus! {

/// The key a member is found by: the text of its session id.
pub open spec fn session_key(h: SessionHandle) -> Seq<char> {
    h.session_id.0@
}

/// No two members share a session id.
pub open spec fn distinct_sessions(s: Seq<SessionHandle>) -> bool {
    forall|i: int, j: int|
        0 <= i < s.len() && 0 <= j < s.len() && i != j ==> session_key(s[i]) != session_key(s[j])
}

/// Some member of `s` has the session id `key`.
pub open spec fn has_session(s: Seq<SessionHandle>, key: Seq<char>) -> bool {
    exists|i: int| 0 <= i < s.len() && session_key(#[trigger] s[i]) == key
}

/// `after` is `before` once `h` joined: a member with the same session id is
/// replaced in place, otherwise `h` is added at the end.
pub open spec fn joined(before: Seq<SessionHandle>, h: SessionHandle, after: Seq<SessionHandle>) -> bool {
    ||| exists|i: int|
        0 <= i < before.len() && session_key(#[trigger] before[i]) == session_key(h) && after
            == before.update(i, h)
    ||| !has_session(before, session_key(h)) && after == before.push(h)
}

/// `after` is `before` once the session `key` left: its member is taken out,
/// the others keep their order; nothing changes when no member has that id.
pub open spec fn left(before: Seq<SessionHandle>, key: Seq<char>, after: Seq<SessionHandle>) -> bool {
    ||| exists|i: int|
        0 <= i < before.len() && session_key(#[trigger] before[i]) == key && after == before.remove(
            i,
        )
    ||| !has_session(before, key) && after == before
}

/// What the room must do after a command.
pub enum RoomStep {
    /// Nothing beyond the change of membership; wait for the next command.
    Continue,
    /// Store the message, then deliver what was stored to every member.
    Store(message::Model),
    /// The message names another room (or none); it is not stored.
    Refuse,
    /// Shut the room down.
    Stop,
}

/// The membership of one live room.
///
/// The members are kept in a `Vec` in which no two share a session id,
/// rather than in a map keyed by the session id: a session id is a
/// `String`, and vstd specifies `HashMap` lookups and inserts only for keys
/// whose equality it models (integers and the like), so over a `String` key
/// not even the length after one insert can be proved. The `Vec` with the
/// distinct-session invariant (`wf`) gives the same membership with every
/// join and leave proved.
pub struct RoomRoster {
    room_id: RoomId,
    members: Vec<SessionHandle>,
}

impl RoomRoster {
    pub closed spec fn room(&self) -> RoomId {
        self.room_id
    }

    /// The members, in the order they joined.
    pub closed spec fn roster(&self) -> Seq<SessionHandle> {
        self.members@
    }

    pub open spec fn wf(&self) -> bool {
        distinct_sessions(self.roster())
    }

    /// An empty room.
    pub fn new(room_id: RoomId) -> (r: RoomRoster)
        ensures
            r.wf(),
            r.room() == room_id,
            r.roster() == Seq::<SessionHandle>::empty(),
    {
        RoomRoster { room_id, members: Vec::new() }
    }

    pub fn room_id(&self) -> (r: RoomId)
        ensures
            r == self.room(),
    {
        self.room_id
    }

    /// The members a stored message is delivered to.
    pub fn members(&self) -> (r: &Vec<SessionHandle>)
        ensures
            r@ == self.roster(),
    {
        &self.members
    }

    fn position(&self, id: &SessionId) -> (r: Option<usize>)
        ensures
            match r {
                Some(i) => i < self.roster().len() && session_key(self.roster()[i as int]) == id.0@,
                None => !has_session(self.roster(), id.0@),
            },
    {
        let mut k: usize = 0;
        while k < self.members.len()
            invariant
                k <= self.members@.len(),
                forall|j: int| 0 <= j < k ==> session_key(#[trigger] self.members@[j]) != id.0@,
            decreases self.members@.len() - k,
        {
            if self.members[k].session_id.0 == id.0 {
                return Some(k);
            }
            k = k + 1;
        }
        None
    }

    /// Adds `session`, replacing a member with the same session id.
    pub fn join(&mut self, session: SessionHandle)
        requires
            old(self).wf(),
        ensures
            final(self).wf(),
            final(self).room() == old(self).room(),
            joined(old(self).roster(), session, final(self).roster()),
    {
        let ghost before = self.members@;
        match self.position(&session.session_id) {
            Some(i) => {
                self.members.set(i, session);
                assert(self.members@ == before.update(i as int, session));
                assert forall|a: int, b: int|
                    0 <= a < self.members@.len() && 0 <= b < self.members@.len() && a != b implies session_key(
                    self.members@[a],
                ) != session_key(self.members@[b]) by {
                    assert(session_key(self.members@[a]) == session_key(before[a]));
                    assert(session_key(self.members@[b]) == session_key(before[b]));
                }
            },
            None => {
                self.members.push(session);
                assert(self.members@ == before.push(session));
                assert forall|a: int, b: int|
                    0 <= a < self.members@.len() && 0 <= b < self.members@.len() && a != b implies session_key(
                    self.members@[a],
                ) != session_key(self.members@[b]) by {
                    if a == before.len() {
                        assert(session_key(before[b]) != session_key(session));
                    } else if b == before.len() {
                        assert(session_key(before[a]) != session_key(session));
                    }
                }
            },
        }
    }

    /// Takes out the member with session id `session_id`, if any.
    pub fn leave(&mut self, session_id: &SessionId)
        requires
            old(self).wf(),
        ensures
            final(self).wf(),
            final(self).room() == old(self).room(),
            left(old(self).roster(), session_id.0@, final(self).roster()),
    {
        let ghost before = self.members@;
        match self.position(session_id) {
            Some(i) => {
                let _gone = self.members.remove(i);
                assert(self.members@ == before.remove(i as int));
                assert forall|a: int, b: int|
                    0 <= a < self.members@.len() && 0 <= b < self.members@.len() && a != b implies session_key(
                    self.members@[a],
                ) != session_key(self.members@[b]) by {
                    let a0 = if a < i { a } else { a + 1 };
                    let b0 = if b < i { b } else { b + 1 };
                    assert(self.members@[a] == before[a0]);
                    assert(self.members@[b] == before[b0]);
                }
            },
            None => {},
        }
    }

    /// Applies one command: membership changes are made here; a posted
    /// message that names this room is handed back as it came, to be stored
    /// and delivered, and one that names another room, or none, is refused.
    pub fn apply(&mut self, cmd: RoomCommand) -> (step: RoomStep)
        requires
            old(self).wf(),
        ensures
            final(self).wf(),
            final(self).room() == old(self).room(),
            match cmd {
                RoomCommand::Join { session } => step is Continue && joined(
                    old(self).roster(),
                    session,
                    final(self).roster(),
                ),
                RoomCommand::Leave { session_id } => step is Continue && left(
                    old(self).roster(),
                    session_id.0@,
                    final(self).roster(),
                ),
                RoomCommand::ClientMessage { message } => final(self).roster() == old(
                    self,
                ).roster() && step == (if message.room_id == Some(old(self).room().0) {
                    RoomStep::Store(message)
                } else {
                    RoomStep::Refuse
                }),
                RoomCommand::Stop => step is Stop && final(self).roster() == old(self).roster(),
            },
    {
        match cmd {
            RoomCommand::Join { session } => {
                self.join(session);
                RoomStep::Continue
            },
            RoomCommand::Leave { session_id } => {
                self.leave(&session_id);
                RoomStep::Continue
            },
            RoomCommand::ClientMessage { message } => {
                if message.room_id == Some(self.room_id.0) {
                    RoomStep::Store(message)
                } else {
                    RoomStep::Refuse
                }
            },
            RoomCommand::Stop => RoomStep::Stop,
        }
    }
}

/// A session that joins a room it was not in and then leaves it leaves the
/// membership as it was.
pub proof fn lemma_join_then_leave_restores(
    before: Seq<SessionHandle>,
    h: SessionHandle,
    during: Seq<SessionHandle>,
    after: Seq<SessionHandle>,
)
    requires
        distinct_sessions(before),
        !has_session(before, session_key(h)),
        joined(before, h, during),
        left(during, session_key(h), after),
    ensures
        after == before,
{
    assert(during == before.push(h));
    assert(has_session(during, session_key(h))) by {
        assert(session_key(during[before.len() as int]) == session_key(h));
    }
    let i = choose|i: int|
        0 <= i < during.len() && session_key(#[trigger] during[i]) == session_key(h) && after
            == during.remove(i);
    if i < before.len() {
        assert(during[i] == before[i]);
    }
    assert(i == before.len());
    assert(after =~= before);
}

/// After a session joins, it is a member, and the member found under its id is
/// the handle that joined.
pub proof fn lemma_joined_is_member(before: Seq<SessionHandle>, h: SessionHandle, after: Seq<SessionHandle>)
    requires
        distinct_sessions(before),
        joined(before, h, after),
    ensures
        exists|i: int| 0 <= i < after.len() && after[i] == h,
{
    if has_session(before, session_key(h)) && after != before.push(h) {
        let i = choose|i: int|
            0 <= i < before.len() && session_key(#[trigger] before[i]) == session_key(h) && after
                == before.update(i, h);
        assert(after[i] == h);
    } else {
        assert(after[before.len() as int] == h);
    }
}

/// After a session leaves, no member has its id.
pub proof fn lemma_left_is_not_member(before: Seq<SessionHandle>, key: Seq<char>, after: Seq<SessionHandle>)
    requires
        distinct_sessions(before),
        left(before, key, after),
    ensures
        !has_session(after, key),
{
    if has_session(before, key) {
        let i = choose|i: int|
            0 <= i < before.len() && session_key(#[trigger] before[i]) == key && after == before.remove(i);
        assert forall|j: int| 0 <= j < after.len() implies session_key(#[trigger] after[j]) != key by {
            let j0 = if j < i { j } else { j + 1 };
            assert(after[j] == before[j0]);
        }
    }
}

} // verus!

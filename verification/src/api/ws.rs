use vstd::prelude::*;

use crate::api::notice::Notice;
use crate::entity::{message, user};
use crate::ws::protocol::RoomCommand;

verus! {

/// The channel a socket of a room talks to: the live room's channel, or the
/// refusal that the room is not one the user can talk in when it is not live.
pub fn socket_channel<S>(live: Option<S>) -> (r: Result<S, Notice>)
    ensures
        r == (match live {
            Some(s) => Ok::<S, Notice>(s),
            None => Err::<S, Notice>(Notice::NotRoomMember),
        }),
{
    match live {
        Some(s) => Ok(s),
        None => Err(Notice::NotRoomMember),
    }
}

/// What a member's socket delivered.
pub enum InboundFrame {
    /// A text frame; the message it decodes to, `None` when it is not a message.
    Text(Option<message::Model>),
    /// Any other frame, an error, or the end of the stream.
    Other,
}

/// What the session does with a frame.
pub enum FrameAction {
    /// Pass this command to the room.
    Forward(RoomCommand),
    /// Drop the frame and read the next one.
    Skip,
    /// Stop reading from the socket.
    Close,
}

/// The answer to one frame: a message signed with the session user's name is
/// passed to the room as it came; a text frame that is not a message or is
/// signed by anyone else is dropped; any other frame ends the reading.
pub open spec fn frame_action(frame: InboundFrame, session_user: user::Model) -> FrameAction {
    match frame {
        InboundFrame::Other => FrameAction::Close,
        InboundFrame::Text(None) => FrameAction::Skip,
        InboundFrame::Text(Some(m)) => if m.user_name@ == session_user.user_name@ {
            FrameAction::Forward(RoomCommand::ClientMessage { message: m })
        } else {
            FrameAction::Skip
        },
    }
}

/// The session's answer to one frame (see `frame_action`).
pub fn inbound_frame(frame: InboundFrame, session_user: &user::Model) -> (r: FrameAction)
    ensures
        r == frame_action(frame, *session_user),
{
    match frame {
        InboundFrame::Other => FrameAction::Close,
        InboundFrame::Text(None) => FrameAction::Skip,
        InboundFrame::Text(Some(m)) => {
            if m.user_name == session_user.user_name {
                FrameAction::Forward(RoomCommand::ClientMessage { message: m })
            } else {
                FrameAction::Skip
            }
        },
    }
}

/// Where a member's session stands.
#[derive(Clone, Copy, Debug, PartialEq, Eq, Structural)]
pub enum SessionPhase {
    /// The join was handed to the room; its delivery is awaited.
    Joining,
    /// The session is a member and reads its socket.
    Open,
    /// The session is over.
    Closed,
}

/// What happened to a session.
pub enum SessionEvent {
    /// The join reached the room (`true`) or could not be delivered (`false`).
    JoinSent(bool),
    /// The socket delivered a frame.
    Frame(InboundFrame),
    /// The task writing the room's messages to the socket ended.
    WriterDone,
}

/// What the session does next.
pub enum SessionAction {
    /// Read the next frame.
    ReadNext,
    /// Pass this command to the room, then read the next frame.
    Forward(RoomCommand),
    /// Tell the room the session leaves, then end.
    Leave,
    /// End without telling the room anything more.
    Stop,
}

/// One step of a session: a session whose join failed ends without leaving;
/// an open session answers frames as `frame_action` says, and leaves once its
/// reading or its writing ends; a closed session does nothing more.
pub open spec fn session_transition(
    phase: SessionPhase,
    event: SessionEvent,
    session_user: user::Model,
) -> (SessionPhase, SessionAction) {
    match phase {
        SessionPhase::Joining => match event {
            SessionEvent::JoinSent(true) => (SessionPhase::Open, SessionAction::ReadNext),
            _ => (SessionPhase::Closed, SessionAction::Stop),
        },
        SessionPhase::Open => match event {
            SessionEvent::JoinSent(_) => (SessionPhase::Open, SessionAction::ReadNext),
            SessionEvent::Frame(frame) => match frame_action(frame, session_user) {
                FrameAction::Forward(cmd) => (SessionPhase::Open, SessionAction::Forward(cmd)),
                FrameAction::Skip => (SessionPhase::Open, SessionAction::ReadNext),
                FrameAction::Close => (SessionPhase::Closed, SessionAction::Leave),
            },
            SessionEvent::WriterDone => (SessionPhase::Closed, SessionAction::Leave),
        },
        SessionPhase::Closed => (SessionPhase::Closed, SessionAction::Stop),
    }
}

/// The next phase and action of a session (see `session_transition`).
pub fn session_step(phase: SessionPhase, event: SessionEvent, session_user: &user::Model) -> (r: (
    SessionPhase,
    SessionAction,
))
    ensures
        r == session_transition(phase, event, *session_user),
{
    match phase {
        SessionPhase::Joining => match event {
            SessionEvent::JoinSent(true) => (SessionPhase::Open, SessionAction::ReadNext),
            _ => (SessionPhase::Closed, SessionAction::Stop),
        },
        SessionPhase::Open => match event {
            SessionEvent::JoinSent(_) => (SessionPhase::Open, SessionAction::ReadNext),
            SessionEvent::Frame(frame) => match inbound_frame(frame, session_user) {
                FrameAction::Forward(cmd) => (SessionPhase::Open, SessionAction::Forward(cmd)),
                FrameAction::Skip => (SessionPhase::Open, SessionAction::ReadNext),
                FrameAction::Close => (SessionPhase::Closed, SessionAction::Leave),
            },
            SessionEvent::WriterDone => (SessionPhase::Closed, SessionAction::Leave),
        },
        SessionPhase::Closed => (SessionPhase::Closed, SessionAction::Stop),
    }
}

/// The actions of a session that starts in `phase` and meets `events` in turn.
pub open spec fn session_run(phase: SessionPhase, events: Seq<SessionEvent>, session_user: user::Model) -> Seq<
    SessionAction,
>
    decreases events.len(),
{
    if events.len() == 0 {
        Seq::empty()
    } else {
        let (next, action) = session_transition(phase, events[0], session_user);
        seq![action] + session_run(next, events.drop_first(), session_user)
    }
}

/// What each event does to a session, stated in the event itself: a
/// delivered join opens a joining session, an undelivered one ends it
/// without leaving; an open session forwards, unchanged, a message signed
/// with its user's name, drops (and keeps reading past) a text frame that is
/// not a message or is signed by anyone else, and leaves when a non-text
/// frame arrives or the writer ends; a closed session only stops.
pub proof fn lemma_session_events(event: SessionEvent, u: user::Model)
    ensures
        session_transition(SessionPhase::Joining, SessionEvent::JoinSent(true), u) == (
        SessionPhase::Open,
        SessionAction::ReadNext,
        ),
        session_transition(SessionPhase::Joining, SessionEvent::JoinSent(false), u) == (
        SessionPhase::Closed,
        SessionAction::Stop,
        ),
        session_transition(SessionPhase::Open, SessionEvent::Frame(InboundFrame::Text(None)), u) == (
        SessionPhase::Open,
        SessionAction::ReadNext,
        ),
        forall|m: message::Model|
            #![trigger session_transition(SessionPhase::Open, SessionEvent::Frame(InboundFrame::Text(Some(m))), u)]
            m.user_name@ == u.user_name@ ==> session_transition(
                SessionPhase::Open,
                SessionEvent::Frame(InboundFrame::Text(Some(m))),
                u,
            ) == (SessionPhase::Open, SessionAction::Forward(RoomCommand::ClientMessage { message: m })),
        forall|m: message::Model|
            #![trigger session_transition(SessionPhase::Open, SessionEvent::Frame(InboundFrame::Text(Some(m))), u)]
            m.user_name@ != u.user_name@ ==> session_transition(
                SessionPhase::Open,
                SessionEvent::Frame(InboundFrame::Text(Some(m))),
                u,
            ) == (SessionPhase::Open, SessionAction::ReadNext),
        session_transition(SessionPhase::Open, SessionEvent::Frame(InboundFrame::Other), u) == (
        SessionPhase::Closed,
        SessionAction::Leave,
        ),
        session_transition(SessionPhase::Open, SessionEvent::WriterDone, u) == (
        SessionPhase::Closed,
        SessionAction::Leave,
        ),
        session_transition(SessionPhase::Closed, event, u) == (SessionPhase::Closed, SessionAction::Stop),
{
}

/// An open session that meets only text frames stays in the room: it never
/// leaves or stops, whatever the frames hold, however malformed.
pub proof fn lemma_text_frames_keep_session_open(events: Seq<SessionEvent>, u: user::Model)
    requires
        forall|i: int|
            0 <= i < events.len() ==> (#[trigger] events[i]) is Frame && events[i]->Frame_0 is Text,
    ensures
        session_run(SessionPhase::Open, events, u).len() == events.len(),
        forall|i: int|
            0 <= i < events.len() ==> (#[trigger] session_run(SessionPhase::Open, events, u)[i]) is ReadNext
                || session_run(SessionPhase::Open, events, u)[i] is Forward,
    decreases events.len(),
{
    if events.len() > 0 {
        let rest = events.drop_first();
        assert forall|i: int| 0 <= i < rest.len() implies (#[trigger] rest[i]) is Frame && rest[i]->Frame_0 is Text by {
            assert(rest[i] == events[i + 1]);
        }
        lemma_text_frames_keep_session_open(rest, u);
        assert(events[0] is Frame);
        let (next, action) = session_transition(SessionPhase::Open, events[0], u);
        assert(next == SessionPhase::Open);
        assert(action is ReadNext || action is Forward);
        let run = session_run(SessionPhase::Open, events, u);
        let tail = session_run(SessionPhase::Open, rest, u);
        assert(run == seq![action] + tail);
        assert forall|i: int| 0 <= i < events.len() implies (#[trigger] run[i]) is ReadNext || run[i] is Forward by {
            if i > 0 {
                assert(run[i] == tail[i - 1]);
            }
        }
    }
}

/// A closed session only stops.
pub proof fn lemma_closed_session_stops(events: Seq<SessionEvent>, session_user: user::Model)
    ensures
        forall|i: int|
            0 <= i < events.len() ==> #[trigger] session_run(SessionPhase::Closed, events, session_user)[i]
                is Stop,
        session_run(SessionPhase::Closed, events, session_user).len() == events.len(),
    decreases events.len(),
{
    if events.len() > 0 {
        let rest = events.drop_first();
        lemma_closed_session_stops(rest, session_user);
        let run = session_run(SessionPhase::Closed, events, session_user);
        let tail = session_run(SessionPhase::Closed, rest, session_user);
        assert(run == seq![SessionAction::Stop] + tail);
        assert forall|i: int| 0 <= i < events.len() implies #[trigger] run[i] is Stop by {
            if i > 0 {
                assert(run[i] == tail[i - 1]);
            }
        }
    }
}

/// An open session leaves at most once, and after leaving it only stops.
pub proof fn lemma_open_session_leaves_last(events: Seq<SessionEvent>, session_user: user::Model)
    ensures
        session_run(SessionPhase::Open, events, session_user).len() == events.len(),
        forall|i: int, j: int|
            0 <= i < j < events.len() && (#[trigger] session_run(SessionPhase::Open, events, session_user)[i]
                is Leave) ==> (#[trigger] session_run(SessionPhase::Open, events, session_user)[j] is Stop),
    decreases events.len(),
{
    if events.len() > 0 {
        let rest = events.drop_first();
        let (next, action) = session_transition(SessionPhase::Open, events[0], session_user);
        let run = session_run(SessionPhase::Open, events, session_user);
        let tail = session_run(next, rest, session_user);
        assert(run == seq![action] + tail);
        if next == SessionPhase::Closed {
            lemma_closed_session_stops(rest, session_user);
        } else {
            lemma_open_session_leaves_last(rest, session_user);
        }
        assert(tail.len() == rest.len());
        assert forall|i: int, j: int|
            0 <= i < j < events.len() && (#[trigger] run[i] is Leave) implies (#[trigger] run[j] is Stop) by {
            assert(run[j] == tail[j - 1]);
            if i > 0 {
                assert(run[i] == tail[i - 1]);
            } else {
                assert(next == SessionPhase::Closed);
            }
        }
    }
}

/// A session from its start: it forwards nothing and does not leave unless
/// its first event is a delivered join, it leaves at most once, and after
/// leaving it only stops.
pub proof fn lemma_session_lifecycle(events: Seq<SessionEvent>, session_user: user::Model)
    ensures
        session_run(SessionPhase::Joining, events, session_user).len() == events.len(),
        forall|i: int|
            0 <= i < events.len() && (#[trigger] session_run(SessionPhase::Joining, events, session_user)[i]
                is Forward || session_run(SessionPhase::Joining, events, session_user)[i] is Leave)
                ==> events[0] == SessionEvent::JoinSent(true),
        forall|i: int, j: int|
            0 <= i < j < events.len() && (#[trigger] session_run(SessionPhase::Joining, events, session_user)[i]
                is Leave) ==> (#[trigger] session_run(SessionPhase::Joining, events, session_user)[j] is Stop),
{
    if events.len() > 0 {
        let rest = events.drop_first();
        let (next, action) = session_transition(SessionPhase::Joining, events[0], session_user);
        let run = session_run(SessionPhase::Joining, events, session_user);
        let tail = session_run(next, rest, session_user);
        assert(run == seq![action] + tail);
        if next == SessionPhase::Closed {
            lemma_closed_session_stops(rest, session_user);
        } else {
            lemma_open_session_leaves_last(rest, session_user);
        }
        assert(tail.len() == rest.len());
        assert forall|i: int|
            0 <= i < events.len() && (#[trigger] run[i] is Forward || run[i] is Leave) implies events[0]
            == SessionEvent::JoinSent(true) by {
            if i > 0 {
                assert(run[i] == tail[i - 1]);
                if next == SessionPhase::Closed {
                    assert(tail[i - 1] is Stop);
                }
            }
            if events[0] != SessionEvent::JoinSent(true) {
                assert(next == SessionPhase::Closed);
            }
        }
        assert forall|i: int, j: int|
            0 <= i < j < events.len() && (#[trigger] run[i] is Leave) implies (#[trigger] run[j] is Stop) by {
            assert(run[j] == tail[j - 1]);
            assert(run[i] == tail[i - 1]);
        }
    }
}

} // verus!

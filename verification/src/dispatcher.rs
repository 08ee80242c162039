//! What the broker does with one command from one session.
//!
//! Carrying out a command changes the room index at most, and says what the
//! connection handler has to do next: write lines back to the sender, echo
//! the sender's own text, or carry out a broadcast. Every command is complete
//! in itself; nothing is remembered between two of them but the index.
use vstd::prelude::*;
use vstd::string::StringExecFns;
use crate::broadcaster::{broadcast_to_room, Delivery, DeliveryView};
use crate::command::{parse, parse_line, Command, CommandView};
use crate::lists::{texts, Text};
use crate::membership::Memberships;
use crate::room_index::{LeaveResult, RoomIndex};

verus! {

/// What the connection handler has to do after a command.
#[derive(Clone, Debug, PartialEq, Eq)]
pub enum Reaction {
    /// Write these lines to the sender, in this order.
    Reply(Vec<String>),
    /// Write the sender's own text back to it, and to nobody else.
    Echo(String),
    /// Carry out this broadcast.
    Deliver(Delivery),
}

/// A reaction as contracts see it.
pub enum ReactionView {
    Reply(Seq<Text>),
    Echo(Text),
    Deliver(DeliveryView),
}

impl View for Reaction {
    type V = ReactionView;

    open spec fn view(&self) -> ReactionView {
        match self {
            Reaction::Reply(lines) => ReactionView::Reply(texts(lines@)),
            Reaction::Echo(text) => ReactionView::Echo(text@),
            Reaction::Deliver(delivery) => ReactionView::Deliver(delivery@),
        }
    }
}

/// The line that answers a request to join `room`.
pub open spec fn join_text(room: Text) -> Text {
    if room.len() == 0 {
        "Please provide a room name to subscribe."@
    } else {
        "joined room "@ + room
    }
}

/// The line that answers a request to leave `room`.
pub open spec fn leave_text(was_member: bool, room: Text) -> Text {
    if was_member {
        "left room "@ + room
    } else {
        "not a member of room "@ + room
    }
}

/// The room index after `session` sent `command`.
pub open spec fn index_after(index: Memberships, session: Text, command: CommandView) -> Memberships {
    match command {
        CommandView::Subscribe { room } => index.joined(session, room),
        CommandView::Unsubscribe { room } => index.left(session, room),
        _ => index,
    }
}

/// What is to be done after `session` sent `command`, the index being as it
/// was before the command.
pub open spec fn reaction_to(index: Memberships, session: Text, command: CommandView) -> ReactionView {
    match command {
        CommandView::Subscribe { room } => ReactionView::Reply(seq![join_text(room)]),
        CommandView::SubscribeWithoutRoom => ReactionView::Reply(
            seq!["Please provide a room name to subscribe."@],
        ),
        CommandView::Unsubscribe { room } => ReactionView::Reply(
            seq![leave_text(index.is_member(session, room), room)],
        ),
        CommandView::UnsubscribeWithoutRoom => ReactionView::Reply(
            seq!["Please provide a room name to unsubscribe."@],
        ),
        CommandView::List => if index.rooms_of(session).len() == 0 {
            ReactionView::Reply(seq!["No rooms found for this session."@])
        } else {
            ReactionView::Reply(index.rooms_of(session))
        },
        CommandView::Send { room, message } => if index.room_exists(room) {
            ReactionView::Deliver(
                DeliveryView {
                    text: message,
                    recipients: index.members_of(room),
                    outcomes: Seq::empty(),
                },
            )
        } else {
            ReactionView::Reply(seq!["Room "@ + room + " does not exist."@])
        },
        CommandView::SendWithoutRoom => ReactionView::Reply(
            seq!["Please provide a room name to broadcast to."@],
        ),
        CommandView::SendWithoutMessage => ReactionView::Reply(
            seq!["Please provide a message to broadcast."@],
        ),
        CommandView::Current => ReactionView::Reply(seq!["Your session ID: "@ + session]),
        CommandView::Unknown { line } => ReactionView::Reply(seq!["unknown command: "@ + line]),
        CommandView::Echo { text } => ReactionView::Echo(text),
    }
}

/// A reply of one line.
fn one_line(line: String) -> (reaction: Reaction)
    ensures
        reaction@ == ReactionView::Reply(seq![line@]),
{
    let mut lines: Vec<String> = Vec::new();
    lines.push(line);
    assert(texts(lines@) =~= seq![line@]);
    Reaction::Reply(lines)
}

/// The line that answers a request to join `room`.
pub fn join_reply(room: &str) -> (line: String)
    ensures
        line@ == join_text(room@),
{
    if room.is_empty() {
        String::from_str("Please provide a room name to subscribe.")
    } else {
        String::from_str("joined room ").concat(room)
    }
}

/// The line that answers a request to leave `room`.
pub fn leave_reply(result: LeaveResult, room: &str) -> (line: String)
    ensures
        line@ == leave_text(result == LeaveResult::Left, room@),
{
    match result {
        LeaveResult::Left => String::from_str("left room ").concat(room),
        LeaveResult::NotAMember => String::from_str("not a member of room ").concat(room),
    }
}

/// Carries out one command of the session `session_id`.
pub fn execute(session_id: &str, command: Command, index: &mut RoomIndex) -> (reaction: Reaction)
    requires
        old(index).wf(),
    ensures
        final(index).wf(),
        final(index)@ == index_after(old(index)@, session_id@, command@),
        reaction@ == reaction_to(old(index)@, session_id@, command@),
        reaction matches Reaction::Deliver(delivery) ==> delivery.wf(),
{
    match command {
        Command::Subscribe { room } => {
            index.join(session_id, room.as_str());
            one_line(join_reply(room.as_str()))
        },
        Command::SubscribeWithoutRoom => one_line(
            String::from_str("Please provide a room name to subscribe."),
        ),
        Command::Unsubscribe { room } => {
            let result = index.leave(session_id, room.as_str());
            one_line(leave_reply(result, room.as_str()))
        },
        Command::UnsubscribeWithoutRoom => one_line(
            String::from_str("Please provide a room name to unsubscribe."),
        ),
        Command::List => {
            let rooms = index.rooms_of(session_id);
            assert(texts(rooms@).len() == rooms.len());
            if rooms.len() == 0 {
                one_line(String::from_str("No rooms found for this session."))
            } else {
                Reaction::Reply(rooms)
            }
        },
        Command::Send { room, message } => {
            match broadcast_to_room(index, room.as_str(), message.as_str(), None) {
                Ok(delivery) => Reaction::Deliver(delivery),
                Err(_) => one_line(
                    String::from_str("Room ").concat(room.as_str()).concat(" does not exist."),
                ),
            }
        },
        Command::SendWithoutRoom => one_line(
            String::from_str("Please provide a room name to broadcast to."),
        ),
        Command::SendWithoutMessage => one_line(
            String::from_str("Please provide a message to broadcast."),
        ),
        Command::Current => one_line(String::from_str("Your session ID: ").concat(session_id)),
        Command::Unknown { line } => one_line(
            String::from_str("unknown command: ").concat(line.as_str()),
        ),
        Command::Echo { text } => Reaction::Echo(text),
    }
}

/// Reads one line from the session `session_id` and carries it out.
pub fn dispatch(session_id: &str, line: &str, index: &mut RoomIndex) -> (reaction: Reaction)
    requires
        old(index).wf(),
    ensures
        final(index).wf(),
        final(index)@ == index_after(old(index)@, session_id@, parse(line@)),
        reaction@ == reaction_to(old(index)@, session_id@, parse(line@)),
        reaction matches Reaction::Deliver(delivery) ==> delivery.wf(),
{
    let command = parse_line(line);
    execute(session_id, command, index)
}

} // verus!

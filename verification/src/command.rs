//! What one line of text from a client asks for.
//!
//! A line is read without the white space at its ends. One that begins with
//! `/` is a command: its first word, up to the first blank, names it, and
//! what follows that blank is its argument. Any other line is plain text to
//! be echoed to its sender.
use vstd::prelude::*;
use vstd::string::{StrSliceExecFns, StringExecFns};
use crate::lists::Text;
use crate::text::{after_blank, before_blank, optional_text, split_at_blank, trim, trimmed};

verus! {

/// What a line asks for.
#[derive(Clone, Debug, PartialEq, Eq)]
pub enum Command {
    /// `/subscribe` and a room: join it.
    Subscribe { room: String },
    /// `/subscribe` alone.
    SubscribeWithoutRoom,
    /// `/unsubscribe` and a room: leave it.
    Unsubscribe { room: String },
    /// `/unsubscribe` alone.
    UnsubscribeWithoutRoom,
    /// `/list`: name the rooms that the sender is in.
    List,
    /// `/send`, a room, and a message for its members.
    Send { room: String, message: String },
    /// `/send` without a room.
    SendWithoutRoom,
    /// `/send` and a room, without a message.
    SendWithoutMessage,
    /// `/current`: tell the sender its own session id.
    Current,
    /// Another word that begins with `/`. `line` is the line as read.
    Unknown { line: String },
    /// A line that is no command: echo it to its sender.
    Echo { text: String },
}

/// A command as contracts see it, with texts in place of strings.
pub enum CommandView {
    Subscribe { room: Text },
    SubscribeWithoutRoom,
    Unsubscribe { room: Text },
    UnsubscribeWithoutRoom,
    List,
    Send { room: Text, message: Text },
    SendWithoutRoom,
    SendWithoutMessage,
    Current,
    Unknown { line: Text },
    Echo { text: Text },
}

impl View for Command {
    type V = CommandView;

    open spec fn view(&self) -> CommandView {
        match self {
            Command::Subscribe { room } => CommandView::Subscribe { room: room@ },
            Command::SubscribeWithoutRoom => CommandView::SubscribeWithoutRoom,
            Command::Unsubscribe { room } => CommandView::Unsubscribe { room: room@ },
            Command::UnsubscribeWithoutRoom => CommandView::UnsubscribeWithoutRoom,
            Command::List => CommandView::List,
            Command::Send { room, message } => CommandView::Send {
                room: room@,
                message: message@,
            },
            Command::SendWithoutRoom => CommandView::SendWithoutRoom,
            Command::SendWithoutMessage => CommandView::SendWithoutMessage,
            Command::Current => CommandView::Current,
            Command::Unknown { line } => CommandView::Unknown { line: line@ },
            Command::Echo { text } => CommandView::Echo { text: text@ },
        }
    }
}

/// What the argument of `/send` asks for: the room is what stands before its
/// first blank, the message is all that follows that blank.
pub open spec fn parse_send(argument: Text) -> CommandView {
    match after_blank(argument) {
        Some(message) => if before_blank(argument).len() == 0 {
            CommandView::SendWithoutRoom
        } else {
            CommandView::Send { room: before_blank(argument), message }
        },
        None => CommandView::SendWithoutMessage,
    }
}

/// What a line asks for.
pub open spec fn parse(line: Text) -> CommandView {
    let read = trimmed(line);
    if read.len() == 0 || read[0] != '/' {
        CommandView::Echo { text: read }
    } else {
        let word = before_blank(read);
        let argument = after_blank(read);
        if word == "/subscribe"@ {
            match argument {
                Some(room) => CommandView::Subscribe { room },
                None => CommandView::SubscribeWithoutRoom,
            }
        } else if word == "/unsubscribe"@ {
            match argument {
                Some(room) => CommandView::Unsubscribe { room },
                None => CommandView::UnsubscribeWithoutRoom,
            }
        } else if word == "/list"@ {
            CommandView::List
        } else if word == "/send"@ {
            match argument {
                Some(argument) => parse_send(argument),
                None => CommandView::SendWithoutRoom,
            }
        } else if word == "/current"@ {
            CommandView::Current
        } else {
            CommandView::Unknown { line: read }
        }
    }
}

/// Whether `word` is written as `name`.
fn is_word(word: &String, name: &str) -> (same: bool)
    ensures
        same == (word@ == name@),
{
    let name = String::from_str(name);
    *word == name
}

/// Reads the argument of `/send`.
fn parse_send_argument(argument: &str) -> (command: Command)
    ensures
        command@ == parse_send(argument@),
{
    let (room, message) = split_at_blank(argument);
    match message {
        Some(message) => {
            if room.as_str().is_empty() {
                Command::SendWithoutRoom
            } else {
                Command::Send { room, message }
            }
        },
        None => Command::SendWithoutMessage,
    }
}

/// Reads one line.
pub fn parse_line(line: &str) -> (command: Command)
    ensures
        command@ == parse(line@),
{
    let read = trim(line);
    if read.as_str().is_empty() || read.as_str().get_char(0) != '/' {
        return Command::Echo { text: read };
    }
    let (word, argument) = split_at_blank(read.as_str());
    if is_word(&word, "/subscribe") {
        match argument {
            Some(room) => Command::Subscribe { room },
            None => Command::SubscribeWithoutRoom,
        }
    } else if is_word(&word, "/unsubscribe") {
        match argument {
            Some(room) => Command::Unsubscribe { room },
            None => Command::UnsubscribeWithoutRoom,
        }
    } else if is_word(&word, "/list") {
        Command::List
    } else if is_word(&word, "/send") {
        match argument {
            Some(argument) => parse_send_argument(argument.as_str()),
            None => Command::SendWithoutRoom,
        }
    } else if is_word(&word, "/current") {
        Command::Current
    } else {
        Command::Unknown { line: read }
    }
}

} // verus!

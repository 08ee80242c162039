//! What can go wrong in the broker. None of these stops the broker: each is
//! reported to the caller that asked, some as a failure of the request and
//! some as plain information.
use vstd::prelude::*;
use vstd::string::StringExecFns;

verus! {

/// Why a request could not be carried out.
#[derive(Clone, Copy, Debug, PartialEq, Eq, Structural)]
pub enum BrokerError {
    /// No session with that id is registered.
    SessionNotFound,
    /// The room has no member, which is the same as not existing.
    RoomEmptyOrMissing,
    /// The session is not in the room it asked to leave.
    NotAMember,
    /// A session with that id is registered already.
    DuplicateSession,
}

/// Why a message did not reach one recipient.
#[derive(Clone, Copy, Debug, PartialEq, Eq, Structural)]
pub enum DeliveryError {
    /// The recipient is no longer registered.
    SessionGone,
    /// Writing to the recipient's connection failed.
    SendFailed,
}

impl BrokerError {
    /// Whether this error fails the request. A session that is not
    /// registered, and an id that is registered twice, fail it. An empty room
    /// and a room that the session is not in do not: the caller is told, and
    /// the request counts as answered.
    pub open spec fn fails_request(self) -> bool {
        self == BrokerError::SessionNotFound || self == BrokerError::DuplicateSession
    }

    /// Whether this error fails the request, or is only something to tell
    /// the caller.
    pub fn is_failure(&self) -> (fails: bool)
        ensures
            fails == self.fails_request(),
    {
        match self {
            BrokerError::SessionNotFound => true,
            BrokerError::DuplicateSession => true,
            BrokerError::RoomEmptyOrMissing => false,
            BrokerError::NotAMember => false,
        }
    }

    /// The text that a caller is shown for this error.
    pub open spec fn text(self) -> Seq<char> {
        match self {
            BrokerError::SessionNotFound => "session not found"@,
            BrokerError::RoomEmptyOrMissing => "room is empty or does not exist"@,
            BrokerError::NotAMember => "not a member of this room"@,
            BrokerError::DuplicateSession => "session is already registered"@,
        }
    }

    /// The text that a caller is shown for this error.
    pub fn message(&self) -> (shown: String)
        ensures
            shown@ == self.text(),
    {
        match self {
            BrokerError::SessionNotFound => String::from_str("session not found"),
            BrokerError::RoomEmptyOrMissing => String::from_str("room is empty or does not exist"),
            BrokerError::NotAMember => String::from_str("not a member of this room"),
            BrokerError::DuplicateSession => String::from_str("session is already registered"),
        }
    }
}

} // verus!

//! The requests that the outer shell of the broker passes on: a connection
//! was accepted or has gone, and a registered session asks to join a room,
//! to leave one, to publish to one, or for the rooms it is in.
use vstd::prelude::*;
use crate::broadcaster::{broadcast_to_room, BroadcastReport, Delivery, DeliveryView};
use crate::dispatcher::{join_reply, join_text, leave_reply, leave_text};
use crate::error::BrokerError;
use crate::lists::{lemma_take_next, texts, Text};
use crate::registry::SessionRegistry;
use crate::room_index::RoomIndex;
use crate::session_id::{is_session_id, random_session_id};
use crate::text::{join_strings, joined_by};

verus! {

/// Registers a connection that was just accepted, under a fresh id, and
/// gives the id out.
///
/// The id is drawn at random. Should it be one that is registered already,
/// the connection is refused and the registry stays as it was. That can
/// happen only while some id of the drawn form is registered: on a registry
/// that holds none, every connection is registered.
pub fn handle_new_connection<H>(registry: &mut SessionRegistry<H>, outbound: H) -> (result: Result<
    String,
    BrokerError,
>)
    requires
        old(registry).wf(),
    ensures
        final(registry).wf(),
        match result {
            Ok(id) => {
                &&& is_session_id(id@)
                &&& !old(registry).is_registered(id@)
                &&& final(registry)@ == old(registry)@.insert(id@, outbound)
            },
            Err(e) => e == BrokerError::DuplicateSession && final(registry)@ == old(registry)@,
        },
        result is Err ==> exists|taken: Text|
            is_session_id(taken) && #[trigger] old(registry).is_registered(taken),
{
    let id = random_session_id();
    match registry.register(id.as_str(), outbound) {
        Ok(()) => Ok(id),
        Err(e) => {
            assert(is_session_id(id@) && old(registry).is_registered(id@));
            Err(e)
        },
    }
}

/// Closes the books on a session whose connection has gone: it leaves every
/// room, and its registration ends. Doing this again changes nothing.
pub fn handle_disconnect<H>(
    registry: &mut SessionRegistry<H>,
    index: &mut RoomIndex,
    session_id: &str,
)
    requires
        old(registry).wf(),
        old(index).wf(),
    ensures
        final(registry).wf(),
        final(index).wf(),
        final(index)@ == old(index)@.disconnected(session_id@),
        final(registry)@ == old(registry)@.remove(session_id@),
{
    index.remove_session_everywhere(session_id);
    registry.deregister(session_id);
}

/// Closes the books on each of the sessions `session_ids`, as
/// `handle_disconnect` does for one. This is what becomes of the recipients
/// that a broadcast could not write to.
pub fn handle_disconnects<H>(
    registry: &mut SessionRegistry<H>,
    index: &mut RoomIndex,
    session_ids: &Vec<String>,
)
    requires
        old(registry).wf(),
        old(index).wf(),
    ensures
        final(registry).wf(),
        final(index).wf(),
        final(index)@ == old(index)@.disconnected_all(texts(session_ids@)),
        final(registry)@ == old(registry)@.remove_keys(texts(session_ids@).to_set()),
{
    let ghost ids = texts(session_ids@);
    let ghost sessions_before = registry@;
    let ghost index_before = index@;
    let mut i: usize = 0;
    assert(ids.take(0) =~= Seq::<Text>::empty());
    assert(sessions_before.remove_keys(Seq::<Text>::empty().to_set()) =~= sessions_before);
    while i < session_ids.len()
        invariant
            i <= session_ids.len(),
            ids == texts(session_ids@),
            registry.wf(),
            index.wf(),
            index@ == index_before.disconnected_all(ids.take(i as int)),
            registry@ == sessions_before.remove_keys(ids.take(i as int).to_set()),
        decreases session_ids.len() - i,
    {
        proof {
            let shorter = ids.take(i as int);
            let longer = ids.take(i + 1);
            assert(longer.drop_last() =~= shorter);
            assert(longer.last() == session_ids[i as int]@);
            assert(longer.to_set() =~= shorter.to_set().insert(longer.last())) by {
                lemma_take_next(ids, i as int);
            }
            assert(sessions_before.remove_keys(shorter.to_set()).remove(longer.last())
                =~= sessions_before.remove_keys(longer.to_set()));
        }
        handle_disconnect(registry, index, session_ids[i].as_str());
        i += 1;
    }
    assert(ids.take(session_ids.len() as int) =~= ids);
}

/// A registered session joins a room. The answer is the line that confirms
/// it. A session that is not registered is refused, and nothing changes.
pub fn handle_join<H>(
    registry: &SessionRegistry<H>,
    index: &mut RoomIndex,
    session_id: &str,
    room_name: &str,
) -> (result: Result<String, BrokerError>)
    requires
        registry.wf(),
        old(index).wf(),
    ensures
        final(index).wf(),
        match result {
            Ok(line) => {
                &&& registry.is_registered(session_id@)
                &&& final(index)@ == old(index)@.joined(session_id@, room_name@)
                &&& line@ == join_text(room_name@)
            },
            Err(e) => {
                &&& e == BrokerError::SessionNotFound
                &&& !registry.is_registered(session_id@)
                &&& final(index)@ == old(index)@
            },
        },
{
    if !registry.contains(session_id) {
        return Err(BrokerError::SessionNotFound);
    }
    index.join(session_id, room_name);
    Ok(join_reply(room_name))
}

/// A registered session leaves a room. The answer is the line that tells it
/// what became of the request: that it has left, or that it was not in the
/// room, in which case nothing changes. Only a session that is not
/// registered is refused.
pub fn handle_leave<H>(
    registry: &SessionRegistry<H>,
    index: &mut RoomIndex,
    session_id: &str,
    room_name: &str,
) -> (result: Result<String, BrokerError>)
    requires
        registry.wf(),
        old(index).wf(),
    ensures
        final(index).wf(),
        match result {
            Ok(line) => {
                &&& registry.is_registered(session_id@)
                &&& final(index)@ == old(index)@.left(session_id@, room_name@)
                &&& !old(index)@.is_member(session_id@, room_name@) ==> final(index)@ == old(
                    index,
                )@
                &&& line@ == leave_text(
                    old(index)@.is_member(session_id@, room_name@),
                    room_name@,
                )
            },
            Err(e) => {
                &&& e == BrokerError::SessionNotFound
                &&& !registry.is_registered(session_id@)
                &&& final(index)@ == old(index)@
            },
        },
{
    if !registry.contains(session_id) {
        return Err(BrokerError::SessionNotFound);
    }
    let result = index.leave(session_id, room_name);
    Ok(leave_reply(result, room_name))
}

/// What becomes of a message that a registered session publishes.
#[derive(Clone, Debug, PartialEq, Eq)]
pub enum Publication {
    /// The room has members: this is the broadcast to carry out.
    Broadcast(Delivery),
    /// The room has no member, which is the same as not existing. Nothing is
    /// to be written, and this is the report: nobody reached, nobody failed.
    RoomEmptyOrMissing(BroadcastReport),
}

/// A registered session publishes a message to a room. For a room with
/// members the answer is the broadcast to carry out: it goes to every member
/// of the room as it is now, the publisher included if it is one. For a room
/// without members the answer is the report that nobody was there to write
/// to. Only a session that is not registered is refused.
pub fn handle_publish<H>(
    registry: &SessionRegistry<H>,
    index: &RoomIndex,
    session_id: &str,
    room_name: &str,
    message: &str,
) -> (result: Result<Publication, BrokerError>)
    requires
        registry.wf(),
        index.wf(),
    ensures
        match result {
            Ok(Publication::Broadcast(delivery)) => {
                &&& registry.is_registered(session_id@)
                &&& index@.room_exists(room_name@)
                &&& delivery.wf()
                &&& delivery@ == (DeliveryView {
                    text: message@,
                    recipients: index@.members_of(room_name@),
                    outcomes: Seq::empty(),
                })
            },
            Ok(Publication::RoomEmptyOrMissing(report)) => {
                &&& registry.is_registered(session_id@)
                &&& !index@.room_exists(room_name@)
                &&& report.delivered@ == Seq::<String>::empty()
                &&& report.failed@ == Seq::<String>::empty()
            },
            Err(e) => e == BrokerError::SessionNotFound && !registry.is_registered(session_id@),
        },
{
    if !registry.contains(session_id) {
        return Err(BrokerError::SessionNotFound);
    }
    match broadcast_to_room(index, room_name, message, None) {
        Ok(delivery) => Ok(Publication::Broadcast(delivery)),
        Err(_) => Ok(
            Publication::RoomEmptyOrMissing(
                BroadcastReport { delivered: Vec::new(), failed: Vec::new() },
            ),
        ),
    }
}

/// The rooms that a session is in, in joining order, written with `;`
/// between them: the empty text for a session that is in none.
pub fn handle_list(index: &RoomIndex, session_id: &str) -> (listed: String)
    requires
        index.wf(),
    ensures
        listed@ == joined_by(index@.rooms_of(session_id@), ";"@),
{
    let rooms = index.rooms_of(session_id);
    join_strings(&rooms, ";")
}

} // verus!

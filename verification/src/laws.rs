//! What holds of the broker whatever is asked of it.
use vstd::prelude::*;
use crate::broadcaster::{attempted_with, recipients_for};
use crate::lists::{lemma_without_holds, Text};
use crate::membership::{
    lemma_disconnected_consistent, lemma_joined_consistent, lemma_left_consistent, Change,
    Memberships,
};
use crate::room_index::RoomIndex;

verus! {

/// One change keeps an index in order.
pub proof fn law_change_keeps_consistency(index: Memberships, change: Change)
    requires
        index.consistent(),
    ensures
        index.after(change).consistent(),
{
    match change {
        Change::Join { session, room } => lemma_joined_consistent(index, session, room),
        Change::Leave { session, room } => lemma_left_consistent(index, session, room),
        Change::Disconnect { session } => lemma_disconnected_consistent(index, session),
    }
}

/// After any sequence of joining, leaving and disconnecting, a session is
/// among the members of a room exactly if the room is among the rooms of the
/// session.
pub proof fn law_both_sides_agree(
    start: Memberships,
    changes: Seq<Change>,
    session: Text,
    room: Text,
)
    requires
        start.consistent(),
    ensures
        start.after_all(changes).consistent(),
        start.after_all(changes).is_member(session, room) <==> start.after_all(changes).has_joined(
            session,
            room,
        ),
    decreases changes.len(),
{
    if changes.len() > 0 {
        law_both_sides_agree(start, changes.drop_last(), session, room);
        law_change_keeps_consistency(start.after_all(changes.drop_last()), changes.last());
    }
}

/// The index without rooms is in order, so the law above holds of every
/// index that was built up from nothing.
pub proof fn law_empty_index_is_consistent()
    ensures
        Memberships::empty().consistent(),
{
}

/// In a room index that is in order, a session is among the members of a
/// room exactly if the room is among the rooms of the session.
pub proof fn law_index_sides_agree(index: &RoomIndex, session: Text, room: Text)
    requires
        index.wf(),
    ensures
        index@.is_member(session, room) <==> index@.has_joined(session, room),
{
}

/// Joining a room twice leaves the index as joining it once does.
pub proof fn law_join_is_idempotent(index: Memberships, session: Text, room: Text)
    ensures
        index.joined(session, room).joined(session, room) == index.joined(session, room),
{
    if room.len() > 0 {
        let once = index.joined(session, room);
        assert(once.members_of(room).contains(session)) by {
            let list = index.members_of(room);
            if !list.contains(session) {
                assert(list.push(session)[list.len() as int] == session);
            }
        }
        assert(once.rooms_of(session).contains(room)) by {
            let list = index.rooms_of(session);
            if !list.contains(room) {
                assert(list.push(room)[list.len() as int] == room);
            }
        }
    }
}

/// Once a session was taken out everywhere, no room has it as a member and
/// it has no rooms.
pub proof fn law_disconnect_clears_session(index: Memberships, session: Text)
    requires
        index.consistent(),
    ensures
        forall|room: Text| !#[trigger] index.disconnected(session).is_member(session, room),
        index.disconnected(session).rooms_of(session) == Seq::<Text>::empty(),
{
    index.lemma_disconnected_lists(session);
    assert forall|room: Text| !#[trigger] index.disconnected(session).is_member(
        session,
        room,
    ) by {
        if index.members.dom().contains(room) {
            lemma_without_holds(index.members[room], session);
        }
        lemma_without_holds(index.members_of(room), session);
    }
}

/// Who is listed among the recipients whose write ended one way: exactly
/// those attempted with that outcome. Every attempt is listed once, on one
/// side or the other.
pub proof fn law_attempts_are_sorted_by_outcome(recipients: Seq<Text>, outcomes: Seq<bool>)
    requires
        outcomes.len() <= recipients.len(),
    ensures
        forall|wanted: bool, id: Text|
            #[trigger] attempted_with(recipients, outcomes, wanted).contains(id) <==> exists|
                i: int,
            |
                0 <= i < outcomes.len() && recipients[i] == id && #[trigger] outcomes[i] == wanted,
        attempted_with(recipients, outcomes, true).len() + attempted_with(
            recipients,
            outcomes,
            false,
        ).len() == outcomes.len(),
    decreases outcomes.len(),
{
    if outcomes.len() > 0 {
        let earlier = outcomes.drop_last();
        let last = outcomes.len() - 1;
        law_attempts_are_sorted_by_outcome(recipients, earlier);
        assert forall|wanted: bool, id: Text|
            #[trigger] attempted_with(recipients, outcomes, wanted).contains(id) <==> exists|
                i: int,
            |
                0 <= i < outcomes.len() && recipients[i] == id && #[trigger] outcomes[i]
                    == wanted by {
            let now = attempted_with(recipients, outcomes, wanted);
            let before = attempted_with(recipients, earlier, wanted);
            if now.contains(id) {
                let k = choose|k: int| 0 <= k < now.len() && now[k] == id;
                if outcomes[last] == wanted && k == before.len() {
                    assert(recipients[last] == id && outcomes[last] == wanted);
                } else {
                    assert(before[k] == id);
                    assert(before.contains(id));
                    let i = choose|i: int|
                        0 <= i < earlier.len() && recipients[i] == id && #[trigger] earlier[i]
                            == wanted;
                    assert(outcomes[i] == wanted);
                }
            }
            if exists|i: int|
                0 <= i < outcomes.len() && recipients[i] == id && #[trigger] outcomes[i]
                    == wanted {
                let i = choose|i: int|
                    0 <= i < outcomes.len() && recipients[i] == id && #[trigger] outcomes[i]
                        == wanted;
                if i == last {
                    assert(now[before.len() as int] == id);
                } else {
                    assert(earlier[i] == wanted);
                    assert(before.contains(id));
                    let k = choose|k: int| 0 <= k < before.len() && before[k] == id;
                    assert(now[k] == id);
                }
            }
        }
    }
}

/// A failed write stops nothing: when all recipients of a broadcast have
/// been attempted, each of them is reported, as delivered if its own write
/// succeeded and as failed if it did not, whatever became of the others.
pub proof fn law_failures_are_isolated(recipients: Seq<Text>, outcomes: Seq<bool>, i: int)
    requires
        recipients.no_duplicates(),
        outcomes.len() == recipients.len(),
        0 <= i < recipients.len(),
    ensures
        attempted_with(recipients, outcomes, true).contains(recipients[i]) <==> outcomes[i],
        attempted_with(recipients, outcomes, false).contains(recipients[i]) <==> !outcomes[i],
{
    law_attempts_are_sorted_by_outcome(recipients, outcomes);
    let id = recipients[i];
    assert forall|wanted: bool| #[trigger]
        attempted_with(recipients, outcomes, wanted).contains(id) implies outcomes[i]
        == wanted by {
        let k = choose|k: int|
            0 <= k < outcomes.len() && recipients[k] == id && #[trigger] outcomes[k] == wanted;
        assert(k == i);
    }
}

/// A broadcast goes to the members that the room had when it was prepared: a
/// session that was not in the room then is no recipient and is not reached,
/// although it would be a member had it joined first.
pub proof fn law_later_joiner_is_no_recipient(
    index: Memberships,
    room: Text,
    late: Text,
    exclude: Option<Text>,
    outcomes: Seq<bool>,
)
    requires
        index.consistent(),
        !index.is_member(late, room),
        room.len() > 0,
    ensures
        index.joined(late, room).is_member(late, room),
        !recipients_for(index.members_of(room), exclude).contains(late),
        !attempted_with(recipients_for(index.members_of(room), exclude), outcomes, true).contains(
            late,
        ),
{
    let members = index.members_of(room);
    let recipients = recipients_for(members, exclude);
    assert(members.push(late)[members.len() as int] == late);
    if index.members.dom().contains(room) {
        assert(members.no_duplicates());
    }
    if exclude is Some {
        lemma_without_holds(members, exclude->0);
    }
    if outcomes.len() <= recipients.len() {
        law_attempts_are_sorted_by_outcome(recipients, outcomes);
        if attempted_with(recipients, outcomes, true).contains(late) {
            let i = choose|i: int|
                0 <= i < outcomes.len() && recipients[i] == late && #[trigger] outcomes[i] == true;
            assert(recipients.contains(late));
        }
    }
}

} // verus!

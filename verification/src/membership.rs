//! The mathematical model of the membership index: who is in which room, seen
//! from both sides, and what joining, leaving and disconnecting do to it.
//!
//! A room exists exactly while it has a member: a room that its last member
//! leaves is dropped, and so is the record of a session that has left its
//! last room.
use vstd::prelude::*;
use crate::lists::{
    lemma_with_item, lemma_without_holds, lemma_without_item, list_of, tidy, with_item, without,
    without_item, Lists, Text,
};

verus! {

/// The two sides of the membership index.
pub struct Memberships {
    /// For each room that exists, the sessions in it, in joining order.
    pub members: Lists,
    /// For each session that is in a room, its rooms, in joining order.
    pub rooms: Lists,
}

/// One change to the membership index.
pub enum Change {
    Join { session: Text, room: Text },
    Leave { session: Text, room: Text },
    Disconnect { session: Text },
}

impl Memberships {
    /// The index with no room and no session.
    pub open spec fn empty() -> Memberships {
        Memberships { members: Map::empty(), rooms: Map::empty() }
    }

    /// The sessions in `room`, in joining order.
    pub open spec fn members_of(self, room: Text) -> Seq<Text> {
        list_of(self.members, room)
    }

    /// The rooms of `session`, in joining order.
    pub open spec fn rooms_of(self, session: Text) -> Seq<Text> {
        list_of(self.rooms, session)
    }

    /// The room's side says that `session` is in `room`.
    pub open spec fn is_member(self, session: Text, room: Text) -> bool {
        self.members_of(room).contains(session)
    }

    /// The session's side says that `session` is in `room`.
    pub open spec fn has_joined(self, session: Text, room: Text) -> bool {
        self.rooms_of(session).contains(room)
    }

    /// A room exists while it has a member.
    pub open spec fn room_exists(self, room: Text) -> bool {
        self.members.dom().contains(room)
    }

    /// Both sides agree on every session and every room, no list holds an
    /// entry twice or is kept while empty, and no room has the empty name.
    pub open spec fn consistent(self) -> bool {
        &&& tidy(self.members)
        &&& tidy(self.rooms)
        &&& !self.members.dom().contains(Seq::<char>::empty())
        &&& forall|session: Text, room: Text|
            #![trigger self.is_member(session, room)]
            #![trigger self.has_joined(session, room)]
            self.is_member(session, room) <==> self.has_joined(session, room)
    }

    /// The index after `session` joined `room`. A room needs a name: joining
    /// the room with the empty name changes nothing.
    pub open spec fn joined(self, session: Text, room: Text) -> Memberships {
        if room.len() == 0 {
            self
        } else {
            Memberships {
                members: with_item(self.members, room, session),
                rooms: with_item(self.rooms, session, room),
            }
        }
    }

    /// The index after `session` left `room`.
    pub open spec fn left(self, session: Text, room: Text) -> Memberships {
        Memberships {
            members: without_item(self.members, room, session),
            rooms: without_item(self.rooms, session, room),
        }
    }

    /// The index after `session` was taken out of every room.
    pub open spec fn disconnected(self, session: Text) -> Memberships {
        Memberships {
            members: Map::new(
                |room: Text|
                    self.members.dom().contains(room) && without(self.members[room], session).len()
                        > 0,
                |room: Text| without(self.members[room], session),
            ),
            rooms: self.rooms.remove(session),
        }
    }

    /// The index after each of `sessions` was taken out of every room, from
    /// the first on.
    pub open spec fn disconnected_all(self, sessions: Seq<Text>) -> Memberships
        decreases sessions.len(),
    {
        if sessions.len() == 0 {
            self
        } else {
            self.disconnected_all(sessions.drop_last()).disconnected(sessions.last())
        }
    }

    /// The index after one change.
    pub open spec fn after(self, change: Change) -> Memberships {
        match change {
            Change::Join { session, room } => self.joined(session, room),
            Change::Leave { session, room } => self.left(session, room),
            Change::Disconnect { session } => self.disconnected(session),
        }
    }

    /// The index after a sequence of changes, applied from the first on.
    pub open spec fn after_all(self, changes: Seq<Change>) -> Memberships
        decreases changes.len(),
    {
        if changes.len() == 0 {
            self
        } else {
            self.after_all(changes.drop_last()).after(changes.last())
        }
    }

    /// What disconnecting leaves of each room and of each session.
    pub proof fn lemma_disconnected_lists(self, session: Text)
        requires
            self.consistent(),
        ensures
            forall|room: Text| #[trigger]
                self.disconnected(session).members_of(room) == without(
                    self.members_of(room),
                    session,
                ),
            forall|other: Text| #[trigger]
                self.disconnected(session).rooms_of(other) == if other == session {
                    Seq::<Text>::empty()
                } else {
                    self.rooms_of(other)
                },
    {
        let after = self.disconnected(session);
        assert forall|room: Text| #[trigger]
            after.members_of(room) == without(self.members_of(room), session) by {
            let rest = without(self.members_of(room), session);
            if self.members.dom().contains(room) {
                if rest.len() == 0 {
                    assert(rest =~= Seq::<Text>::empty());
                }
            } else {
                assert(rest =~= Seq::<Text>::empty());
            }
        }
    }
}

/// Joining keeps the two sides in agreement.
pub proof fn lemma_joined_consistent(m: Memberships, session: Text, room: Text)
    requires
        m.consistent(),
    ensures
        m.joined(session, room).consistent(),
{
    if room.len() > 0 {
        let after = m.joined(session, room);
        lemma_with_item(m.members, room, session);
        lemma_with_item(m.rooms, session, room);
        assert(room != Seq::<char>::empty());
        assert forall|s: Text, r: Text|
            #![trigger after.is_member(s, r)]
            #![trigger after.has_joined(s, r)]
            after.is_member(s, r) <==> after.has_joined(s, r) by {
            assert(m.is_member(s, r) <==> m.has_joined(s, r));
            if r == room {
                assert(after.is_member(s, r) <==> m.is_member(s, r) || s == session);
            } else {
                assert(after.members_of(r) == m.members_of(r));
            }
            if s == session {
                assert(after.has_joined(s, r) <==> m.has_joined(s, r) || r == room);
            } else {
                assert(after.rooms_of(s) == m.rooms_of(s));
            }
        }
    }
}

/// Leaving keeps the two sides in agreement.
pub proof fn lemma_left_consistent(m: Memberships, session: Text, room: Text)
    requires
        m.consistent(),
    ensures
        m.left(session, room).consistent(),
{
    let after = m.left(session, room);
    lemma_without_item(m.members, room, session);
    lemma_without_item(m.rooms, session, room);
    assert forall|s: Text, r: Text|
        #![trigger after.is_member(s, r)]
        #![trigger after.has_joined(s, r)]
        after.is_member(s, r) <==> after.has_joined(s, r) by {
        assert(m.is_member(s, r) <==> m.has_joined(s, r));
        if r == room {
            assert(after.is_member(s, r) <==> m.is_member(s, r) && s != session);
        } else {
            assert(after.members_of(r) == m.members_of(r));
        }
        if s == session {
            assert(after.has_joined(s, r) <==> m.has_joined(s, r) && r != room);
        } else {
            assert(after.rooms_of(s) == m.rooms_of(s));
        }
    }
}

/// Leaving a room that the session is not in changes nothing.
pub proof fn lemma_left_non_member(m: Memberships, session: Text, room: Text)
    requires
        m.consistent(),
        !m.is_member(session, room),
    ensures
        m.left(session, room) == m,
{
    assert(!m.has_joined(session, room));
    lemma_without_holds(m.members_of(room), session);
    lemma_without_holds(m.rooms_of(session), room);
    assert(without_item(m.members, room, session) =~= m.members);
    assert(without_item(m.rooms, session, room) =~= m.rooms);
}

/// Disconnecting keeps the two sides in agreement.
pub proof fn lemma_disconnected_consistent(m: Memberships, session: Text)
    requires
        m.consistent(),
    ensures
        m.disconnected(session).consistent(),
{
    let after = m.disconnected(session);
    m.lemma_disconnected_lists(session);
    assert forall|room: Text| #[trigger] after.members.dom().contains(room) implies after.members[room].len()
        > 0 && after.members[room].no_duplicates() by {
        lemma_without_holds(m.members[room], session);
    }
    assert forall|s: Text, r: Text|
        #![trigger after.is_member(s, r)]
        #![trigger after.has_joined(s, r)]
        after.is_member(s, r) <==> after.has_joined(s, r) by {
        assert(m.is_member(s, r) <==> m.has_joined(s, r));
        assert(after.members_of(r) == without(m.members_of(r), session));
        if m.members.dom().contains(r) {
            lemma_without_holds(m.members[r], session);
        }
        assert(after.is_member(s, r) <==> m.is_member(s, r) && s != session);
        assert(after.rooms_of(s) == if s == session {
            Seq::<Text>::empty()
        } else {
            m.rooms_of(s)
        });
    }
}

} // verus!

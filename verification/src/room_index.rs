//! The room index: which sessions are in which room, kept from both sides.
//!
//! Every operation changes both sides in one step, so the two never disagree.
//! A room is dropped when its last member leaves: a room exists exactly while
//! it has a member.
use vstd::prelude::*;
use crate::list_map::ListMap;
use crate::lists::{lemma_take_next, lemma_without_holds, lemma_without_item, list_of, texts, without, Text};
use crate::membership::{
    lemma_disconnected_consistent, lemma_joined_consistent, lemma_left_consistent,
    lemma_left_non_member, Memberships,
};

verus! {

/// How a request to join a room ended.
#[derive(Clone, Copy, Debug, PartialEq, Eq, Structural)]
pub enum JoinResult {
    /// The session is now in the room.
    Joined,
    /// The session was in the room already; nothing changed.
    AlreadyMember,
    /// The room name was empty; nothing changed.
    EmptyRoomName,
}

/// How a request to leave a room ended.
#[derive(Clone, Copy, Debug, PartialEq, Eq, Structural)]
pub enum LeaveResult {
    /// The session is no longer in the room.
    Left,
    /// The session was not in the room; nothing changed.
    NotAMember,
}

/// Rooms with their members, and sessions with their rooms.
pub struct RoomIndex {
    by_room: ListMap,
    by_session: ListMap,
}

impl View for RoomIndex {
    type V = Memberships;

    closed spec fn view(&self) -> Memberships {
        Memberships { members: self.by_room@, rooms: self.by_session@ }
    }
}

impl RoomIndex {
    /// The two collections are each in order.
    pub closed spec fn sound(&self) -> bool {
        self.by_room.wf() && self.by_session.wf()
    }

    /// The index is in order, and its two sides agree.
    pub open spec fn wf(&self) -> bool {
        self.sound() && self@.consistent()
    }

    /// An index without rooms.
    pub fn new() -> (index: RoomIndex)
        ensures
            index.wf(),
            index@ == Memberships::empty(),
    {
        RoomIndex { by_room: ListMap::new(), by_session: ListMap::new() }
    }

    /// Puts the session into the room, behind its present members, and makes
    /// the room if it does not exist. Joining again changes nothing.
    pub fn join(&mut self, session_id: &str, room_name: &str) -> (result: JoinResult)
        requires
            old(self).wf(),
        ensures
            final(self).wf(),
            final(self)@ == old(self)@.joined(session_id@, room_name@),
            result == if room_name@.len() == 0 {
                JoinResult::EmptyRoomName
            } else if old(self)@.is_member(session_id@, room_name@) {
                JoinResult::AlreadyMember
            } else {
                JoinResult::Joined
            },
    {
        let session = session_id.to_owned();
        let room = room_name.to_owned();
        if room_name.is_empty() {
            return JoinResult::EmptyRoomName;
        }
        proof {
            lemma_joined_consistent(self@, session@, room@);
        }
        let added = self.by_room.add(&room, &session);
        self.by_session.add(&session, &room);
        if added {
            JoinResult::Joined
        } else {
            JoinResult::AlreadyMember
        }
    }

    /// Takes the session out of the room, and drops the room if that was its
    /// last member.
    pub fn leave(&mut self, session_id: &str, room_name: &str) -> (result: LeaveResult)
        requires
            old(self).wf(),
        ensures
            final(self).wf(),
            final(self)@ == old(self)@.left(session_id@, room_name@),
            result == if old(self)@.is_member(session_id@, room_name@) {
                LeaveResult::Left
            } else {
                LeaveResult::NotAMember
            },
            result == LeaveResult::NotAMember ==> final(self)@ == old(self)@,
    {
        let session = session_id.to_owned();
        let room = room_name.to_owned();
        proof {
            lemma_left_consistent(self@, session@, room@);
            if !self@.is_member(session@, room@) {
                lemma_left_non_member(self@, session@, room@);
            }
        }
        let removed = self.by_room.remove(&room, &session);
        self.by_session.remove(&session, &room);
        if removed {
            LeaveResult::Left
        } else {
            LeaveResult::NotAMember
        }
    }

    /// The members of the room as they are now, in joining order. The result
    /// is a copy: later changes to the index do not show in it.
    pub fn members_of(&self, room_name: &str) -> (members: Vec<String>)
        requires
            self.wf(),
        ensures
            texts(members@) == self@.members_of(room_name@),
    {
        let room = room_name.to_owned();
        self.by_room.get(&room)
    }

    /// The rooms of the session as they are now, in joining order. The result
    /// is a copy: later changes to the index do not show in it.
    pub fn rooms_of(&self, session_id: &str) -> (rooms: Vec<String>)
        requires
            self.wf(),
        ensures
            texts(rooms@) == self@.rooms_of(session_id@),
    {
        let session = session_id.to_owned();
        self.by_session.get(&session)
    }

    /// Whether the session is in the room.
    pub fn is_member(&self, session_id: &str, room_name: &str) -> (found: bool)
        requires
            self.wf(),
        ensures
            found == self@.is_member(session_id@, room_name@),
    {
        let session = session_id.to_owned();
        let room = room_name.to_owned();
        self.by_room.has(&room, &session)
    }

    /// Whether the room exists, which it does exactly while it has a member.
    pub fn room_exists(&self, room_name: &str) -> (found: bool)
        requires
            self.wf(),
        ensures
            found == self@.room_exists(room_name@),
            found == (self@.members_of(room_name@).len() > 0),
    {
        let room = room_name.to_owned();
        self.by_room.has_key(&room)
    }

    /// Takes the session out of every room it is in, in one step, and drops
    /// each room of which it was the last member.
    pub fn remove_session_everywhere(&mut self, session_id: &str)
        requires
            old(self).wf(),
        ensures
            final(self).wf(),
            final(self)@ == old(self)@.disconnected(session_id@),
    {
        let session = session_id.to_owned();
        let ghost before = self@;
        proof {
            lemma_disconnected_consistent(before, session@);
            before.lemma_disconnected_lists(session@);
            self.by_session.lemma_tidy();
        }
        let rooms = self.by_session.take(&session);
        let ghost names = texts(rooms@);
        assert(names.no_duplicates()) by {
            if !before.rooms.dom().contains(session@) {
                assert(names =~= Seq::<Text>::empty());
            }
        }
        let mut i: usize = 0;
        while i < rooms.len()
            invariant
                i <= rooms.len(),
                names == texts(rooms@),
                names.no_duplicates(),
                before.consistent(),
                self.by_room.wf(),
                self.by_session.wf(),
                self.by_session@ == before.rooms.remove(session@),
                forall|room: Text| #[trigger]
                    list_of(self.by_room@, room) == if names.take(i as int).contains(room) {
                        without(before.members_of(room), session@)
                    } else {
                        before.members_of(room)
                    },
            decreases rooms.len() - i,
        {
            let ghost earlier = self.by_room@;
            proof {
                self.by_room.lemma_tidy();
                lemma_without_item(earlier, rooms[i as int]@, session@);
            }
            self.by_room.remove(&rooms[i], &session);
            proof {
                let name = rooms[i as int]@;
                assert(names[i as int] == name);
                lemma_take_next(names, i as int);
            }
            i += 1;
        }
        proof {
            let after = before.disconnected(session@);
            self.by_room.lemma_tidy();
            assert(names.take(rooms.len() as int) =~= names);
            assert(names == before.rooms_of(session@));
            assert forall|room: Text| #[trigger]
                list_of(self.by_room@, room) == after.members_of(room) by {
                if !names.contains(room) {
                    assert(!before.has_joined(session@, room));
                    assert(!before.is_member(session@, room));
                    if before.members.dom().contains(room) {
                        lemma_without_holds(before.members[room], session@);
                    }
                }
            }
            assert forall|room: Text|
                self.by_room@.dom().contains(room) <==> after.members.dom().contains(room) by {
                assert(list_of(self.by_room@, room) == after.members_of(room));
            }
            assert forall|room: Text| self.by_room@.dom().contains(room) implies self.by_room@[room]
                == after.members[room] by {
                assert(list_of(self.by_room@, room) == after.members_of(room));
            }
            assert(self.by_room@ =~= after.members);
        }
    }
}

} // verus!

use room_broker::room_index::{JoinResult, LeaveResult, RoomIndex};

fn names(list: &[&str]) -> Vec<String> {
    list.iter().map(|s| s.to_string()).collect()
}

fn check_both_sides(index: &RoomIndex, sessions: &[&str], rooms: &[&str]) {
    for s in sessions {
        for r in rooms {
            let from_room = index.members_of(r).contains(&s.to_string());
            let from_session = index.rooms_of(s).contains(&r.to_string());
            assert_eq!(from_room, from_session, "session {} room {}", s, r);
            assert_eq!(index.is_member(s, r), from_room);
        }
    }
}

#[test]
fn new_index_has_no_rooms() {
    let index = RoomIndex::new();
    assert_eq!(index.members_of("lobby"), Vec::<String>::new());
    assert_eq!(index.rooms_of("a"), Vec::<String>::new());
    assert!(!index.room_exists("lobby"));
    assert!(!index.is_member("a", "lobby"));
}

#[test]
fn join_creates_room_and_records_both_sides() {
    let mut index = RoomIndex::new();
    assert_eq!(index.join("a", "lobby"), JoinResult::Joined);
    assert!(index.room_exists("lobby"));
    assert_eq!(index.members_of("lobby"), names(&["a"]));
    assert_eq!(index.rooms_of("a"), names(&["lobby"]));
    assert!(index.is_member("a", "lobby"));
}

#[test]
fn members_and_rooms_come_in_joining_order() {
    let mut index = RoomIndex::new();
    index.join("b", "x");
    index.join("a", "x");
    index.join("c", "x");
    index.join("a", "z");
    index.join("a", "y");
    assert_eq!(index.members_of("x"), names(&["b", "a", "c"]));
    assert_eq!(index.rooms_of("a"), names(&["x", "z", "y"]));
}

#[test]
fn joining_twice_is_joining_once() {
    let mut once = RoomIndex::new();
    once.join("b", "lobby");
    once.join("a", "lobby");
    let mut twice = RoomIndex::new();
    twice.join("b", "lobby");
    assert_eq!(twice.join("a", "lobby"), JoinResult::Joined);
    assert_eq!(twice.join("a", "lobby"), JoinResult::AlreadyMember);
    assert_eq!(twice.members_of("lobby"), once.members_of("lobby"));
    assert_eq!(twice.members_of("lobby"), names(&["b", "a"]));
    assert_eq!(twice.rooms_of("a"), once.rooms_of("a"));
    assert_eq!(twice.rooms_of("a"), names(&["lobby"]));
}

#[test]
fn joining_a_room_without_name_changes_nothing() {
    let mut index = RoomIndex::new();
    assert_eq!(index.join("a", ""), JoinResult::EmptyRoomName);
    assert!(!index.room_exists(""));
    assert_eq!(index.rooms_of("a"), Vec::<String>::new());
    assert_eq!(index.members_of(""), Vec::<String>::new());
}

#[test]
fn room_names_are_case_sensitive() {
    let mut index = RoomIndex::new();
    index.join("a", "Lobby");
    assert!(index.room_exists("Lobby"));
    assert!(!index.room_exists("lobby"));
    assert_eq!(index.leave("a", "lobby"), LeaveResult::NotAMember);
    assert_eq!(index.members_of("Lobby"), names(&["a"]));
}

#[test]
fn leave_removes_both_sides() {
    let mut index = RoomIndex::new();
    index.join("a", "x");
    index.join("b", "x");
    index.join("a", "y");
    assert_eq!(index.leave("a", "x"), LeaveResult::Left);
    assert_eq!(index.members_of("x"), names(&["b"]));
    assert_eq!(index.rooms_of("a"), names(&["y"]));
    assert_eq!(index.rooms_of("b"), names(&["x"]));
    assert!(!index.is_member("a", "x"));
}

#[test]
fn leave_of_a_room_not_joined_is_reported() {
    let mut index = RoomIndex::new();
    index.join("a", "x");
    assert_eq!(index.leave("b", "x"), LeaveResult::NotAMember);
    assert_eq!(index.leave("a", "nowhere"), LeaveResult::NotAMember);
    assert_eq!(index.members_of("x"), names(&["a"]));
    assert_eq!(index.rooms_of("a"), names(&["x"]));
    assert_eq!(index.leave("a", "x"), LeaveResult::Left);
    assert_eq!(index.leave("a", "x"), LeaveResult::NotAMember);
}

#[test]
fn room_is_dropped_when_its_last_member_leaves() {
    let mut index = RoomIndex::new();
    index.join("a", "x");
    index.join("b", "x");
    index.leave("a", "x");
    assert!(index.room_exists("x"));
    index.leave("b", "x");
    assert!(!index.room_exists("x"));
    assert_eq!(index.members_of("x"), Vec::<String>::new());
    assert_eq!(index.join("c", "x"), JoinResult::Joined);
    assert_eq!(index.members_of("x"), names(&["c"]));
}

#[test]
fn removing_a_session_everywhere_clears_it() {
    let mut index = RoomIndex::new();
    index.join("a", "x");
    index.join("b", "x");
    index.join("a", "y");
    index.join("a", "z");
    index.join("c", "z");
    index.remove_session_everywhere("a");
    assert_eq!(index.rooms_of("a"), Vec::<String>::new());
    for room in ["x", "y", "z"] {
        assert!(!index.members_of(room).contains(&"a".to_string()));
        assert!(!index.is_member("a", room));
    }
    assert_eq!(index.members_of("x"), names(&["b"]));
    assert_eq!(index.members_of("z"), names(&["c"]));
    assert!(!index.room_exists("y"));
    assert_eq!(index.rooms_of("b"), names(&["x"]));
    assert_eq!(index.rooms_of("c"), names(&["z"]));
}

#[test]
fn removing_an_unknown_session_changes_nothing() {
    let mut index = RoomIndex::new();
    index.join("a", "x");
    index.remove_session_everywhere("ghost");
    index.remove_session_everywhere("ghost");
    assert_eq!(index.members_of("x"), names(&["a"]));
    assert_eq!(index.rooms_of("a"), names(&["x"]));
}

#[test]
fn both_sides_agree_after_every_step() {
    let sessions = ["a", "b", "c", ""];
    let rooms = ["x", "y", "z", "x y"];
    let mut index = RoomIndex::new();
    check_both_sides(&index, &sessions, &rooms);
    let steps: [(u8, &str, &str); 16] = [
        (0, "a", "x"),
        (0, "b", "x"),
        (0, "a", "y"),
        (0, "", "x"),
        (1, "a", "x"),
        (0, "c", "z"),
        (0, "c", "x y"),
        (1, "b", "y"),
        (0, "a", "x"),
        (0, "a", "x"),
        (2, "a", ""),
        (1, "c", "z"),
        (0, "b", "z"),
        (2, "", ""),
        (2, "b", ""),
        (2, "c", ""),
    ];
    for (kind, session, room) in steps {
        match kind {
            0 => {
                index.join(session, room);
            }
            1 => {
                index.leave(session, room);
            }
            _ => index.remove_session_everywhere(session),
        }
        check_both_sides(&index, &sessions, &rooms);
    }
    for room in rooms {
        assert!(!index.room_exists(room));
    }
}

#[test]
fn snapshot_does_not_follow_later_changes() {
    let mut index = RoomIndex::new();
    index.join("a", "x");
    let members = index.members_of("x");
    let rooms = index.rooms_of("a");
    index.join("b", "x");
    index.join("a", "y");
    assert_eq!(members, names(&["a"]));
    assert_eq!(rooms, names(&["x"]));
}

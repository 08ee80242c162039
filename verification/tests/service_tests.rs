use room_broker::broadcaster::{BroadcastReport, Delivery};
use room_broker::dispatcher::{dispatch, Reaction};
use room_broker::error::{BrokerError, DeliveryError};
use room_broker::registry::SessionRegistry;
use room_broker::room_index::RoomIndex;
use room_broker::service::{
    handle_disconnect, handle_disconnects, handle_join, handle_leave, handle_list,
    handle_new_connection, handle_publish, Publication,
};

fn names(list: &[&str]) -> Vec<String> {
    list.iter().map(|s| s.to_string()).collect()
}

fn broadcast_of(published: Result<Publication, BrokerError>) -> Delivery {
    match published {
        Ok(Publication::Broadcast(delivery)) => delivery,
        other => panic!("no broadcast was prepared: {:?}", other),
    }
}

/// Writes the message of a delivery into the inbox of each recipient that is
/// registered, as a connection handler would write to its sockets.
fn deliver(
    delivery: &mut Delivery,
    registry: &SessionRegistry<usize>,
    inboxes: &mut Vec<Vec<String>>,
) {
    while let Some(id) = delivery.next_recipient().cloned() {
        match registry.lookup(&id) {
            Some(slot) => {
                inboxes[*slot].push(delivery.message().clone());
                delivery.record(Ok(()));
            }
            None => delivery.record(Err(DeliveryError::SessionGone)),
        }
    }
}

#[test]
fn new_connection_gets_a_fresh_well_formed_id() {
    let mut registry: SessionRegistry<u32> = SessionRegistry::new();
    let id = handle_new_connection(&mut registry, 11).unwrap();
    let chars: Vec<char> = id.chars().collect();
    assert_eq!(chars.len(), 36);
    for (i, c) in chars.iter().enumerate() {
        if i == 8 || i == 13 || i == 18 || i == 23 {
            assert_eq!(*c, '-');
        } else {
            assert!(matches!(*c, '0'..='9' | 'a'..='f'), "character {} at {}", c, i);
        }
    }
    assert_eq!(chars[14], '4');
    assert!(matches!(chars[19], '8' | '9' | 'a' | 'b'));
    assert_eq!(registry.lookup(&id), Some(&11));
    assert_eq!(registry.len(), 1);
}

#[test]
fn each_connection_is_registered_under_its_own_id() {
    let mut registry: SessionRegistry<u32> = SessionRegistry::new();
    let mut ids: Vec<String> = Vec::new();
    let mut handle: u32 = 0;
    while handle < 20 {
        match handle_new_connection(&mut registry, handle) {
            Ok(id) => {
                assert!(!ids.contains(&id));
                assert_eq!(registry.lookup(&id), Some(&handle));
                ids.push(id);
            }
            Err(e) => {
                assert_eq!(e, BrokerError::DuplicateSession);
                assert!(!ids.is_empty());
            }
        }
        handle += 1;
    }
    assert!(!ids.is_empty());
    assert_eq!(registry.len(), ids.len());
}

#[test]
fn connection_is_always_registered_while_no_drawn_id_is_held() {
    let mut round: u32 = 0;
    while round < 50 {
        let mut registry: SessionRegistry<u32> = SessionRegistry::new();
        registry.register("s1", 1).unwrap();
        registry.register("not-an-id-of-the-drawn-form-at-all--", 2).unwrap();
        let id = handle_new_connection(&mut registry, round).unwrap();
        assert_eq!(registry.lookup(&id), Some(&round));
        assert_eq!(registry.lookup("s1"), Some(&1));
        assert_eq!(registry.len(), 3);
        round += 1;
    }
}

#[test]
fn join_needs_a_registered_session() {
    let registry: SessionRegistry<u32> = SessionRegistry::new();
    let mut index = RoomIndex::new();
    assert_eq!(
        handle_join(&registry, &mut index, "nobody", "lobby"),
        Err(BrokerError::SessionNotFound)
    );
    assert!(!index.room_exists("lobby"));
    assert_eq!(BrokerError::SessionNotFound.message(), "session not found");
}

#[test]
fn join_of_a_registered_session_is_confirmed() {
    let mut registry: SessionRegistry<u32> = SessionRegistry::new();
    registry.register("s1", 1).unwrap();
    let mut index = RoomIndex::new();
    assert_eq!(
        handle_join(&registry, &mut index, "s1", "lobby"),
        Ok("joined room lobby".to_string())
    );
    assert_eq!(
        handle_join(&registry, &mut index, "s1", "lobby"),
        Ok("joined room lobby".to_string())
    );
    assert_eq!(index.members_of("lobby"), names(&["s1"]));
    assert_eq!(
        handle_join(&registry, &mut index, "s1", ""),
        Ok("Please provide a room name to subscribe.".to_string())
    );
    assert_eq!(index.rooms_of("s1"), names(&["lobby"]));
}

#[test]
fn leave_needs_a_registered_session() {
    let mut registry: SessionRegistry<u32> = SessionRegistry::new();
    registry.register("s1", 1).unwrap();
    let mut index = RoomIndex::new();
    index.join("s2", "lobby");
    assert_eq!(
        handle_leave(&registry, &mut index, "s2", "lobby"),
        Err(BrokerError::SessionNotFound)
    );
    assert_eq!(index.members_of("lobby"), names(&["s2"]));
    assert_eq!(index.rooms_of("s2"), names(&["lobby"]));
}

#[test]
fn leave_of_a_room_not_joined_is_answered_and_changes_nothing() {
    let mut registry: SessionRegistry<u32> = SessionRegistry::new();
    registry.register("s1", 1).unwrap();
    let mut index = RoomIndex::new();
    index.join("s2", "lobby");
    assert_eq!(
        handle_leave(&registry, &mut index, "s1", "lobby"),
        Ok("not a member of room lobby".to_string())
    );
    assert_eq!(
        handle_leave(&registry, &mut index, "s1", "nowhere"),
        Ok("not a member of room nowhere".to_string())
    );
    assert_eq!(index.members_of("lobby"), names(&["s2"]));
    assert_eq!(index.rooms_of("s1"), Vec::<String>::new());
    assert!(!index.room_exists("nowhere"));
}

#[test]
fn leave_of_a_registered_member_is_confirmed() {
    let mut registry: SessionRegistry<u32> = SessionRegistry::new();
    registry.register("s1", 1).unwrap();
    let mut index = RoomIndex::new();
    index.join("s2", "lobby");
    index.join("s1", "lobby");
    assert_eq!(
        handle_leave(&registry, &mut index, "s1", "lobby"),
        Ok("left room lobby".to_string())
    );
    assert_eq!(index.members_of("lobby"), names(&["s2"]));
    assert_eq!(index.rooms_of("s1"), Vec::<String>::new());
    assert_eq!(
        handle_leave(&registry, &mut index, "s1", "lobby"),
        Ok("not a member of room lobby".to_string())
    );
}

#[test]
fn publish_needs_a_registered_session() {
    let mut registry: SessionRegistry<u32> = SessionRegistry::new();
    registry.register("s1", 1).unwrap();
    let mut index = RoomIndex::new();
    index.join("s2", "lobby");
    assert_eq!(
        handle_publish(&registry, &index, "s9", "lobby", "hi"),
        Err(BrokerError::SessionNotFound)
    );
    assert_eq!(
        handle_publish(&registry, &index, "s9", "nowhere", "hi"),
        Err(BrokerError::SessionNotFound)
    );
}

#[test]
fn publish_to_a_room_without_members_is_answered_with_an_empty_report() {
    let mut registry: SessionRegistry<u32> = SessionRegistry::new();
    registry.register("s1", 1).unwrap();
    let mut index = RoomIndex::new();
    let nobody = BroadcastReport { delivered: Vec::new(), failed: Vec::new() };
    assert_eq!(
        handle_publish(&registry, &index, "s1", "nowhere", "hi"),
        Ok(Publication::RoomEmptyOrMissing(nobody.clone()))
    );
    index.join("s2", "lobby");
    index.leave("s2", "lobby");
    match handle_publish(&registry, &index, "s1", "lobby", "hi") {
        Ok(Publication::RoomEmptyOrMissing(report)) => {
            assert_eq!(report.delivered_count(), 0);
            assert_eq!(report.failed, Vec::<String>::new());
        }
        other => panic!("unexpected answer {:?}", other),
    }
    assert_eq!(
        handle_publish(&registry, &index, "s1", "", "hi"),
        Ok(Publication::RoomEmptyOrMissing(nobody))
    );
}

#[test]
fn publish_to_a_room_with_members_prepares_the_broadcast() {
    let mut registry: SessionRegistry<u32> = SessionRegistry::new();
    registry.register("s1", 1).unwrap();
    let mut index = RoomIndex::new();
    index.join("s2", "lobby");
    let delivery = broadcast_of(handle_publish(&registry, &index, "s1", "lobby", "hi"));
    assert_eq!(delivery.message(), "hi");
    assert_eq!(delivery.recipient_ids(), names(&["s2"]));
    assert!(!delivery.is_complete());
    assert_eq!(index.members_of("lobby"), names(&["s2"]));
}

#[test]
fn publish_reaches_the_publisher_too_when_it_is_a_member() {
    let mut registry: SessionRegistry<u32> = SessionRegistry::new();
    registry.register("s1", 1).unwrap();
    let mut index = RoomIndex::new();
    index.join("s2", "lobby");
    index.join("s1", "lobby");
    let delivery = broadcast_of(handle_publish(&registry, &index, "s1", "lobby", "hi"));
    assert_eq!(delivery.recipient_ids(), names(&["s2", "s1"]));
}

#[test]
fn list_is_joined_with_semicolons() {
    let mut index = RoomIndex::new();
    assert_eq!(handle_list(&index, "s1"), "");
    index.join("s1", "lobby");
    assert_eq!(handle_list(&index, "s1"), "lobby");
    index.join("s1", "den");
    index.join("s1", "attic");
    assert_eq!(handle_list(&index, "s1"), "lobby;den;attic");
    assert_eq!(handle_list(&index, "s2"), "");
}

#[test]
fn disconnect_leaves_every_room_and_ends_the_registration() {
    let mut registry: SessionRegistry<u32> = SessionRegistry::new();
    registry.register("s1", 1).unwrap();
    registry.register("s2", 2).unwrap();
    let mut index = RoomIndex::new();
    index.join("s1", "a");
    index.join("s1", "b");
    index.join("s2", "b");
    handle_disconnect(&mut registry, &mut index, "s1");
    assert_eq!(registry.lookup("s1"), None);
    assert_eq!(registry.lookup("s2"), Some(&2));
    assert_eq!(index.rooms_of("s1"), Vec::<String>::new());
    assert!(!index.room_exists("a"));
    assert_eq!(index.members_of("b"), names(&["s2"]));
    handle_disconnect(&mut registry, &mut index, "s1");
    assert_eq!(registry.len(), 1);
    assert_eq!(index.members_of("b"), names(&["s2"]));
}

#[test]
fn failed_recipients_can_be_disconnected_after_a_broadcast() {
    let mut registry: SessionRegistry<usize> = SessionRegistry::new();
    registry.register("a", 0).unwrap();
    registry.register("c", 1).unwrap();
    let mut index = RoomIndex::new();
    index.join("a", "room");
    index.join("b", "room");
    index.join("c", "room");
    let mut inboxes: Vec<Vec<String>> = vec![Vec::new(), Vec::new()];
    let mut delivery = broadcast_of(handle_publish(&registry, &index, "a", "room", "ping"));
    deliver(&mut delivery, &registry, &mut inboxes);
    let report = delivery.report();
    assert_eq!(report.delivered, names(&["a", "c"]));
    assert_eq!(report.failed, names(&["b"]));
    assert_eq!(inboxes, vec![names(&["ping"]), names(&["ping"])]);
    for id in &report.failed {
        handle_disconnect(&mut registry, &mut index, id);
    }
    assert_eq!(index.members_of("room"), names(&["a", "c"]));
}

#[test]
fn lobby_scenario_from_join_to_disconnect() {
    let mut registry: SessionRegistry<usize> = SessionRegistry::new();
    let mut index = RoomIndex::new();
    let mut inboxes: Vec<Vec<String>> = vec![Vec::new(), Vec::new()];
    let x = handle_new_connection(&mut registry, 0).unwrap();
    let y = loop {
        if let Ok(id) = handle_new_connection(&mut registry, 1) {
            break id;
        }
    };
    assert_ne!(x, y);

    assert_eq!(handle_join(&registry, &mut index, &x, "lobby"), Ok("joined room lobby".to_string()));
    assert_eq!(handle_join(&registry, &mut index, &y, "lobby"), Ok("joined room lobby".to_string()));

    let mut delivery =
        room_broker::broadcaster::broadcast_to_room(&index, "lobby", "hello", Some(&x)).unwrap();
    deliver(&mut delivery, &registry, &mut inboxes);
    let report = delivery.report();
    assert_eq!(report.delivered, vec![y.clone()]);
    assert_eq!(report.failed, Vec::<String>::new());
    assert_eq!(inboxes[1], names(&["hello"]));
    assert_eq!(inboxes[0], Vec::<String>::new());

    assert_eq!(dispatch(&x, "/list", &mut index), Reaction::Reply(names(&["lobby"])));

    handle_disconnect(&mut registry, &mut index, &y);
    assert_eq!(index.members_of("lobby"), vec![x.clone()]);

    let mut delivery =
        room_broker::broadcaster::broadcast_to_room(&index, "lobby", "hi", Some(&x)).unwrap();
    assert_eq!(delivery.recipient_ids(), Vec::<String>::new());
    deliver(&mut delivery, &registry, &mut inboxes);
    let report = delivery.report();
    assert_eq!(report.delivered_count(), 0);
    assert_eq!(report.failed, Vec::<String>::new());
    assert_eq!(inboxes[0], Vec::<String>::new());
    assert_eq!(inboxes[1], names(&["hello"]));

    handle_disconnect(&mut registry, &mut index, &x);
    assert_eq!(
        room_broker::broadcaster::broadcast_to_room(&index, "lobby", "hi", None),
        Err(BrokerError::RoomEmptyOrMissing)
    );
}

#[test]
fn disconnecting_several_sessions_clears_each() {
    let mut registry: SessionRegistry<u32> = SessionRegistry::new();
    registry.register("s1", 1).unwrap();
    registry.register("s2", 2).unwrap();
    registry.register("s3", 3).unwrap();
    let mut index = RoomIndex::new();
    index.join("s1", "a");
    index.join("s2", "a");
    index.join("s3", "a");
    index.join("s2", "b");
    handle_disconnects(&mut registry, &mut index, &names(&["s2", "ghost", "s1", "s2"]));
    assert_eq!(registry.lookup("s1"), None);
    assert_eq!(registry.lookup("s2"), None);
    assert_eq!(registry.lookup("s3"), Some(&3));
    assert_eq!(registry.len(), 1);
    assert_eq!(index.members_of("a"), names(&["s3"]));
    assert!(!index.room_exists("b"));
    assert_eq!(index.rooms_of("s1"), Vec::<String>::new());
    assert_eq!(index.rooms_of("s2"), Vec::<String>::new());
    handle_disconnects(&mut registry, &mut index, &Vec::new());
    assert_eq!(index.members_of("a"), names(&["s3"]));
    assert_eq!(registry.len(), 1);
}

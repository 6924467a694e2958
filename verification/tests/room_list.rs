use daydream_druid::matrix::room::{PossiblyRedactedEvent, MessageEvent, Room, RoomListAsynSyncLogic};
use daydream_druid::matrix::sync::{on_room_member, RoomListCommand, SyncRoom};
use daydream_druid::utils::RoomEventLists;

fn room(id: &str, name: &str, tombstoned: bool) -> Room {
    Room {
        room_id: id.to_string(),
        display_name: name.to_string(),
        tombstoned,
        messages: Vec::new(),
        state: String::new(),
    }
}

fn text_event(id: &str, sender: &str, body: &str) -> MessageEvent {
    MessageEvent {
        event_id: id.to_string(),
        sender: sender.to_string(),
        text: Some(body.to_string()),
    }
}

fn ids(rooms: &[Room]) -> Vec<String> {
    rooms.iter().map(|r| r.room_id.clone()).collect()
}

#[test]
fn new_room_is_cached_and_appended() {
    let mut list = RoomListAsynSyncLogic::new();
    let appended = list.add_room_if_new(room("!a:x.org", "A", false)).unwrap();
    assert_eq!(ids(&appended), vec!["!a:x.org"]);
    assert_eq!(appended[0].display_name, "A");
    assert_eq!(ids(&list.rooms()), vec!["!a:x.org"]);
}

#[test]
fn known_room_is_not_added_twice() {
    let mut list = RoomListAsynSyncLogic::new();
    list.add_room_if_new(room("!a:x.org", "A", false));
    assert!(list.add_room_if_new(room("!a:x.org", "A again", false)).is_none());
    let rooms = list.rooms();
    assert_eq!(ids(&rooms), vec!["!a:x.org"]);
    assert_eq!(rooms[0].display_name, "A");
}

#[test]
fn tombstoned_room_is_not_added() {
    let mut list = RoomListAsynSyncLogic::new();
    assert!(list.add_room_if_new(room("!old:x.org", "Old", true)).is_none());
    assert!(list.rooms().is_empty());
}

#[test]
fn removing_a_room_takes_it_out() {
    let mut list = RoomListAsynSyncLogic::new();
    list.add_room_if_new(room("!a:x.org", "A", false));
    list.add_room_if_new(room("!b:x.org", "B", false));
    list.add_room_if_new(room("!c:x.org", "C", false));
    let removed = list.remove_room(room("!b:x.org", "whatever", false)).unwrap();
    assert_eq!(ids(&removed), vec!["!b:x.org"]);
    assert_eq!(removed[0].display_name, "whatever");
    assert_eq!(ids(&list.rooms()), vec!["!a:x.org", "!c:x.org"]);
}

#[test]
fn removing_an_unknown_room_changes_nothing() {
    let mut list = RoomListAsynSyncLogic::new();
    list.add_room_if_new(room("!a:x.org", "A", false));
    assert!(list.remove_room(room("!z:x.org", "Z", false)).is_none());
    assert_eq!(ids(&list.rooms()), vec!["!a:x.org"]);
}

#[test]
fn join_then_leave_restores_the_list() {
    let mut list = RoomListAsynSyncLogic::new();
    list.add_room_if_new(room("!a:x.org", "A", false));
    list.add_room_if_new(room("!n:x.org", "N", false));
    list.remove_room(room("!n:x.org", "N", false));
    assert_eq!(ids(&list.rooms()), vec!["!a:x.org"]);
}

#[test]
fn refresh_shows_rooms_without_tombstone_and_files_their_events() {
    let mut list = RoomListAsynSyncLogic::new();
    let mut lists = RoomEventLists::new();
    let mut a = room("!a:x.org", "A", false);
    a.messages.push(PossiblyRedactedEvent::Regular(text_event("$1", "@bob:x.org", "hi")));
    a.messages.push(PossiblyRedactedEvent::Redacted("$2".to_string()));
    a.messages.push(PossiblyRedactedEvent::Regular(text_event("$3", "@eve:x.org", "yo")));
    let joined = vec![a, room("!old:x.org", "Old", true), room("!b:x.org", "B", false)];
    let shown = list.update_data(joined, &mut lists).unwrap();
    assert_eq!(ids(&shown), vec!["!a:x.org", "!b:x.org"]);
    assert_eq!(ids(&list.rooms()), vec!["!a:x.org", "!b:x.org"]);
    let events = lists.events_of(&"!a:x.org".to_string()).unwrap();
    let event_ids: Vec<String> = events.iter().map(|e| e.event_id.clone()).collect();
    assert_eq!(event_ids, vec!["$1", "$3"]);
    assert!(lists.events_of(&"!b:x.org".to_string()).unwrap().is_empty());
    assert!(!lists.contains(&"!old:x.org".to_string()));
}

#[test]
fn refresh_with_the_same_rooms_shows_nothing_new() {
    let mut list = RoomListAsynSyncLogic::new();
    let mut lists = RoomEventLists::new();
    let joined = vec![room("!a:x.org", "A", false)];
    assert!(list.update_data(joined, &mut lists).is_some());
    let again = vec![room("!a:x.org", "A", false)];
    assert!(list.update_data(again, &mut lists).is_none());
    let renamed = vec![room("!a:x.org", "A renamed", false)];
    let shown = list.update_data(renamed, &mut lists).unwrap();
    assert_eq!(shown[0].display_name, "A renamed");
}

#[test]
fn own_join_appends_and_own_leave_removes() {
    let me = "@me:x.org".to_string();
    let mut list = RoomListAsynSyncLogic::new();
    match on_room_member(&mut list, &me, &me, SyncRoom::Joined(room("!a:x.org", "A", false))) {
        Some(RoomListCommand::AppendRooms(v)) => assert_eq!(ids(&v), vec!["!a:x.org"]),
        _ => panic!("expected rooms to append"),
    }
    match on_room_member(&mut list, &me, &me, SyncRoom::Left(room("!a:x.org", "A", false))) {
        Some(RoomListCommand::RemoveRooms(v)) => assert_eq!(ids(&v), vec!["!a:x.org"]),
        _ => panic!("expected rooms to remove"),
    }
    assert!(list.rooms().is_empty());
}

#[test]
fn membership_of_others_and_invites_change_nothing() {
    let me = "@me:x.org".to_string();
    let other = "@bob:x.org".to_string();
    let mut list = RoomListAsynSyncLogic::new();
    assert!(on_room_member(&mut list, &me, &other, SyncRoom::Joined(room("!a:x.org", "A", false))).is_none());
    assert!(on_room_member(&mut list, &me, &me, SyncRoom::Invited(room("!b:x.org", "B", false))).is_none());
    assert!(list.rooms().is_empty());
}

#[test]
fn refresh_with_changed_room_state_shows_the_list_again() {
    let mut list = RoomListAsynSyncLogic::new();
    let mut lists = RoomEventLists::new();
    let mut a = room("!a:x.org", "A", false);
    a.state = "{\"members\":[\"@me:x.org\"]}".to_string();
    assert!(list.update_data(vec![a], &mut lists).is_some());
    let mut b = room("!a:x.org", "A", false);
    b.state = "{\"members\":[\"@me:x.org\",\"@bob:x.org\"]}".to_string();
    let shown = list.update_data(vec![b], &mut lists).unwrap();
    assert_eq!(ids(&shown), vec!["!a:x.org"]);
    assert_eq!(list.rooms()[0].state, "{\"members\":[\"@me:x.org\",\"@bob:x.org\"]}");
}

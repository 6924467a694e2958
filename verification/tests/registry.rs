use daydream_druid::matrix::room::{EventListAsynSyncLogic, MessageEvent, PossiblyRedactedEvent, Room};
use daydream_druid::utils::RoomEventLists;

fn list_for(room_id: &str, event_id: &str) -> EventListAsynSyncLogic {
    let mut list = EventListAsynSyncLogic::default();
    list.update_data(Room {
        room_id: room_id.to_string(),
        display_name: String::new(),
        tombstoned: false,
        messages: vec![PossiblyRedactedEvent::Regular(MessageEvent {
            event_id: event_id.to_string(),
            sender: "@a:x.org".to_string(),
            text: None,
        })],
        state: String::new(),
    });
    list
}

#[test]
fn read_after_write() {
    let mut lists = RoomEventLists::new();
    let a = "!a:x.org".to_string();
    let b = "!b:x.org".to_string();
    assert!(!lists.contains(&a));
    lists.insert(a.clone(), list_for("!a:x.org", "$1"));
    lists.insert(b.clone(), list_for("!b:x.org", "$2"));
    lists.insert(a.clone(), list_for("!a:x.org", "$3"));
    assert_eq!(lists.events_of(&a).unwrap()[0].event_id, "$3");
    assert_eq!(lists.events_of(&b).unwrap()[0].event_id, "$2");
    assert!(lists.events_of(&"!c:x.org".to_string()).is_none());
}

#[test]
fn switch_room_reads_the_filed_list() {
    let mut lists = RoomEventLists::new();
    let a = "!a:x.org".to_string();
    lists.insert(a.clone(), list_for("!a:x.org", "$1"));
    let shown = lists.switch_room(&a).unwrap();
    assert_eq!(shown[0].event_id, "$1");
    assert_eq!(lists.events_of(&a).unwrap().len(), 1);
}

#[test]
fn refiling_keeps_one_list_per_room() {
    let mut lists = RoomEventLists::new();
    let a = "!a:x.org".to_string();
    lists.insert(a.clone(), list_for("!a:x.org", "$1"));
    lists.insert(a.clone(), list_for("!a:x.org", "$2"));
    assert_eq!(lists.events_of(&a).unwrap().len(), 1);
    assert_eq!(lists.events_of(&a).unwrap()[0].event_id, "$2");
}

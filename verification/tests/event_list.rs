use daydream_druid::matrix::room::{EventListAsynSyncLogic, MessageEvent, PossiblyRedactedEvent, Room};
use daydream_druid::matrix::sync::on_room_message;

fn text_event(id: &str, sender: &str, body: &str) -> MessageEvent {
    MessageEvent {
        event_id: id.to_string(),
        sender: sender.to_string(),
        text: Some(body.to_string()),
    }
}

fn room_with(id: &str, items: Vec<PossiblyRedactedEvent>) -> Room {
    Room {
        room_id: id.to_string(),
        display_name: String::new(),
        tombstoned: false,
        messages: items,
        state: String::new(),
    }
}

fn event_ids(list: &EventListAsynSyncLogic) -> Vec<String> {
    list.events().iter().map(|e| e.event_id.clone()).collect()
}

#[test]
fn update_reads_regular_events_and_room_id() {
    let mut list = EventListAsynSyncLogic::default();
    assert!(list.room_id().is_none());
    list.update_data(room_with(
        "!r:x.org",
        vec![
            PossiblyRedactedEvent::Redacted("$0".to_string()),
            PossiblyRedactedEvent::Regular(text_event("$1", "@a:x.org", "one")),
        ],
    ));
    assert_eq!(list.room_id(), Some("!r:x.org".to_string()));
    assert_eq!(event_ids(&list), vec!["$1"]);
}

#[test]
fn update_with_same_ids_keeps_cache() {
    let mut list = EventListAsynSyncLogic::default();
    list.update_data(room_with("!r:x.org", vec![PossiblyRedactedEvent::Regular(text_event("$1", "@a:x.org", "one"))]));
    list.update_data(room_with("!r:x.org", vec![PossiblyRedactedEvent::Regular(text_event("$1", "@a:x.org", "edited"))]));
    assert_eq!(list.events()[0].text, Some("one".to_string()));
    list.update_data(room_with("!r:x.org", vec![PossiblyRedactedEvent::Regular(text_event("$2", "@a:x.org", "two"))]));
    assert_eq!(event_ids(&list), vec!["$2"]);
}

#[test]
fn new_event_is_appended_with_room_id() {
    let mut list = EventListAsynSyncLogic::default();
    list.update_data(room_with("!r:x.org", vec![]));
    let appended = list.add_event_if_new(text_event("$1", "@a:x.org", "hi")).unwrap();
    assert_eq!(appended.room_id, "!r:x.org");
    assert_eq!(appended.events.len(), 1);
    assert_eq!(appended.events[0].event_id, "$1");
    assert!(list.add_event_if_new(text_event("$1", "@a:x.org", "hi")).is_none());
    assert_eq!(event_ids(&list), vec!["$1"]);
}

#[test]
fn switch_room_hands_out_events_and_leaves_list() {
    let mut list = EventListAsynSyncLogic::default();
    list.update_data(room_with("!r:x.org", vec![PossiblyRedactedEvent::Regular(text_event("$1", "@a:x.org", "one"))]));
    let shown = list.switch_room().unwrap();
    assert_eq!(shown.len(), 1);
    assert_eq!(shown[0].event_id, "$1");
    assert!(list.switch_room().is_some());
    assert_eq!(event_ids(&list), vec!["$1"]);
}

#[test]
fn text_message_line() {
    let e = text_event("$1", "@alice:x.org", "hello there");
    assert_eq!(e.display_text(), "<@alice:x.org>: hello there");
    let other = MessageEvent { event_id: "$2".to_string(), sender: "@bob:x.org".to_string(), text: None };
    assert_eq!(other.display_text(), "");
}

#[test]
fn room_message_printed_only_for_joined_text() {
    let e = text_event("$1", "@alice:x.org", "hi");
    assert_eq!(on_room_message(true, &e), Some("<@alice:x.org>: hi".to_string()));
    assert_eq!(on_room_message(false, &e), None);
    let other = MessageEvent { event_id: "$2".to_string(), sender: "@bob:x.org".to_string(), text: None };
    assert_eq!(on_room_message(true, &other), None);
}

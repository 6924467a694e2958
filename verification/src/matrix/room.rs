use vstd::prelude::*;

use crate::lookup::{lemma_absent, lemma_first_index, lemma_index_of_first};
use crate::utils::{
    lemma_registry_other_ids_unchanged, lemma_registry_read_after_write, registry_get,
    registry_insert, EventListAppedStruct, RoomEventLists,
};

verus! {

/// A message event of a room's timeline, as far as the client reads it.
///
/// `text` holds the body of a text message and is `None` for every other
/// kind of message event.
pub struct MessageEvent {
    pub event_id: String,
    pub sender: String,
    pub text: Option<String>,
}

pub struct MessageEventView {
    pub event_id: Seq<char>,
    pub sender: Seq<char>,
    pub text: Option<Seq<char>>,
}

impl View for MessageEvent {
    type V = MessageEventView;

    open spec fn view(&self) -> MessageEventView {
        MessageEventView {
            event_id: self.event_id@,
            sender: self.sender@,
            text: match self.text {
                Some(t) => Some(t@),
                None => None,
            },
        }
    }
}

impl Clone for MessageEvent {
    fn clone(&self) -> (copy: Self)
        ensures
            copy@ == self@,
    {
        let text = match &self.text {
            Some(t) => Some(t.clone()),
            None => None,
        };
        MessageEvent { event_id: self.event_id.clone(), sender: self.sender.clone(), text }
    }
}

/// An item of a room's timeline: a message event, or what is left of one
/// that was redacted (its id).
pub enum PossiblyRedactedEvent {
    Regular(MessageEvent),
    Redacted(String),
}

pub enum PossiblyRedactedEventView {
    Regular(MessageEventView),
    Redacted(Seq<char>),
}

impl View for PossiblyRedactedEvent {
    type V = PossiblyRedactedEventView;

    open spec fn view(&self) -> PossiblyRedactedEventView {
        match self {
            PossiblyRedactedEvent::Regular(e) => PossiblyRedactedEventView::Regular(e@),
            PossiblyRedactedEvent::Redacted(id) => PossiblyRedactedEventView::Redacted(id@),
        }
    }
}

impl Clone for PossiblyRedactedEvent {
    fn clone(&self) -> (copy: Self)
        ensures
            copy@ == self@,
    {
        match self {
            PossiblyRedactedEvent::Regular(e) => PossiblyRedactedEvent::Regular(e.clone()),
            PossiblyRedactedEvent::Redacted(id) => PossiblyRedactedEvent::Redacted(id.clone()),
        }
    }
}

/// A joined room, as far as the client reads it: its id, the name it is
/// shown under, whether it was replaced by another room (a tombstone), and
/// the most recent items of its timeline. `state` renders the rest of what
/// the room holds (members, typing users, unread counts, power levels, full
/// event contents, ...) in one text, so that two rooms are the same room
/// state exactly when all their fields are equal.
pub struct Room {
    pub room_id: String,
    pub display_name: String,
    pub tombstoned: bool,
    pub messages: Vec<PossiblyRedactedEvent>,
    pub state: String,
}

pub struct RoomView {
    pub room_id: Seq<char>,
    pub display_name: Seq<char>,
    pub tombstoned: bool,
    pub messages: Seq<PossiblyRedactedEventView>,
    pub state: Seq<char>,
}

pub open spec fn timeline_view(items: Seq<PossiblyRedactedEvent>) -> Seq<PossiblyRedactedEventView> {
    items.map_values(|e: PossiblyRedactedEvent| e@)
}

pub open spec fn events_view(events: Seq<MessageEvent>) -> Seq<MessageEventView> {
    events.map_values(|e: MessageEvent| e@)
}

pub open spec fn rooms_view(rooms: Seq<Room>) -> Seq<RoomView> {
    rooms.map_values(|r: Room| r@)
}

impl View for Room {
    type V = RoomView;

    open spec fn view(&self) -> RoomView {
        RoomView {
            room_id: self.room_id@,
            display_name: self.display_name@,
            tombstoned: self.tombstoned,
            messages: timeline_view(self.messages@),
            state: self.state@,
        }
    }
}

fn clone_timeline(items: &Vec<PossiblyRedactedEvent>) -> (copy: Vec<PossiblyRedactedEvent>)
    ensures
        timeline_view(copy@) == timeline_view(items@),
{
    let mut copy: Vec<PossiblyRedactedEvent> = Vec::new();
    let mut i: usize = 0;
    while i < items.len()
        invariant
            i <= items.len(),
            copy@.len() == i,
            forall|j: int| 0 <= j < i ==> #[trigger] copy@[j]@ == items@[j]@,
        decreases items.len() - i,
    {
        copy.push(items[i].clone());
        i += 1;
    }
    assert(timeline_view(copy@) =~= timeline_view(items@));
    copy
}

/// A copy of a list of message events, event by event.
pub fn clone_events(events: &Vec<MessageEvent>) -> (copy: Vec<MessageEvent>)
    ensures
        events_view(copy@) == events_view(events@),
{
    let mut copy: Vec<MessageEvent> = Vec::new();
    let mut i: usize = 0;
    while i < events.len()
        invariant
            i <= events.len(),
            copy@.len() == i,
            forall|j: int| 0 <= j < i ==> #[trigger] copy@[j]@ == events@[j]@,
        decreases events.len() - i,
    {
        copy.push(events[i].clone());
        i += 1;
    }
    assert(events_view(copy@) =~= events_view(events@));
    copy
}

impl Clone for Room {
    fn clone(&self) -> (copy: Self)
        ensures
            copy@ == self@,
    {
        Room {
            room_id: self.room_id.clone(),
            display_name: self.display_name.clone(),
            tombstoned: self.tombstoned,
            messages: clone_timeline(&self.messages),
            state: self.state.clone(),
        }
    }
}

/// A copy of a list of rooms, room by room.
pub fn clone_rooms(rooms: &Vec<Room>) -> (copy: Vec<Room>)
    ensures
        rooms_view(copy@) == rooms_view(rooms@),
{
    let mut copy: Vec<Room> = Vec::new();
    let mut i: usize = 0;
    while i < rooms.len()
        invariant
            i <= rooms.len(),
            copy@.len() == i,
            forall|j: int| 0 <= j < i ==> #[trigger] copy@[j]@ == rooms@[j]@,
        decreases rooms.len() - i,
    {
        copy.push(rooms[i].clone());
        i += 1;
    }
    assert(rooms_view(copy@) =~= rooms_view(rooms@));
    copy
}


pub open spec fn room_ids(rooms: Seq<RoomView>) -> Seq<Seq<char>> {
    rooms.map_values(|r: RoomView| r.room_id)
}

/// The cached rooms after `new_room` is offered: it is appended unless a room
/// with its id is cached already or it was replaced by another room.
pub open spec fn rooms_after_add(rooms: Seq<RoomView>, new_room: RoomView) -> Seq<RoomView> {
    if room_ids(rooms).contains(new_room.room_id) || new_room.tombstoned {
        rooms
    } else {
        rooms.push(new_room)
    }
}

/// The cached rooms after the room with `room_id` is left: the first cached
/// room with that id is taken out, if there is one.
pub open spec fn rooms_after_remove(rooms: Seq<RoomView>, room_id: Seq<char>) -> Seq<RoomView> {
    match room_ids(rooms).index_of_first(room_id) {
        Some(i) => rooms.remove(i),
        None => rooms,
    }
}

/// A room list the client can hold: no room in it twice and none that was
/// replaced by another room.
pub open spec fn room_list_well_formed(rooms: Seq<RoomView>) -> bool {
    &&& room_ids(rooms).no_duplicates()
    &&& forall|i: int| 0 <= i < rooms.len() ==> !(#[trigger] rooms[i]).tombstoned
}

/// Where the first room with `room_id` stands in `rooms`.
fn position_of_room(rooms: &Vec<Room>, room_id: &String) -> (pos: Option<usize>)
    ensures
        match pos {
            Some(i) => room_ids(rooms_view(rooms@)).index_of_first(room_id@) == Some(i as int),
            None => room_ids(rooms_view(rooms@)).index_of_first(room_id@) is None,
        },
{
    let ghost ids = room_ids(rooms_view(rooms@));
    let mut i: usize = 0;
    while i < rooms.len()
        invariant
            i <= rooms.len(),
            ids == room_ids(rooms_view(rooms@)),
            ids.len() == rooms@.len(),
            forall|j: int| 0 <= j < ids.len() ==> #[trigger] ids[j] == rooms@[j].room_id@,
            forall|j: int| 0 <= j < i ==> ids[j] != room_id@,
        decreases rooms.len() - i,
    {
        if rooms[i].room_id == *room_id {
            proof {
                lemma_first_index(ids, room_id@, i as int);
            }
            return Some(i);
        }
        i += 1;
    }
    proof {
        lemma_absent(ids, room_id@);
    }
    None
}

/// The list of joined rooms the client shows, with the guard that keeps two
/// refreshes of it from running at once.
pub struct RoomListAsynSyncLogic {
    data_cache: Vec<Room>,
    fetching_rooms: bool,
}

pub struct RoomListState {
    pub rooms: Seq<RoomView>,
    pub fetching: bool,
}

impl View for RoomListAsynSyncLogic {
    type V = RoomListState;

    closed spec fn view(&self) -> RoomListState {
        RoomListState { rooms: rooms_view(self.data_cache@), fetching: self.fetching_rooms }
    }
}

impl RoomListAsynSyncLogic {
    /// An empty room list that no refresh holds.
    pub fn new() -> (list: Self)
        ensures
            list@.rooms == Seq::<RoomView>::empty(),
            !list@.fetching,
    {
        let list = RoomListAsynSyncLogic { data_cache: Vec::new(), fetching_rooms: false };
        assert(rooms_view(list.data_cache@) =~= Seq::<RoomView>::empty());
        list
    }

    /// The cached rooms, in the order the client shows them.
    pub fn rooms(&self) -> (rooms: Vec<Room>)
        ensures
            rooms_view(rooms@) == self@.rooms,
    {
        clone_rooms(&self.data_cache)
    }

    /// Offers a room the user has joined. It is cached, and handed back as
    /// the rooms to append to the shown list, unless a room with its id is
    /// cached already or it was replaced by another room.
    pub fn add_room_if_new(&mut self, new_room: Room) -> (appended: Option<Vec<Room>>)
        ensures
            final(self)@.rooms == rooms_after_add(old(self)@.rooms, new_room@),
            final(self)@.fetching == old(self)@.fetching,
            appended is Some <==> !room_ids(old(self)@.rooms).contains(new_room@.room_id)
                && !new_room@.tombstoned,
            appended matches Some(v) ==> rooms_view(v@) == seq![new_room@],
    {
        let pos = position_of_room(&self.data_cache, &new_room.room_id);
        proof {
            lemma_index_of_first(room_ids(rooms_view(self.data_cache@)), new_room.room_id@);
        }
        if pos.is_none() && !new_room.tombstoned {
            let ghost before = self.data_cache@;
            self.data_cache.push(new_room.clone());
            assert(rooms_view(self.data_cache@) =~= rooms_view(before).push(new_room@));
            let mut appended: Vec<Room> = Vec::new();
            appended.push(new_room);
            assert(rooms_view(appended@) =~= seq![new_room@]);
            Some(appended)
        } else {
            None
        }
    }

    /// Takes out the first cached room with the id of `room`, which the user
    /// has left, and hands back `room` as the rooms to take off the shown
    /// list. Where no cached room has that id nothing changes.
    pub fn remove_room(&mut self, room: Room) -> (removed: Option<Vec<Room>>)
        ensures
            final(self)@.rooms == rooms_after_remove(old(self)@.rooms, room@.room_id),
            final(self)@.fetching == old(self)@.fetching,
            removed is Some <==> room_ids(old(self)@.rooms).contains(room@.room_id),
            removed matches Some(v) ==> rooms_view(v@) == seq![room@],
    {
        let pos = position_of_room(&self.data_cache, &room.room_id);
        proof {
            lemma_index_of_first(room_ids(rooms_view(self.data_cache@)), room.room_id@);
        }
        match pos {
            Some(index) => {
                let ghost before = self.data_cache@;
                let _gone = self.data_cache.remove(index);
                assert(rooms_view(self.data_cache@) =~= rooms_view(before).remove(index as int));
                let mut removed: Vec<Room> = Vec::new();
                removed.push(room);
                assert(rooms_view(removed@) =~= seq![room@]);
                Some(removed)
            },
            None => None,
        }
    }
}


pub open spec fn event_ids(events: Seq<MessageEventView>) -> Seq<Seq<char>> {
    events.map_values(|e: MessageEventView| e.event_id)
}

/// The message events of a timeline, in order, without the redacted ones.
pub open spec fn regular_events(items: Seq<PossiblyRedactedEventView>) -> Seq<MessageEventView>
    decreases items.len(),
{
    if items.len() == 0 {
        Seq::empty()
    } else {
        let before = regular_events(items.drop_last());
        match items.last() {
            PossiblyRedactedEventView::Regular(e) => before.push(e),
            PossiblyRedactedEventView::Redacted(_) => before,
        }
    }
}

/// The cached events after a room's timeline is read: the timeline's message
/// events replace the cache unless they carry the same ids in the same order.
pub open spec fn events_after_timeline(
    cache: Seq<MessageEventView>,
    items: Seq<PossiblyRedactedEventView>,
) -> Seq<MessageEventView> {
    let fresh = regular_events(items);
    if event_ids(cache) == event_ids(fresh) {
        cache
    } else {
        fresh
    }
}

/// The cached events after `event` arrives: it is appended unless an event
/// with its id is cached already.
pub open spec fn events_after_add(cache: Seq<MessageEventView>, event: MessageEventView) -> Seq<
    MessageEventView,
> {
    if event_ids(cache).contains(event.event_id) {
        cache
    } else {
        cache.push(event)
    }
}

fn contains_event(events: &Vec<MessageEvent>, event_id: &String) -> (found: bool)
    ensures
        found == event_ids(events_view(events@)).contains(event_id@),
{
    let ghost ids = event_ids(events_view(events@));
    let mut i: usize = 0;
    while i < events.len()
        invariant
            i <= events.len(),
            ids == event_ids(events_view(events@)),
            ids.len() == events@.len(),
            forall|j: int| 0 <= j < ids.len() ==> #[trigger] ids[j] == events@[j].event_id@,
            forall|j: int| 0 <= j < i ==> ids[j] != event_id@,
        decreases events.len() - i,
    {
        if events[i].event_id == *event_id {
            proof {
                lemma_first_index(ids, event_id@, i as int);
            }
            return true;
        }
        i += 1;
    }
    proof {
        lemma_absent(ids, event_id@);
    }
    false
}

/// Whether two lists of events carry the same ids in the same order.
fn same_event_ids(a: &Vec<MessageEvent>, b: &Vec<MessageEvent>) -> (same: bool)
    ensures
        same == (event_ids(events_view(a@)) == event_ids(events_view(b@))),
{
    let ghost ia = event_ids(events_view(a@));
    let ghost ib = event_ids(events_view(b@));
    assert(ia.len() == a@.len() && ib.len() == b@.len());
    if a.len() != b.len() {
        return false;
    }
    let mut i: usize = 0;
    while i < a.len()
        invariant
            i <= a.len(),
            a.len() == b.len(),
            ia == event_ids(events_view(a@)),
            ib == event_ids(events_view(b@)),
            ia.len() == a@.len(),
            ib.len() == b@.len(),
            forall|j: int| 0 <= j < ia.len() ==> #[trigger] ia[j] == a@[j].event_id@,
            forall|j: int| 0 <= j < ib.len() ==> #[trigger] ib[j] == b@[j].event_id@,
            forall|j: int| 0 <= j < i ==> ia[j] == ib[j],
        decreases a.len() - i,
    {
        if a[i].event_id != b[i].event_id {
            assert(ia[i as int] != ib[i as int]);
            return false;
        }
        i += 1;
    }
    assert(ia =~= ib);
    true
}

/// The message events of a timeline, in order, without the redacted ones.
fn regular_events_of(items: &Vec<PossiblyRedactedEvent>) -> (events: Vec<MessageEvent>)
    ensures
        events_view(events@) == regular_events(timeline_view(items@)),
{
    let ghost t = timeline_view(items@);
    let mut events: Vec<MessageEvent> = Vec::new();
    let mut i: usize = 0;
    assert(t.take(0) =~= Seq::<PossiblyRedactedEventView>::empty());
    assert(events_view(events@) =~= Seq::<MessageEventView>::empty());
    while i < items.len()
        invariant
            i <= items.len(),
            t == timeline_view(items@),
            t.len() == items@.len(),
            events_view(events@) == regular_events(t.take(i as int)),
        decreases items.len() - i,
    {
        let ghost before = events@;
        assert(t.take(i + 1).drop_last() =~= t.take(i as int));
        assert(t.take(i + 1).last() == items@[i as int]@);
        match &items[i] {
            PossiblyRedactedEvent::Regular(e) => {
                events.push(e.clone());
                assert(events_view(events@) =~= events_view(before).push(e@));
            },
            PossiblyRedactedEvent::Redacted(_) => {},
        }
        i += 1;
    }
    assert(t.take(items.len() as int) =~= t);
    events
}

/// The message events of one room, with the guards that keep two refreshes,
/// or two switches to the room, from running at once.
pub struct EventListAsynSyncLogic {
    data_cache: Vec<MessageEvent>,
    fetching_events: bool,
    switching_room: bool,
    room_id: Option<String>,
}

pub struct EventListState {
    pub events: Seq<MessageEventView>,
    pub fetching: bool,
    pub switching: bool,
    pub room_id: Option<Seq<char>>,
}

impl View for EventListAsynSyncLogic {
    type V = EventListState;

    closed spec fn view(&self) -> EventListState {
        EventListState {
            events: events_view(self.data_cache@),
            fetching: self.fetching_events,
            switching: self.switching_room,
            room_id: match self.room_id {
                Some(id) => Some(id@),
                None => None,
            },
        }
    }
}

/// The state of an event list that was never filled.
pub open spec fn empty_event_list() -> EventListState {
    EventListState {
        events: Seq::empty(),
        fetching: false,
        switching: false,
        room_id: None,
    }
}

impl Default for EventListAsynSyncLogic {
    fn default() -> (list: Self)
        ensures
            list@ == empty_event_list(),
    {
        let list = EventListAsynSyncLogic {
            data_cache: Vec::new(),
            fetching_events: false,
            switching_room: false,
            room_id: None,
        };
        assert(events_view(list.data_cache@) =~= Seq::<MessageEventView>::empty());
        list
    }
}

impl EventListAsynSyncLogic {
    /// The cached events, in timeline order.
    pub fn events(&self) -> (events: Vec<MessageEvent>)
        ensures
            events_view(events@) == self@.events,
    {
        clone_events(&self.data_cache)
    }

    /// The id of the room these events belong to, once a refresh has set it.
    pub fn room_id(&self) -> (room_id: Option<String>)
        ensures
            room_id matches Some(id) ==> self@.room_id == Some(id@),
            room_id is None ==> self@.room_id is None,
    {
        match &self.room_id {
            Some(id) => Some(id.clone()),
            None => None,
        }
    }

    /// Offers a message event that arrived for the room. It is cached, and
    /// handed back with the room's id as the events to append to the shown
    /// list, unless an event with its id is cached already.
    pub fn add_event_if_new(&mut self, new_event: MessageEvent) -> (appended: Option<
        EventListAppedStruct,
    >)
        requires
            old(self)@.room_id is Some || event_ids(old(self)@.events).contains(
                new_event@.event_id,
            ),
        ensures
            final(self)@.events == events_after_add(old(self)@.events, new_event@),
            final(self)@.fetching == old(self)@.fetching,
            final(self)@.switching == old(self)@.switching,
            final(self)@.room_id == old(self)@.room_id,
            appended is Some <==> !event_ids(old(self)@.events).contains(new_event@.event_id),
            appended matches Some(a) ==> {
                &&& old(self)@.room_id == Some(a.room_id@)
                &&& events_view(a.events@) == seq![new_event@]
            },
    {
        if contains_event(&self.data_cache, &new_event.event_id) {
            return None;
        }
        let ghost before = self.data_cache@;
        self.data_cache.push(new_event.clone());
        assert(events_view(self.data_cache@) =~= events_view(before).push(new_event@));
        let mut events: Vec<MessageEvent> = Vec::new();
        events.push(new_event);
        assert(events_view(events@) =~= seq![new_event@]);
        let room_id = match &self.room_id {
            Some(id) => id.clone(),
            None => {
                assert(false);
                String::new()
            },
        };
        Some(EventListAppedStruct { room_id, events })
    }

    /// Reads a room's timeline into the cache: its message events replace
    /// the cache unless they carry the same ids in the same order.
    fn get_events_from_room(&mut self, room: Room)
        ensures
            final(self)@.events == events_after_timeline(old(self)@.events, room@.messages),
            final(self)@.fetching == old(self)@.fetching,
            final(self)@.switching == old(self)@.switching,
            final(self)@.room_id == old(self)@.room_id,
    {
        let new_list = regular_events_of(&room.messages);
        if !same_event_ids(&self.data_cache, &new_list) {
            self.data_cache = new_list;
        }
    }

    /// Hands out the cached events for the room to be shown, unless a switch
    /// to the room is running already. The list itself is left as it was.
    pub fn switch_room(&mut self) -> (shown: Option<Vec<MessageEvent>>)
        ensures
            final(self)@ == old(self)@,
            shown is Some <==> !old(self)@.switching,
            shown matches Some(v) ==> events_view(v@) == old(self)@.events,
    {
        if !self.switching_room {
            self.switching_room = true;
            let events = clone_events(&self.data_cache);
            self.switching_room = false;
            Some(events)
        } else {
            None
        }
    }

    /// Refreshes the list from `room`, unless a refresh is running already:
    /// the list takes the room's id, and the room's timeline is read into
    /// the cache.
    pub fn update_data(&mut self, room: Room)
        ensures
            old(self)@.fetching ==> final(self)@ == old(self)@,
            !old(self)@.fetching ==> final(self)@ == (EventListState {
                events: events_after_timeline(old(self)@.events, room@.messages),
                fetching: false,
                switching: old(self)@.switching,
                room_id: Some(room@.room_id),
            }),
    {
        if !self.fetching_events {
            self.fetching_events = true;
            self.room_id = Some(room.room_id.clone());
            self.get_events_from_room(room);
            self.fetching_events = false;
        }
    }
}


fn same_text(a: &Option<String>, b: &Option<String>) -> (same: bool)
    ensures
        same == ((match a {
            Some(t) => Some(t@),
            None => None,
        }) == (match b {
            Some(t) => Some(t@),
            None => None,
        })),
{
    match (a, b) {
        (Some(x), Some(y)) => *x == *y,
        (None, None) => true,
        _ => false,
    }
}

fn same_event(a: &MessageEvent, b: &MessageEvent) -> (same: bool)
    ensures
        same == (a@ == b@),
{
    a.event_id == b.event_id && a.sender == b.sender && same_text(&a.text, &b.text)
}

fn same_item(a: &PossiblyRedactedEvent, b: &PossiblyRedactedEvent) -> (same: bool)
    ensures
        same == (a@ == b@),
{
    match (a, b) {
        (PossiblyRedactedEvent::Regular(x), PossiblyRedactedEvent::Regular(y)) => same_event(x, y),
        (PossiblyRedactedEvent::Redacted(x), PossiblyRedactedEvent::Redacted(y)) => *x == *y,
        _ => false,
    }
}

fn same_timeline(a: &Vec<PossiblyRedactedEvent>, b: &Vec<PossiblyRedactedEvent>) -> (same: bool)
    ensures
        same == (timeline_view(a@) == timeline_view(b@)),
{
    if a.len() != b.len() {
        assert(timeline_view(a@).len() != timeline_view(b@).len());
        return false;
    }
    let mut i: usize = 0;
    while i < a.len()
        invariant
            i <= a.len(),
            a.len() == b.len(),
            forall|j: int| 0 <= j < i ==> a@[j]@ == b@[j]@,
        decreases a.len() - i,
    {
        if !same_item(&a[i], &b[i]) {
            assert(timeline_view(a@)[i as int] != timeline_view(b@)[i as int]);
            return false;
        }
        i += 1;
    }
    assert(timeline_view(a@) =~= timeline_view(b@));
    true
}

fn same_room(a: &Room, b: &Room) -> (same: bool)
    ensures
        same == (a@ == b@),
{
    a.room_id == b.room_id && a.display_name == b.display_name && a.tombstoned == b.tombstoned
        && same_timeline(&a.messages, &b.messages) && a.state == b.state
}

fn same_rooms(a: &Vec<Room>, b: &Vec<Room>) -> (same: bool)
    ensures
        same == (rooms_view(a@) == rooms_view(b@)),
{
    if a.len() != b.len() {
        assert(rooms_view(a@).len() != rooms_view(b@).len());
        return false;
    }
    let mut i: usize = 0;
    while i < a.len()
        invariant
            i <= a.len(),
            a.len() == b.len(),
            forall|j: int| 0 <= j < i ==> a@[j]@ == b@[j]@,
        decreases a.len() - i,
    {
        if !same_room(&a[i], &b[i]) {
            assert(rooms_view(a@)[i as int] != rooms_view(b@)[i as int]);
            return false;
        }
        i += 1;
    }
    assert(rooms_view(a@) =~= rooms_view(b@));
    true
}

/// The joined rooms the client shows, in order: those not replaced by
/// another room.
pub open spec fn shown_rooms(joined: Seq<RoomView>) -> Seq<RoomView>
    decreases joined.len(),
{
    if joined.len() == 0 {
        Seq::empty()
    } else {
        let before = shown_rooms(joined.drop_last());
        if joined.last().tombstoned {
            before
        } else {
            before.push(joined.last())
        }
    }
}

/// The event list a refresh files for a shown room: the room's message
/// events, under the room's id, with no refresh or switch running.
pub open spec fn fresh_event_list(room: RoomView) -> EventListState {
    EventListState {
        events: regular_events(room.messages),
        fetching: false,
        switching: false,
        room_id: Some(room.room_id),
    }
}

/// The filed event lists after a refresh has gone through `joined`: each
/// shown room, in order, has a fresh event list filed under its id.
pub open spec fn lists_after_joined(
    lists: Seq<(Seq<char>, EventListState)>,
    joined: Seq<RoomView>,
) -> Seq<(Seq<char>, EventListState)>
    decreases joined.len(),
{
    if joined.len() == 0 {
        lists
    } else {
        let before = lists_after_joined(lists, joined.drop_last());
        if joined.last().tombstoned {
            before
        } else {
            registry_insert(before, joined.last().room_id, fresh_event_list(joined.last()))
        }
    }
}

/// An event list that was never filled, refreshed from `room`, is the fresh
/// list of the room.
fn fresh_list_for(room: Room) -> (list: EventListAsynSyncLogic)
    ensures
        list@ == fresh_event_list(room@),
{
    let mut list = EventListAsynSyncLogic::default();
    let ghost fresh = regular_events(room@.messages);
    list.update_data(room);
    proof {
        if event_ids(Seq::<MessageEventView>::empty()) == event_ids(fresh) {
            assert(event_ids(fresh).len() == fresh.len());
            assert(fresh =~= Seq::<MessageEventView>::empty());
        }
    }
    list
}

impl RoomListAsynSyncLogic {
    /// Refreshes the room list from the rooms the user has joined, unless a
    /// refresh is running already. Each shown room (one not replaced by
    /// another room) gets a fresh event list, filed under its id in
    /// `room_events`; the shown rooms replace the cache, and are handed
    /// back as the list to show, where they differ from it.
    pub fn update_data(&mut self, joined: Vec<Room>, room_events: &mut RoomEventLists) -> (shown:
        Option<Vec<Room>>)
        ensures
            old(self)@.fetching ==> {
                &&& final(self)@ == old(self)@
                &&& final(room_events)@ == old(room_events)@
                &&& shown is None
            },
            !old(self)@.fetching ==> {
                &&& final(self)@.rooms == shown_rooms(rooms_view(joined@))
                &&& !final(self)@.fetching
                &&& final(room_events)@ == lists_after_joined(
                    old(room_events)@,
                    rooms_view(joined@),
                )
                &&& shown is Some <==> old(self)@.rooms != shown_rooms(rooms_view(joined@))
                &&& shown matches Some(v) ==> rooms_view(v@) == shown_rooms(rooms_view(joined@))
                &&& room_ids(rooms_view(joined@)).no_duplicates() ==> room_list_well_formed(
                    final(self)@.rooms,
                )
            },
    {
        if self.fetching_rooms {
            return None;
        }
        self.fetching_rooms = true;
        proof {
            if room_ids(rooms_view(joined@)).no_duplicates() {
                lemma_shown_rooms_well_formed(rooms_view(joined@));
            }
        }
        let shown = self.get_rooms_from_client(joined, room_events);
        self.fetching_rooms = false;
        shown
    }

    fn get_rooms_from_client(&mut self, joined: Vec<Room>, room_events: &mut RoomEventLists) -> (shown:
        Option<Vec<Room>>)
        ensures
            final(self)@.rooms == shown_rooms(rooms_view(joined@)),
            final(self)@.fetching == old(self)@.fetching,
            final(room_events)@ == lists_after_joined(old(room_events)@, rooms_view(joined@)),
            shown is Some <==> old(self)@.rooms != shown_rooms(rooms_view(joined@)),
            shown matches Some(v) ==> rooms_view(v@) == shown_rooms(rooms_view(joined@)),
    {
        let ghost jv = rooms_view(joined@);
        let ghost lists0 = room_events@;
        let mut new_list: Vec<Room> = Vec::new();
        let mut i: usize = 0;
        assert(jv.take(0) =~= Seq::<RoomView>::empty());
        assert(rooms_view(new_list@) =~= Seq::<RoomView>::empty());
        while i < joined.len()
            invariant
                i <= joined.len(),
                jv == rooms_view(joined@),
                jv.len() == joined@.len(),
                rooms_view(new_list@) == shown_rooms(jv.take(i as int)),
                room_events@ == lists_after_joined(lists0, jv.take(i as int)),
            decreases joined.len() - i,
        {
            let ghost before = new_list@;
            assert(jv.take(i + 1).drop_last() =~= jv.take(i as int));
            assert(jv.take(i + 1).last() == joined@[i as int]@);
            let room = &joined[i];
            if !room.tombstoned {
                new_list.push(room.clone());
                assert(rooms_view(new_list@) =~= rooms_view(before).push(room@));
                let list = fresh_list_for(room.clone());
                room_events.insert(room.room_id.clone(), list);
            }
            i += 1;
        }
        assert(jv.take(joined.len() as int) =~= jv);
        if !same_rooms(&new_list, &self.data_cache) {
            self.data_cache = clone_rooms(&new_list);
            Some(new_list)
        } else {
            None
        }
    }
}


/// The line a text message is shown as: the sender in angle brackets, a
/// colon, a space, then the body.
pub open spec fn message_line(sender: Seq<char>, body: Seq<char>) -> Seq<char> {
    seq!['<'] + sender + seq!['>', ':', ' '] + body
}

/// What the event list shows for an event: its line for a text message, and
/// nothing for any other message event.
pub open spec fn display_text(event: MessageEventView) -> Seq<char> {
    match event.text {
        Some(body) => message_line(event.sender, body),
        None => Seq::empty(),
    }
}

impl MessageEvent {
    /// What the event list shows for this event.
    pub fn display_text(&self) -> (text: String)
        ensures
            text@ == display_text(self@),
    {
        match &self.text {
            Some(body) => {
                let mut line = String::from_str("<");
                line.append(self.sender.as_str());
                line.append(">: ");
                line.append(body.as_str());
                proof {
                    reveal_strlit("<");
                    reveal_strlit(">: ");
                    assert(line@ =~= message_line(self.sender@, body@));
                }
                line
            },
            None => String::new(),
        }
    }
}


proof fn lemma_room_ids_push(rooms: Seq<RoomView>, room: RoomView)
    ensures
        room_ids(rooms.push(room)) == room_ids(rooms).push(room.room_id),
        room_ids(rooms.push(room)).contains(room.room_id),
{
    assert(room_ids(rooms.push(room)) =~= room_ids(rooms).push(room.room_id));
    assert(room_ids(rooms.push(room))[rooms.len() as int] == room.room_id);
}

/// Joining a room and then leaving it gives back the room list as it was,
/// for a room that was not in the list and was not replaced by another room.
pub proof fn lemma_add_then_remove_restores(rooms: Seq<RoomView>, room: RoomView)
    requires
        !room_ids(rooms).contains(room.room_id),
        !room.tombstoned,
    ensures
        rooms_after_remove(rooms_after_add(rooms, room), room.room_id) == rooms,
{
    let added = rooms.push(room);
    lemma_room_ids_push(rooms, room);
    let ids = room_ids(added);
    assert forall|j: int| 0 <= j < rooms.len() implies ids[j] != room.room_id by {
        assert(room_ids(rooms)[j] == ids[j]);
    }
    lemma_first_index(ids, room.room_id, rooms.len() as int);
    assert(added.remove(rooms.len() as int) =~= rooms);
}

/// Offering the same room twice changes the room list no more than offering
/// it once.
pub proof fn lemma_add_room_idempotent(rooms: Seq<RoomView>, room: RoomView)
    ensures
        rooms_after_add(rooms_after_add(rooms, room), room) == rooms_after_add(rooms, room),
{
    if !(room_ids(rooms).contains(room.room_id) || room.tombstoned) {
        lemma_room_ids_push(rooms, room);
    }
}

/// Offering a room keeps a well-formed room list well formed: no room twice,
/// none replaced by another room.
pub proof fn lemma_add_room_keeps_well_formed(rooms: Seq<RoomView>, room: RoomView)
    requires
        room_list_well_formed(rooms),
    ensures
        room_list_well_formed(rooms_after_add(rooms, room)),
{
    if !(room_ids(rooms).contains(room.room_id) || room.tombstoned) {
        lemma_room_ids_push(rooms, room);
        let ids = room_ids(rooms.push(room));
        assert forall|a: int, b: int|
            0 <= a < ids.len() && 0 <= b < ids.len() && a != b implies ids[a] != ids[b] by {
            if a < rooms.len() && b < rooms.len() {
                assert(ids[a] == room_ids(rooms)[a] && ids[b] == room_ids(rooms)[b]);
            } else if a < rooms.len() {
                assert(ids[a] == room_ids(rooms)[a]);
            } else if b < rooms.len() {
                assert(ids[b] == room_ids(rooms)[b]);
            }
        }
        assert forall|i: int| 0 <= i < rooms.len() + 1 implies !(#[trigger] rooms.push(
            room,
        )[i]).tombstoned by {
            if i < rooms.len() {
                assert(rooms.push(room)[i] == rooms[i]);
            }
        }
    }
}

/// Leaving a room keeps a well-formed room list well formed.
pub proof fn lemma_remove_room_keeps_well_formed(rooms: Seq<RoomView>, room_id: Seq<char>)
    requires
        room_list_well_formed(rooms),
    ensures
        room_list_well_formed(rooms_after_remove(rooms, room_id)),
{
    match room_ids(rooms).index_of_first(room_id) {
        Some(i) => {
            lemma_index_of_first(room_ids(rooms), room_id);
            let rest = rooms.remove(i);
            let ids = room_ids(rooms);
            assert(room_ids(rest) =~= ids.remove(i));
            assert forall|a: int, b: int|
                0 <= a < rest.len() && 0 <= b < rest.len() && a != b implies room_ids(rest)[a]
                != room_ids(rest)[b] by {
                let oa = if a < i { a } else { a + 1 };
                let ob = if b < i { b } else { b + 1 };
                assert(room_ids(rest)[a] == ids[oa]);
                assert(room_ids(rest)[b] == ids[ob]);
            }
            assert forall|k: int| 0 <= k < rest.len() implies !(#[trigger] rest[k]).tombstoned by {
                let ok = if k < i { k } else { k + 1 };
                assert(rest[k] == rooms[ok]);
            }
        },
        None => {},
    }
}

/// A refresh shows a well-formed room list, where the joined rooms it reads
/// carry distinct ids (as the joined rooms of a client do).
pub proof fn lemma_shown_rooms_well_formed(joined: Seq<RoomView>)
    requires
        room_ids(joined).no_duplicates(),
    ensures
        room_list_well_formed(shown_rooms(joined)),
        forall|id: Seq<char>| room_ids(shown_rooms(joined)).contains(id) ==> room_ids(joined).contains(id),
    decreases joined.len(),
{
    if joined.len() > 0 {
        let prefix = joined.drop_last();
        let last = joined.last();
        assert(room_ids(prefix) =~= room_ids(joined).drop_last());
        assert(room_ids(joined)[joined.len() - 1] == last.room_id);
        assert forall|a: int, b: int|
            0 <= a < room_ids(prefix).len() && 0 <= b < room_ids(prefix).len() && a != b implies room_ids(prefix)[a]
            != room_ids(prefix)[b] by {
            assert(room_ids(prefix)[a] == room_ids(joined)[a]);
            assert(room_ids(prefix)[b] == room_ids(joined)[b]);
        }
        lemma_shown_rooms_well_formed(prefix);
        let before = shown_rooms(prefix);
        assert forall|id: Seq<char>| room_ids(prefix).contains(id) implies room_ids(joined).contains(id) by {
            let k = choose|k: int| 0 <= k < room_ids(prefix).len() && room_ids(prefix)[k] == id;
            assert(room_ids(joined)[k] == id);
        }
        if !last.tombstoned {
            assert(!room_ids(before).contains(last.room_id)) by {
                if room_ids(before).contains(last.room_id) {
                    assert(room_ids(prefix).contains(last.room_id));
                    let k = choose|k: int| 0 <= k < room_ids(prefix).len() && room_ids(prefix)[k]
                        == last.room_id;
                    assert(room_ids(prefix)[k] == room_ids(joined)[k]);
                    assert(room_ids(joined)[k] == room_ids(joined)[joined.len() - 1]);
                    assert(k != joined.len() - 1);
                }
            }
            lemma_add_room_keeps_well_formed(before, last);
            lemma_room_ids_push(before, last);
            assert forall|id: Seq<char>| room_ids(before.push(last)).contains(id) implies room_ids(
                joined,
            ).contains(id) by {
                let k = choose|k: int| 0 <= k < room_ids(before.push(last)).len() && room_ids(before.push(last))[k] == id;
                if k < before.len() {
                    assert(room_ids(before)[k] == id);
                }
            }
        }
    }
}

/// Offering an event already cached changes nothing; offering the same event
/// twice changes the cache no more than offering it once.
pub proof fn lemma_add_event_idempotent(cache: Seq<MessageEventView>, event: MessageEventView)
    ensures
        events_after_add(events_after_add(cache, event), event) == events_after_add(cache, event),
{
    if !event_ids(cache).contains(event.event_id) {
        assert(event_ids(cache.push(event))[cache.len() as int] == event.event_id);
    }
}

/// Offering events keeps the cached event ids distinct.
pub proof fn lemma_add_event_keeps_ids_distinct(cache: Seq<MessageEventView>, event: MessageEventView)
    requires
        event_ids(cache).no_duplicates(),
    ensures
        event_ids(events_after_add(cache, event)).no_duplicates(),
{
    if !event_ids(cache).contains(event.event_id) {
        let ids = event_ids(cache.push(event));
        assert(ids =~= event_ids(cache).push(event.event_id));
        assert forall|a: int, b: int|
            0 <= a < ids.len() && 0 <= b < ids.len() && a != b implies ids[a] != ids[b] by {
            if a < cache.len() && b < cache.len() {
                assert(ids[a] == event_ids(cache)[a] && ids[b] == event_ids(cache)[b]);
            } else if a < cache.len() {
                assert(ids[a] == event_ids(cache)[a]);
            } else if b < cache.len() {
                assert(ids[b] == event_ids(cache)[b]);
            }
        }
    }
}

/// After a room's timeline is read, the cache carries the ids of the
/// timeline's message events, in order, whether or not it was replaced.
pub proof fn lemma_timeline_read_gives_timeline_ids(
    cache: Seq<MessageEventView>,
    items: Seq<PossiblyRedactedEventView>,
)
    ensures
        event_ids(events_after_timeline(cache, items)) == event_ids(regular_events(items)),
{
}


/// After a refresh, every joined room that is shown (one not replaced by
/// another room) has its fresh event list filed under its id, where the
/// joined rooms carry distinct ids.
pub proof fn lemma_refresh_files_every_shown_room(
    lists: Seq<(Seq<char>, EventListState)>,
    joined: Seq<RoomView>,
)
    requires
        room_ids(joined).no_duplicates(),
    ensures
        forall|i: int|
            0 <= i < joined.len() && !joined[i].tombstoned ==> registry_get(
                lists_after_joined(lists, joined),
                #[trigger] joined[i].room_id,
            ) == Some(fresh_event_list(joined[i])),
    decreases joined.len(),
{
    if joined.len() > 0 {
        let prefix = joined.drop_last();
        let n = joined.len() - 1;
        let last = joined.last();
        assert forall|a: int, b: int|
            0 <= a < room_ids(prefix).len() && 0 <= b < room_ids(prefix).len() && a != b implies room_ids(prefix)[a]
            != room_ids(prefix)[b] by {
            assert(room_ids(prefix)[a] == room_ids(joined)[a]);
            assert(room_ids(prefix)[b] == room_ids(joined)[b]);
        }
        lemma_refresh_files_every_shown_room(lists, prefix);
        let before = lists_after_joined(lists, prefix);
        assert forall|i: int|
            0 <= i < joined.len() && !joined[i].tombstoned implies registry_get(
                lists_after_joined(lists, joined),
                #[trigger] joined[i].room_id,
            ) == Some(fresh_event_list(joined[i])) by {
            if i == n {
                lemma_registry_read_after_write(before, last.room_id, fresh_event_list(last));
            } else {
                assert(prefix[i] == joined[i]);
                assert(registry_get(before, prefix[i].room_id) == Some(fresh_event_list(prefix[i])));
                if !last.tombstoned {
                    assert(room_ids(joined)[i] == joined[i].room_id);
                    assert(room_ids(joined)[n] == last.room_id);
                    lemma_registry_other_ids_unchanged(
                        before,
                        last.room_id,
                        fresh_event_list(last),
                        joined[i].room_id,
                    );
                }
            }
        }
    }
}

/// Offering an event whose id is not cached appends it after the cached
/// history: every cached event keeps its place, and the new event comes
/// last. Offering one whose id is cached leaves the cache as it was.
pub proof fn lemma_add_event_appends(cache: Seq<MessageEventView>, event: MessageEventView)
    ensures
        !event_ids(cache).contains(event.event_id) ==> {
            let after = events_after_add(cache, event);
            &&& after.len() == cache.len() + 1
            &&& forall|k: int| 0 <= k < cache.len() ==> after[k] == cache[k]
            &&& after[cache.len() as int] == event
        },
        event_ids(cache).contains(event.event_id) ==> events_after_add(cache, event) == cache,
{
}

/// Leaving a room takes out the first room with its id and keeps every
/// other room, in order: those before it stay where they were, those after
/// it move up by one. Where no room has the id, the list stays as it was.
pub proof fn lemma_remove_room_keeps_order(rooms: Seq<RoomView>, room_id: Seq<char>)
    ensures
        !room_ids(rooms).contains(room_id) ==> rooms_after_remove(rooms, room_id) == rooms,
        forall|i: int|
            0 <= i < rooms.len() && (#[trigger] rooms[i]).room_id == room_id && (forall|j: int|
                0 <= j < i ==> rooms[j].room_id != room_id) ==> {
                let after = rooms_after_remove(rooms, room_id);
                &&& after.len() + 1 == rooms.len()
                &&& forall|k: int| 0 <= k < i ==> after[k] == rooms[k]
                &&& forall|k: int| i <= k < after.len() ==> after[k] == rooms[k + 1]
            },
{
    let ids = room_ids(rooms);
    lemma_index_of_first(ids, room_id);
    assert forall|i: int|
        0 <= i < rooms.len() && (#[trigger] rooms[i]).room_id == room_id && (forall|j: int|
            0 <= j < i ==> rooms[j].room_id != room_id) implies {
        let after = rooms_after_remove(rooms, room_id);
        &&& after.len() + 1 == rooms.len()
        &&& forall|k: int| 0 <= k < i ==> after[k] == rooms[k]
        &&& forall|k: int| i <= k < after.len() ==> after[k] == rooms[k + 1]
    } by {
        assert(ids[i] == room_id);
        assert forall|j: int| 0 <= j < i implies ids[j] != room_id by {
            assert(ids[j] == rooms[j].room_id);
        }
        lemma_first_index(ids, room_id, i);
        let after = rooms_after_remove(rooms, room_id);
        assert(after == rooms.remove(i));
        assert(after.len() + 1 == rooms.len());
    }
}

/// `events` are the message events of the timeline `items`, each whole and
/// in timeline order, with none left out: `idx` gives, for each event, the
/// place in the timeline that holds it, and every non-redacted item of the
/// timeline is one of those places.
pub open spec fn picks_regular_events(
    items: Seq<PossiblyRedactedEventView>,
    events: Seq<MessageEventView>,
    idx: Seq<int>,
) -> bool {
    &&& idx.len() == events.len()
    &&& forall|k: int|
        0 <= k < idx.len() ==> 0 <= #[trigger] idx[k] < items.len() && items[idx[k]]
            == PossiblyRedactedEventView::Regular(events[k])
    &&& forall|a: int, b: int| 0 <= a < b < idx.len() ==> #[trigger] idx[a] < #[trigger] idx[b]
    &&& forall|j: int|
        0 <= j < items.len() && (#[trigger] items[j] is Regular) ==> exists|k: int|
            0 <= k < idx.len() && idx[k] == j
}

/// The events read from a timeline are its non-redacted message events,
/// each unchanged (id, sender and text), in timeline order, none left out.
pub proof fn lemma_regular_events_picks(items: Seq<PossiblyRedactedEventView>) -> (idx: Seq<int>)
    ensures
        picks_regular_events(items, regular_events(items), idx),
    decreases items.len(),
{
    if items.len() == 0 {
        Seq::empty()
    } else {
        let prefix = items.drop_last();
        let n = prefix.len() as int;
        let ip = lemma_regular_events_picks(prefix);
        let ep = regular_events(prefix);
        assert forall|j: int| 0 <= j < n implies items[j] == prefix[j] by {}
        match items.last() {
            PossiblyRedactedEventView::Regular(e) => {
                let idx = ip.push(n);
                let events = ep.push(e);
                assert(regular_events(items) == events);
                assert forall|k: int| 0 <= k < idx.len() implies 0 <= #[trigger] idx[k] < items.len()
                    && items[idx[k]] == PossiblyRedactedEventView::Regular(events[k]) by {
                    if k < ip.len() {
                        assert(idx[k] == ip[k]);
                        assert(prefix[ip[k]] == PossiblyRedactedEventView::Regular(ep[k]));
                    }
                }
                assert forall|a: int, b: int| 0 <= a < b < idx.len() implies #[trigger] idx[a]
                    < #[trigger] idx[b] by {
                    assert(idx[a] == ip[a]);
                    if b < ip.len() {
                        assert(idx[b] == ip[b]);
                        assert(ip[a] < ip[b]);
                    } else {
                        assert(0 <= ip[a] < prefix.len());
                    }
                }
                assert forall|j: int| 0 <= j < items.len() && (#[trigger] items[j] is Regular) implies exists|k: int|
                    0 <= k < idx.len() && idx[k] == j by {
                    if j < n {
                        assert(prefix[j] is Regular);
                        let k = choose|k: int| 0 <= k < ip.len() && ip[k] == j;
                        assert(idx[k] == j);
                    } else {
                        assert(idx[ip.len() as int] == j);
                    }
                }
                idx
            },
            PossiblyRedactedEventView::Redacted(_) => {
                assert(regular_events(items) == ep);
                assert forall|k: int| 0 <= k < ip.len() implies 0 <= #[trigger] ip[k] < items.len()
                    && items[ip[k]] == PossiblyRedactedEventView::Regular(ep[k]) by {
                    assert(prefix[ip[k]] == PossiblyRedactedEventView::Regular(ep[k]));
                }
                assert forall|j: int| 0 <= j < items.len() && (#[trigger] items[j] is Regular) implies exists|k: int|
                    0 <= k < ip.len() && ip[k] == j by {
                    if j < n {
                        assert(prefix[j] is Regular);
                    }
                }
                ip
            },
        }
    }
}

/// After a refresh, every shown joined room has an event list filed under
/// its id (where the joined ids are distinct) that no refresh or switch
/// holds, that belongs to that room, and that holds exactly the room's
/// non-redacted timeline events, each unchanged, in timeline order.
pub proof fn lemma_refresh_files_fresh_lists(
    lists: Seq<(Seq<char>, EventListState)>,
    joined: Seq<RoomView>,
)
    requires
        room_ids(joined).no_duplicates(),
    ensures
        forall|i: int|
            0 <= i < joined.len() && !joined[i].tombstoned ==> {
                let filed = registry_get(lists_after_joined(lists, joined), #[trigger] joined[i].room_id);
                &&& filed is Some
                &&& !filed->0.switching
                &&& !filed->0.fetching
                &&& filed->0.room_id == Some(joined[i].room_id)
                &&& exists|idx: Seq<int>| picks_regular_events(joined[i].messages, filed->0.events, idx)
            },
{
    lemma_refresh_files_every_shown_room(lists, joined);
    assert forall|i: int| 0 <= i < joined.len() && !joined[i].tombstoned implies {
        let filed = registry_get(lists_after_joined(lists, joined), #[trigger] joined[i].room_id);
        &&& filed is Some
        &&& !filed->0.switching
        &&& !filed->0.fetching
        &&& filed->0.room_id == Some(joined[i].room_id)
        &&& exists|idx: Seq<int>| picks_regular_events(joined[i].messages, filed->0.events, idx)
    } by {
        let filed = registry_get(lists_after_joined(lists, joined), joined[i].room_id);
        assert(filed == Some(fresh_event_list(joined[i])));
        let idx = lemma_regular_events_picks(joined[i].messages);
        assert(filed->0.events == regular_events(joined[i].messages));
        assert(picks_regular_events(joined[i].messages, filed->0.events, idx));
    }
}

} // verus!

use vstd::prelude::*;

use crate::lookup::{lemma_absent, lemma_first_index, lemma_index_of_first};
use crate::matrix::room::{events_view, EventListAsynSyncLogic, EventListState, MessageEvent};

verus! {

/// Message events to append to the list shown for a room.
pub struct EventListAppedStruct {
    pub room_id: String,
    pub events: Vec<MessageEvent>,
}

/// The event list of one room, filed under the room's id.
struct RoomEvents {
    room_id: String,
    list: EventListAsynSyncLogic,
}

/// The event lists of the joined rooms, each filed under its room's id.
pub struct RoomEventLists {
    entries: Vec<RoomEvents>,
}

pub open spec fn registry_keys(entries: Seq<(Seq<char>, EventListState)>) -> Seq<Seq<char>> {
    entries.map_values(|e: (Seq<char>, EventListState)| e.0)
}

/// The entries after `list` is filed under `room_id`: it replaces the list
/// filed under that id, or is added after the others where there is none.
pub open spec fn registry_insert(
    entries: Seq<(Seq<char>, EventListState)>,
    room_id: Seq<char>,
    list: EventListState,
) -> Seq<(Seq<char>, EventListState)> {
    match registry_keys(entries).index_of_first(room_id) {
        Some(i) => entries.update(i, (room_id, list)),
        None => entries.push((room_id, list)),
    }
}

/// The list filed under `room_id`, if there is one.
pub open spec fn registry_get(entries: Seq<(Seq<char>, EventListState)>, room_id: Seq<char>) -> Option<
    EventListState,
> {
    match registry_keys(entries).index_of_first(room_id) {
        Some(i) => Some(entries[i].1),
        None => None,
    }
}

impl View for RoomEventLists {
    type V = Seq<(Seq<char>, EventListState)>;

    closed spec fn view(&self) -> Seq<(Seq<char>, EventListState)> {
        self.entries@.map_values(|e: RoomEvents| (e.room_id@, e.list@))
    }
}

impl RoomEventLists {
    /// No room id has two lists filed under it.
    #[verifier::type_invariant]
    spec fn ids_distinct(self) -> bool {
        registry_keys(self@).no_duplicates()
    }

    /// No event list filed.
    pub fn new() -> (lists: Self)
        ensures
            lists@ == Seq::<(Seq<char>, EventListState)>::empty(),
            registry_keys(lists@).no_duplicates(),
    {
        let lists = RoomEventLists { entries: Vec::new() };
        assert(lists@ =~= Seq::<(Seq<char>, EventListState)>::empty());
        lists
    }

    /// Where the list filed under `room_id` stands.
    fn position(&self, room_id: &String) -> (pos: Option<usize>)
        ensures
            match pos {
                Some(i) => registry_keys(self@).index_of_first(room_id@) == Some(i as int)
                    && i < self.entries@.len(),
                None => registry_keys(self@).index_of_first(room_id@) is None,
            },
    {
        let ghost keys = registry_keys(self@);
        let mut i: usize = 0;
        while i < self.entries.len()
            invariant
                i <= self.entries.len(),
                keys == registry_keys(self@),
                keys.len() == self.entries@.len(),
                forall|j: int|
                    0 <= j < keys.len() ==> #[trigger] keys[j] == self.entries@[j].room_id@,
                forall|j: int| 0 <= j < i ==> keys[j] != room_id@,
            decreases self.entries.len() - i,
        {
            if self.entries[i].room_id == *room_id {
                proof {
                    lemma_first_index(keys, room_id@, i as int);
                }
                return Some(i);
            }
            i += 1;
        }
        proof {
            lemma_absent(keys, room_id@);
        }
        None
    }

    /// Whether a list is filed under `room_id`.
    pub fn contains(&self, room_id: &String) -> (found: bool)
        ensures
            found == registry_keys(self@).contains(room_id@),
            found == registry_get(self@, room_id@) is Some,
    {
        proof {
            lemma_index_of_first(registry_keys(self@), room_id@);
        }
        self.position(room_id).is_some()
    }

    /// Files `list` under `room_id`, in place of the list filed there before.
    pub fn insert(&mut self, room_id: String, list: EventListAsynSyncLogic)
        ensures
            final(self)@ == registry_insert(old(self)@, room_id@, list@),
            registry_keys(final(self)@).no_duplicates(),
    {
        proof {
            use_type_invariant(&*self);
            lemma_registry_insert_keeps_ids_distinct(self@, room_id@, list@);
            lemma_index_of_first(registry_keys(self@), room_id@);
        }
        let ghost before = self@;
        let ghost after = registry_insert(before, room_id@, list@);
        let pos = self.position(&room_id);
        let mut entries: Vec<RoomEvents> = Vec::new();
        std::mem::swap(&mut entries, &mut self.entries);
        match pos {
            Some(i) => {
                entries.set(i, RoomEvents { room_id, list });
            },
            None => {
                entries.push(RoomEvents { room_id, list });
            },
        }
        assert(entries@.map_values(|e: RoomEvents| (e.room_id@, e.list@)) =~= after);
        self.entries = entries;
    }

    /// The cached events of the list filed under `room_id`, if there is one.
    pub fn events_of(&self, room_id: &String) -> (events: Option<Vec<MessageEvent>>)
        ensures
            events is Some <==> registry_get(self@, room_id@) is Some,
            events matches Some(v) ==> events_view(v@) == registry_get(self@, room_id@)->0.events,
    {
        match self.position(room_id) {
            Some(i) => Some(self.entries[i].list.events()),
            None => None,
        }
    }

    /// Switches the shown event list to the room with `room_id`: the list
    /// filed under it hands out its cached events, unless a switch to it is
    /// running already. No list changes.
    pub fn switch_room(&mut self, room_id: &String) -> (shown: Option<Vec<MessageEvent>>)
        requires
            registry_get(old(self)@, room_id@) is Some,
        ensures
            final(self)@ == old(self)@,
            shown is Some <==> !registry_get(old(self)@, room_id@)->0.switching,
            shown matches Some(v) ==> events_view(v@) == registry_get(old(self)@, room_id@)->0.events,
    {
        proof {
            use_type_invariant(&*self);
        }
        let ghost before = self@;
        match self.position(room_id) {
            Some(i) => {
                let mut entries: Vec<RoomEvents> = Vec::new();
                std::mem::swap(&mut entries, &mut self.entries);
                let mut entry = entries.remove(i);
                let shown = entry.list.switch_room();
                entries.insert(i, entry);
                assert(entries@.map_values(|e: RoomEvents| (e.room_id@, e.list@)) =~= before);
                self.entries = entries;
                shown
            },
            None => {
                assert(false);
                None
            },
        }
    }
}


proof fn lemma_keys_after_insert(
    entries: Seq<(Seq<char>, EventListState)>,
    room_id: Seq<char>,
    list: EventListState,
)
    ensures
        registry_keys(registry_insert(entries, room_id, list)) == (match registry_keys(
            entries,
        ).index_of_first(room_id) {
            Some(i) => registry_keys(entries),
            None => registry_keys(entries).push(room_id),
        }),
{
    lemma_index_of_first(registry_keys(entries), room_id);
    match registry_keys(entries).index_of_first(room_id) {
        Some(i) => {
            assert(registry_keys(entries.update(i, (room_id, list))) =~= registry_keys(entries));
        },
        None => {
            assert(registry_keys(entries.push((room_id, list))) =~= registry_keys(entries).push(
                room_id,
            ));
        },
    }
}

/// A list filed under a room's id is the list read back under that id.
pub proof fn lemma_registry_read_after_write(
    entries: Seq<(Seq<char>, EventListState)>,
    room_id: Seq<char>,
    list: EventListState,
)
    ensures
        registry_get(registry_insert(entries, room_id, list), room_id) == Some(list),
{
    let after = registry_insert(entries, room_id, list);
    lemma_keys_after_insert(entries, room_id, list);
    lemma_index_of_first(registry_keys(entries), room_id);
    match registry_keys(entries).index_of_first(room_id) {
        Some(i) => {
            assert(after[i] == (room_id, list));
        },
        None => {
            let keys = registry_keys(after);
            let n = entries.len() as int;
            assert(keys[n] == room_id);
            assert forall|j: int| 0 <= j < n implies keys[j] != room_id by {
                assert(keys[j] == registry_keys(entries)[j]);
            }
            lemma_first_index(keys, room_id, n);
            assert(after[n] == (room_id, list));
        },
    }
}

/// Filing a list under one room's id leaves what is read back under every
/// other id as it was.
pub proof fn lemma_registry_other_ids_unchanged(
    entries: Seq<(Seq<char>, EventListState)>,
    room_id: Seq<char>,
    list: EventListState,
    other_id: Seq<char>,
)
    requires
        other_id != room_id,
    ensures
        registry_get(registry_insert(entries, room_id, list), other_id) == registry_get(
            entries,
            other_id,
        ),
{
    let after = registry_insert(entries, room_id, list);
    let keys = registry_keys(entries);
    lemma_keys_after_insert(entries, room_id, list);
    lemma_index_of_first(keys, room_id);
    lemma_index_of_first(keys, other_id);
    match keys.index_of_first(other_id) {
        Some(k) => {
            lemma_first_index(registry_keys(after), other_id, k);
            match keys.index_of_first(room_id) {
                Some(i) => {
                    assert(i != k);
                    assert(after[k] == entries[k]);
                },
                None => {
                    assert(after[k] == entries[k]);
                },
            }
        },
        None => {
            assert forall|j: int| 0 <= j < registry_keys(after).len() implies registry_keys(
                after,
            )[j] != other_id by {
                if j < keys.len() {
                    assert(registry_keys(after)[j] == keys[j]);
                }
            }
            lemma_absent(registry_keys(after), other_id);
        },
    }
}

/// Filing lists never files two lists under one room's id.
pub proof fn lemma_registry_insert_keeps_ids_distinct(
    entries: Seq<(Seq<char>, EventListState)>,
    room_id: Seq<char>,
    list: EventListState,
)
    requires
        registry_keys(entries).no_duplicates(),
    ensures
        registry_keys(registry_insert(entries, room_id, list)).no_duplicates(),
{
    let keys = registry_keys(entries);
    lemma_keys_after_insert(entries, room_id, list);
    lemma_index_of_first(keys, room_id);
    if keys.index_of_first(room_id) is None {
        let k2 = keys.push(room_id);
        assert forall|a: int, b: int|
            0 <= a < k2.len() && 0 <= b < k2.len() && a != b implies k2[a] != k2[b] by {
            if a < keys.len() && b < keys.len() {
            } else if a < keys.len() {
                assert(k2[a] == keys[a]);
            } else if b < keys.len() {
                assert(k2[b] == keys[b]);
            }
        }
    }
}

} // verus!

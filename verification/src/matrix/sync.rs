use vstd::prelude::*;

use crate::matrix::room::{
    display_text, rooms_after_add, rooms_after_remove, rooms_view, MessageEvent, Room,
    RoomListAsynSyncLogic,
};

verus! {

/// A room as a sync reports it, by the user's membership in it.
pub enum SyncRoom {
    Joined(Room),
    Left(Room),
    Invited(Room),
}

/// A change to the shown room list.
pub enum RoomListCommand {
    /// Rooms to append to the shown list.
    AppendRooms(Vec<Room>),
    /// Rooms to take off the shown list.
    RemoveRooms(Vec<Room>),
}

/// The line printed for a message that arrives in a room: the event's text
/// line, for a text message in a joined room; nothing otherwise.
pub fn on_room_message(joined: bool, event: &MessageEvent) -> (line: Option<String>)
    ensures
        line is Some <==> joined && event@.text is Some,
        line matches Some(l) ==> l@ == display_text(event@),
{
    if joined && event.text.is_some() {
        Some(event.display_text())
    } else {
        None
    }
}

/// Handles a membership event that a sync reports. Only the user's own
/// membership changes the room list: a room the user joined is offered to
/// it, a room the user left is taken out of it. Invitations change nothing.
pub fn on_room_member(
    room_list: &mut RoomListAsynSyncLogic,
    own_user_id: &String,
    sender: &String,
    room: SyncRoom,
) -> (command: Option<RoomListCommand>)
    ensures
        final(room_list)@.fetching == old(room_list)@.fetching,
        sender@ != own_user_id@ ==> final(room_list)@ == old(room_list)@ && command is None,
        sender@ == own_user_id@ ==> match room {
            SyncRoom::Joined(r) => {
                &&& final(room_list)@.rooms == rooms_after_add(old(room_list)@.rooms, r@)
                &&& (command is Some <==> final(room_list)@.rooms != old(room_list)@.rooms)
                &&& command matches Some(RoomListCommand::AppendRooms(v)) ==> rooms_view(v@)
                    == seq![r@]
                &&& !(command matches Some(RoomListCommand::RemoveRooms(_)))
            },
            SyncRoom::Left(r) => {
                &&& final(room_list)@.rooms == rooms_after_remove(
                    old(room_list)@.rooms,
                    r@.room_id,
                )
                &&& (command is Some <==> final(room_list)@.rooms != old(room_list)@.rooms)
                &&& command matches Some(RoomListCommand::RemoveRooms(v)) ==> rooms_view(v@)
                    == seq![r@]
                &&& !(command matches Some(RoomListCommand::AppendRooms(_)))
            },
            SyncRoom::Invited(_) => final(room_list)@ == old(room_list)@ && command is None,
        },
{
    if *sender != *own_user_id {
        return None;
    }
    match room {
        SyncRoom::Joined(r) => {
            let ghost before = room_list@.rooms;
            match room_list.add_room_if_new(r) {
                Some(v) => {
                    assert(room_list@.rooms.len() == before.len() + 1);
                    Some(RoomListCommand::AppendRooms(v))
                },
                None => None,
            }
        },
        SyncRoom::Left(r) => {
            let ghost before = room_list@.rooms;
            proof {
                crate::lookup::lemma_index_of_first(
                    crate::matrix::room::room_ids(before),
                    r@.room_id,
                );
            }
            match room_list.remove_room(r) {
                Some(v) => {
                    assert(room_list@.rooms.len() + 1 == before.len());
                    Some(RoomListCommand::RemoveRooms(v))
                },
                None => None,
            }
        },
        SyncRoom::Invited(_) => None,
    }
}

} // verus!

//! A raw message parsed together with the room it is about.

use crate::message::{message_kind, message_room, room_and_kind, Kind, RoomsList};
use crate::RoomId;
use vstd::prelude::*;

verus! {

#[derive(Debug)]
pub struct ParsedMessage<'a> {
    pub room_id: RoomId<'a>,
    pub kind: Kind<'a>,
}

impl<'a> ParsedMessage<'a> {
    /// Parses a raw message; `rooms` is the decoded JSON of a rooms query
    /// response (see `Message::rooms_json`).
    pub fn parse_message(full_message: &'a str, rooms: Option<RoomsList>) -> (r: Self)
        ensures
            r.room_id@ == message_room(full_message@),
            r.kind@ == message_kind(full_message@, rooms),
    {
        let (room_id, kind) = room_and_kind(full_message, rooms);
        ParsedMessage { room_id, kind }
    }
}

} // verus!

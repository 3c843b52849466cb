//! Composing demonstration messages from already-drawn ingredients: the
//! caller picks a room and a sender, stamps a time, and supplies an
//! identifier and body text; this puts the message together.

use vstd::prelude::*;

use crate::message::{Message, MessageBody, MessageKey, Room, RichText, User};

verus! {

/// Builds the message sent by `users[user_index]` to `rooms[room_index]`
/// at `timestamp`, with the given identifier and body text.
pub fn generate_message(
    rooms: &Vec<Room>,
    users: &Vec<User>,
    room_index: usize,
    user_index: usize,
    timestamp: i64,
    identifier: String,
    body: String,
) -> (r: Message)
    requires
        room_index < rooms@.len(),
        user_index < users@.len(),
    ensures
        r.key.timestamp == timestamp,
        r.key.identifier@ == identifier@,
        r.sender.display_name@ == users@[user_index as int].display_name@,
        r.sender.identifier@ == users@[user_index as int].identifier@,
        r.room.display_name@ == rooms@[room_index as int].display_name@,
        r.room.identifier@ == rooms@[room_index as int].identifier@,
        (r.body matches MessageBody::Text(t) && t.0@ == body@),
{
    let key = MessageKey { timestamp, identifier };
    let sender = User {
        display_name: users[user_index].display_name.clone(),
        identifier: users[user_index].identifier.clone(),
    };
    let room = Room {
        display_name: rooms[room_index].display_name.clone(),
        identifier: rooms[room_index].identifier.clone(),
    };
    let body = MessageBody::Text(RichText(body));
    Message { key, sender, room, body }
}

} // verus!

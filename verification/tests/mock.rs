use chrono::{SubsecRound, Utc};
use showdown::message::{Kind, Message, QueryResponse, Room, RoomsList, Text};
use showdown::{RoomId, SendMessage};

/// Builds a rooms list from the JSON that a rooms query response carries.
fn decode_rooms(json: &str) -> Option<RoomsList> {
    let value: serde_json::Value = serde_json::from_str(json).ok()?;
    let rooms = |key: &str| -> Option<Vec<Room>> {
        let mut out = Vec::new();
        for room in value.get(key)?.as_array()? {
            out.push(Room {
                title: room.get("title")?.as_str()?.to_string(),
                desc: room.get("desc")?.as_str()?.to_string(),
                user_count: room.get("userCount")?.as_u64()? as u32,
                sub_rooms: Vec::new(),
            });
        }
        Some(out)
    };
    Some(RoomsList {
        official: rooms("official")?,
        pspl: rooms("pspl")?,
        chat: rooms("chat")?,
        user_count: value.get("userCount")?.as_u64()? as u32,
        battle_count: value.get("battleCount")?.as_u64()? as u32,
    })
}

fn kind_of(message: &Message) -> Kind<'_> {
    let rooms = message.rooms_json().and_then(decode_rooms);
    message.kind(rooms)
}

#[test]
fn parsing_chat_messages() {
    let time = Utc::now().trunc_subsecs(0);
    let message = Message::new(format!("|c:|{}|+xfix|Hello|world", time.timestamp()));
    let chat = match kind_of(&message) {
        Kind::Text(Text::Chat(chat)) => chat,
        _ => unreachable!(),
    };
    assert_eq!(chat.room_id().0, RoomId::lobby().0);
    assert_eq!(chat.timestamp(), time.naive_utc());
    assert_eq!(chat.user(), "+xfix");
    assert_eq!(chat.message(), "Hello|world");
}

#[test]
fn reply_test() {
    let message = Message::new("|c:|0|+xfix|Hi there".into());
    let text = match kind_of(&message) {
        Kind::Text(text) => text,
        _ => unreachable!(),
    };
    assert_eq!(SendMessage::reply(text, "Hi there").as_str(), "| Hi there");
}

#[test]
fn test_global_command() {
    assert_eq!(
        SendMessage::global_command("hey there").as_str(),
        "|/hey there"
    );
}

#[test]
fn parsing_roomlist() {
    let message = Message::new(
        r#"|queryresponse|rooms|{
                "official": [
                    {
                        "title": "a\"b",
                        "desc": "\n",
                        "userCount": 2
                    }
                ],
                "pspl": [],
                "chat": [
                    {
                        "title": "Nice room",
                        "desc": "No need to own that one",
                        "userCount": 1
                    }
                ],
                "userCount": 42,
                "battleCount": 24
            }"#
        .into(),
    );
    match kind_of(&message) {
        Kind::QueryResponse(QueryResponse::Rooms(rooms_list)) => {
            let rooms = rooms_list.iter();
            let mut iter = rooms.iter();
            match iter.next() {
                Some(Room { title, desc, .. }) => {
                    assert_eq!(title, "a\"b");
                    assert_eq!(desc, "\n");
                }
                _ => unreachable!(),
            }
            match iter.next() {
                Some(Room { title, desc, .. }) => {
                    assert_eq!(title, "Nice room");
                    assert_eq!(desc, "No need to own that one");
                }
                _ => unreachable!(),
            }
            assert!(iter.next().is_none());
        }
        _ => unreachable!(),
    }
}

use showdown::message::{
    login_answer_json, Challenge, Kind, Message, NoInitKind, ParsedMessage, QueryResponse, Room,
    RoomsList, Text,
};
use showdown::{RoomId, SendMessage};

fn parse(raw: &str) -> Message {
    Message::new(raw.to_string())
}

fn sample_rooms() -> RoomsList {
    let room = |title: &str, users: u32| Room {
        title: title.to_string(),
        desc: String::new(),
        user_count: users,
        sub_rooms: Vec::new(),
    };
    RoomsList {
        official: vec![room("Lobby", 10), room("Help", 3)],
        pspl: vec![room("PSPL", 1)],
        chat: vec![room("Tournaments", 7)],
        user_count: 21,
        battle_count: 2,
    }
}

#[test]
fn chat_in_a_named_room() {
    let message = parse(">techcode\n|c:|1600000000|~zarel|let's code\n");
    match message.kind(None) {
        Kind::Text(Text::Chat(chat)) => {
            assert_eq!(chat.room_id().0, "techcode");
            assert_eq!(chat.user(), "~zarel");
            assert_eq!(chat.message(), "let's code");
        }
        other => panic!("unexpected {:?}", other),
    }
}

#[test]
fn chat_message_loses_one_newline_only() {
    let message = parse("|c:|0|user|two\n\n");
    match message.kind(None) {
        Kind::Text(text) => assert_eq!(text.message(), "two\n"),
        other => panic!("unexpected {:?}", other),
    }
}

#[test]
fn chat_with_missing_fields_is_empty() {
    let message = parse("|c:|123");
    match message.kind(None) {
        Kind::Text(Text::Chat(chat)) => {
            assert_eq!(chat.user(), "");
            assert_eq!(chat.message(), "");
            assert!(chat.checked_timestamp().is_some());
        }
        other => panic!("unexpected {:?}", other),
    }
}

#[test]
fn private_message_fields() {
    let message = parse("|pm| Sender| Receiver|hi|there");
    match message.kind(None) {
        Kind::Text(Text::Private(private)) => {
            assert_eq!(private.from, " Sender");
            assert_eq!(private.to, " Receiver");
            assert_eq!(private.message, "hi|there");
        }
        other => panic!("unexpected {:?}", other),
    }
    match message.kind(None) {
        Kind::Text(text) => {
            assert_eq!(text.user(), " Sender");
            assert_eq!(text.message(), "hi|there");
            assert_eq!(SendMessage::reply(text, "ok").as_str(), "|/pm  Sender,ok");
        }
        other => panic!("unexpected {:?}", other),
    }
}

#[test]
fn challenge_and_html() {
    match parse("|challstr|4|abc").kind(None) {
        Kind::Challenge(challenge) => {
            let form = challenge.login_form("me", "");
            assert_eq!(
                form,
                vec![("act", "getassertion"), ("userid", "me"), ("challstr", "4|abc")]
            );
            let form = challenge.login_form("me", "pw");
            assert_eq!(
                form,
                vec![("act", "login"), ("name", "me"), ("pass", "pw"), ("challstr", "4|abc")]
            );
        }
        other => panic!("unexpected {:?}", other),
    }
    match parse("|html|<b>hi</b>").kind(None) {
        Kind::Html(html) => assert_eq!(html, "<b>hi</b>"),
        other => panic!("unexpected {:?}", other),
    }
}

#[test]
fn no_init_kinds() {
    for (text, expected) in [
        ("|noinit|nonexistent|The room does not exist.", NoInitKind::Nonexistent),
        ("|noinit|joinfailed|No.", NoInitKind::JoinFailed),
        ("|noinit|namerequired|Log in first.", NoInitKind::NameRequired),
    ] {
        match parse(text).kind(None) {
            Kind::NoInit(no_init) => {
                assert_eq!(no_init.kind, expected);
                assert!(!no_init.reason.is_empty());
            }
            other => panic!("unexpected {:?}", other),
        }
    }
    assert!(matches!(
        parse("|noinit|other|x").kind(None),
        Kind::Unrecognized(_)
    ));
}

#[test]
fn room_init_needs_title_and_users() {
    let raw = ">lobby\n|init|chat\n|title|Lobby\n\n|users|3,*a,+b,c\n|:|1\n|title|Lobby 2";
    match parse(raw).kind(None) {
        Kind::RoomInit(init) => {
            let text = format!("{:?}", init);
            assert!(text.contains("Chat"));
            assert!(text.contains("\"Lobby 2\""));
            assert!(text.contains("\"3,*a,+b,c\""));
        }
        other => panic!("unexpected {:?}", other),
    }
    match parse("|init|battle\n|title|x\n|users|y").kind(None) {
        Kind::RoomInit(init) => assert!(format!("{:?}", init).contains("Battle")),
        other => panic!("unexpected {:?}", other),
    }
    assert!(matches!(parse("|init|chat\n|title|x").kind(None), Kind::Unrecognized(_)));
    assert!(matches!(
        parse("|init|chat\n|title|x\nbad line\n|users|y").kind(None),
        Kind::Unrecognized(_)
    ));
    assert!(matches!(
        parse("|init|other\n|title|x\n|users|y").kind(None),
        Kind::Unrecognized(_)
    ));
}

#[test]
fn update_user_fields() {
    match parse("|updateuser| Guest 12|0|170\n|x").kind(None) {
        Kind::UpdateUser(update) => {
            assert_eq!(update.username, " Guest 12");
            assert!(!update.named);
            assert_eq!(update.avatar, "170");
        }
        other => panic!("unexpected {:?}", other),
    }
    match parse("|updateuser|xfix|1|1|{}").kind(None) {
        Kind::UpdateUser(update) => {
            assert!(update.named);
            assert_eq!(update.avatar, "1");
        }
        other => panic!("unexpected {:?}", other),
    }
    assert!(matches!(parse("|updateuser|xfix|2|1").kind(None), Kind::Unrecognized(_)));
    assert!(matches!(parse("|updateuser|xfix|1").kind(None), Kind::Unrecognized(_)));
}

#[test]
fn unrecognized_keeps_whole_message() {
    for raw in ["hello", "|unknown|x", ">room\nno pipe", "", "|"] {
        match parse(raw).kind(None) {
            Kind::Unrecognized(unrecognized) => {
                assert_eq!(format!("{:?}", unrecognized), format!("UnrecognizedMessage({:?})", raw))
            }
            other => panic!("unexpected {:?}", other),
        }
    }
}

#[test]
fn rooms_response_needs_decoded_list() {
    let message = parse("|queryresponse|rooms|{not json");
    assert_eq!(message.rooms_json(), Some("{not json"));
    assert!(matches!(message.kind(None), Kind::Unrecognized(_)));
    match message.kind(Some(sample_rooms())) {
        Kind::QueryResponse(QueryResponse::Rooms(list)) => {
            let titles: Vec<&str> = list.iter().iter().map(|r| r.title.as_str()).collect();
            assert_eq!(titles, vec!["Lobby", "Help", "PSPL", "Tournaments"]);
        }
        other => panic!("unexpected {:?}", other),
    }
    assert_eq!(parse("|queryresponse|userdetails|{}").rooms_json(), None);
    assert!(matches!(
        parse("|queryresponse|userdetails|{}").kind(Some(sample_rooms())),
        Kind::Unrecognized(_)
    ));
    assert_eq!(parse("|c:|0|a|b").rooms_json(), None);
}

#[test]
fn parsed_message_names_its_room() {
    let parsed = ParsedMessage::parse_message(">battle-gen8-1\n|c:|5|p1|gg", None);
    assert_eq!(parsed.room_id.0, "battle-gen8-1");
    match parsed.kind {
        Kind::Text(Text::Chat(chat)) => {
            assert_eq!(chat.room_id().0, "battle-gen8-1");
            assert_eq!(chat.message(), "gg");
        }
        other => panic!("unexpected {:?}", other),
    }
    let parsed = ParsedMessage::parse_message(">room-only", None);
    assert_eq!(parsed.room_id.0, "room-only");
    assert!(matches!(parsed.kind, Kind::Unrecognized(_)));
    let parsed = ParsedMessage::parse_message("|html|x", None);
    assert_eq!(parsed.room_id.0, "");
}

#[test]
fn unicode_text_is_split_on_characters() {
    match parse(">pokémon\n|c:|1|Ünïcödé|héllo|wörld").kind(None) {
        Kind::Text(Text::Chat(chat)) => {
            assert_eq!(chat.room_id().0, "pokémon");
            assert_eq!(chat.user(), "Ünïcödé");
            assert_eq!(chat.message(), "héllo|wörld");
        }
        other => panic!("unexpected {:?}", other),
    }
}

#[test]
fn room_commands() {
    let room = RoomId("lobby");
    assert_eq!(SendMessage::chat_message(room, "hi").as_str(), "lobby| hi");
    assert_eq!(SendMessage::chat_command(room, "roomdesc").as_str(), "lobby|/roomdesc");
    assert_eq!(SendMessage::broadcast_command(room, "dt pikachu").as_str(), "lobby|!dt pikachu");
    assert_eq!(SendMessage::chat_message(RoomId::lobby(), "x").as_str(), "| x");
}

#[test]
fn login_replies() {
    assert!(Challenge::assertion_reply("user", ";").is_none());
    let reply = Challenge::assertion_reply("user", "ASSERTION").unwrap();
    assert_eq!(reply.as_str(), "|/trn user,0,ASSERTION");
    assert_eq!(Challenge::trn_command("a", "b").as_str(), "|/trn a,0,b");
    assert_eq!(login_answer_json(b"]{\"assertion\":\"x\"}"), b"{\"assertion\":\"x\"}");
}

#[test]
fn timestamps() {
    match parse("|c:|1431648000|u|m").kind(None) {
        Kind::Text(Text::Chat(chat)) => {
            assert_eq!(chat.timestamp().and_utc().timestamp(), 1431648000);
            assert_eq!(chat.timestamp().to_string(), "2015-05-15 00:00:00");
        }
        other => panic!("unexpected {:?}", other),
    }
    for (raw, valid) in [
        ("|c:|-5|u|m", true),
        ("|c:|+5|u|m", true),
        ("|c:|x5|u|m", false),
        ("|c:||u|m", false),
        ("|c:|-|u|m", false),
        ("|c:|99999999999999999999|u|m", false),
        ("|c:|9223372036854775807|u|m", false),
    ] {
        match parse(raw).kind(None) {
            Kind::Text(Text::Chat(chat)) => assert_eq!(chat.checked_timestamp().is_some(), valid, "{}", raw),
            other => panic!("unexpected {:?}", other),
        }
    }
}

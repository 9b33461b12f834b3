//! Pokémon Showdown client: the protocol's message grammar and the messages
//! a client sends, with their contracts.

pub mod message;
pub mod server;
pub mod text;

pub use text::{find_char, split_all, split_once, strip_first, strip_last};

use message::{Text, TextView};
use vstd::prelude::*;

verus! {

/// A chat room identifier; the lobby is the empty one.
#[derive(Copy, Clone, Debug)]
pub struct RoomId<'a>(pub &'a str);

impl<'a> View for RoomId<'a> {
    type V = Seq<char>;

    open spec fn view(&self) -> Seq<char> {
        self.0@
    }
}

impl RoomId<'_> {
    /// The lobby, the room whose identifier is empty.
    pub fn lobby() -> (r: RoomId<'static>)
        ensures
            r@ == Seq::<char>::empty(),
    {
        proof {
            reveal_strlit("");
        }
        RoomId("")
    }
}

/// A message to be sent to the server.
#[derive(Debug)]
pub struct SendMessage(String);

impl View for SendMessage {
    type V = Seq<char>;

    closed spec fn view(&self) -> Seq<char> {
        self.0@
    }
}

/// Text of a global command.
pub open spec fn global_command_text(command: Seq<char>) -> Seq<char> {
    "|/"@ + command
}

/// Text of a message sent into `room` with the marker `marker` before the body.
pub open spec fn room_text(room: Seq<char>, marker: char, body: Seq<char>) -> Seq<char> {
    room + seq!['|', marker] + body
}

/// `a` followed by `b`, as a new owned text.
fn concat(a: &str, b: &str) -> (r: String)
    ensures
        r@ == a@ + b@,
{
    let mut r = a.to_owned();
    r.append(b);
    r
}

impl SendMessage {
    /// Creates a global command.
    pub fn global_command(command: &str) -> (r: Self)
        ensures
            r@ == global_command_text(command@),
    {
        SendMessage(concat("|/", command))
    }

    /// Creates a chat message for a chat room.
    pub fn chat_message(room_id: RoomId<'_>, message: &str) -> (r: Self)
        ensures
            r@ == room_text(room_id@, ' ', message@),
    {
        let r = Self::prefixed(room_id, "| ", message);
        proof {
            reveal_strlit("| ");
        }
        r
    }

    /// Creates a command that executes in a chat room.
    pub fn chat_command(room_id: RoomId<'_>, command: &str) -> (r: Self)
        ensures
            r@ == room_text(room_id@, '/', command@),
    {
        let r = Self::prefixed(room_id, "|/", command);
        proof {
            reveal_strlit("|/");
        }
        r
    }

    /// Creates a command whose result is shown to the whole chat room.
    pub fn broadcast_command(room_id: RoomId<'_>, command: &str) -> (r: Self)
        ensures
            r@ == room_text(room_id@, '!', command@),
    {
        let r = Self::prefixed(room_id, "|!", command);
        proof {
            reveal_strlit("|!");
        }
        r
    }

    /// Replies to a text: in its chat room, or by private message to its sender.
    pub fn reply(text: Text<'_>, message: &str) -> (r: Self)
        ensures
            r@ == match text@ {
                TextView::Chat(chat) => room_text(chat.room_id, ' ', message@),
                TextView::Private(private) => global_command_text(
                    "pm "@ + private.from + ","@ + message@,
                ),
            },
    {
        match text {
            Text::Chat(chat) => Self::chat_message(chat.room_id(), message),
            Text::Private(private) => {
                let mut command = concat("pm ", private.from);
                command.append(",");
                command.append(message);
                Self::global_command(command.as_str())
            },
        }
    }

    fn prefixed(room_id: RoomId<'_>, marker: &str, message: &str) -> (r: Self)
        ensures
            r@ == room_id@ + marker@ + message@,
    {
        let mut text = room_id.0.to_owned();
        text.append(marker);
        text.append(message);
        SendMessage(text)
    }

    /// The text that goes on the wire.
    pub fn as_str(&self) -> (r: &str)
        ensures
            r@ == self@,
    {
        self.0.as_str()
    }
}

} // verus!

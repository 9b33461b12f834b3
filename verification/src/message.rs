//! Messages received from the server and what they mean.

use crate::text::{
    first_piece, lemma_find_after, lemma_find_char, lemma_no_char_concat, lemma_split_all_after,
    lemma_split_all_first, lemma_split_all_whole, parse_i64, split_all,
    split_first, split_once, split_pair, str_eq, str_to_i64, strip_first, strip_last,
    strip_prefix_char, strip_suffix_char,
};
use crate::{global_command_text, RoomId, SendMessage};
use vstd::prelude::*;

verus! {

/// The view of an optional value, taken inside the option.
pub open spec fn opt_view<T: View>(o: Option<T>) -> Option<T::V> {
    match o {
        Some(x) => Some(x@),
        None => None,
    }
}

// ---------------------------------------------------------------------------
// Abstract model of a parsed message
// ---------------------------------------------------------------------------
/// A chat message as the protocol carries it.
pub struct ChatView {
    pub room_id: Seq<char>,
    pub timestamp: Seq<char>,
    pub user: Seq<char>,
    pub message: Seq<char>,
}

/// A private message.
pub struct PrivateView {
    pub from: Seq<char>,
    pub to: Seq<char>,
    pub message: Seq<char>,
}

pub enum TextView {
    Chat(ChatView),
    Private(PrivateView),
}

pub struct NoInitView {
    pub kind: NoInitKind,
    pub reason: Seq<char>,
}

pub struct RoomInitView {
    pub room_type: RoomType,
    pub title: Seq<char>,
    pub users: Seq<char>,
}

pub struct UpdateUserView {
    pub username: Seq<char>,
    pub named: bool,
    pub avatar: Seq<char>,
}

/// What a message means.
pub enum KindView {
    Text(TextView),
    Challenge(Seq<char>),
    Html(Seq<char>),
    NoInit(NoInitView),
    RoomInit(RoomInitView),
    QueryResponse(QueryResponse),
    UpdateUser(UpdateUserView),
    Unrecognized(Seq<char>),
}

// ---------------------------------------------------------------------------
// The grammar, over characters
// ---------------------------------------------------------------------------
/// `|c:|TIMESTAMP|USER|MESSAGE`: the arguments are cut at their first two `|`.
pub open spec fn parse_chat(room_id: Seq<char>, args: Seq<char>) -> ChatView {
    let (timestamp, rest) = split_once(args, '|');
    let (user, message) = split_once(rest, '|');
    ChatView { room_id, timestamp, user, message }
}

/// `|pm|FROM|TO|MESSAGE`.
pub open spec fn parse_private(args: Seq<char>) -> PrivateView {
    let (from, rest) = split_once(args, '|');
    let (to, message) = split_once(rest, '|');
    PrivateView { from, to, message }
}

pub open spec fn parse_no_init_kind(s: Seq<char>) -> Option<NoInitKind> {
    if s == "nonexistent"@ {
        Some(NoInitKind::Nonexistent)
    } else if s == "joinfailed"@ {
        Some(NoInitKind::JoinFailed)
    } else if s == "namerequired"@ {
        Some(NoInitKind::NameRequired)
    } else {
        None
    }
}

/// `|noinit|KIND|REASON`.
pub open spec fn parse_no_init(args: Seq<char>) -> Option<NoInitView> {
    let (kind, reason) = split_once(args, '|');
    match parse_no_init_kind(kind) {
        Some(kind) => Some(NoInitView { kind, reason }),
        None => None,
    }
}

pub open spec fn parse_room_type(line: Seq<char>) -> Option<RoomType> {
    if line == "chat"@ {
        Some(RoomType::Chat)
    } else if line == "battle"@ {
        Some(RoomType::Battle)
    } else {
        None
    }
}

/// The title and the user list that the lines of a room's init block set,
/// the last line of each kind winning; `None` when some nonempty line does not
/// start with `|`.
pub open spec fn scan_init_lines(lines: Seq<Seq<char>>) -> Option<
    (Option<Seq<char>>, Option<Seq<char>>),
>
    decreases lines.len(),
{
    if lines.len() == 0 {
        Some((None, None))
    } else {
        match scan_init_lines(lines.drop_last()) {
            None => None,
            Some((title, users)) => {
                let line = lines.last();
                if line.len() == 0 {
                    Some((title, users))
                } else {
                    match strip_first(line, '|') {
                        None => None,
                        Some(body) => {
                            let (command, arg) = split_once(body, '|');
                            if command == "title"@ {
                                Some((Some(arg), users))
                            } else if command == "users"@ {
                                Some((title, Some(arg)))
                            } else {
                                Some((title, users))
                            }
                        },
                    }
                }
            },
        }
    }
}

/// `|init|TYPE` followed by lines of the room's state; title and users must be there.
pub open spec fn parse_room_init(args: Seq<char>) -> Option<RoomInitView> {
    let lines = split_all(args, '\n');
    match parse_room_type(lines[0]) {
        None => None,
        Some(room_type) => match scan_init_lines(lines.drop_first()) {
            Some((Some(title), Some(users))) => Some(RoomInitView { room_type, title, users }),
            _ => None,
        },
    }
}

/// `|queryresponse|rooms|JSON`: `rooms` is what the JSON decodes to.
pub open spec fn parse_query_response(args: Seq<char>, rooms: Option<RoomsList>) -> Option<
    QueryResponse,
> {
    let (command, _json) = split_once(args, '|');
    if command == "rooms"@ {
        match rooms {
            Some(list) => Some(QueryResponse::Rooms(list)),
            None => None,
        }
    } else {
        None
    }
}

/// `|updateuser|USERNAME|NAMED|AVATAR...`: at least three fields, the second
/// `0` or `1`; the avatar is the first line of the third.
pub open spec fn parse_update_user(args: Seq<char>) -> Option<UpdateUserView> {
    let fields = split_all(args, '|');
    if fields.len() < 3 {
        None
    } else {
        let named = if fields[1] == "0"@ {
            Some(false)
        } else if fields[1] == "1"@ {
            Some(true)
        } else {
            None
        };
        match named {
            Some(named) => Some(
                UpdateUserView {
                    username: fields[0],
                    named,
                    avatar: split_once(fields[2], '\n').0,
                },
            ),
            None => None,
        }
    }
}

/// What `|COMMAND|ARGUMENTS` means in `room_id`, when the command is known and
/// its arguments are well formed.
pub open spec fn parse_kind(
    room_id: Seq<char>,
    command: Seq<char>,
    args: Seq<char>,
    rooms: Option<RoomsList>,
) -> Option<KindView> {
    if command == "c:"@ {
        Some(KindView::Text(TextView::Chat(parse_chat(room_id, args))))
    } else if command == "pm"@ {
        Some(KindView::Text(TextView::Private(parse_private(args))))
    } else if command == "challstr"@ {
        Some(KindView::Challenge(args))
    } else if command == "html"@ {
        Some(KindView::Html(args))
    } else if command == "init"@ {
        match parse_room_init(args) {
            Some(init) => Some(KindView::RoomInit(init)),
            None => None,
        }
    } else if command == "noinit"@ {
        match parse_no_init(args) {
            Some(no_init) => Some(KindView::NoInit(no_init)),
            None => None,
        }
    } else if command == "queryresponse"@ {
        match parse_query_response(args, rooms) {
            Some(response) => Some(KindView::QueryResponse(response)),
            None => None,
        }
    } else if command == "updateuser"@ {
        match parse_update_user(args) {
            Some(update) => Some(KindView::UpdateUser(update)),
            None => None,
        }
    } else {
        None
    }
}

/// The room a raw message is about: the first line after a leading `>`, or the lobby.
pub open spec fn message_room(raw: Seq<char>) -> Seq<char> {
    match strip_first(raw, '>') {
        Some(rest) => split_once(rest, '\n').0,
        None => Seq::empty(),
    }
}

/// The part of a raw message after its room line.
pub open spec fn message_body(raw: Seq<char>) -> Seq<char> {
    match strip_first(raw, '>') {
        Some(rest) => split_once(rest, '\n').1,
        None => raw,
    }
}

/// What a raw message means; anything not understood is unrecognized and keeps
/// the whole raw text.
pub open spec fn message_kind(raw: Seq<char>, rooms: Option<RoomsList>) -> KindView {
    match strip_first(message_body(raw), '|') {
        Some(line) => {
            let (command, args) = split_once(line, '|');
            match parse_kind(message_room(raw), command, args, rooms) {
                Some(kind) => kind,
                None => KindView::Unrecognized(raw),
            }
        },
        None => KindView::Unrecognized(raw),
    }
}

/// The JSON text of a rooms query response, when the message is one.
pub open spec fn rooms_json(raw: Seq<char>) -> Option<Seq<char>> {
    match strip_first(message_body(raw), '|') {
        Some(line) => {
            let (command, args) = split_once(line, '|');
            let (sub, json) = split_once(args, '|');
            if command == "queryresponse"@ && sub == "rooms"@ {
                Some(json)
            } else {
                None
            }
        },
        None => None,
    }
}

/// The body of a chat message without one trailing newline.
pub open spec fn chat_text(message: Seq<char>) -> Seq<char> {
    match strip_last(message, '\n') {
        Some(t) => t,
        None => message,
    }
}

// ---------------------------------------------------------------------------
// Executable types
// ---------------------------------------------------------------------------
/// Owned message type
#[derive(Debug)]
pub struct Message {
    raw: String,
}

impl View for Message {
    type V = Seq<char>;

    closed spec fn view(&self) -> Seq<char> {
        self.raw@
    }
}

/// Showdown message kind.
///
/// This structure was designed to be matched on. It borrows string slices from
/// the `Message` it was parsed from.
#[derive(Debug)]
#[non_exhaustive]
pub enum Kind<'a> {
    /// Text from chat or PMs.
    Text(Text<'a>),
    /// Login challenge.
    ///
    /// This can be used to authenticate.
    Challenge(Challenge<'a>),
    Html(&'a str),
    NoInit(NoInit<'a>),
    RoomInit(RoomInit<'a>),
    QueryResponse(QueryResponse),
    UpdateUser(UpdateUser<'a>),
    Unrecognized(UnrecognizedMessage<'a>),
}

impl<'a> View for Kind<'a> {
    type V = KindView;

    open spec fn view(&self) -> KindView {
        match self {
            Kind::Text(t) => KindView::Text(t@),
            Kind::Challenge(c) => KindView::Challenge(c@),
            Kind::Html(h) => KindView::Html(h@),
            Kind::NoInit(n) => KindView::NoInit(n@),
            Kind::RoomInit(r) => KindView::RoomInit(r@),
            Kind::QueryResponse(q) => KindView::QueryResponse(*q),
            Kind::UpdateUser(u) => KindView::UpdateUser(u@),
            Kind::Unrecognized(u) => KindView::Unrecognized(u@),
        }
    }
}

#[derive(Copy, Clone, Debug)]
pub enum Text<'a> {
    Chat(Chat<'a>),
    Private(Private<'a>),
}

impl<'a> View for Text<'a> {
    type V = TextView;

    open spec fn view(&self) -> TextView {
        match self {
            Text::Chat(c) => TextView::Chat(c@),
            Text::Private(p) => TextView::Private(p@),
        }
    }
}

#[derive(Copy, Clone, Debug)]
pub struct Chat<'a> {
    room_id: RoomId<'a>,
    timestamp: &'a str,
    user: &'a str,
    message: &'a str,
}

impl<'a> View for Chat<'a> {
    type V = ChatView;

    closed spec fn view(&self) -> ChatView {
        ChatView {
            room_id: self.room_id@,
            timestamp: self.timestamp@,
            user: self.user@,
            message: self.message@,
        }
    }
}

#[derive(Copy, Clone, Debug)]
pub struct Private<'a> {
    pub from: &'a str,
    pub to: &'a str,
    pub message: &'a str,
}

impl<'a> View for Private<'a> {
    type V = PrivateView;

    open spec fn view(&self) -> PrivateView {
        PrivateView { from: self.from@, to: self.to@, message: self.message@ }
    }
}

/// Login challenge.
#[derive(Copy, Clone, Debug)]
pub struct Challenge<'a>(&'a str);

impl<'a> View for Challenge<'a> {
    type V = Seq<char>;

    closed spec fn view(&self) -> Seq<char> {
        self.0@
    }
}

#[derive(Debug)]
pub struct RoomInit<'a> {
    room_type: RoomType,
    title: &'a str,
    users: &'a str,
}

impl<'a> View for RoomInit<'a> {
    type V = RoomInitView;

    closed spec fn view(&self) -> RoomInitView {
        RoomInitView { room_type: self.room_type, title: self.title@, users: self.users@ }
    }
}

#[derive(Copy, Clone, Debug)]
pub struct NoInit<'a> {
    pub kind: NoInitKind,
    pub reason: &'a str,
}

impl<'a> View for NoInit<'a> {
    type V = NoInitView;

    open spec fn view(&self) -> NoInitView {
        NoInitView { kind: self.kind, reason: self.reason@ }
    }
}

#[derive(Copy, Clone, Debug, PartialEq, Eq, Structural)]
pub enum NoInitKind {
    Nonexistent,
    JoinFailed,
    NameRequired,
}

#[derive(Copy, Clone, Debug, PartialEq, Eq, Structural)]
pub enum RoomType {
    Chat,
    Battle,
}

#[derive(Debug)]
#[non_exhaustive]
pub enum QueryResponse {
    Rooms(RoomsList),
}

/// The rooms list that a `/cmd rooms` query answers with.
#[derive(Debug)]
pub struct RoomsList {
    pub official: Vec<Room>,
    pub pspl: Vec<Room>,
    pub chat: Vec<Room>,
    pub user_count: u32,
    pub battle_count: u32,
}

#[derive(Debug)]
pub struct Room {
    pub title: String,
    pub desc: String,
    pub user_count: u32,
    pub sub_rooms: Vec<String>,
}

#[derive(Copy, Clone, Debug)]
pub struct UpdateUser<'a> {
    pub username: &'a str,
    pub named: bool,
    pub avatar: &'a str,
}

impl<'a> View for UpdateUser<'a> {
    type V = UpdateUserView;

    open spec fn view(&self) -> UpdateUserView {
        UpdateUserView { username: self.username@, named: self.named, avatar: self.avatar@ }
    }
}

#[derive(Debug)]
pub struct UnrecognizedMessage<'a>(&'a str);

impl<'a> View for UnrecognizedMessage<'a> {
    type V = Seq<char>;

    closed spec fn view(&self) -> Seq<char> {
        self.0@
    }
}

// ---------------------------------------------------------------------------
// Parsing
// ---------------------------------------------------------------------------
/// Cuts `arg` at its first `|`; the rest is empty without one.
fn split2(arg: &str) -> (r: (&str, &str))
    ensures
        (r.0@, r.1@) == split_once(arg@, '|'),
{
    split_pair(arg, '|')
}

impl<'a> Chat<'a> {
    fn parse(room_id: RoomId<'a>, arguments: &'a str) -> (r: Self)
        ensures
            r@ == parse_chat(room_id@, arguments@),
    {
        let (timestamp, arguments) = split2(arguments);
        let (user, message) = split2(arguments);
        Chat { room_id, timestamp, user, message }
    }

    /// The user who sent the message.
    pub fn user(&self) -> (r: &'a str)
        ensures
            r@ == self@.user,
    {
        self.user
    }

    /// The message, without a trailing newline.
    pub fn message(&self) -> (r: &'a str)
        ensures
            r@ == chat_text(self@.message),
    {
        match strip_suffix_char(self.message, '\n') {
            Some(text) => text,
            None => self.message,
        }
    }

    /// The room the message was sent in.
    pub fn room_id(&self) -> (r: RoomId<'a>)
        ensures
            r@ == self@.room_id,
    {
        self.room_id
    }
}

/// A date and time without a time zone, from the `chrono` crate.
#[verifier::external_type_specification]
#[verifier::external_body]
pub struct ExNaiveDateTime(chrono::NaiveDateTime);

/// Name for what `chrono::NaiveDateTime::from_timestamp_opt(secs, 0)` returns for `secs`.
pub uninterp spec fn naive_from_timestamp(secs: i64) -> Option<chrono::NaiveDateTime>;

/// Calls `chrono::NaiveDateTime::from_timestamp_opt(secs, 0)`: the date and time
/// `secs` seconds after the Unix epoch in UTC, `None` when out of chrono's
/// range (`NaiveDateTime::from_timestamp` is that result unwrapped). The
/// contract only names the result; which instant it is stays unstated.
#[verifier::external_body]
#[allow(deprecated)]
fn naive_datetime(secs: i64) -> (r: Option<chrono::NaiveDateTime>)
    ensures
        r == naive_from_timestamp(secs),
{
    chrono::NaiveDateTime::from_timestamp_opt(secs, 0)
}

impl<'a> Chat<'a> {
    /// The time (in UTC) the message was sent; its timestamp must be a number
    /// of seconds that chrono can represent.
    pub fn timestamp(&self) -> (r: chrono::NaiveDateTime)
        requires
            parse_i64(self@.timestamp) is Some,
            naive_from_timestamp(parse_i64(self@.timestamp)->Some_0) is Some,
        ensures
            r == naive_from_timestamp(parse_i64(self@.timestamp)->Some_0)->Some_0,
    {
        let secs = str_to_i64(self.timestamp).unwrap();
        naive_datetime(secs).unwrap()
    }

    /// The time (in UTC) the message was sent, when its timestamp is a number
    /// of seconds that chrono can represent.
    pub fn checked_timestamp(&self) -> (r: Option<chrono::NaiveDateTime>)
        ensures
            match parse_i64(self@.timestamp) {
                Some(secs) => r == naive_from_timestamp(secs),
                None => r is None,
            },
    {
        let secs = match str_to_i64(self.timestamp) {
            Some(secs) => secs,
            None => return None,
        };
        if naive_datetime(secs).is_some() {
            Some(self.timestamp())
        } else {
            None
        }
    }
}

impl<'a> Private<'a> {
    fn parse(arguments: &'a str) -> (r: Self)
        ensures
            r@ == parse_private(arguments@),
    {
        let (from, arguments) = split2(arguments);
        let (to, message) = split2(arguments);
        Private { from, to, message }
    }
}

impl<'a> Text<'a> {
    /// The text of the message; a chat message loses one trailing newline.
    pub fn message(&self) -> (r: &'a str)
        ensures
            r@ == match self@ {
                TextView::Chat(chat) => chat_text(chat.message),
                TextView::Private(private) => private.message,
            },
    {
        match self {
            Text::Chat(chat) => chat.message(),
            Text::Private(private) => private.message,
        }
    }

    /// The user who sent the message.
    pub fn user(&self) -> (r: &'a str)
        ensures
            r@ == match self@ {
                TextView::Chat(chat) => chat.user,
                TextView::Private(private) => private.from,
            },
    {
        match self {
            Text::Chat(chat) => chat.user(),
            Text::Private(private) => private.from,
        }
    }
}

impl NoInitKind {
    fn parse(argument: &str) -> (r: Option<Self>)
        ensures
            r == parse_no_init_kind(argument@),
    {
        if str_eq(argument, "nonexistent") {
            Some(NoInitKind::Nonexistent)
        } else if str_eq(argument, "joinfailed") {
            Some(NoInitKind::JoinFailed)
        } else if str_eq(argument, "namerequired") {
            Some(NoInitKind::NameRequired)
        } else {
            None
        }
    }
}

impl<'a> NoInit<'a> {
    fn parse(arguments: &'a str) -> (r: Option<Self>)
        ensures
            opt_view(r) == parse_no_init(arguments@),
    {
        let (kind, reason) = split2(arguments);
        match NoInitKind::parse(kind) {
            Some(kind) => Some(NoInit { kind, reason }),
            None => None,
        }
    }
}

impl QueryResponse {
    fn parse(arguments: &str, rooms: Option<RoomsList>) -> (r: Option<QueryResponse>)
        ensures
            r == parse_query_response(arguments@, rooms),
    {
        let (command, _json) = split2(arguments);
        if str_eq(command, "rooms") {
            match rooms {
                Some(list) => Some(QueryResponse::Rooms(list)),
                None => None,
            }
        } else {
            None
        }
    }
}

impl<'a> UpdateUser<'a> {
    fn parse(arguments: &'a str) -> (r: Option<Self>)
        ensures
            opt_view(r) == parse_update_user(arguments@),
    {
        proof {
            lemma_split_all_first(arguments@, '|');
        }
        let (username, rest) = match split_first(arguments, '|') {
            Some(parts) => parts,
            None => return None,
        };
        proof {
            lemma_split_all_first(rest@, '|');
        }
        let (named_field, rest) = match split_first(rest, '|') {
            Some(parts) => parts,
            None => {
                return None;
            },
        };
        proof {
            lemma_split_all_first(rest@, '|');
        }
        let named = if str_eq(named_field, "0") {
            false
        } else if str_eq(named_field, "1") {
            true
        } else {
            return None;
        };
        let avatar = first_piece(first_piece(rest, '|'), '\n');
        Some(UpdateUser { username, named, avatar })
    }
}

/// Lines of the text that is left to read, if any.
pub open spec fn pending_lines(rest: Option<Seq<char>>) -> Seq<Seq<char>> {
    match rest {
        Some(text) => split_all(text, '\n'),
        None => Seq::empty(),
    }
}

/// Once a line is refused, more lines do not help.
proof fn lemma_scan_refused(done: Seq<Seq<char>>, more: Seq<Seq<char>>)
    requires
        scan_init_lines(done) is None,
    ensures
        scan_init_lines(done + more) is None,
    decreases more.len(),
{
    if more.len() == 0 {
        assert(done + more =~= done);
    } else {
        lemma_scan_refused(done, more.drop_last());
        assert((done + more).drop_last() =~= done + more.drop_last());
    }
}

impl<'a> RoomInit<'a> {
    fn parse(arguments: &'a str) -> (r: Option<RoomInit<'a>>)
        ensures
            opt_view(r) == parse_room_init(arguments@),
    {
        proof {
            lemma_split_all_first(arguments@, '\n');
        }
        let (first, more) = match split_first(arguments, '\n') {
            Some((line, rest)) => (line, Some(rest)),
            None => (arguments, None),
        };
        let room_type = if str_eq(first, "chat") {
            RoomType::Chat
        } else if str_eq(first, "battle") {
            RoomType::Battle
        } else {
            return None;
        };
        let ghost all = split_all(arguments@, '\n').drop_first();
        let ghost mut done: Seq<Seq<char>> = Seq::empty();
        let mut title: Option<&'a str> = None;
        let mut users: Option<&'a str> = None;
        let mut rest = more;
        assert(all =~= done + pending_lines(opt_view(rest)));
        loop
            invariant
                all == done + pending_lines(opt_view(rest)),
                all == split_all(arguments@, '\n').drop_first(),
                scan_init_lines(done) == Some((opt_view(title), opt_view(users))),
                parse_room_type(split_all(arguments@, '\n')[0]) == Some(room_type),
            ensures
                rest is None,
                all == done,
                scan_init_lines(done) == Some((opt_view(title), opt_view(users))),
            decreases
                match rest {
                    Some(text) => text@.len() + 1,
                    None => 0,
                },
        {
            let text = match rest {
                Some(text) => text,
                None => {
                    assert(done + Seq::<Seq<char>>::empty() =~= done);
                    break;
                },
            };
            proof {
                lemma_split_all_first(text@, '\n');
                lemma_find_char(text@, '\n');
            }
            let (line, next) = match split_first(text, '\n') {
                Some((line, next)) => (line, Some(next)),
                None => (text, None),
            };
            let ghost before = done;
            proof {
                done = done.push(line@);
                assert(all =~= done + pending_lines(opt_view(next)));
                assert(done.drop_last() =~= before);
            }
            if !line.is_empty() {
                match strip_prefix_char(line, '|') {
                    None => {
                        proof {
                            lemma_scan_refused(done, pending_lines(opt_view(next)));
                        }
                        return None;
                    },
                    Some(body) => {
                        let (command, argument) = split2(body);
                        if str_eq(command, "title") {
                            title = Some(argument);
                        } else if str_eq(command, "users") {
                            users = Some(argument);
                        }
                    },
                }
            }
            rest = next;
        }
        match (title, users) {
            (Some(title), Some(users)) => Some(RoomInit { room_type, title, users }),
            _ => None,
        }
    }
}

/// Appends references to every room of `rooms` to `out`.
fn push_rooms<'r>(out: &mut Vec<&'r Room>, rooms: &'r Vec<Room>)
    ensures
        final(out)@.map_values(|x: &Room| *x) == old(out)@.map_values(|x: &Room| *x) + rooms@,
{
    let ghost start = old(out)@.map_values(|x: &Room| *x);
    let mut i: usize = 0;
    while i < rooms.len()
        invariant
            i <= rooms@.len(),
            out@.map_values(|x: &Room| *x) == start + rooms@.take(i as int),
        decreases rooms@.len() - i,
    {
        let ghost before = out@;
        out.push(&rooms[i]);
        assert(out@ =~= before.push(&rooms@[i as int]));
        assert(out@.map_values(|x: &Room| *x) =~= before.map_values(|x: &Room| *x).push(
            rooms@[i as int],
        ));
        assert(rooms@.take(i + 1) =~= rooms@.take(i as int).push(rooms@[i as int]));
        assert(out@.map_values(|x: &Room| *x) =~= start + rooms@.take(i + 1));
        i += 1;
    }
    assert(rooms@.take(i as int) =~= rooms@);
}

impl RoomsList {
    /// Every room of the list: the official ones, then the PSPL ones, then the chat ones.
    pub fn iter(&self) -> (r: Vec<&Room>)
        ensures
            r@.map_values(|x: &Room| *x) == self.official@ + self.pspl@ + self.chat@,
    {
        let mut out: Vec<&Room> = Vec::new();
        assert(out@.map_values(|x: &Room| *x) =~= Seq::<Room>::empty());
        push_rooms(&mut out, &self.official);
        push_rooms(&mut out, &self.pspl);
        push_rooms(&mut out, &self.chat);
        assert(Seq::<Room>::empty() + self.official@ =~= self.official@);
        out
    }
}

/// The fields of the form posted to the login server: an assertion request
/// without a password, a password login with one.
pub open spec fn login_form_fields(challstr: Seq<char>, login: Seq<char>, password: Seq<char>) -> Seq<
    (Seq<char>, Seq<char>),
> {
    if password.len() == 0 {
        seq![("act"@, "getassertion"@), ("userid"@, login), ("challstr"@, challstr)]
    } else {
        seq![("act"@, "login"@), ("name"@, login), ("pass"@, password), ("challstr"@, challstr)]
    }
}

/// The command that completes a login with the login server's assertion.
pub open spec fn trn_text(login: Seq<char>, assertion: Seq<char>) -> Seq<char> {
    global_command_text("trn "@ + login + ",0,"@ + assertion)
}

/// The names and values of form fields.
pub open spec fn fields_view(fields: Seq<(&str, &str)>) -> Seq<(Seq<char>, Seq<char>)> {
    fields.map_values(|f: (&str, &str)| (f.0@, f.1@))
}

impl<'a> Challenge<'a> {
    /// The form to post to the login server for `login`; an empty `password`
    /// asks for an assertion, as for a name without a password.
    pub fn login_form(&self, login: &'a str, password: &'a str) -> (r: Vec<(&'a str, &'a str)>)
        ensures
            fields_view(r@) == login_form_fields(self@, login@, password@),
    {
        let mut fields: Vec<(&'a str, &'a str)> = Vec::new();
        if password.is_empty() {
            fields.push(("act", "getassertion"));
            fields.push(("userid", login));
            fields.push(("challstr", self.0));
        } else {
            fields.push(("act", "login"));
            fields.push(("name", login));
            fields.push(("pass", password));
            fields.push(("challstr", self.0));
        }
        assert(fields_view(fields@) =~= login_form_fields(self@, login@, password@));
        fields
    }

    /// The command that logs `login` in with the login server's `assertion`.
    pub fn trn_command(login: &str, assertion: &str) -> (r: SendMessage)
        ensures
            r@ == trn_text(login@, assertion@),
            r@ == "|/trn "@ + login@ + ",0,"@ + assertion@,
    {
        let mut command = "trn ".to_owned();
        command.append(login);
        command.append(",0,");
        command.append(assertion);
        proof {
            reveal_strlit("|/");
            reveal_strlit("trn ");
            reveal_strlit("|/trn ");
            assert("|/"@ + ("trn "@ + login@ + ",0,"@ + assertion@) =~= "|/trn "@ + login@
                + ",0,"@ + assertion@);
        }
        SendMessage::global_command(command.as_str())
    }

    /// What to send once the login server answered an assertion request with
    /// `response`: nothing when the answer is `;`, which means the name needs a
    /// password.
    pub fn assertion_reply(login: &str, response: &str) -> (r: Option<SendMessage>)
        ensures
            response@ == ";"@ ==> r is None,
            response@ != ";"@ ==> (r matches Some(m) && m@ == trn_text(login@, response@)),
            response@ != ";"@ ==> (r matches Some(m) && m@ == "|/trn "@ + login@ + ",0,"@
                + response@),
    {
        if str_eq(response, ";") {
            None
        } else {
            Some(Self::trn_command(login, response))
        }
    }
}

/// The JSON part of the login server's answer to a password login, which
/// comes after its first byte.
pub fn login_answer_json(response: &[u8]) -> (r: &[u8])
    requires
        response@.len() >= 1,
    ensures
        r@ == response@.drop_first(),
{
    let (_, json) = response.split_at(1);
    assert(json@ =~= response@.drop_first());
    json
}

impl<'a> Kind<'a> {
    fn parse(
        room_id: RoomId<'a>,
        command: &str,
        arguments: &'a str,
        rooms: Option<RoomsList>,
    ) -> (r: Option<Kind<'a>>)
        ensures
            opt_view(r) == parse_kind(room_id@, command@, arguments@, rooms),
    {
        if str_eq(command, "c:") {
            Some(Kind::Text(Text::Chat(Chat::parse(room_id, arguments))))
        } else if str_eq(command, "pm") {
            Some(Kind::Text(Text::Private(Private::parse(arguments))))
        } else if str_eq(command, "challstr") {
            Some(Kind::Challenge(Challenge(arguments)))
        } else if str_eq(command, "html") {
            Some(Kind::Html(arguments))
        } else if str_eq(command, "init") {
            match RoomInit::parse(arguments) {
                Some(init) => Some(Kind::RoomInit(init)),
                None => None,
            }
        } else if str_eq(command, "noinit") {
            match NoInit::parse(arguments) {
                Some(no_init) => Some(Kind::NoInit(no_init)),
                None => None,
            }
        } else if str_eq(command, "queryresponse") {
            match QueryResponse::parse(arguments, rooms) {
                Some(response) => Some(Kind::QueryResponse(response)),
                None => None,
            }
        } else if str_eq(command, "updateuser") {
            match UpdateUser::parse(arguments) {
                Some(update) => Some(Kind::UpdateUser(update)),
                None => None,
            }
        } else {
            None
        }
    }
}

/// The room line and the rest of a raw message.
fn split_room(full_message: &str) -> (r: (&str, &str))
    ensures
        r.0@ == message_room(full_message@),
        r.1@ == message_body(full_message@),
{
    match strip_prefix_char(full_message, '>') {
        Some(without_prefix) => split_pair(without_prefix, '\n'),
        None => {
            proof {
                reveal_strlit("");
            }
            ("", full_message)
        },
    }
}

/// The room and the meaning of a raw message.
pub(crate) fn room_and_kind<'a>(full_message: &'a str, rooms: Option<RoomsList>) -> (r: (
    RoomId<'a>,
    Kind<'a>,
))
    ensures
        r.0@ == message_room(full_message@),
        r.1@ == message_kind(full_message@, rooms),
{
    let (room, message) = split_room(full_message);
    let kind = match strip_prefix_char(message, '|') {
        Some(message) => {
            let (command, arg) = split2(message);
            match Kind::parse(RoomId(room), command, arg, rooms) {
                Some(kind) => kind,
                None => Kind::Unrecognized(UnrecognizedMessage(full_message)),
            }
        },
        None => Kind::Unrecognized(UnrecognizedMessage(full_message)),
    };
    (RoomId(room), kind)
}

impl Message {
    /// A message with the given raw text, as the server sent it.
    pub fn new(raw: String) -> (r: Message)
        ensures
            r@ == raw@,
    {
        Message { raw }
    }

    /// The raw text of the message.
    pub fn raw(&self) -> (r: &str)
        ensures
            r@ == self@,
    {
        self.raw.as_str()
    }

    /// The JSON text of a rooms query response, which `kind` needs decoded.
    pub fn rooms_json(&self) -> (r: Option<&str>)
        ensures
            opt_view(r) == rooms_json(self@),
    {
        let (_room, message) = split_room(self.raw.as_str());
        match strip_prefix_char(message, '|') {
            Some(line) => {
                let (command, args) = split2(line);
                let (sub, json) = split2(args);
                if str_eq(command, "queryresponse") && str_eq(sub, "rooms") {
                    Some(json)
                } else {
                    None
                }
            },
            None => None,
        }
    }

    /// What the message means. `rooms` is the decoded JSON of `rooms_json`,
    /// `None` where it is not a rooms list; it is only consulted for a rooms
    /// query response.
    pub fn kind(&self, rooms: Option<RoomsList>) -> (r: Kind<'_>)
        ensures
            r@ == message_kind(self@, rooms),
    {
        room_and_kind(self.raw.as_str(), rooms).1
    }
}

// ---------------------------------------------------------------------------
// Laws
// ---------------------------------------------------------------------------
/// A message that is not understood keeps its whole raw text.
pub proof fn unrecognized_keeps_raw(raw: Seq<char>, rooms: Option<RoomsList>)
    ensures
        message_kind(raw, rooms) matches KindView::Unrecognized(text) ==> text == raw,
{
}

/// A chat message belongs to the room that the raw message names on its first
/// line, and to the lobby when the message names no room.
pub proof fn chat_room_is_message_room(raw: Seq<char>, rooms: Option<RoomsList>)
    ensures
        message_kind(raw, rooms) matches KindView::Text(TextView::Chat(chat)) ==> chat.room_id
            == message_room(raw),
        strip_first(raw, '>') is None ==> message_room(raw).len() == 0,
{
}

/// The decoded rooms list only matters for a rooms query response: for any
/// other message, any two give the same meaning.
pub proof fn rooms_only_matter_for_rooms_responses(
    raw: Seq<char>,
    a: Option<RoomsList>,
    b: Option<RoomsList>,
)
    requires
        rooms_json(raw) is None,
    ensures
        message_kind(raw, a) == message_kind(raw, b),
{
}

/// A rooms query response is that rooms list when its JSON decodes, and is
/// not recognized when it does not.
pub proof fn rooms_response_is_decoded_list(raw: Seq<char>, list: RoomsList)
    requires
        rooms_json(raw) is Some,
    ensures
        message_kind(raw, Some(list)) == KindView::QueryResponse(QueryResponse::Rooms(list)),
        message_kind(raw, None) == KindView::Unrecognized(raw),
{
    reveal_strlit("queryresponse");
    reveal_strlit("c:");
    reveal_strlit("pm");
    reveal_strlit("challstr");
    reveal_strlit("html");
    reveal_strlit("init");
    reveal_strlit("noinit");
    reveal_strlit("rooms");
    let line = strip_first(message_body(raw), '|')->Some_0;
    let (command, args) = split_once(line, '|');
    assert(command == "queryresponse"@);
    assert(command.len() == 13);
    assert(command != "c:"@);
    assert(parse_query_response(args, Some(list)) == Some(QueryResponse::Rooms(list)));
    assert(parse_kind(message_room(raw), command, args, Some(list)) == Some(
        KindView::QueryResponse(QueryResponse::Rooms(list)),
    ));
}

/// A room line `>ROOM` followed by a newline names that room, and what follows
/// is the body.
pub proof fn room_line_reads_back(room: Seq<char>, body: Seq<char>)
    requires
        !room.contains('\n'),
    ensures
        message_room(seq!['>'] + room + seq!['\n'] + body) == room,
        message_body(seq!['>'] + room + seq!['\n'] + body) == body,
{
    let raw = seq!['>'] + room + seq!['\n'] + body;
    assert(raw.drop_first() =~= room + seq!['\n'] + body);
    lemma_find_after(room, '\n', body);
}

/// A chat line `|c:|TIMESTAMP|USER|MESSAGE` reads back as the timestamp, user
/// and message it was written from, in the lobby, when the timestamp and the
/// user hold no `|`.
pub proof fn chat_line_reads_back(
    timestamp: Seq<char>,
    user: Seq<char>,
    message: Seq<char>,
    rooms: Option<RoomsList>,
)
    requires
        !timestamp.contains('|'),
        !user.contains('|'),
    ensures
        message_kind("|c:|"@ + timestamp + "|"@ + user + "|"@ + message, rooms) == KindView::Text(
            TextView::Chat(
                ChatView { room_id: Seq::empty(), timestamp, user, message },
            ),
        ),
{
    reveal_strlit("|c:|");
    reveal_strlit("|");
    reveal_strlit("c:");
    let raw = "|c:|"@ + timestamp + "|"@ + user + "|"@ + message;
    let tail = user + seq!['|'] + message;
    let args = timestamp + seq!['|'] + tail;
    assert(raw =~= seq!['|'] + (seq!['c', ':'] + seq!['|'] + args));
    assert(raw[0] == '|');
    assert(message_body(raw) == raw);
    assert(raw.drop_first() =~= seq!['c', ':'] + seq!['|'] + args);
    assert(!seq!['c', ':'].contains('|')) by {
        if seq!['c', ':'].contains('|') {
            let j = choose|j: int| 0 <= j < 2 && seq!['c', ':'][j] == '|';
        }
    }
    lemma_find_after(seq!['c', ':'], '|', args);
    lemma_find_after(timestamp, '|', tail);
    lemma_find_after(user, '|', message);
    assert("c:"@ =~= seq!['c', ':']);
}

/// The letters of the words of the protocol.
proof fn protocol_words()
    ensures
        "c:"@ == seq!['c', ':'],
        "pm"@ == seq!['p', 'm'],
        "challstr"@ == seq!['c', 'h', 'a', 'l', 'l', 's', 't', 'r'],
        "html"@ == seq!['h', 't', 'm', 'l'],
        "init"@ == seq!['i', 'n', 'i', 't'],
        "noinit"@ == seq!['n', 'o', 'i', 'n', 'i', 't'],
        "queryresponse"@ == seq![
            'q', 'u', 'e', 'r', 'y', 'r', 'e', 's', 'p', 'o', 'n', 's', 'e',
        ],
        "updateuser"@ == seq!['u', 'p', 'd', 'a', 't', 'e', 'u', 's', 'e', 'r'],
        "nonexistent"@ == seq!['n', 'o', 'n', 'e', 'x', 'i', 's', 't', 'e', 'n', 't'],
        "joinfailed"@ == seq!['j', 'o', 'i', 'n', 'f', 'a', 'i', 'l', 'e', 'd'],
        "namerequired"@ == seq![
            'n', 'a', 'm', 'e', 'r', 'e', 'q', 'u', 'i', 'r', 'e', 'd',
        ],
        "chat"@ == seq!['c', 'h', 'a', 't'],
        "battle"@ == seq!['b', 'a', 't', 't', 'l', 'e'],
        "title"@ == seq!['t', 'i', 't', 'l', 'e'],
        "users"@ == seq!['u', 's', 'e', 'r', 's'],
        "0"@ == seq!['0'],
        "1"@ == seq!['1'],
        "rooms"@ == seq!['r', 'o', 'o', 'm', 's'],
{
    reveal_strlit("c:");
    reveal_strlit("pm");
    reveal_strlit("challstr");
    reveal_strlit("html");
    reveal_strlit("init");
    reveal_strlit("noinit");
    reveal_strlit("queryresponse");
    reveal_strlit("updateuser");
    reveal_strlit("nonexistent");
    reveal_strlit("joinfailed");
    reveal_strlit("namerequired");
    reveal_strlit("chat");
    reveal_strlit("battle");
    reveal_strlit("title");
    reveal_strlit("users");
    reveal_strlit("0");
    reveal_strlit("1");
    reveal_strlit("rooms");
    assert("c:"@ =~= seq!['c', ':']);
    assert("pm"@ =~= seq!['p', 'm']);
    assert("challstr"@ =~= seq!['c', 'h', 'a', 'l', 'l', 's', 't', 'r']);
    assert("html"@ =~= seq!['h', 't', 'm', 'l']);
    assert("init"@ =~= seq!['i', 'n', 'i', 't']);
    assert("noinit"@ =~= seq!['n', 'o', 'i', 'n', 'i', 't']);
    assert("queryresponse"@ =~= seq![
        'q', 'u', 'e', 'r', 'y', 'r', 'e', 's', 'p', 'o', 'n', 's', 'e',
    ]);
    assert("updateuser"@ =~= seq!['u', 'p', 'd', 'a', 't', 'e', 'u', 's', 'e', 'r']);
    assert("nonexistent"@ =~= seq!['n', 'o', 'n', 'e', 'x', 'i', 's', 't', 'e', 'n', 't']);
    assert("joinfailed"@ =~= seq!['j', 'o', 'i', 'n', 'f', 'a', 'i', 'l', 'e', 'd']);
    assert("namerequired"@ =~= seq![
        'n', 'a', 'm', 'e', 'r', 'e', 'q', 'u', 'i', 'r', 'e', 'd',
    ]);
    assert("chat"@ =~= seq!['c', 'h', 'a', 't']);
    assert("battle"@ =~= seq!['b', 'a', 't', 't', 'l', 'e']);
    assert("title"@ =~= seq!['t', 'i', 't', 'l', 'e']);
    assert("users"@ =~= seq!['u', 's', 'e', 'r', 's']);
    assert("0"@ =~= seq!['0']);
    assert("1"@ =~= seq!['1']);
    assert("rooms"@ =~= seq!['r', 'o', 'o', 'm', 's']);
}

/// A lobby line `|COMMAND|ARGS` means what its command and arguments mean.
proof fn lemma_lobby_line(command: Seq<char>, args: Seq<char>, rooms: Option<RoomsList>)
    requires
        !command.contains('|'),
    ensures
        message_room(seq!['|'] + command + seq!['|'] + args).len() == 0,
        message_kind(seq!['|'] + command + seq!['|'] + args, rooms) == match parse_kind(
            Seq::empty(),
            command,
            args,
            rooms,
        ) {
            Some(kind) => kind,
            None => KindView::Unrecognized(seq!['|'] + command + seq!['|'] + args),
        },
{
    let raw = seq!['|'] + command + seq!['|'] + args;
    assert(raw[0] == '|');
    assert(message_body(raw) == raw);
    assert(raw.drop_first() =~= command + seq!['|'] + args);
    lemma_find_after(command, '|', args);
}

/// A text given letter by letter holds `c` only if one of its letters is `c`.
proof fn lemma_word_lacks(w: Seq<char>, c: char)
    requires
        forall|i: int| 0 <= i < w.len() ==> w[i] != c,
    ensures
        !w.contains(c),
{
}

/// `|html|H` is HTML whose text is all of `H`, separators included.
pub proof fn html_carries_all_its_text(html: Seq<char>, rooms: Option<RoomsList>)
    ensures
        message_kind("|html|"@ + html, rooms) == KindView::Html(html),
{
    protocol_words();
    reveal_strlit("|html|");
    let word = seq!['h', 't', 'm', 'l'];
    assert("|html|"@ + html =~= seq!['|'] + word + seq!['|'] + html);
    lemma_word_lacks(word, '|');
    lemma_lobby_line(word, html, rooms);
}

/// The protocol word of a join-failure kind.
pub open spec fn no_init_word(kind: NoInitKind) -> Seq<char> {
    match kind {
        NoInitKind::Nonexistent => "nonexistent"@,
        NoInitKind::JoinFailed => "joinfailed"@,
        NoInitKind::NameRequired => "namerequired"@,
    }
}

/// `|noinit|KIND|REASON` is a join failure of that kind whose reason is all
/// of `REASON`, without the kind.
pub proof fn no_init_reads_back(kind: NoInitKind, reason: Seq<char>, rooms: Option<RoomsList>)
    ensures
        message_kind("|noinit|"@ + no_init_word(kind) + "|"@ + reason, rooms) == KindView::NoInit(
            NoInitView { kind, reason },
        ),
{
    protocol_words();
    reveal_strlit("|noinit|");
    reveal_strlit("|");
    let word = seq!['n', 'o', 'i', 'n', 'i', 't'];
    let k = no_init_word(kind);
    let args = k + seq!['|'] + reason;
    assert("|noinit|"@ + k + "|"@ + reason =~= seq!['|'] + word + seq!['|'] + args);
    lemma_word_lacks(word, '|');
    lemma_word_lacks(k, '|');
    lemma_lobby_line(word, args, rooms);
    lemma_find_after(k, '|', reason);
}

/// `|updateuser|USER|NAMED|AVATAR`, with `NAMED` `0` or `1` and the user and
/// avatar free of `|` and newlines, is that user, named when `NAMED` is `1`,
/// with that avatar; three fields suffice.
pub proof fn update_user_reads_back(
    user: Seq<char>,
    named: bool,
    avatar: Seq<char>,
    rooms: Option<RoomsList>,
)
    requires
        !user.contains('|'),
        !avatar.contains('|'),
        !avatar.contains('\n'),
    ensures
        message_kind(
            "|updateuser|"@ + user + "|"@ + (if named {
                "1"@
            } else {
                "0"@
            }) + "|"@ + avatar,
            rooms,
        ) == KindView::UpdateUser(UpdateUserView { username: user, named, avatar }),
{
    protocol_words();
    reveal_strlit("|updateuser|");
    reveal_strlit("|");
    let word = seq!['u', 'p', 'd', 'a', 't', 'e', 'u', 's', 'e', 'r'];
    let flag = if named {
        seq!['1']
    } else {
        seq!['0']
    };
    let args = user + seq!['|'] + (flag + seq!['|'] + avatar);
    assert("|updateuser|"@ + user + "|"@ + (if named {
        "1"@
    } else {
        "0"@
    }) + "|"@ + avatar =~= seq!['|'] + word + seq!['|'] + args);
    lemma_word_lacks(word, '|');
    lemma_word_lacks(flag, '|');
    lemma_lobby_line(word, args, rooms);
    lemma_split_all_after(user, '|', flag + seq!['|'] + avatar);
    lemma_split_all_after(flag, '|', avatar);
    lemma_split_all_whole(avatar, '|');
    let fields = split_all(args, '|');
    assert(fields =~= seq![user, flag, avatar]);
    lemma_find_char(avatar, '\n');
    assert(split_once(avatar, '\n').0 == avatar);
}

/// The same with more fields after the avatar: they change nothing.
pub proof fn update_user_ignores_later_fields(
    user: Seq<char>,
    named: bool,
    avatar: Seq<char>,
    more: Seq<char>,
    rooms: Option<RoomsList>,
)
    requires
        !user.contains('|'),
        !avatar.contains('|'),
        !avatar.contains('\n'),
    ensures
        message_kind(
            "|updateuser|"@ + user + "|"@ + (if named {
                "1"@
            } else {
                "0"@
            }) + "|"@ + avatar + "|"@ + more,
            rooms,
        ) == KindView::UpdateUser(UpdateUserView { username: user, named, avatar }),
{
    protocol_words();
    reveal_strlit("|updateuser|");
    reveal_strlit("|");
    let word = seq!['u', 'p', 'd', 'a', 't', 'e', 'u', 's', 'e', 'r'];
    let flag = if named {
        seq!['1']
    } else {
        seq!['0']
    };
    let args = user + seq!['|'] + (flag + seq!['|'] + (avatar + seq!['|'] + more));
    assert("|updateuser|"@ + user + "|"@ + (if named {
        "1"@
    } else {
        "0"@
    }) + "|"@ + avatar + "|"@ + more =~= seq!['|'] + word + seq!['|'] + args);
    lemma_word_lacks(word, '|');
    lemma_word_lacks(flag, '|');
    lemma_lobby_line(word, args, rooms);
    lemma_split_all_after(user, '|', flag + seq!['|'] + (avatar + seq!['|'] + more));
    lemma_split_all_after(flag, '|', avatar + seq!['|'] + more);
    lemma_split_all_after(avatar, '|', more);
    let fields = split_all(args, '|');
    assert(fields[0] == user && fields[1] == flag && fields[2] == avatar);
    lemma_find_char(avatar, '\n');
    assert(split_once(avatar, '\n').0 == avatar);
}

/// The protocol word of a room type.
pub open spec fn room_type_word(room_type: RoomType) -> Seq<char> {
    match room_type {
        RoomType::Chat => "chat"@,
        RoomType::Battle => "battle"@,
    }
}

/// `|init|TYPE`, a `|title|T` line and a `|users|U` line give a room of that
/// type whose title is `T` and whose users are `U`.
pub proof fn room_init_reads_back(
    room_type: RoomType,
    title: Seq<char>,
    users: Seq<char>,
    rooms: Option<RoomsList>,
)
    requires
        !title.contains('\n'),
        !users.contains('\n'),
    ensures
        message_kind(
            "|init|"@ + room_type_word(room_type) + "\n|title|"@ + title + "\n|users|"@ + users,
            rooms,
        ) == KindView::RoomInit(RoomInitView { room_type, title, users }),
{
    protocol_words();
    reveal_strlit("|init|");
    reveal_strlit("\n|title|");
    reveal_strlit("\n|users|");
    let word = seq!['i', 'n', 'i', 't'];
    let ty = room_type_word(room_type);
    let title_word = seq!['t', 'i', 't', 'l', 'e'];
    let users_word = seq!['u', 's', 'e', 'r', 's'];
    let title_line = seq!['|'] + title_word + seq!['|'] + title;
    let users_line = seq!['|'] + users_word + seq!['|'] + users;
    let args = ty + seq!['\n'] + (title_line + seq!['\n'] + users_line);
    assert("|init|"@ + ty + "\n|title|"@ + title + "\n|users|"@ + users =~= seq!['|'] + word
        + seq!['|'] + args);
    lemma_word_lacks(word, '|');
    lemma_lobby_line(word, args, rooms);
    // The lines of the block.
    lemma_word_lacks(ty, '\n');
    lemma_word_lacks(seq!['|'] + title_word + seq!['|'], '\n');
    lemma_word_lacks(seq!['|'] + users_word + seq!['|'], '\n');
    lemma_no_char_concat(seq!['|'] + title_word + seq!['|'], title, '\n');
    lemma_no_char_concat(seq!['|'] + users_word + seq!['|'], users, '\n');
    assert(title_line =~= (seq!['|'] + title_word + seq!['|']) + title);
    assert(users_line =~= (seq!['|'] + users_word + seq!['|']) + users);
    lemma_split_all_after(ty, '\n', title_line + seq!['\n'] + users_line);
    lemma_split_all_after(title_line, '\n', users_line);
    lemma_split_all_whole(users_line, '\n');
    let lines = split_all(args, '\n');
    assert(lines =~= seq![ty, title_line, users_line]);
    // Each line's command and argument.
    lemma_word_lacks(title_word, '|');
    lemma_word_lacks(users_word, '|');
    assert(title_line.drop_first() =~= title_word + seq!['|'] + title);
    assert(users_line.drop_first() =~= users_word + seq!['|'] + users);
    lemma_find_after(title_word, '|', title);
    lemma_find_after(users_word, '|', users);
    let body = lines.drop_first();
    assert(body =~= seq![title_line, users_line]);
    assert(body.drop_last() =~= seq![title_line]);
    assert(seq![title_line].drop_last() =~= Seq::<Seq<char>>::empty());
    assert(scan_init_lines(Seq::<Seq<char>>::empty()) == Some(
        (None::<Seq<char>>, None::<Seq<char>>),
    ));
    assert(seq![title_line].last() == title_line);
    assert(strip_first(title_line, '|') == Some(title_word + seq!['|'] + title));
    assert(split_once(title_word + seq!['|'] + title, '|') == (title_word, title));
    assert(title_word == "title"@);
    assert(scan_init_lines(seq![title_line]) == Some((Some(title), None::<Seq<char>>)));
    assert(body.last() == users_line);
    assert(strip_first(users_line, '|') == Some(users_word + seq!['|'] + users));
    assert(users_word != "title"@);
    assert(scan_init_lines(body) == Some((Some(title), Some(users))));
}

/// `|pm|FROM|TO|MESSAGE`, with the sender and receiver free of `|`, is a
/// private message with those parts; the message keeps its own `|`.
pub proof fn private_line_reads_back(
    from: Seq<char>,
    to: Seq<char>,
    message: Seq<char>,
    rooms: Option<RoomsList>,
)
    requires
        !from.contains('|'),
        !to.contains('|'),
    ensures
        message_kind("|pm|"@ + from + "|"@ + to + "|"@ + message, rooms) == KindView::Text(
            TextView::Private(PrivateView { from, to, message }),
        ),
{
    protocol_words();
    reveal_strlit("|pm|");
    reveal_strlit("|");
    let word = seq!['p', 'm'];
    let args = from + seq!['|'] + (to + seq!['|'] + message);
    assert("|pm|"@ + from + "|"@ + to + "|"@ + message =~= seq!['|'] + word + seq!['|'] + args);
    lemma_word_lacks(word, '|');
    lemma_lobby_line(word, args, rooms);
    lemma_find_after(from, '|', to + seq!['|'] + message);
    lemma_find_after(to, '|', message);
}

/// `|challstr|C` is a login challenge whose text is all of `C`.
pub proof fn challenge_carries_all_its_text(challenge: Seq<char>, rooms: Option<RoomsList>)
    ensures
        message_kind("|challstr|"@ + challenge, rooms) == KindView::Challenge(challenge),
{
    protocol_words();
    reveal_strlit("|challstr|");
    let word = seq!['c', 'h', 'a', 'l', 'l', 's', 't', 'r'];
    assert("|challstr|"@ + challenge =~= seq!['|'] + word + seq!['|'] + challenge);
    lemma_word_lacks(word, '|');
    lemma_lobby_line(word, challenge, rooms);
}

/// The login form hands over the login and the challenge unchanged, the
/// challenge last; the password is sent exactly when it is not empty, and then
/// unchanged.
pub proof fn login_form_carries_its_inputs(
    challstr: Seq<char>,
    login: Seq<char>,
    password: Seq<char>,
)
    ensures
        ({
            let fields = login_form_fields(challstr, login, password);
            &&& fields.len() >= 3
            &&& fields[1].1 == login
            &&& fields.last() == ("challstr"@, challstr)
            &&& password.len() == 0 ==> forall|i: int|
                0 <= i < fields.len() ==> fields[i].0 != "pass"@
            &&& password.len() > 0 ==> fields.contains(("pass"@, password))
        }),
{
    reveal_strlit("pass");
    reveal_strlit("act");
    reveal_strlit("userid");
    reveal_strlit("challstr");
    let fields = login_form_fields(challstr, login, password);
    if password.len() > 0 {
        assert(fields[2] == ("pass"@, password));
    } else {
        assert(fields.len() == 3);
        assert(fields[0].0 == "act"@ && fields[1].0 == "userid"@ && fields[2].0 == "challstr"@);
        assert("act"@.len() == 3 && "userid"@.len() == 6 && "challstr"@.len() == 8);
        assert("pass"@.len() == 4);
        assert forall|i: int| 0 <= i < fields.len() implies fields[i].0 != "pass"@ by {
            assert(fields[i].0.len() != 4);
        }
    }
}

/// The login command carries the login and the whole assertion, verbatim:
/// it is `|/trn LOGIN,0,ASSERTION` and ends with all of the assertion.
pub proof fn trn_carries_whole_assertion(login: Seq<char>, assertion: Seq<char>)
    ensures
        trn_text(login, assertion) == "|/trn "@ + login + ",0,"@ + assertion,
        trn_text(login, assertion).skip(trn_text(login, assertion).len() - assertion.len())
            == assertion,
{
    reveal_strlit("|/");
    reveal_strlit("trn ");
    reveal_strlit("|/trn ");
    assert(trn_text(login, assertion) =~= "|/trn "@ + login + ",0,"@ + assertion);
    let t = trn_text(login, assertion);
    assert(t.skip(t.len() - assertion.len()) =~= assertion);
}

/// A chat message's text loses exactly one trailing newline.
pub proof fn chat_text_drops_one_newline(text: Seq<char>)
    ensures
        chat_text(text + seq!['\n']) == text,
        text.len() == 0 || text.last() != '\n' ==> chat_text(text) == text,
{
    assert((text + seq!['\n']).drop_last() =~= text);
}

} // verus!

mod parsed_message;

pub use parsed_message::ParsedMessage;

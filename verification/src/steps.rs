//! What each request does: the state it leads to and the actions it calls for.

use crate::action::{everyone, everyone_else, granted, refused, ActionView, TargetView};
use crate::json::{decimal, loose_member, no_members, text_member, with_member, Json};
use crate::request::{JoinView, OpenView, SeatView, SignalView};
use crate::room::{
    chat_target, controller_news, farewell, info, left_room, linked_room, players_news, socket_ids,
    RoomInfoView, RoomView,
};
use crate::table::{as_map, at, listed, put};
use crate::text::{clipped, normalized, squashed, trimmed};
use vstd::prelude::*;

verus! {

/// What the server's state stands for.
#[verifier::ext_equal]
pub struct StateView {
    /// The rooms, by session id.
    pub rooms: Map<Seq<char>, RoomView>,
    /// Where each socket sits, by socket id.
    pub index: Map<Seq<char>, SeatView>,
    /// The games on offer.
    pub games: Map<Seq<char>, Json>,
}

/// A text, or another if there is none.
pub open spec fn or_else(o: Option<Seq<char>>, d: Seq<char>) -> Seq<char> {
    match o {
        Some(s) => s,
        None => d,
    }
}

/// What a player says about itself; anything but an object says nothing.
pub open spec fn profile(extra: Option<Json>) -> Json {
    match extra {
        Some(j) => if j is Object {
            j
        } else {
            no_members()
        },
        None => no_members(),
    }
}

/// The session id in a profile.
pub open spec fn session_named(p: Json) -> Seq<char> {
    or_else(loose_member(p, "sessionid"@), seq![])
}

/// The player id in a profile.
pub open spec fn player_named(p: Json) -> Seq<char> {
    match loose_member(p, "userid"@) {
        Some(id) => id,
        None => or_else(loose_member(p, "playerId"@), seq![]),
    }
}

/// A player's record: the profile, and the socket the player came on.
pub open spec fn record(p: Json, sid: Seq<char>) -> Json {
    with_member(p, "socketId"@, Json::Str(sid))
}

/// A step that changes nothing and answers with an error text.
pub open spec fn rejection(s: StateView, error: Seq<char>) -> (StateView, Seq<ActionView>) {
    (s, seq![ActionView::Ack(Json::Str(error))])
}

/// A step that ends in a refusal.
pub open spec fn refusal(s: StateView, error: Seq<char>) -> (StateView, Seq<ActionView>) {
    (s, seq![ActionView::Ack(refused(error))])
}

/// The room that a request opens.
pub open spec fn new_room(sid: Seq<char>, d: OpenView) -> RoomView {
    let p = profile(d.extra);
    let session = session_named(p);
    let player = player_named(p);
    RoomView {
        owner: sid,
        players: seq![(player, record(p, sid))],
        peers: seq![],
        room_name: or_else(loose_member(p, "room_name"@), "Room "@ + session),
        game_id: or_else(loose_member(p, "game_id"@), "default"@),
        domain: or_else(loose_member(p, "domain"@), "unknown"@),
        password: normalized(d.password),
        max_players: match d.max_players {
            Some(n) => n,
            None => 4,
        },
        active_controller: player,
    }
}

/// Opening a room.
pub open spec fn open_step(s: StateView, sid: Seq<char>, d: OpenView) -> (
    StateView,
    Seq<ActionView>,
) {
    let p = profile(d.extra);
    let session = session_named(p);
    let player = player_named(p);
    let room = new_room(sid, d);
    if session.len() == 0 || player.len() == 0 {
        rejection(s, "Invalid data: sessionId and playerId required"@)
    } else if s.rooms.contains_key(session) {
        rejection(s, "Room already exists"@)
    } else {
        (
            StateView {
                rooms: s.rooms.insert(session, room),
                index: s.index.insert(
                    sid,
                    SeatView { session_id: session, player_id: player, last_chat_at: 0 },
                ),
                ..s
            },
            seq![
                ActionView::Join(session),
                ActionView::Ack(Json::Null),
                players_news(sid, room),
                controller_news(sid, room),
            ],
        )
    }
}

/// A room after a player has come in.
pub open spec fn joined_room(room: RoomView, sid: Seq<char>, p: Json) -> RoomView {
    RoomView { players: put(room.players, player_named(p), record(p, sid)), ..room }
}

/// Joining a room.
pub open spec fn join_step(s: StateView, sid: Seq<char>, d: JoinView) -> (
    StateView,
    Seq<ActionView>,
) {
    let p = profile(d.extra);
    let session = session_named(p);
    let player = player_named(p);
    let before = s.rooms[session];
    let room = joined_room(before, sid, p);
    if session.len() == 0 || player.len() == 0 {
        rejection(s, "Invalid data: sessionId and playerId required"@)
    } else if !s.rooms.contains_key(session) {
        rejection(s, "Room not found"@)
    } else if before.password is Some && normalized(d.password) != before.password {
        rejection(s, "Incorrect password"@)
    } else if before.players.len() >= before.max_players {
        rejection(s, "Room full"@)
    } else {
        (
            StateView {
                rooms: s.rooms.insert(session, room),
                index: s.index.insert(
                    sid,
                    SeatView { session_id: session, player_id: player, last_chat_at: 0 },
                ),
                ..s
            },
            seq![
                ActionView::Join(session),
                ActionView::AckBoth(Json::Null, Json::Object(as_map(room.players))),
                players_news(sid, room),
                controller_news(sid, room),
            ],
        )
    }
}

/// Leaving a room, by request or because the connection broke.
pub open spec fn leave_step(s: StateView, sid: Seq<char>) -> (StateView, Seq<ActionView>) {
    if !s.index.contains_key(sid) {
        (s, seq![])
    } else {
        let session = s.index[sid].session_id;
        let player = s.index[sid].player_id;
        let index = s.index.remove(sid);
        if !s.rooms.contains_key(session) {
            (StateView { index, ..s }, seq![ActionView::Leave(session)])
        } else {
            let left = left_room(s.rooms[session], sid, player);
            (
                StateView {
                    rooms: if left.players.len() == 0 {
                        s.rooms.remove(session)
                    } else {
                        s.rooms.insert(session, left)
                    },
                    index,
                    ..s
                },
                farewell(s.rooms[session], sid, player).push(ActionView::Leave(session)),
            )
        }
    }
}

/// Handing the controller to a player.
pub open spec fn set_controller_step(s: StateView, sid: Seq<char>, player_id: Seq<char>) -> (
    StateView,
    Seq<ActionView>,
) {
    if !s.index.contains_key(sid) {
        refusal(s, "Not in a room"@)
    } else {
        let session = s.index[sid].session_id;
        let room = s.rooms[session];
        let handed = RoomView { active_controller: player_id, ..room };
        if !s.rooms.contains_key(session) {
            refusal(s, "Room not found"@)
        } else if room.owner != sid {
            refusal(s, "Only room owner can change controller"@)
        } else if !listed(room.players, player_id) {
            refusal(s, "Player not found"@)
        } else {
            (
                StateView { rooms: s.rooms.insert(session, handed), ..s },
                seq![controller_news(sid, handed), ActionView::Ack(granted())],
            )
        }
    }
}

/// The least time between two chat messages of a socket, in milliseconds.
pub const CHAT_INTERVAL_MS: u64 = 400;

/// The most characters that a chat message keeps.
pub const CHAT_LIMIT: usize = 300;

/// Whom a chat message is for, as it was written.
pub open spec fn chat_to(d: Json) -> Seq<char> {
    or_else(loose_member(d, "to"@), "all"@)
}

/// Whom a chat message is for.
pub open spec fn chat_address(d: Json) -> Seq<char> {
    let to = trimmed(chat_to(d));
    if to.len() == 0 {
        "all"@
    } else {
        to
    }
}

/// What a chat message says, as it was written: a bare string, or a member of
/// an object.
pub open spec fn chat_raw(d: Json) -> Seq<char> {
    match d {
        Json::Str(s) => s,
        _ => or_else(text_member(d, "message"@), seq![]),
    }
}

/// What a chat message says: its words, one space apart, cut to the limit.
pub open spec fn chat_text(d: Json) -> Seq<char> {
    clipped(squashed(chat_raw(d)), CHAT_LIMIT as nat)
}

/// The state after a socket has used its turn to chat.
pub open spec fn stamped(s: StateView, sid: Seq<char>, now: u64) -> StateView {
    StateView {
        index: s.index.insert(sid, SeatView { last_chat_at: now, ..s.index[sid] }),
        ..s
    }
}

/// A chat message as the others see it.
pub open spec fn chat_payload(
    now: u64,
    to: Seq<char>,
    player_id: Seq<char>,
    player_name: Seq<char>,
    message: Seq<char>,
) -> Json {
    with_member(
        with_member(
            with_member(
                with_member(
                    with_member(no_members(), "ts"@, Json::Number(decimal(now as nat))),
                    "to"@,
                    Json::Str(to),
                ),
                "userid"@,
                Json::Str(player_id),
            ),
            "player_name"@,
            Json::Str(player_name),
        ),
        "message"@,
        Json::Str(message),
    )
}

/// The clock has not gone back since a socket last chatted.
pub open spec fn clock_ok(s: StateView, sid: Seq<char>, now: u64) -> bool {
    s.index.contains_key(sid) ==> now >= s.index[sid].last_chat_at
}

/// Delivering a chat message.
pub open spec fn chat_delivery(
    room: RoomView,
    sid: Seq<char>,
    player_id: Seq<char>,
    d: Json,
    now: u64,
) -> ActionView {
    let target = chat_target(room, player_id, chat_address(d));
    ActionView::Emit {
        targets: match target {
            Some(id) => seq![TargetView::Me, TargetView::Socket(id)],
            None => everyone(sid, socket_ids(room.players)),
        },
        event: "chat-message"@,
        payload: chat_payload(
            now,
            if target is Some {
                chat_address(d)
            } else {
                "all"@
            },
            player_id,
            or_else(loose_member(at(room.players, player_id), "player_name"@), "Unknown"@),
            chat_text(d),
        ),
    }
}

/// Sending a chat message.
pub open spec fn chat_step(s: StateView, sid: Seq<char>, d: Json, now: u64) -> (
    StateView,
    Seq<ActionView>,
) {
    if !s.index.contains_key(sid) {
        refusal(s, "Not in a room"@)
    } else if now - s.index[sid].last_chat_at < CHAT_INTERVAL_MS {
        refusal(s, "Slow down"@)
    } else {
        let t = stamped(s, sid, now);
        let session = s.index[sid].session_id;
        let player = s.index[sid].player_id;
        let room = s.rooms[session];
        if chat_text(d).len() == 0 {
            refusal(t, "Empty message"@)
        } else if !s.rooms.contains_key(session) {
            refusal(t, "Room not found"@)
        } else if !listed(room.players, player) {
            refusal(t, "Not in room"@)
        } else {
            (t, seq![chat_delivery(room, sid, player, d, now), ActionView::Ack(granted())])
        }
    }
}

/// An object with a member under a name, if there is one to write.
pub open spec fn with_option(j: Json, name: Seq<char>, x: Option<Json>) -> Json {
    match x {
        Some(v) => with_member(j, name, v),
        None => j,
    }
}

/// A signal as the other socket sees it.
pub open spec fn signal_payload(sender: Seq<char>, d: SignalView) -> Json {
    let base = with_member(no_members(), "sender"@, Json::Str(sender));
    if d.request_renegotiate == Some(true) {
        with_member(base, "requestRenegotiate"@, Json::Bool(true))
    } else {
        with_option(
            with_option(with_option(base, "candidate"@, d.candidate), "offer"@, d.offer),
            "answer"@,
            d.answer,
        )
    }
}

/// Passing a signal on to another socket. An offer is remembered in the
/// sender's room.
pub open spec fn signal_step(s: StateView, sender: Seq<char>, d: SignalView) -> (
    StateView,
    Seq<ActionView>,
) {
    if d.request_renegotiate != Some(true) && d.target is None {
        (s, seq![])
    } else {
        let target = or_else(d.target, seq![]);
        let session = s.index[sender].session_id;
        let remember = d.offer is Some && s.index.contains_key(sender) && s.rooms.contains_key(
            session,
        );
        (
            if remember {
                StateView {
                    rooms: s.rooms.insert(
                        session,
                        linked_room(s.rooms[session], sender, target),
                    ),
                    ..s
                }
            } else {
                s
            },
            seq![
                ActionView::Emit {
                    targets: seq![TargetView::Socket(target)],
                    event: "webrtc-signal"@,
                    payload: signal_payload(sender, d),
                },
            ],
        )
    }
}

/// What passing a message on to the rest of the room sends.
pub open spec fn relay(s: StateView, sid: Seq<char>, event: Seq<char>, d: Json) -> Seq<
    ActionView,
> {
    if !s.index.contains_key(sid) {
        seq![]
    } else {
        let session = s.index[sid].session_id;
        let ids = if s.rooms.contains_key(session) {
            socket_ids(s.rooms[session].players)
        } else {
            seq![]
        };
        seq![ActionView::Emit { targets: everyone_else(sid, ids), event, payload: d }]
    }
}

/// A socket sits in a room with the player who holds the controller there.
pub open spec fn in_control(s: StateView, sid: Seq<char>) -> bool {
    &&& s.index.contains_key(sid)
    &&& s.rooms.contains_key(s.index[sid].session_id)
    &&& s.rooms[s.index[sid].session_id].active_controller == s.index[sid].player_id
}

/// What passing a command on to the rest of the room sends.
pub open spec fn input_relay(s: StateView, sid: Seq<char>, d: Json) -> Seq<ActionView> {
    if in_control(s, sid) {
        relay(s, sid, "input"@, d)
    } else {
        seq![]
    }
}

/// The rooms on a domain that play a game.
pub open spec fn listing(
    s: StateView,
    domain: Option<Seq<char>>,
    game_id: Option<Seq<char>>,
) -> Map<Seq<char>, RoomInfoView> {
    Map::new(
        |session: Seq<char>|
            s.rooms.contains_key(session) && Some(s.rooms[session].domain) == domain && Some(
                s.rooms[session].game_id,
            ) == game_id,
        |session: Seq<char>| info(s.rooms[session]),
    )
}

/// The state without the rooms that nobody is in.
pub open spec fn swept(s: StateView) -> StateView {
    StateView {
        rooms: Map::new(
            |session: Seq<char>|
                s.rooms.contains_key(session) && s.rooms[session].players.len() > 0,
            |session: Seq<char>| s.rooms[session],
        ),
        ..s
    }
}

} // verus!

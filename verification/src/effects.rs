//! What each request does, said of what goes in and what comes out: which
//! members a payload has, who is told, who is in a room afterwards.

use crate::action::{
    controller_notice, everyone, everyone_else, granted, refused, ActionView, TargetView,
};
use crate::json::{decimal, holds, loose_member, text_member, Json};
use crate::laws::{
    law_everyone_else_is_reached, law_everyone_is_reached, law_taking_out_keeps_the_order,
};
use crate::request::{JoinView, OpenView, SeatView, SignalView};
use crate::room::{
    chat_target, controller_news, farewell, first_on_socket, info, left_room, linked_room,
    players_news, socket_ids, socket_of, PeerView, RoomView,
};
use crate::steps::{
    chat_address, chat_raw, chat_step, chat_text, clock_ok, in_control, input_relay, join_step,
    leave_step, listing, open_step, player_named, profile, relay, session_named,
    set_controller_step, signal_step, swept, StateView,
};
use crate::table::{as_map, distinct, law_writing_keeps_the_order, lemma_del, lemma_put, listed};
use crate::text::{alike, clipped, normalized, squashed, trimmed};
use vstd::prelude::*;

verus! {

/// The answers that grant and refuse, and the notice of who holds the
/// controller, member by member.
pub proof fn law_answers_and_notices(error: Seq<char>, player_id: Seq<char>)
    ensures
        granted() == Json::Object(Map::empty().insert("ok"@, Json::Bool(true))),
        holds(refused(error), "ok"@, Some(Json::Bool(false))),
        holds(refused(error), "error"@, Some(Json::Str(error))),
        forall|name: Seq<char>| #[trigger]
            refused(error)->Object_0.contains_key(name) ==> name == "ok"@ || name == "error"@,
        controller_notice(player_id) == Json::Object(
            Map::empty().insert("playerId"@, Json::Str(player_id)),
        ),
{
    reveal_strlit("ok");
    reveal_strlit("error");
    assert("ok"@.len() != "error"@.len());
}

/// The sockets of a list of players are those that their records name, each as
/// often as it is named and in the players' order.
pub proof fn law_which_sockets_are_meant(
    a: Seq<(Seq<char>, Json)>,
    b: Seq<(Seq<char>, Json)>,
    row: (Seq<char>, Json),
    id: Seq<char>,
)
    ensures
        socket_of(row.1) == Some(id) <==> holds(row.1, "socketId"@, Some(Json::Str(id))),
        socket_of(row.1) == Some(id) ==> socket_ids(seq![row]) == seq![id],
        socket_of(row.1) is None ==> socket_ids(seq![row]).len() == 0,
        socket_ids(a + b) == socket_ids(a) + socket_ids(b),
        socket_ids(a).contains(id) <==> exists|i: int|
            0 <= i < a.len() && holds(
                (#[trigger] a[i]).1,
                "socketId"@,
                Some(Json::Str(id)),
            ),
{
    let none: Seq<(Seq<char>, Json)> = seq![];
    assert(seq![row].drop_last() =~= none);
    assert(socket_ids(none).len() == 0);
    assert(socket_of(row.1) == Some(id) ==> socket_ids(seq![row]) =~= seq![id]);
    lemma_socket_ids_split(a, b);
    lemma_socket_ids_meant(a, id);
}

proof fn lemma_socket_ids_split(a: Seq<(Seq<char>, Json)>, b: Seq<(Seq<char>, Json)>)
    ensures
        socket_ids(a + b) == socket_ids(a) + socket_ids(b),
    decreases b.len(),
{
    if b.len() == 0 {
        assert(a + b =~= a);
    } else {
        lemma_socket_ids_split(a, b.drop_last());
        assert((a + b).drop_last() =~= a + b.drop_last());
    }
    assert(socket_ids(a + b) =~= socket_ids(a) + socket_ids(b));
}

proof fn lemma_socket_ids_meant(a: Seq<(Seq<char>, Json)>, id: Seq<char>)
    ensures
        socket_ids(a).contains(id) <==> exists|i: int|
            0 <= i < a.len() && holds(
                (#[trigger] a[i]).1,
                "socketId"@,
                Some(Json::Str(id)),
            ),
    decreases a.len(),
{
    if a.len() > 0 {
        let rest = a.drop_last();
        let before = socket_ids(rest);
        let ids = socket_ids(a);
        lemma_socket_ids_meant(rest, id);
        assert(a[a.len() - 1] == a.last());
        if before.contains(id) {
            let i = choose|i: int|
                0 <= i < rest.len() && holds(
                    (#[trigger] rest[i]).1,
                    "socketId"@,
                    Some(Json::Str(id)),
                );
            assert(a[i] == rest[i]);
            assert(ids[before.index_of(id)] == id);
        } else if ids.contains(id) {
            let k = ids.index_of(id);
            if k < before.len() {
                assert(before[k] == id);
            }
        } else {
            assert forall|i: int| 0 <= i < a.len() implies !holds(
                (#[trigger] a[i]).1,
                "socketId"@,
                Some(Json::Str(id)),
            ) by {
                if i < rest.len() {
                    assert(rest[i] == a[i]);
                } else if socket_of(a[i].1) == Some(id) {
                    assert(ids.last() == id);
                }
            }
        }
    }
}

/// Sent to everyone else, a message goes to the sockets of the list one by one,
/// in order, and passes over the asking one.
pub proof fn law_everyone_else_in_order(
    me: Seq<char>,
    a: Seq<Seq<char>>,
    b: Seq<Seq<char>>,
    id: Seq<char>,
)
    ensures
        everyone_else(me, a + b) == everyone_else(me, a) + everyone_else(me, b),
        everyone_else(me, seq![me]).len() == 0,
        id != me ==> everyone_else(me, seq![id]) == seq![TargetView::Socket(id)],
    decreases b.len(),
{
    let none: Seq<Seq<char>> = seq![];
    assert(seq![me].drop_last() =~= none);
    assert(seq![id].drop_last() =~= none);
    assert(everyone_else(me, none).len() == 0);
    assert(id != me ==> everyone_else(me, seq![id]) =~= seq![TargetView::Socket(id)]);
    if b.len() == 0 {
        assert(a + b =~= a);
    } else {
        law_everyone_else_in_order(me, a, b.drop_last(), id);
        assert((a + b).drop_last() =~= a + b.drop_last());
    }
    assert(everyone_else(me, a + b) =~= everyone_else(me, a) + everyone_else(me, b));
}

/// The news of a room go to every socket in it: who is in it, and who holds the
/// controller.
pub proof fn law_news_go_to_the_whole_room(me: Seq<char>, room: RoomView, id: Seq<char>)
    ensures
        players_news(me, room) == (ActionView::Emit {
            targets: everyone(me, socket_ids(room.players)),
            event: "users-updated"@,
            payload: Json::Object(as_map(room.players)),
        }),
        controller_news(me, room) == (ActionView::Emit {
            targets: everyone(me, socket_ids(room.players)),
            event: "active-controller-changed"@,
            payload: controller_notice(room.active_controller),
        }),
        socket_ids(room.players).contains(id) ==> everyone(
            me,
            socket_ids(room.players),
        ).contains(
            if id == me {
                TargetView::Me
            } else {
                TargetView::Socket(id)
            },
        ),
{
    law_everyone_is_reached(me, socket_ids(room.players), id);
}

/// What a player says about itself is an object as it came, and nothing where
/// anything else came. It names the session and the player; the player under
/// either of two names, of which the first counts.
pub proof fn law_what_a_profile_names(extra: Option<Json>, j: Json, t: Seq<char>)
    ensures
        extra == Some(j) && j is Object ==> profile(extra) == j,
        extra == Some(j) && !(j is Object) ==> profile(extra) == Json::Object(Map::empty()),
        extra is None ==> profile(extra) == Json::Object(Map::empty()),
        loose_member(j, "sessionid"@) == Some(t) ==> session_named(j) == t,
        loose_member(j, "sessionid"@) is None ==> session_named(j).len() == 0,
        loose_member(j, "userid"@) == Some(t) ==> player_named(j) == t,
        loose_member(j, "userid"@) is None ==> {
            &&& loose_member(j, "playerId"@) == Some(t) ==> player_named(j) == t
            &&& loose_member(j, "playerId"@) is None ==> player_named(j).len() == 0
        },
{
}

/// Opening a room: who opens it owns it, is its one player, holds the controller
/// and is told so; the room is called and listed as asked for; no other room and
/// no other seat changes. A request without session or player, or for a session
/// that has a room, is answered with its error and changes nothing.
pub proof fn law_what_opening_does(s: StateView, sid: Seq<char>, d: OpenView)
    ensures
        ({
            let p = profile(d.extra);
            let session = session_named(p);
            let player = player_named(p);
            let (after, acts) = open_step(s, sid, d);
            let room = after.rooms[session];
            let me = Json::Object(p->Object_0.insert("socketId"@, Json::Str(sid)));
            if session.len() == 0 || player.len() == 0 {
                &&& after == s
                &&& acts == seq![
                    ActionView::Ack(Json::Str("Invalid data: sessionId and playerId required"@)),
                ]
            } else if s.rooms.contains_key(session) {
                &&& after == s
                &&& acts == seq![ActionView::Ack(Json::Str("Room already exists"@))]
            } else {
                &&& after.rooms == s.rooms.insert(session, room)
                &&& after.index == s.index.insert(
                    sid,
                    SeatView { session_id: session, player_id: player, last_chat_at: 0 },
                )
                &&& after.games == s.games
                &&& room.owner == sid
                &&& room.players == seq![(player, me)]
                &&& room.peers.len() == 0
                &&& room.active_controller == player
                &&& room.password == normalized(d.password)
                &&& d.max_players is Some ==> room.max_players == d.max_players->0
                &&& d.max_players is None ==> room.max_players == 4
                &&& room.room_name == match loose_member(p, "room_name"@) {
                    Some(t) => t,
                    None => "Room "@ + session,
                }
                &&& room.game_id == match loose_member(p, "game_id"@) {
                    Some(t) => t,
                    None => "default"@,
                }
                &&& room.domain == match loose_member(p, "domain"@) {
                    Some(t) => t,
                    None => "unknown"@,
                }
                &&& acts == seq![
                    ActionView::Join(session),
                    ActionView::Ack(Json::Null),
                    ActionView::Emit {
                        targets: seq![TargetView::Me],
                        event: "users-updated"@,
                        payload: Json::Object(Map::empty().insert(player, me)),
                    },
                    ActionView::Emit {
                        targets: seq![TargetView::Me],
                        event: "active-controller-changed"@,
                        payload: controller_notice(player),
                    },
                ]
            }
        }),
{
    let p = profile(d.extra);
    let session = session_named(p);
    let player = player_named(p);
    let (after, acts) = open_step(s, sid, d);
    let room = after.rooms[session];
    let me = Json::Object(p->Object_0.insert("socketId"@, Json::Str(sid)));
    if session.len() > 0 && player.len() > 0 && !s.rooms.contains_key(session) {
        let none: Seq<(Seq<char>, Json)> = seq![];
        lemma_put(none, player, me);
        assert(as_map(none) =~= Map::empty());
        assert(none.push((player, me)) =~= room.players);
        assert(!listed(none, player));
        law_which_sockets_are_meant(none, none, (player, me), sid);
        assert(socket_ids(room.players) =~= seq![sid]);
        assert(everyone(sid, seq![sid]) =~= seq![TargetView::Me]);
    }
}

/// Joining a room: the player is in it, on the joining socket, and whoever was
/// in it still is; nothing else about the room changes, nor does any other room
/// or seat; the newcomer is answered with the players, and the whole room is
/// told who is in it and who holds the controller. Each reason to turn the
/// request down has its error, and changes nothing.
pub proof fn law_what_joining_does(s: StateView, sid: Seq<char>, d: JoinView)
    ensures
        ({
            let p = profile(d.extra);
            let session = session_named(p);
            let player = player_named(p);
            let (after, acts) = join_step(s, sid, d);
            let before = s.rooms[session];
            let room = after.rooms[session];
            let me = Json::Object(p->Object_0.insert("socketId"@, Json::Str(sid)));
            if session.len() == 0 || player.len() == 0 {
                &&& after == s
                &&& acts == seq![
                    ActionView::Ack(Json::Str("Invalid data: sessionId and playerId required"@)),
                ]
            } else if !s.rooms.contains_key(session) {
                &&& after == s
                &&& acts == seq![ActionView::Ack(Json::Str("Room not found"@))]
            } else if before.password is Some && normalized(d.password) != before.password {
                &&& after == s
                &&& acts == seq![ActionView::Ack(Json::Str("Incorrect password"@))]
            } else if before.players.len() >= before.max_players {
                &&& after == s
                &&& acts == seq![ActionView::Ack(Json::Str("Room full"@))]
            } else {
                &&& after.rooms == s.rooms.insert(session, room)
                &&& after.index == s.index.insert(
                    sid,
                    SeatView { session_id: session, player_id: player, last_chat_at: 0 },
                )
                &&& after.games == s.games
                &&& room == (RoomView { players: room.players, ..before })
                &&& distinct(before.players) ==> as_map(room.players) == as_map(
                    before.players,
                ).insert(player, me)
                &&& if exists|i: int|
                    0 <= i < before.players.len() && (#[trigger] before.players[i]).0
                        == player {
                    &&& room.players.len() == before.players.len()
                    &&& forall|i: int|
                        0 <= i < before.players.len() ==> (#[trigger] room.players[i]).0
                            == before.players[i].0
                } else {
                    room.players == before.players.push((player, me))
                }
                &&& acts.len() == 4
                &&& acts[0] == ActionView::Join(session)
                &&& acts[1] == ActionView::AckBoth(
                    Json::Null,
                    Json::Object(as_map(room.players)),
                )
                &&& acts[2] == (ActionView::Emit {
                    targets: everyone(sid, socket_ids(room.players)),
                    event: "users-updated"@,
                    payload: Json::Object(as_map(room.players)),
                })
                &&& acts[3] == (ActionView::Emit {
                    targets: everyone(sid, socket_ids(room.players)),
                    event: "active-controller-changed"@,
                    payload: controller_notice(before.active_controller),
                })
            }
        }),
{
    let p = profile(d.extra);
    let session = session_named(p);
    let player = player_named(p);
    let (after, acts) = join_step(s, sid, d);
    let before = s.rooms[session];
    let room = after.rooms[session];
    let me = Json::Object(p->Object_0.insert("socketId"@, Json::Str(sid)));
    if acts.len() == 4 {
        if distinct(before.players) {
            lemma_put(before.players, player, me);
        }
        law_writing_keeps_the_order(before.players, player, me);
    }
}

/// What a departure makes of a room, and what is said at it.
///
/// One player is gone; every other one keeps record and place. The offers from
/// or to the socket are gone, the others are kept. What the one who left held
/// goes to the player who came first of those that are left; everything else
/// stays.
///
/// A new owner is called to set up anew the first connection on offer, if there
/// is one; those that are left are told who they are, and who holds the
/// controller if the one who left held it. Nothing else is said.
pub proof fn law_what_a_departure_does(
    room: RoomView,
    sid: Seq<char>,
    player: Seq<char>,
    others: spec_fn((Seq<char>, Json)) -> bool,
)
    requires
        distinct(room.players),
        forall|row: (Seq<char>, Json)| #[trigger] others(row) <==> row.0 != player,
    ensures
        ({
            let after = left_room(room, sid, player);
            let anybody = after.players.len() > 0;
            &&& as_map(after.players) == as_map(room.players).remove(player)
            &&& after.players == room.players.filter(others)
            &&& after.peers == room.peers.filter(
                |p: PeerView| p.source != sid && p.target != sid,
            )
            &&& if anybody && room.active_controller == player {
                after.active_controller == after.players[0].0
            } else {
                after.active_controller == room.active_controller
            }
            &&& if anybody && room.owner == sid && socket_of(after.players[0].1) is Some {
                Some(after.owner) == socket_of(after.players[0].1)
            } else {
                after.owner == room.owner
            }
            &&& after.room_name == room.room_name
            &&& after.game_id == room.game_id
            &&& after.domain == room.domain
            &&& after.password == room.password
            &&& after.max_players == room.max_players
        }),
        ({
            let after = left_room(room, sid, player);
            let said = farewell(room, sid, player);
            let anybody = after.players.len() > 0;
            let called: int = if anybody && room.owner == sid && socket_of(
                after.players[0].1,
            ) is Some && after.peers.len() > 0 {
                1
            } else {
                0
            };
            let told: int = if socket_ids(after.players).len() > 0 {
                1
            } else {
                0
            };
            let passed: int = if anybody && room.active_controller == player {
                1
            } else {
                0
            };
            &&& said.len() == called + told + passed
            &&& called == 1 ==> said[0] == (ActionView::Emit {
                targets: seq![TargetView::Socket(after.owner)],
                event: "webrtc-signal"@,
                payload: Json::Object(
                    Map::empty().insert("target"@, Json::Str(after.peers[0].target)).insert(
                        "requestRenegotiate"@,
                        Json::Bool(true),
                    ),
                ),
            })
            &&& told == 1 ==> said[called] == (ActionView::Emit {
                targets: everyone_else(sid, socket_ids(after.players)),
                event: "users-updated"@,
                payload: Json::Object(as_map(after.players)),
            })
            &&& passed == 1 ==> said[called + told] == (ActionView::Emit {
                targets: everyone_else(sid, socket_ids(after.players)),
                event: "active-controller-changed"@,
                payload: controller_notice(after.active_controller),
            })
        }),
{
    lemma_del(room.players, player);
    law_taking_out_keeps_the_order(room.players, player, others);
}

/// Leaving: the socket's seat is gone, and no other; its player is out of the
/// room, and nobody else is; a room that nobody is left in closes, any other
/// stays, and so do all other rooms; each socket that is left in the room is
/// told who is.
pub proof fn law_what_leaving_does(s: StateView, sid: Seq<char>, id: Seq<char>)
    requires
        s.index.contains_key(sid) && s.rooms.contains_key(s.index[sid].session_id) ==> distinct(
            s.rooms[s.index[sid].session_id].players,
        ),
    ensures
        ({
            let (after, acts) = leave_step(s, sid);
            let session = s.index[sid].session_id;
            let player = s.index[sid].player_id;
            let before = s.rooms[session];
            let rest = as_map(before.players).remove(player);
            let room = after.rooms[session];
            if !s.index.contains_key(sid) {
                after == s && acts.len() == 0
            } else {
                &&& after.index == s.index.remove(sid)
                &&& after.games == s.games
                &&& if !s.rooms.contains_key(session) {
                    &&& after.rooms == s.rooms
                    &&& acts == seq![ActionView::Leave(session)]
                } else if rest.dom().is_empty() {
                    &&& after.rooms == s.rooms.remove(session)
                    &&& acts == seq![ActionView::Leave(session)]
                } else {
                    &&& after.rooms == s.rooms.insert(session, room)
                    &&& room == left_room(before, sid, player)
                    &&& as_map(room.players) == rest
                    &&& acts == farewell(before, sid, player).push(ActionView::Leave(session))
                    &&& socket_ids(room.players).contains(id) && id != sid ==> exists|i: int|
                        {
                            &&& 0 <= i < acts.len()
                            &&& (#[trigger] acts[i]) is Emit
                            &&& acts[i]->event == "users-updated"@
                            &&& acts[i]->payload == Json::Object(rest)
                            &&& acts[i]->targets.contains(TargetView::Socket(id))
                        }
                }
            }
        }),
{
    let (after, acts) = leave_step(s, sid);
    let session = s.index[sid].session_id;
    let player = s.index[sid].player_id;
    let before = s.rooms[session];
    if s.index.contains_key(sid) && s.rooms.contains_key(session) {
        let left = left_room(before, sid, player);
        let said = farewell(before, sid, player);
        law_what_a_departure_does(
            before,
            sid,
            player,
            |row: (Seq<char>, Json)| row.0 != player,
        );
        let names = as_map(before.players).remove(player).dom();
        if left.players.len() > 0 {
            assert(listed(left.players, left.players[0].0));
            assert(names.contains(left.players[0].0));
            let ids = socket_ids(left.players);
            law_everyone_else_is_reached(sid, ids, id);
            if ids.contains(id) && id != sid {
                let n: int = if before.owner == sid && socket_of(left.players[0].1) is Some
                    && left.peers.len() > 0 {
                    1
                } else {
                    0
                };
                assert(acts[n] == said[n]);
            }
        } else {
            assert(names =~= Set::empty()) by {
                assert forall|n: Seq<char>| !names.contains(n) by {
                    assert(as_map(left.players).contains_key(n) == names.contains(n));
                }
            }
            assert(said.len() == 0);
            assert(acts =~= seq![ActionView::Leave(session)]);
        }
    }
}

/// Handing over the controller: granted to the owner of a room for any player of
/// it, whoever holds the controller now; the player named then holds it, nothing
/// else changes, and every socket in the room is told, the owner's among them.
/// Each reason to refuse has its error, and changes nothing.
pub proof fn law_what_handing_over_does(
    s: StateView,
    sid: Seq<char>,
    p: Seq<char>,
    id: Seq<char>,
)
    ensures
        ({
            let (after, acts) = set_controller_step(s, sid, p);
            let session = s.index[sid].session_id;
            let before = s.rooms[session];
            if !s.index.contains_key(sid) {
                after == s && acts == seq![ActionView::Ack(refused("Not in a room"@))]
            } else if !s.rooms.contains_key(session) {
                after == s && acts == seq![ActionView::Ack(refused("Room not found"@))]
            } else if before.owner != sid {
                after == s && acts == seq![
                    ActionView::Ack(refused("Only room owner can change controller"@)),
                ]
            } else if !as_map(before.players).contains_key(p) {
                after == s && acts == seq![ActionView::Ack(refused("Player not found"@))]
            } else {
                &&& after.rooms == s.rooms.insert(
                    session,
                    RoomView { active_controller: p, ..before },
                )
                &&& after.index == s.index
                &&& after.games == s.games
                &&& acts.len() == 2
                &&& acts[0] == (ActionView::Emit {
                    targets: everyone(sid, socket_ids(before.players)),
                    event: "active-controller-changed"@,
                    payload: controller_notice(p),
                })
                &&& socket_ids(before.players).contains(id) ==> acts[0]->targets.contains(
                    if id == sid {
                        TargetView::Me
                    } else {
                        TargetView::Socket(id)
                    },
                )
                &&& acts[1] == ActionView::Ack(granted())
            }
        }),
{
    law_everyone_is_reached(sid, socket_ids(s.rooms[s.index[sid].session_id].players), id);
}

/// What a chat message says and whom it is for: a bare string is for all; of an
/// object the text under "message" is said, to whom the member "to" names. The
/// words are set one space apart, and cut to 300 characters.
pub proof fn law_how_a_message_is_read(d: Json, t: Seq<char>)
    ensures
        d == Json::Str(t) ==> chat_raw(d) == t && chat_address(d) == "all"@,
        holds(d, "message"@, Some(Json::Str(t))) ==> chat_raw(d) == t,
        !(d is Str) && (forall|x: Seq<char>| !#[trigger] holds(
            d,
            "message"@,
            Some(Json::Str(x)),
        )) ==> chat_raw(d).len() == 0,
        chat_text(d) == clipped(squashed(chat_raw(d)), 300),
        loose_member(d, "to"@) == Some(t) && trimmed(t).len() > 0 ==> chat_address(d)
            == trimmed(t),
        loose_member(d, "to"@) == Some(t) && trimmed(t).len() == 0 ==> chat_address(d)
            == "all"@,
        loose_member(d, "to"@) is None ==> chat_address(d) == "all"@,
{
    reveal_strlit("all");
    let all = "all"@;
    assert(trimmed(all) == all);
    if !(d is Str) && (forall|x: Seq<char>| !#[trigger] holds(d, "message"@, Some(Json::Str(x)))) {
        if d is Object && d->Object_0.contains_key("message"@) && d->Object_0["message"@] is Str {
            assert(holds(d, "message"@, Some(Json::Str(d->Object_0["message"@]->Str_0))));
        }
    }
}

/// Whom a message is for alone. One that names a player of the room, other than
/// the sender, is for the socket in that player's own record; one that names no
/// player but a socket in the room is for that socket; any other, and any to
/// "all", is for nobody alone.
pub proof fn law_whom_a_message_is_for(
    room: RoomView,
    sender: Seq<char>,
    to: Seq<char>,
    id: Seq<char>,
)
    ensures
        ({
            let target = chat_target(room, sender, to);
            let players = as_map(room.players);
            if alike(to, "all"@) || to == sender {
                target is None
            } else if players.contains_key(to) {
                &&& target == socket_of(players[to])
                &&& target == Some(id) <==> holds(
                    players[to],
                    "socketId"@,
                    Some(Json::Str(id)),
                )
            } else if socket_ids(room.players).contains(to) {
                target == Some(to)
            } else {
                target is None
            }
        }),
{
    lemma_found_on_socket(room.players, to);
}

/// A player is found on a socket if and only if one is there.
proof fn lemma_found_on_socket(players: Seq<(Seq<char>, Json)>, id: Seq<char>)
    ensures
        first_on_socket(players, id) is Some <==> socket_ids(players).contains(id),
    decreases players.len(),
{
    if players.len() > 0 {
        let rest = players.drop_first();
        lemma_found_on_socket(rest, id);
        lemma_socket_ids_meant(players, id);
        lemma_socket_ids_meant(rest, id);
        assert(players.first() == players[0]);
        if socket_ids(rest).contains(id) {
            let k = choose|k: int|
                0 <= k < rest.len() && holds(
                    (#[trigger] rest[k]).1,
                    "socketId"@,
                    Some(Json::Str(id)),
                );
            assert(players[k + 1] == rest[k]);
        }
        if socket_ids(players).contains(id) && socket_of(players[0].1) != Some(id) {
            let k = choose|k: int|
                0 <= k < players.len() && holds(
                    (#[trigger] players[k]).1,
                    "socketId"@,
                    Some(Json::Str(id)),
                );
            assert(rest[k - 1] == players[k]);
        }
    }
}

/// The player found on a socket is the first one there.
proof fn lemma_first_found(players: Seq<(Seq<char>, Json)>, i: int, id: Seq<char>)
    requires
        0 <= i < players.len(),
        socket_of(players[i].1) == Some(id),
        forall|j: int| 0 <= j < i ==> socket_of((#[trigger] players[j]).1) != Some(id),
    ensures
        first_on_socket(players, id) == Some(players[i].1),
    decreases i,
{
    assert(players.first() == players[0]);
    if i > 0 {
        let rest = players.drop_first();
        assert forall|j: int| 0 <= j < i - 1 implies socket_of((#[trigger] rest[j]).1) != Some(
            id,
        ) by {
            assert(rest[j] == players[j + 1]);
        }
        lemma_first_found(rest, i - 1, id);
    }
}

/// Chatting: a socket that sits in a room with its player, whose last turn is
/// 400 milliseconds past and whose message says something, has the message
/// delivered and is told so. The message goes to the sender and the one it is
/// for alone, or to the whole room; it says when it was sent, to whom, by whom,
/// under what name, and what. Its turn is used up whenever it was not too early;
/// nothing else changes. Each reason to refuse has its error.
pub proof fn law_what_chatting_does(s: StateView, sid: Seq<char>, d: Json, now: u64)
    ensures
        clock_ok(s, sid, now) <==> !s.index.contains_key(sid) || now >= s.index[sid].last_chat_at,
        ({
            let (after, acts) = chat_step(s, sid, d, now);
            let seat = s.index[sid];
            let room = s.rooms[seat.session_id];
            let target = chat_target(room, seat.player_id, chat_address(d));
            let sent = acts[0]->payload;
            if !s.index.contains_key(sid) {
                after == s && acts == seq![ActionView::Ack(refused("Not in a room"@))]
            } else if now - seat.last_chat_at < 400 {
                after == s && acts == seq![ActionView::Ack(refused("Slow down"@))]
            } else {
                &&& after.rooms == s.rooms
                &&& after.games == s.games
                &&& after.index == s.index.insert(
                    sid,
                    SeatView {
                        session_id: seat.session_id,
                        player_id: seat.player_id,
                        last_chat_at: now,
                    },
                )
                &&& if chat_text(d).len() == 0 {
                    acts == seq![ActionView::Ack(refused("Empty message"@))]
                } else if !s.rooms.contains_key(seat.session_id) {
                    acts == seq![ActionView::Ack(refused("Room not found"@))]
                } else if !as_map(room.players).contains_key(seat.player_id) {
                    acts == seq![ActionView::Ack(refused("Not in room"@))]
                } else {
                    &&& acts.len() == 2
                    &&& acts[1] == ActionView::Ack(granted())
                    &&& acts[0] is Emit
                    &&& acts[0]->event == "chat-message"@
                    &&& acts[0]->targets == match target {
                        Some(id) => seq![TargetView::Me, TargetView::Socket(id)],
                        None => everyone(sid, socket_ids(room.players)),
                    }
                    &&& holds(sent, "ts"@, Some(Json::Number(decimal(now as nat))))
                    &&& target is Some ==> holds(sent, "to"@, Some(Json::Str(chat_address(d))))
                    &&& target is None ==> holds(sent, "to"@, Some(Json::Str("all"@)))
                    &&& holds(sent, "userid"@, Some(Json::Str(seat.player_id)))
                    &&& holds(
                        sent,
                        "player_name"@,
                        Some(
                            Json::Str(
                                match loose_member(
                                    as_map(room.players)[seat.player_id],
                                    "player_name"@,
                                ) {
                                    Some(name) => name,
                                    None => "Unknown"@,
                                },
                            ),
                        ),
                    )
                    &&& holds(sent, "message"@, Some(Json::Str(chat_text(d))))
                    &&& forall|name: Seq<char>| #[trigger]
                        sent->Object_0.contains_key(name) ==> name == "ts"@ || name == "to"@
                            || name == "userid"@ || name == "player_name"@ || name
                            == "message"@
                }
            }
        }),
{
    lemma_chat_names_differ();
}

proof fn lemma_chat_names_differ()
    ensures
        "ts"@ != "to"@,
        "ts"@ != "userid"@,
        "ts"@ != "player_name"@,
        "ts"@ != "message"@,
        "to"@ != "userid"@,
        "to"@ != "player_name"@,
        "to"@ != "message"@,
        "userid"@ != "player_name"@,
        "userid"@ != "message"@,
        "player_name"@ != "message"@,
{
    reveal_strlit("ts");
    reveal_strlit("to");
    reveal_strlit("userid");
    reveal_strlit("player_name");
    reveal_strlit("message");
    assert("ts"@[1] != "to"@[1]);
    assert("ts"@.len() == 2);
    assert("to"@.len() == 2);
    assert("userid"@.len() == 6);
    assert("player_name"@.len() == 11);
    assert("message"@.len() == 7);
}

/// Passing a signal on: it goes to the socket it names and to no other, with the
/// sender's socket, and with the candidate, the offer and the answer as they
/// came, each present if and only if it came; a request to negotiate anew says
/// just that. A signal that names no socket and makes no such request is
/// dropped. An offer is remembered in the sender's room; nothing else changes.
pub proof fn law_what_signalling_does(s: StateView, sid: Seq<char>, d: SignalView)
    ensures
        ({
            let (after, acts) = signal_step(s, sid, d);
            let anew = d.request_renegotiate == Some(true);
            let session = s.index[sid].session_id;
            let target = match d.target {
                Some(t) => t,
                None => seq![],
            };
            let sent = acts[0];
            if !anew && d.target is None {
                after == s && acts.len() == 0
            } else {
                &&& acts.len() == 1
                &&& sent is Emit
                &&& sent->event == "webrtc-signal"@
                &&& sent->targets == seq![TargetView::Socket(target)]
                &&& holds(sent->payload, "sender"@, Some(Json::Str(sid)))
                &&& if anew {
                    &&& holds(sent->payload, "requestRenegotiate"@, Some(Json::Bool(true)))
                    &&& holds(sent->payload, "candidate"@, None)
                    &&& holds(sent->payload, "offer"@, None)
                    &&& holds(sent->payload, "answer"@, None)
                } else {
                    &&& holds(sent->payload, "requestRenegotiate"@, None)
                    &&& holds(sent->payload, "candidate"@, d.candidate)
                    &&& holds(sent->payload, "offer"@, d.offer)
                    &&& holds(sent->payload, "answer"@, d.answer)
                }
                &&& forall|name: Seq<char>| #[trigger]
                    sent->payload->Object_0.contains_key(name) ==> name == "sender"@ || name
                        == "requestRenegotiate"@ || name == "candidate"@ || name == "offer"@
                        || name == "answer"@
                &&& after.index == s.index
                &&& after.games == s.games
                &&& if d.offer is Some && s.index.contains_key(sid) && s.rooms.contains_key(
                    session,
                ) {
                    after.rooms == s.rooms.insert(
                        session,
                        linked_room(s.rooms[session], sid, target),
                    )
                } else {
                    after.rooms == s.rooms
                }
            }
        }),
{
    lemma_signal_names_differ();
}

proof fn lemma_signal_names_differ()
    ensures
        "sender"@ != "requestRenegotiate"@,
        "sender"@ != "candidate"@,
        "sender"@ != "offer"@,
        "sender"@ != "answer"@,
        "requestRenegotiate"@ != "candidate"@,
        "requestRenegotiate"@ != "offer"@,
        "requestRenegotiate"@ != "answer"@,
        "candidate"@ != "offer"@,
        "candidate"@ != "answer"@,
        "offer"@ != "answer"@,
{
    reveal_strlit("sender");
    reveal_strlit("requestRenegotiate");
    reveal_strlit("candidate");
    reveal_strlit("offer");
    reveal_strlit("answer");
    assert("sender"@[0] != "answer"@[0]);
    assert("sender"@.len() == 6);
    assert("requestRenegotiate"@.len() == 18);
    assert("candidate"@.len() == 9);
    assert("offer"@.len() == 5);
    assert("answer"@.len() == 6);
}

/// What an offer makes of a room: it is remembered last, unless it was
/// remembered before; nothing else changes.
pub proof fn law_what_an_offer_does(room: RoomView, offer: PeerView)
    ensures
        room.peers.contains(offer) ==> linked_room(room, offer.source, offer.target) == room,
        !room.peers.contains(offer) ==> linked_room(room, offer.source, offer.target) == (
        RoomView { peers: room.peers.push(offer), ..room }),
{
}

/// Passing on to the rest of a room: from a socket with a seat, one message goes
/// out, as it came, to all the others in the room and not back. A command is
/// passed on so if its player holds the controller of the room, and not at all
/// otherwise.
pub proof fn law_what_passing_on_does(s: StateView, sid: Seq<char>, event: Seq<char>, d: Json)
    ensures
        ({
            let acts = relay(s, sid, event, d);
            let session = s.index[sid].session_id;
            if !s.index.contains_key(sid) {
                acts.len() == 0
            } else if !s.rooms.contains_key(session) {
                acts == seq![ActionView::Emit { targets: seq![], event, payload: d }]
            } else {
                acts == seq![
                    ActionView::Emit {
                        targets: everyone_else(sid, socket_ids(s.rooms[session].players)),
                        event,
                        payload: d,
                    },
                ]
            }
        }),
        ({
            let acts = input_relay(s, sid, d);
            let session = s.index[sid].session_id;
            if s.index.contains_key(sid) && s.rooms.contains_key(session)
                && s.rooms[session].active_controller == s.index[sid].player_id {
                &&& in_control(s, sid)
                &&& acts == seq![
                    ActionView::Emit {
                        targets: everyone_else(sid, socket_ids(s.rooms[session].players)),
                        event: "input"@,
                        payload: d,
                    },
                ]
            } else {
                !in_control(s, sid) && acts.len() == 0
            }
        }),
{
    assert(everyone_else(sid, seq![]).len() == 0);
    assert(everyone_else(sid, seq![]) =~= seq![]);
}

/// The name given to a room's host is that in the record of the first player on
/// the owner's socket; "Unknown" if that record has none, or nobody is on that
/// socket.
pub proof fn law_who_hosts_a_room(room: RoomView, i: int, name: Seq<char>)
    ensures
        0 <= i < room.players.len() && socket_of(room.players[i].1) == Some(room.owner) && (forall|
            j: int,
        |
            0 <= j < i ==> socket_of((#[trigger] room.players[j]).1) != Some(room.owner)) ==> {
            &&& holds(room.players[i].1, "player_name"@, Some(Json::Str(name))) ==> info(
                room,
            ).player_name == name
            &&& text_member(room.players[i].1, "player_name"@) is None ==> info(
                room,
            ).player_name == "Unknown"@
        },
        !socket_ids(room.players).contains(room.owner) ==> info(room).player_name
            == "Unknown"@,
{
    lemma_found_on_socket(room.players, room.owner);
    if 0 <= i < room.players.len() && socket_of(room.players[i].1) == Some(room.owner) && (forall|
        j: int,
    |
        0 <= j < i ==> socket_of((#[trigger] room.players[j]).1) != Some(room.owner)) {
        lemma_first_found(room.players, i, room.owner);
    }
}

/// The list says of each room on the domain with the game what the room is: its
/// name and game, how many are in it and how many may be, and whether it has a
/// password.
pub proof fn law_what_the_list_says(
    s: StateView,
    domain: Seq<char>,
    game_id: Seq<char>,
    session: Seq<char>,
)
    ensures
        ({
            let list = listing(s, Some(domain), Some(game_id));
            let room = s.rooms[session];
            &&& list.contains_key(session) <==> s.rooms.contains_key(session) && room.domain
                == domain && room.game_id == game_id
            &&& list.contains_key(session) ==> list[session] == info(room)
            &&& info(room).room_name == room.room_name
            &&& info(room).current == room.players.len()
            &&& info(room).max == room.max_players
            &&& info(room).has_password == (room.password is Some)
            &&& info(room).game_id == room.game_id
        }),
{
}

/// Sweeping closes the rooms without players and leaves everything else.
pub proof fn law_what_sweeping_does(s: StateView, session: Seq<char>)
    ensures
        swept(s).rooms.contains_key(session) <==> s.rooms.contains_key(session)
            && s.rooms[session].players.len() > 0,
        swept(s).rooms.contains_key(session) ==> swept(s).rooms[session] == s.rooms[session],
        swept(s).index == s.index,
        swept(s).games == s.games,
{
}

} // verus!

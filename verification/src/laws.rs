//! What holds of the server as a whole: of every request, of every state that
//! requests lead to, and of several requests one after the other.

use crate::action::{
    controller_notice, everyone, everyone_else, granted, refused, ActionView, TargetView,
};
use crate::json::Json;
use crate::request::{JoinView, OpenView, SeatView, SignalView};
use crate::room::{
    chat_target, first_on_socket, heir, heir_socket, info, left_room, linked_room, socket_ids,
    socket_of, PeerView, RoomView,
};
use crate::steps::{
    chat_address, chat_delivery, chat_raw, chat_step, chat_text, in_control, input_relay,
    join_step, joined_room, leave_step, listing, new_room, open_step, player_named, profile,
    record, relay, session_named, set_controller_step, signal_step, stamped, swept, StateView,
    CHAT_INTERVAL_MS, CHAT_LIMIT,
};
use crate::table::{as_map, at, del, distinct, lemma_del, lemma_place, lemma_put, listed, place};
use crate::text::{
    is_blank, is_tidy, law_normalizing_once_is_enough, law_only_blank_text_vanishes,
    law_squashed_text_is_tidy, normalized, squashed,
};
use vstd::prelude::*;

verus! {

/// A request from a socket.
pub enum RequestView {
    Open(OpenView),
    Join(JoinView),
    Leave,
    SetController(Seq<char>),
    Chat(Json, u64),
    Signal(SignalView),
    Data(Json),
    Snapshot(Json),
    Input(Json),
}

/// What a request does: the state it leads to and the actions it calls for.
pub open spec fn step(s: StateView, sid: Seq<char>, r: RequestView) -> (
    StateView,
    Seq<ActionView>,
) {
    match r {
        RequestView::Open(d) => open_step(s, sid, d),
        RequestView::Join(d) => join_step(s, sid, d),
        RequestView::Leave => leave_step(s, sid),
        RequestView::SetController(p) => set_controller_step(s, sid, p),
        RequestView::Chat(d, now) => chat_step(s, sid, d, now),
        RequestView::Signal(d) => signal_step(s, sid, d),
        RequestView::Data(d) => (s, relay(s, sid, "data-message"@, d)),
        RequestView::Snapshot(d) => (s, relay(s, sid, "snapshot"@, d)),
        RequestView::Input(d) => (s, input_relay(s, sid, d)),
    }
}

/// The session that a request is about: the one it names, or else the one its
/// socket sits in.
pub open spec fn session_meant(s: StateView, sid: Seq<char>, r: RequestView) -> Seq<char> {
    match r {
        RequestView::Open(d) => session_named(profile(d.extra)),
        RequestView::Join(d) => session_named(profile(d.extra)),
        _ => s.index[sid].session_id,
    }
}

/// A room in good order: somebody is in it; one of its players holds the
/// controller; no player occurs twice, and each is on a socket; no offer is
/// remembered twice; its password is a tidied one; only the player who opened it
/// may be one too many.
pub open spec fn sound_room(room: RoomView) -> bool {
    &&& distinct(room.players)
    &&& room.players.len() > 0
    &&& listed(room.players, room.active_controller)
    &&& forall|i: int|
        0 <= i < room.players.len() ==> socket_of((#[trigger] room.players[i]).1) is Some
    &&& room.peers.no_duplicates()
    &&& normalized(room.password) == room.password
    &&& room.players.len() <= room.max_players || room.players.len() == 1
}

/// Every room is in good order.
pub open spec fn sound(s: StateView) -> bool {
    forall|session: Seq<char>| #[trigger]
        s.rooms.contains_key(session) ==> sound_room(s.rooms[session])
}

/// A server starts in good order.
pub proof fn law_start_is_sound()
    ensures
        sound(StateView { rooms: Map::empty(), index: Map::empty(), games: Map::empty() }),
{
}

proof fn lemma_new_room_sound(sid: Seq<char>, d: OpenView)
    ensures
        sound_room(new_room(sid, d)),
{
    let room = new_room(sid, d);
    assert(room.players[0].0 == room.active_controller);
    law_normalizing_once_is_enough(d.password);
}

proof fn lemma_joined_room_sound(room: RoomView, sid: Seq<char>, p: Json)
    requires
        sound_room(room),
        room.players.len() < room.max_players,
    ensures
        sound_room(joined_room(room, sid, p)),
{
    let player = player_named(p);
    let after = joined_room(room, sid, p);
    lemma_put(room.players, player, record(p, sid));
    assert(as_map(after.players).contains_key(room.active_controller));
    assert forall|i: int| 0 <= i < after.players.len() implies socket_of(
        (#[trigger] after.players[i]).1,
    ) is Some by {
        if i < room.players.len() {
            assert(socket_of(room.players[i].1) is Some);
        }
    }
}

proof fn lemma_filter_no_duplicates<A>(s: Seq<A>, keep: spec_fn(A) -> bool)
    requires
        s.no_duplicates(),
    ensures
        s.filter(keep).no_duplicates(),
        forall|x: A| #[trigger] s.filter(keep).contains(x) <==> s.contains(x) && keep(x),
    decreases s.len(),
{
    reveal(Seq::filter);
    if s.len() > 0 {
        let t = s.drop_last();
        lemma_filter_no_duplicates(t, keep);
        assert(!t.contains(s.last()));
        assert(s == t.push(s.last()));
        assert(!t.filter(keep).contains(s.last()));
        assert forall|i: int, j: int|
            0 <= i < j < s.filter(keep).len() implies s.filter(keep)[i] != s.filter(
            keep,
        )[j] by {
            assert(s.filter(keep)[i] == t.filter(keep)[i]);
            assert(t.filter(keep).contains(t.filter(keep)[i]));
        }
        assert forall|x: A| #[trigger] s.filter(keep).contains(x) implies s.contains(x) && keep(
            x,
        ) by {
            if t.filter(keep).contains(x) {
                assert(t.contains(x));
            }
        }
        assert forall|x: A| s.contains(x) && keep(x) implies #[trigger] s.filter(keep).contains(
            x,
        ) by {
            if t.contains(x) {
                assert(t.filter(keep).contains(x));
                let i = t.filter(keep).index_of(x);
                assert(s.filter(keep)[i] == x);
            } else {
                assert(x == s.last());
                assert(s.filter(keep).last() == x);
            }
        }
    }
}

proof fn lemma_left_room_sound(room: RoomView, sid: Seq<char>, player: Seq<char>)
    requires
        sound_room(room),
        left_room(room, sid, player).players.len() > 0,
    ensures
        sound_room(left_room(room, sid, player)),
{
    let after = left_room(room, sid, player);
    lemma_del(room.players, player);
    lemma_filter_no_duplicates(
        room.peers,
        |p: PeerView| p.source != sid && p.target != sid,
    );
    assert forall|i: int| 0 <= i < after.players.len() implies socket_of(
        (#[trigger] after.players[i]).1,
    ) is Some by {
        if listed(room.players, player) && i >= place(room.players, player) {
            assert(socket_of(room.players[i + 1].1) is Some);
        } else {
            assert(socket_of(room.players[i].1) is Some);
        }
    }
    if room.active_controller == player {
        assert(after.players[0].0 == after.active_controller);
    } else {
        assert(as_map(after.players).contains_key(room.active_controller));
    }
}

/// Every request keeps every room in good order.
pub proof fn law_every_request_keeps_sound(s: StateView, sid: Seq<char>, r: RequestView)
    requires
        sound(s),
    ensures
        sound(step(s, sid, r).0),
{
    let session = session_meant(s, sid, r);
    match r {
        RequestView::Open(d) => {
            lemma_new_room_sound(sid, d);
        },
        RequestView::Join(d) => {
            if s.rooms.contains_key(session) && s.rooms[session].players.len()
                < s.rooms[session].max_players {
                lemma_joined_room_sound(s.rooms[session], sid, profile(d.extra));
            }
        },
        RequestView::Leave => {
            if s.index.contains_key(sid) && s.rooms.contains_key(session) {
                let player = s.index[sid].player_id;
                if left_room(s.rooms[session], sid, player).players.len() > 0 {
                    lemma_left_room_sound(s.rooms[session], sid, player);
                }
            }
        },
        _ => {},
    }
}

/// The state after requests of various sockets, one after the other.
pub open spec fn run(s: StateView, requests: Seq<(Seq<char>, RequestView)>) -> StateView
    decreases requests.len(),
{
    if requests.len() == 0 {
        s
    } else {
        let (sid, r) = requests.last();
        step(run(s, requests.drop_last()), sid, r).0
    }
}

/// Whatever is asked of a new server, by whomever and in whatever order, its
/// rooms are in good order.
pub proof fn law_every_run_is_sound(requests: Seq<(Seq<char>, RequestView)>)
    ensures
        sound(
            run(
                StateView { rooms: Map::empty(), index: Map::empty(), games: Map::empty() },
                requests,
            ),
        ),
    decreases requests.len(),
{
    let start = StateView { rooms: Map::empty(), index: Map::empty(), games: Map::empty() };
    if requests.len() == 0 {
        law_start_is_sound();
    } else {
        let (sid, r) = requests.last();
        law_every_run_is_sound(requests.drop_last());
        law_every_request_keeps_sound(run(start, requests.drop_last()), sid, r);
    }
}

/// A request leaves every room as it is but the one it is about.
pub proof fn law_other_rooms_untouched(
    s: StateView,
    sid: Seq<char>,
    r: RequestView,
    session: Seq<char>,
)
    requires
        session != session_meant(s, sid, r),
    ensures
        step(s, sid, r).0.rooms.contains_key(session) == s.rooms.contains_key(session),
        s.rooms.contains_key(session) ==> step(s, sid, r).0.rooms[session] == s.rooms[session],
{
}

/// A request leaves every other socket's seat as it is.
pub proof fn law_other_seats_untouched(
    s: StateView,
    sid: Seq<char>,
    r: RequestView,
    other: Seq<char>,
)
    requires
        other != sid,
    ensures
        step(s, sid, r).0.index.contains_key(other) == s.index.contains_key(other),
        s.index.contains_key(other) ==> step(s, sid, r).0.index[other] == s.index[other],
{
}

/// No request changes the games on offer.
pub proof fn law_games_untouched(s: StateView, sid: Seq<char>, r: RequestView)
    ensures
        step(s, sid, r).0.games == s.games,
{
}

/// A request that is answered with an error.
pub open spec fn is_refused(s: StateView, sid: Seq<char>, r: RequestView) -> bool {
    exists|e: Seq<char>|
        step(s, sid, r).1 == seq![ActionView::Ack(Json::Str(e))] || step(s, sid, r).1 == seq![
            ActionView::Ack(#[trigger] refused(e)),
        ]
}

/// A refused request changes no room, seats nobody and unseats nobody; at most
/// it uses up its socket's turn to chat.
pub proof fn law_refusal_changes_nothing(s: StateView, sid: Seq<char>, r: RequestView)
    requires
        is_refused(s, sid, r),
    ensures
        step(s, sid, r).0 == s || (r is Chat && step(s, sid, r).0 == stamped(
            s,
            sid,
            r->Chat_1,
        )),
{
    let acts = step(s, sid, r).1;
    assert(acts.len() == 1 && acts[0] is Ack);
    if r is Leave && s.index.contains_key(sid) {
        assert(acts.last() is Leave);
    }
}

/// A request to open or to join is refused if all that comes of it is one
/// action.
proof fn lemma_one_action_refuses(s: StateView, sid: Seq<char>, r: RequestView)
    requires
        r is Open || r is Join,
        step(s, sid, r).1.len() == 1,
    ensures
        is_refused(s, sid, r),
{
    let acts = step(s, sid, r).1;
    let e = acts[0]->Ack_0->Str_0;
    assert(acts == seq![ActionView::Ack(Json::Str(e))]);
    assert(refused(e) is Object);
}

/// The controller of a room changes hands in two ways only: the owner hands it
/// to a player of the room, or its holder leaves and it goes to the player who
/// came first of those that are left.
pub proof fn law_how_the_controller_changes_hands(
    s: StateView,
    sid: Seq<char>,
    r: RequestView,
    session: Seq<char>,
)
    requires
        s.rooms.contains_key(session),
        step(s, sid, r).0.rooms.contains_key(session),
        step(s, sid, r).0.rooms[session].active_controller
            != s.rooms[session].active_controller,
    ensures
        s.index.contains_key(sid),
        s.index[sid].session_id == session,
        match r {
            RequestView::SetController(p) => {
                &&& s.rooms[session].owner == sid
                &&& listed(s.rooms[session].players, p)
                &&& step(s, sid, r).0.rooms[session].active_controller == p
            },
            RequestView::Leave => {
                &&& s.rooms[session].active_controller == s.index[sid].player_id
                &&& heir(step(s, sid, r).0.rooms[session].players) == Some(
                    step(s, sid, r).0.rooms[session].active_controller,
                )
            },
            _ => false,
        },
{
}

/// A room changes owners in one way only: the owner leaves, and the room goes
/// to the socket of the player who came first of those that are left.
pub proof fn law_how_a_room_changes_owners(
    s: StateView,
    sid: Seq<char>,
    r: RequestView,
    session: Seq<char>,
)
    requires
        s.rooms.contains_key(session),
        step(s, sid, r).0.rooms.contains_key(session),
        step(s, sid, r).0.rooms[session].owner != s.rooms[session].owner,
    ensures
        r is Leave,
        s.rooms[session].owner == sid,
        s.index.contains_key(sid),
        s.index[sid].session_id == session,
        heir_socket(step(s, sid, r).0.rooms[session].players) == Some(
            step(s, sid, r).0.rooms[session].owner,
        ),
{
}

/// A request to hand over the controller is granted to the owner, for a player
/// of the room, and to nobody else; all others are refused and change nothing.
pub proof fn law_only_the_owner_hands_over(s: StateView, sid: Seq<char>, p: Seq<char>)
    ensures
        ({
            let after = set_controller_step(s, sid, p);
            let session = s.index[sid].session_id;
            if s.index.contains_key(sid) && s.rooms.contains_key(session)
                && s.rooms[session].owner == sid && listed(s.rooms[session].players, p) {
                &&& after.1.last() == ActionView::Ack(granted())
                &&& after.0.rooms[session].active_controller == p
            } else {
                &&& after.0 == s
                &&& exists|e: Seq<char>| after.1 == seq![ActionView::Ack(#[trigger] refused(e))]
            }
        }),
{
    let session = s.index[sid].session_id;
    let e = if !s.index.contains_key(sid) {
        "Not in a room"@
    } else if !s.rooms.contains_key(session) {
        "Room not found"@
    } else if s.rooms[session].owner != sid {
        "Only room owner can change controller"@
    } else {
        "Player not found"@
    };
    assert(ActionView::Ack(refused(e)) == ActionView::Ack(refused(e)));
}

/// Once the controller has been handed to a player, that player's commands are
/// passed on, and those of the others in the room are not.
pub proof fn law_handing_over_moves_control(
    s: StateView,
    sid: Seq<char>,
    p: Seq<char>,
    other: Seq<char>,
    d: Json,
)
    requires
        set_controller_step(s, sid, p).1.last() == ActionView::Ack(granted()),
        s.index.contains_key(other),
        s.index[other].session_id == s.index[sid].session_id,
    ensures
        in_control(set_controller_step(s, sid, p).0, other) == (s.index[other].player_id == p),
        s.index[other].player_id != p ==> input_relay(
            set_controller_step(s, sid, p).0,
            other,
            d,
        ) == Seq::<ActionView>::empty(),
        s.index[other].player_id == p ==> input_relay(
            set_controller_step(s, sid, p).0,
            other,
            d,
        ) == relay(s, other, "input"@, d),
{
    lemma_granted_is_no_refusal();
}

proof fn lemma_granted_is_no_refusal()
    ensures
        forall|e: Seq<char>| granted() != #[trigger] refused(e),
{
    assert forall|e: Seq<char>| granted() != #[trigger] refused(e) by {
        reveal_strlit("ok");
        reveal_strlit("error");
        assert("ok"@.len() != "error"@.len());
        assert(refused(e)->Object_0.contains_key("error"@));
        assert(!granted()->Object_0.contains_key("error"@));
    }
}

/// A command is passed on only if it comes from the player who holds the
/// controller of the room that its socket sits in.
pub proof fn law_only_the_holder_is_heard(s: StateView, sid: Seq<char>, d: Json)
    ensures
        input_relay(s, sid, d).len() > 0 <==> in_control(s, sid),
{
}

/// Sent to everyone, a message goes to the sockets of the list one by one, in
/// order, the asking one among them; it reaches these and no others.
pub proof fn law_everyone_is_reached(me: Seq<char>, ids: Seq<Seq<char>>, id: Seq<char>)
    ensures
        everyone(me, ids).len() == ids.len(),
        forall|i: int|
            0 <= i < ids.len() ==> (#[trigger] everyone(me, ids)[i]) == if ids[i] == me {
                TargetView::Me
            } else {
                TargetView::Socket(ids[i])
            },
        id != me ==> (everyone(me, ids).contains(TargetView::Socket(id)) <==> ids.contains(id)),
        everyone(me, ids).contains(TargetView::Me) <==> ids.contains(me),
        !everyone(me, ids).contains(TargetView::Socket(me)),
{
    let all = everyone(me, ids);
    if ids.contains(id) {
        let i = ids.index_of(id);
        assert(all[i] == if id == me {
            TargetView::Me
        } else {
            TargetView::Socket(id)
        });
    }
    if all.contains(TargetView::Socket(id)) {
        let i = all.index_of(TargetView::Socket(id));
        assert(ids[i] == id);
    }
    if ids.contains(me) {
        assert(all[ids.index_of(me)] == TargetView::Me);
    }
    if all.contains(TargetView::Me) {
        assert(ids[all.index_of(TargetView::Me)] == me);
    }
}

/// Sent to everyone else, a message reaches each socket of the list but the
/// asking one, and never comes back to it.
pub proof fn law_everyone_else_is_reached(me: Seq<char>, ids: Seq<Seq<char>>, id: Seq<char>)
    ensures
        everyone_else(me, ids).contains(TargetView::Socket(id)) <==> ids.contains(id) && id
            != me,
        !everyone_else(me, ids).contains(TargetView::Me),
    decreases ids.len(),
{
    if ids.len() > 0 {
        let rest = ids.drop_last();
        law_everyone_else_is_reached(me, rest, id);
        assert(ids == rest.push(ids.last()));
        let before = everyone_else(me, rest);
        let all = everyone_else(me, ids);
        if ids.contains(id) && id != me {
            if rest.contains(id) {
                assert(all[before.index_of(TargetView::Socket(id))] == TargetView::Socket(id));
            } else {
                assert(all.last() == TargetView::Socket(id));
            }
        }
        if all.contains(TargetView::Socket(id)) {
            let i = all.index_of(TargetView::Socket(id));
            if i < before.len() {
                assert(before[i] == TargetView::Socket(id));
                assert(ids[rest.index_of(id)] == id);
            } else {
                assert(ids[ids.len() - 1] == id);
            }
        }
        if all.contains(TargetView::Me) {
            let i = all.index_of(TargetView::Me);
            assert(i < before.len());
            assert(before[i] == TargetView::Me);
        }
    }
}

/// In a room in good order each player is reached on one socket.
pub proof fn law_each_player_has_a_socket(room: RoomView)
    requires
        sound_room(room),
    ensures
        socket_ids(room.players).len() == room.players.len(),
        forall|i: int|
            0 <= i < room.players.len() ==> Some(#[trigger] socket_ids(room.players)[i])
                == socket_of(room.players[i].1),
{
    lemma_socket_ids_all(room.players);
}

proof fn lemma_socket_ids_all(players: Seq<(Seq<char>, Json)>)
    requires
        forall|i: int| 0 <= i < players.len() ==> socket_of((#[trigger] players[i]).1) is Some,
    ensures
        socket_ids(players).len() == players.len(),
        forall|i: int|
            0 <= i < players.len() ==> Some(#[trigger] socket_ids(players)[i]) == socket_of(
                players[i].1,
            ),
    decreases players.len(),
{
    if players.len() > 0 {
        let rest = players.drop_last();
        assert forall|i: int| 0 <= i < rest.len() implies socket_of(
            (#[trigger] rest[i]).1,
        ) is Some by {
            assert(rest[i] == players[i]);
        }
        lemma_socket_ids_all(rest);
        assert(players[players.len() - 1] == players.last());
    }
}

/// Data, snapshots and commands never come back to the socket they came from,
/// and reach every other socket in its room.
pub proof fn law_relays_reach_the_others(
    s: StateView,
    sid: Seq<char>,
    event: Seq<char>,
    d: Json,
    id: Seq<char>,
)
    requires
        s.index.contains_key(sid),
        s.rooms.contains_key(s.index[sid].session_id),
    ensures
        relay(s, sid, event, d).len() == 1,
        relay(s, sid, event, d)[0] is Emit,
        relay(s, sid, event, d)[0]->event == event,
        relay(s, sid, event, d)[0]->payload == d,
        !relay(s, sid, event, d)[0]->targets.contains(TargetView::Me),
        relay(s, sid, event, d)[0]->targets.contains(TargetView::Socket(id)) <==> id != sid
            && socket_ids(s.rooms[s.index[sid].session_id].players).contains(id),
{
    law_everyone_else_is_reached(
        sid,
        socket_ids(s.rooms[s.index[sid].session_id].players),
        id,
    );
}

/// A room that was just opened closes again when its owner leaves: the server
/// is as it was, if the socket did not sit anywhere before.
pub proof fn law_leaving_undoes_opening(s: StateView, sid: Seq<char>, d: OpenView)
    requires
        !is_refused(s, sid, RequestView::Open(d)),
        !s.index.contains_key(sid),
    ensures
        leave_step(open_step(s, sid, d).0, sid).0 == s,
{
    let room = new_room(sid, d);
    lemma_open_not_refused(s, sid, d);
    assert(room.players[0].0 == room.active_controller);
    lemma_place(room.players, 0);
    let left = left_room(room, sid, room.active_controller);
    assert(left.players.len() == 0);
    assert(leave_step(open_step(s, sid, d).0, sid).0 =~= s);
}

/// A newcomer who joins a room and leaves again leaves the server as it was.
/// The socket sat nowhere before, the player was not in the room, and the room
/// neither belongs to the socket nor remembers an offer of it or to it.
pub proof fn law_leaving_undoes_joining(s: StateView, sid: Seq<char>, d: JoinView)
    requires
        sound(s),
        !is_refused(s, sid, RequestView::Join(d)),
        !s.index.contains_key(sid),
        ({
            let room = s.rooms[session_named(profile(d.extra))];
            &&& !listed(room.players, player_named(profile(d.extra)))
            &&& room.owner != sid
            &&& forall|i: int|
                0 <= i < room.peers.len() ==> (#[trigger] room.peers[i]).source != sid
                    && room.peers[i].target != sid
        }),
    ensures
        leave_step(join_step(s, sid, d).0, sid).0 == s,
{
    let p = profile(d.extra);
    let session = session_named(p);
    let player = player_named(p);
    lemma_join_not_refused(s, sid, d);
    let room = s.rooms[session];
    let joined = joined_room(room, sid, p);
    let n = room.players.len() as int;
    assert(joined.players[n].0 == player);
    lemma_put(room.players, player, record(p, sid));
    lemma_place(joined.players, n);
    assert(del(joined.players, player) =~= room.players);
    lemma_filter_all(
        room.peers,
        |q: PeerView| q.source != sid && q.target != sid,
    );
    let left = left_room(joined, sid, player);
    assert(left == room);
    assert(leave_step(join_step(s, sid, d).0, sid).0 =~= s);
}

proof fn lemma_filter_all<A>(s: Seq<A>, keep: spec_fn(A) -> bool)
    requires
        forall|i: int| 0 <= i < s.len() ==> keep(#[trigger] s[i]),
    ensures
        s.filter(keep) == s,
    decreases s.len(),
{
    reveal(Seq::filter);
    if s.len() > 0 {
        lemma_filter_all(s.drop_last(), keep);
        assert(s.drop_last().push(s.last()) == s);
    }
}

proof fn lemma_join_not_refused(s: StateView, sid: Seq<char>, d: JoinView)
    requires
        !is_refused(s, sid, RequestView::Join(d)),
    ensures
        s.rooms.contains_key(session_named(profile(d.extra))),
        ({
            let p = profile(d.extra);
            let session = session_named(p);
            let room = joined_room(s.rooms[session], sid, p);
            join_step(s, sid, d).0 == (StateView {
                rooms: s.rooms.insert(session, room),
                index: s.index.insert(
                    sid,
                    SeatView {
                        session_id: session,
                        player_id: player_named(p),
                        last_chat_at: 0,
                    },
                ),
                ..s
            })
        }),
{
    let acts = join_step(s, sid, d).1;
    if acts.len() == 1 {
        lemma_one_action_refuses(s, sid, RequestView::Join(d));
    }
}

/// When joining is owed: to everyone who names an existing room and a player,
/// knows the password if there is one, and finds a place free. The player is
/// then in the room, on the joining socket.
pub proof fn law_who_may_join(s: StateView, sid: Seq<char>, d: JoinView)
    ensures
        ({
            let p = profile(d.extra);
            let session = session_named(p);
            let player = player_named(p);
            let room = s.rooms[session];
            let after = join_step(s, sid, d).0;
            if session.len() > 0 && player.len() > 0 && s.rooms.contains_key(session) && (
            room.password is None || normalized(d.password) == room.password)
                && room.players.len() < room.max_players {
                &&& !is_refused(s, sid, RequestView::Join(d))
                &&& after.index[sid].session_id == session
                &&& after.index[sid].player_id == player
                &&& distinct(room.players) ==> as_map(after.rooms[session].players) == as_map(
                    room.players,
                ).insert(player, record(p, sid))
            } else {
                &&& is_refused(s, sid, RequestView::Join(d))
                &&& after == s
            }
        }),
{
    let p = profile(d.extra);
    let session = session_named(p);
    let player = player_named(p);
    let room = s.rooms[session];
    let acts = join_step(s, sid, d).1;
    if acts.len() == 1 {
        lemma_one_action_refuses(s, sid, RequestView::Join(d));
    } else {
        assert(acts.len() == 4);
        if distinct(room.players) {
            lemma_put(room.players, player, record(p, sid));
        }
    }
}

/// A room that was opened with a password keeps out those, and only those, who
/// give another one once both are tidied.
pub proof fn law_the_password_opens_the_room(
    s: StateView,
    sid: Seq<char>,
    d: OpenView,
    guest: Seq<char>,
    j: JoinView,
)
    requires
        !is_refused(s, sid, RequestView::Open(d)),
        session_named(profile(j.extra)) == session_named(profile(d.extra)),
        player_named(profile(j.extra)).len() > 0,
        new_room(sid, d).max_players > 1,
    ensures
        is_refused(open_step(s, sid, d).0, guest, RequestView::Join(j)) == (normalized(
            d.password,
        ) is Some && normalized(j.password) != normalized(d.password)),
        j.password == d.password ==> !is_refused(
            open_step(s, sid, d).0,
            guest,
            RequestView::Join(j),
        ),
{
    lemma_open_not_refused(s, sid, d);
    law_who_may_join(open_step(s, sid, d).0, guest, j);
}

proof fn lemma_open_not_refused(s: StateView, sid: Seq<char>, d: OpenView)
    requires
        !is_refused(s, sid, RequestView::Open(d)),
    ensures
        session_named(profile(d.extra)).len() > 0,
        player_named(profile(d.extra)).len() > 0,
        !s.rooms.contains_key(session_named(profile(d.extra))),
{
    let acts = open_step(s, sid, d).1;
    if acts.len() == 1 {
        lemma_one_action_refuses(s, sid, RequestView::Open(d));
    }
}

/// When opening is owed: to everyone who names a player and a session that has
/// no room yet. An existing room is never opened over.
pub proof fn law_who_may_open(s: StateView, sid: Seq<char>, d: OpenView)
    ensures
        ({
            let p = profile(d.extra);
            let session = session_named(p);
            let after = open_step(s, sid, d).0;
            if session.len() > 0 && player_named(p).len() > 0 && !s.rooms.contains_key(session) {
                &&& !is_refused(s, sid, RequestView::Open(d))
                &&& after.rooms[session] == new_room(sid, d)
                &&& after.index[sid].session_id == session
                &&& in_control(after, sid)
            } else {
                &&& is_refused(s, sid, RequestView::Open(d))
                &&& after == s
            }
        }),
{
    let acts = open_step(s, sid, d).1;
    if acts.len() == 1 {
        lemma_one_action_refuses(s, sid, RequestView::Open(d));
    } else {
        assert(acts.len() == 4);
    }
}

/// A room that was just opened is on the list for its domain and game, with one
/// player in it.
pub proof fn law_an_opened_room_is_listed(s: StateView, sid: Seq<char>, d: OpenView)
    requires
        !is_refused(s, sid, RequestView::Open(d)),
    ensures
        ({
            let session = session_named(profile(d.extra));
            let room = new_room(sid, d);
            let list = listing(
                open_step(s, sid, d).0,
                Some(room.domain),
                Some(room.game_id),
            );
            &&& list.contains_key(session)
            &&& list[session] == info(room)
            &&& list[session].current == 1
            &&& list[session].has_password == (normalized(d.password) is Some)
        }),
{
    lemma_open_not_refused(s, sid, d);
}

/// The list names a room if and only if the room is there, on the domain and
/// with the game asked for; without both of them it names none.
pub proof fn law_what_is_listed(
    s: StateView,
    domain: Option<Seq<char>>,
    game_id: Option<Seq<char>>,
    session: Seq<char>,
)
    ensures
        listing(s, domain, game_id).contains_key(session) <==> s.rooms.contains_key(session)
            && domain == Some(s.rooms[session].domain) && game_id == Some(
            s.rooms[session].game_id,
        ),
        domain is None || game_id is None ==> listing(s, domain, game_id) == Map::<
            Seq<char>,
            crate::room::RoomInfoView,
        >::empty(),
{
    if domain is None || game_id is None {
        assert(listing(s, domain, game_id) =~= Map::empty());
    }
}

/// Closing the empty rooms changes nothing while every room is in good order.
pub proof fn law_sweeping_finds_nothing(s: StateView)
    requires
        sound(s),
    ensures
        swept(s) == s,
{
    assert(swept(s).rooms =~= s.rooms);
}

/// Whoever has left sits nowhere, is no longer a player of the room, and no
/// offer in the room names its socket.
pub proof fn law_leaving_forgets(s: StateView, sid: Seq<char>)
    requires
        sound(s),
        s.index.contains_key(sid),
    ensures
        ({
            let after = leave_step(s, sid).0;
            let session = s.index[sid].session_id;
            let room = after.rooms[session];
            &&& !after.index.contains_key(sid)
            &&& after.rooms.contains_key(session) ==> {
                &&& !listed(room.players, s.index[sid].player_id)
                &&& forall|i: int|
                    0 <= i < room.peers.len() ==> (#[trigger] room.peers[i]).source != sid
                        && room.peers[i].target != sid
            }
        }),
{
    let session = s.index[sid].session_id;
    let player = s.index[sid].player_id;
    if s.rooms.contains_key(session) {
        let room = s.rooms[session];
        let left = left_room(room, sid, player);
        lemma_del(room.players, player);
        assert(!as_map(left.players).contains_key(player));
        let keep = |p: PeerView| p.source != sid && p.target != sid;
        lemma_filter_no_duplicates(room.peers, keep);
        assert forall|i: int| 0 <= i < left.peers.len() implies (#[trigger] left.peers[i]).source
            != sid && left.peers[i].target != sid by {
            assert(left.peers.contains(left.peers[i]));
            assert(keep(left.peers[i]));
        }
    }
}

/// A room closes when its last player leaves, and not before.
pub proof fn law_a_room_closes_with_its_last_player(s: StateView, sid: Seq<char>)
    requires
        sound(s),
        s.index.contains_key(sid),
        s.rooms.contains_key(s.index[sid].session_id),
    ensures
        ({
            let session = s.index[sid].session_id;
            let players = s.rooms[session].players;
            leave_step(s, sid).0.rooms.contains_key(session) <==> exists|other: Seq<char>|
                other != s.index[sid].player_id && #[trigger] listed(players, other)
        }),
{
    let session = s.index[sid].session_id;
    let player = s.index[sid].player_id;
    let players = s.rooms[session].players;
    let left = del(players, player);
    lemma_del(players, player);
    if left.len() > 0 {
        let other = left[0].0;
        lemma_place(left, 0);
        assert(as_map(players).remove(player).contains_key(other));
        assert(listed(players, other));
    }
    if exists|other: Seq<char>| other != player && #[trigger] listed(players, other) {
        let other = choose|other: Seq<char>| other != player && #[trigger] listed(players, other);
        assert(as_map(left).contains_key(other));
        assert(listed(left, other));
    }
}

/// When somebody joins, the newcomer and all the others in the room are told
/// who is in it and who holds the controller.
pub proof fn law_a_newcomer_is_announced(s: StateView, sid: Seq<char>, d: JoinView, id: Seq<char>)
    requires
        sound(s),
        !is_refused(s, sid, RequestView::Join(d)),
        id != sid,
    ensures
        ({
            let session = session_named(profile(d.extra));
            let room = join_step(s, sid, d).0.rooms[session];
            let acts = join_step(s, sid, d).1;
            let players = Json::Object(as_map(room.players));
            &&& acts.len() == 4
            &&& acts[0] == ActionView::Join(session)
            &&& acts[1] == ActionView::AckBoth(Json::Null, players)
            &&& acts[2] is Emit
            &&& acts[2]->event == "users-updated"@
            &&& acts[2]->payload == players
            &&& acts[3] is Emit
            &&& acts[3]->event == "active-controller-changed"@
            &&& acts[3]->payload == controller_notice(room.active_controller)
            &&& acts[2]->targets == acts[3]->targets
            &&& acts[2]->targets.contains(TargetView::Me)
            &&& acts[2]->targets.contains(TargetView::Socket(id)) <==> socket_ids(
                room.players,
            ).contains(id)
        }),
{
    let p = profile(d.extra);
    let session = session_named(p);
    let player = player_named(p);
    lemma_join_not_refused(s, sid, d);
    let acts = join_step(s, sid, d).1;
    if acts.len() == 1 {
        lemma_one_action_refuses(s, sid, RequestView::Join(d));
    }
    let room = joined_room(s.rooms[session], sid, p);
    lemma_put(s.rooms[session].players, player, record(p, sid));
    assert(as_map(room.players).contains_key(player));
    let i = place(room.players, player);
    assert(room.players[i].0 == player);
    assert(as_map(room.players)[player] == record(p, sid));
    lemma_socket_listed(room.players, i, sid);
    law_everyone_is_reached(sid, socket_ids(room.players), id);
}

/// When somebody leaves a room that others are in, they are told who is left,
/// and, if the controller passed on, who holds it now.
pub proof fn law_a_departure_is_announced(s: StateView, sid: Seq<char>, id: Seq<char>)
    requires
        sound(s),
        s.index.contains_key(sid),
        s.rooms.contains_key(s.index[sid].session_id),
        leave_step(s, sid).0.rooms.contains_key(s.index[sid].session_id),
        socket_ids(leave_step(s, sid).0.rooms[s.index[sid].session_id].players).contains(id),
        id != sid,
    ensures
        ({
            let session = s.index[sid].session_id;
            let room = leave_step(s, sid).0.rooms[session];
            let acts = leave_step(s, sid).1;
            &&& exists|i: int|
                0 <= i < acts.len() && (#[trigger] acts[i]) is Emit && acts[i]->event == "users-updated"@
                    && acts[i]->payload == Json::Object(as_map(room.players))
                    && acts[i]->targets.contains(TargetView::Socket(id))
            &&& room.active_controller != s.rooms[session].active_controller ==> exists|i: int|
                0 <= i < acts.len() && (#[trigger] acts[i]) is Emit && acts[i]->event
                    == "active-controller-changed"@ && acts[i]->payload == controller_notice(
                    room.active_controller,
                ) && acts[i]->targets.contains(TargetView::Socket(id))
            &&& acts.last() == ActionView::Leave(session)
        }),
{
    let session = s.index[sid].session_id;
    let before = s.rooms[session];
    let room = leave_step(s, sid).0.rooms[session];
    let acts = leave_step(s, sid).1;
    let ids = socket_ids(room.players);
    law_everyone_else_is_reached(sid, ids, id);
    let n: int = if before.owner == sid && heir_socket(room.players) is Some && room.peers.len()
        > 0 {
        1
    } else {
        0
    };
    assert(acts[n]->event == "users-updated"@);
    if room.active_controller != before.active_controller {
        assert(acts[n + 1]->event == "active-controller-changed"@);
    }
}

/// A socket that sits nowhere is not heard: nothing of it is passed on to a
/// room, what expects an answer is refused, and leaving does nothing.
pub proof fn law_outsiders_are_not_heard(
    s: StateView,
    sid: Seq<char>,
    event: Seq<char>,
    d: Json,
    p: Seq<char>,
    now: u64,
)
    requires
        !s.index.contains_key(sid),
    ensures
        relay(s, sid, event, d) == Seq::<ActionView>::empty(),
        input_relay(s, sid, d) == Seq::<ActionView>::empty(),
        set_controller_step(s, sid, p) == (s, seq![ActionView::Ack(refused("Not in a room"@))]),
        chat_step(s, sid, d, now) == (s, seq![ActionView::Ack(refused("Not in a room"@))]),
        leave_step(s, sid) == (s, Seq::<ActionView>::empty()),
{
}

/// When the owner leaves and others are left, one of them owns the room, unless
/// one of them plays on the owner's socket; if the owner's player also held the
/// controller, the new owner's player holds it.
pub proof fn law_a_leaving_owner_is_replaced(s: StateView, sid: Seq<char>)
    requires
        sound(s),
        s.index.contains_key(sid),
        s.rooms.contains_key(s.index[sid].session_id),
        s.rooms[s.index[sid].session_id].owner == sid,
        leave_step(s, sid).0.rooms.contains_key(s.index[sid].session_id),
        !socket_ids(
            leave_step(s, sid).0.rooms[s.index[sid].session_id].players,
        ).contains(sid),
    ensures
        ({
            let before = s.rooms[s.index[sid].session_id];
            let room = leave_step(s, sid).0.rooms[s.index[sid].session_id];
            &&& room.owner != sid
            &&& socket_ids(room.players).contains(room.owner)
            &&& before.active_controller == s.index[sid].player_id ==> socket_of(
                at(room.players, room.active_controller),
            ) == Some(room.owner)
        }),
{
    law_every_request_keeps_sound(s, sid, RequestView::Leave);
    let room = leave_step(s, sid).0.rooms[s.index[sid].session_id];
    law_each_player_has_a_socket(room);
    assert(socket_ids(room.players)[0] == room.owner);
    lemma_place(room.players, 0);
}

/// An offer is remembered once, however often it is made.
pub proof fn law_an_offer_is_remembered_once(s: StateView, sid: Seq<char>, d: SignalView)
    requires
        d.offer is Some,
        d.target is Some,
        s.index.contains_key(sid),
        s.rooms.contains_key(s.index[sid].session_id),
    ensures
        ({
            let after = signal_step(s, sid, d).0;
            &&& after.rooms[s.index[sid].session_id].peers.contains(
                PeerView { source: sid, target: d.target->0 },
            )
            &&& signal_step(after, sid, d).0 == after
        }),
{
    let session = s.index[sid].session_id;
    let peer = PeerView { source: sid, target: d.target->0 };
    let after = signal_step(s, sid, d).0;
    let room = s.rooms[session];
    if !room.peers.contains(peer) {
        assert(room.peers.push(peer).last() == peer);
    }
    assert(after.rooms[session].peers.contains(peer));
    assert(linked_room(after.rooms[session], sid, d.target->0) == after.rooms[session]);
    assert(signal_step(after, sid, d).0 =~= after);
}

/// A chat message uses up the socket's turn: until the interval has passed, the
/// next one is refused and changes nothing; after that it is not refused for
/// its haste. No chat message changes a room.
pub proof fn law_chat_is_paced(
    s: StateView,
    sid: Seq<char>,
    d: Json,
    now: u64,
    next: Json,
    later: u64,
)
    requires
        s.index.contains_key(sid),
        now - s.index[sid].last_chat_at >= CHAT_INTERVAL_MS,
        later >= now,
    ensures
        ({
            let after = chat_step(s, sid, d, now).0;
            let slow = (after, seq![ActionView::Ack(refused("Slow down"@))]);
            &&& after.rooms == s.rooms
            &&& after.index[sid].last_chat_at == now
            &&& (chat_step(after, sid, next, later) == slow) == (later - now < CHAT_INTERVAL_MS)
        }),
{
    let after = chat_step(s, sid, d, now).0;
    if later - now >= CHAT_INTERVAL_MS {
        assert(chat_step(after, sid, next, later).0.index[sid].last_chat_at == later);
    }
}

proof fn lemma_socket_listed(players: Seq<(Seq<char>, Json)>, i: int, id: Seq<char>)
    requires
        0 <= i < players.len(),
        socket_of(players[i].1) == Some(id),
    ensures
        socket_ids(players).contains(id),
    decreases players.len(),
{
    let rest = players.drop_last();
    let before = socket_ids(rest);
    if i < players.len() - 1 {
        assert(rest[i] == players[i]);
        lemma_socket_listed(rest, i, id);
        assert(socket_ids(players)[before.index_of(id)] == id);
    } else {
        assert(socket_ids(players).last() == id);
    }
}

proof fn lemma_first_on_socket(players: Seq<(Seq<char>, Json)>, id: Seq<char>)
    ensures
        first_on_socket(players, id) is Some ==> socket_ids(players).contains(id),
{
    if first_on_socket(players, id) is Some {
        let i = lemma_first_on_socket_row(players, id);
        lemma_socket_listed(players, i, id);
    }
}

proof fn lemma_first_on_socket_row(players: Seq<(Seq<char>, Json)>, id: Seq<char>) -> (i: int)
    requires
        first_on_socket(players, id) is Some,
    ensures
        0 <= i < players.len(),
        socket_of(players[i].1) == Some(id),
    decreases players.len(),
{
    if socket_of(players.first().1) == Some(id) {
        0
    } else {
        let rest = players.drop_first();
        let i = lemma_first_on_socket_row(rest, id);
        assert(rest[i] == players[i + 1]);
        i + 1
    }
}

/// A chat message goes either to the sender and one socket of the room, or to
/// every socket of the room; it never leaves the room.
pub proof fn law_chat_stays_in_the_room(
    room: RoomView,
    sid: Seq<char>,
    player_id: Seq<char>,
    d: Json,
    now: u64,
)
    ensures
        match chat_target(room, player_id, chat_address(d)) {
            Some(id) => {
                &&& chat_delivery(room, sid, player_id, d, now)->targets == seq![
                    TargetView::Me,
                    TargetView::Socket(id),
                ]
                &&& socket_ids(room.players).contains(id)
            },
            None => chat_delivery(room, sid, player_id, d, now)->targets == everyone(
                sid,
                socket_ids(room.players),
            ),
        },
{
    let to = chat_address(d);
    match chat_target(room, player_id, to) {
        Some(id) => {
            if listed(room.players, to) {
                let i = place(room.players, to);
                assert(room.players[i].0 == to);
                lemma_socket_listed(room.players, i, id);
            } else {
                lemma_first_on_socket(room.players, to);
            }
        },
        None => {},
    }
}

/// A chat message that is passed on has at most the limit of characters, does
/// not start with white space, and has none but single spaces.
pub proof fn law_chat_text_is_tidy(d: Json)
    ensures
        chat_text(d).len() <= CHAT_LIMIT,
        is_tidy(chat_text(d)),
{
    let t = squashed(chat_raw(d));
    law_squashed_text_is_tidy(chat_raw(d));
    let c = chat_text(d);
    assert forall|i: int| 0 <= i < c.len() && is_blank(#[trigger] c[i]) implies c[i] == ' ' && i
        > 0 && !is_blank(c[i - 1]) by {
        assert(c[i] == t[i]);
        if i > 0 {
            assert(c[i - 1] == t[i - 1]);
        }
    }
}

/// A chat message is empty if and only if all of it is white space.
pub proof fn law_only_blank_messages_are_empty(d: Json)
    ensures
        chat_text(d).len() == 0 <==> forall|i: int|
            0 <= i < chat_raw(d).len() ==> is_blank(#[trigger] chat_raw(d)[i]),
{
    law_only_blank_text_vanishes(chat_raw(d));
}

/// Taking a name out leaves the rows that carry other names as they are, in
/// their order.
pub proof fn law_taking_out_keeps_the_order<T>(
    rows: Seq<(Seq<char>, T)>,
    name: Seq<char>,
    keep: spec_fn((Seq<char>, T)) -> bool,
)
    requires
        distinct(rows),
        forall|row: (Seq<char>, T)| #[trigger] keep(row) <==> row.0 != name,
    ensures
        del(rows, name) == rows.filter(keep),
{
    if listed(rows, name) {
        let k = place(rows, name);
        assert(rows[k].0 == name);
        let front = rows.take(k);
        let back = rows.skip(k + 1);
        lemma_filter_all(front, keep);
        lemma_filter_all(back, keep);
        assert(seq![rows[k]].filter(keep) =~= seq![]) by {
            reveal_with_fuel(Seq::filter, 2);
            assert(seq![rows[k]].drop_last().len() == 0);
        }
        Seq::filter_distributes_over_add(front, seq![rows[k]], keep);
        Seq::filter_distributes_over_add(front + seq![rows[k]], back, keep);
        assert(rows =~= front + seq![rows[k]] + back);
        assert(del(rows, name) =~= front + back);
    } else {
        lemma_filter_all(rows, keep);
    }
}

} // verus!

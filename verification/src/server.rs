//! The server's state, and the requests it answers.
//!
//! A request is answered in one step: the state changes, and a list of actions
//! says what to send.

use crate::action::{
    emit_to_sockets_excluding_self, emit_to_sockets_including_self, error_reply, models, ok_reply,
    texts, Action, ActionView, Target, TargetView,
};
use crate::clock::now_ms;
use crate::json::{
    json_of, json_of_option, object_of, text_field, v_to_string_lossy, value_as_str,
    value_clone, value_from_bool, value_from_str, value_from_u64, value_is_object, value_null,
    value_object, value_set,
};
use crate::request::{
    JoinRoomData, ListQuery, OpenRoomData, SetControllerData, SocketIndex, WebRtcSignalData,
};
use crate::room::{
    broadcast_active_controller, broadcast_players, collect_socket_ids, Room, RoomInfo,
};
use crate::steps::{
    chat_address, chat_payload, chat_raw, chat_step, chat_text, clock_ok, input_relay,
    join_step, leave_step, listing, new_room, open_step, or_else, player_named, profile, relay,
    session_named, set_controller_step, signal_step, stamped, swept, StateView,
    CHAT_INTERVAL_MS, CHAT_LIMIT,
};
use crate::table::{distinct, lemma_place, lemma_put, listed, place, Model, Table};
use crate::text::{clip, normalize_password, squash, text_of, trim};
use vstd::prelude::*;

verus! {

/// The server's state.
pub struct AppState {
    rooms: Table<Room>,
    index: Table<SocketIndex>,
    games: Table<serde_json::Value>,
}

impl View for AppState {
    type V = StateView;

    closed spec fn view(&self) -> StateView {
        StateView { rooms: self.rooms.map(), index: self.index.map(), games: self.games.map() }
    }
}

impl AppState {
    /// No session, socket, game or player occurs twice.
    pub closed spec fn wf(&self) -> bool {
        &&& self.rooms.wf()
        &&& self.index.wf()
        &&& self.games.wf()
        &&& forall|session: Seq<char>| #[trigger]
            self.rooms.map().contains_key(session) ==> distinct(
                self.rooms.map()[session].players,
            )
    }

    /// In every room of a server in order, no player occurs twice.
    pub proof fn law_no_player_twice(&self)
        requires
            self.wf(),
        ensures
            forall|session: Seq<char>| #[trigger]
                self@.rooms.contains_key(session) ==> distinct(self@.rooms[session].players),
    {
    }

    /// A server without rooms, sockets or games.
    pub fn new() -> (r: AppState)
        ensures
            r.wf(),
            r@ == (StateView { rooms: Map::empty(), index: Map::empty(), games: Map::empty() }),
    {
        let r = AppState { rooms: Table::new(), index: Table::new(), games: Table::new() };
        assert(r.rooms.map() =~= Map::empty());
        assert(r.index.map() =~= Map::empty());
        assert(r.games.map() =~= Map::empty());
        r
    }

    /// Opens a room with the asking socket as its owner and its player as the
    /// holder of the controller.
    pub fn open_room(&mut self, sid: &str, data: OpenRoomData) -> (r: Vec<Action>)
        requires
            old(self).wf(),
        ensures
            final(self).wf(),
            (final(self)@, models(r@)) == open_step(old(self)@, sid@, data.model()),
    {
        let me: String = sid.to_owned();
        let mut out: Vec<Action> = Vec::new();
        let mut extra = read_profile(data.extra);
        let session_id: String = read_session(&extra);
        let player_id: String = read_player(&extra);
        if session_id.as_str().is_empty() || player_id.as_str().is_empty() {
            out.push(
                Action::Ack(value_from_str("Invalid data: sessionId and playerId required")),
            );
            assert(models(out@) == open_step(old(self)@, sid@, data.model()).1);
            return out;
        }
        let room_name: String = match v_to_string_lossy(&extra, "room_name") {
            Some(s) => s,
            None => {
                let mut s: String = "Room ".to_owned();
                s.append(session_id.as_str());
                s
            },
        };
        let game_id: String = text_or(v_to_string_lossy(&extra, "game_id"), "default");
        let domain: String = text_or(v_to_string_lossy(&extra, "domain"), "unknown");
        let max_players: usize = match data.max_players {
            Some(n) => n,
            None => 4,
        };
        let password = normalize_password(data.password);
        value_set(&mut extra, "socketId", value_from_str(sid));
        if self.rooms.contains_key(&session_id) {
            out.push(Action::Ack(value_from_str("Room already exists")));
            assert(models(out@) == open_step(old(self)@, sid@, data.model()).1);
            return out;
        }
        let mut players: Table<serde_json::Value> = Table::new();
        players.insert(player_id.clone(), extra);
        let room = Room {
            owner: me.clone(),
            players,
            peers: Vec::new(),
            room_name,
            game_id,
            domain,
            password,
            max_players,
            active_controller: player_id.clone(),
        };
        proof {
            assert(room.players@ =~= new_room(sid@, data.model()).players);
            assert(models(room.peers@) =~= seq![]);
            assert(room.model() == new_room(sid@, data.model()));
        }
        let players_news = broadcast_players(&me, &room);
        let controller_news = broadcast_active_controller(&me, &room);
        self.rooms.insert(session_id.clone(), room);
        self.index.insert(
            me,
            SocketIndex { session_id: session_id.clone(), player_id, last_chat_at: 0 },
        );
        out.push(Action::Join(session_id));
        out.push(Action::Ack(value_null()));
        out.push(players_news);
        out.push(controller_news);
        assert(models(out@) == open_step(old(self)@, sid@, data.model()).1);
        out
    }

    /// Lets a player into a room that is open to it.
    pub fn join_room(&mut self, sid: &str, data: JoinRoomData) -> (r: Vec<Action>)
        requires
            old(self).wf(),
        ensures
            final(self).wf(),
            (final(self)@, models(r@)) == join_step(old(self)@, sid@, data.model()),
    {
        let me: String = sid.to_owned();
        let mut out: Vec<Action> = Vec::new();
        let mut extra = read_profile(data.extra);
        let session_id: String = read_session(&extra);
        let player_id: String = read_player(&extra);
        let ghost after = join_step(old(self)@, sid@, data.model());
        if session_id.as_str().is_empty() || player_id.as_str().is_empty() {
            out.push(
                Action::Ack(value_from_str("Invalid data: sessionId and playerId required")),
            );
            assert(models(out@) == after.1);
            return out;
        }
        let provided: Option<String> = normalize_password(data.password);
        match self.rooms.get(&session_id) {
            None => {
                out.push(Action::Ack(value_from_str("Room not found")));
                assert(models(out@) == after.1);
                return out;
            },
            Some(room) => {
                if !password_fits(&room.password, &provided) {
                    out.push(Action::Ack(value_from_str("Incorrect password")));
                    assert(models(out@) == after.1);
                    return out;
                }
                if room.players.len() >= room.max_players {
                    out.push(Action::Ack(value_from_str("Room full")));
                    assert(models(out@) == after.1);
                    return out;
                }
            },
        }
        value_set(&mut extra, "socketId", value_from_str(sid));
        out.push(Action::Join(session_id.clone()));
        proof {
            lemma_put(
                self.rooms.map()[session_id@].players,
                player_id@,
                json_of(extra),
            );
            lemma_put(self.rooms@, session_id@, after.0.rooms[session_id@]);
        }
        match self.rooms.get_mut(&session_id) {
            None => {},
            Some(room) => {
                room.players.insert(player_id.clone(), extra);
                out.push(Action::AckBoth(value_null(), object_of(&room.players)));
                out.push(broadcast_players(&me, room));
                out.push(broadcast_active_controller(&me, room));
            },
        }
        self.index.insert(me, SocketIndex { session_id, player_id, last_chat_at: 0 });
        assert(models(out@) == after.1);
        out
    }

    /// Takes a socket out of the room it sits in. What its player held goes to
    /// the player who came first of those that are left; a room that nobody is
    /// left in closes.
    pub fn leave_internal(&mut self, sid: &str) -> (r: Vec<Action>)
        requires
            old(self).wf(),
        ensures
            final(self).wf(),
            (final(self)@, models(r@)) == leave_step(old(self)@, sid@),
    {
        let me: String = sid.to_owned();
        let mut out: Vec<Action> = Vec::new();
        let ghost after = leave_step(old(self)@, sid@);
        let (session_id, player_id): (String, String) = match self.index.get(&me) {
            Some(seat) => (seat.session_id.clone(), seat.player_id.clone()),
            None => {
                assert(models(out@) == after.1);
                return out;
            },
        };
        let mut closed: bool = false;
        let ghost left = crate::room::left_room(
            self.rooms.map()[session_id@],
            sid@,
            player_id@,
        );
        proof {
            lemma_put(self.rooms@, session_id@, left);
        }
        match self.rooms.get_mut(&session_id) {
            None => {},
            Some(room) => {
                out = room.depart(&me, &player_id);
                closed = room.players.len() == 0;
            },
        }
        if closed {
            self.rooms.remove(&session_id);
        }
        self.index.remove(&me);
        out.push(Action::Leave(session_id));
        proof {
            assert(models(out@) =~= after.1);
            assert(self@ =~= after.0);
        }
        out
    }

    /// Hands the controller to a player. Only the owner of the room may.
    pub fn set_active_controller(&mut self, sid: &str, data: SetControllerData) -> (r: Vec<Action>)
        requires
            old(self).wf(),
        ensures
            final(self).wf(),
            (final(self)@, models(r@)) == set_controller_step(
                old(self)@,
                sid@,
                data.player_id@,
            ),
    {
        let me: String = sid.to_owned();
        let mut out: Vec<Action> = Vec::new();
        let ghost after = set_controller_step(old(self)@, sid@, data.player_id@);
        let session_id: String = match self.index.get(&me) {
            Some(seat) => seat.session_id.clone(),
            None => {
                out.push(Action::Ack(error_reply("Not in a room")));
                assert(models(out@) == after.1);
                return out;
            },
        };
        match self.rooms.get(&session_id) {
            None => {
                out.push(Action::Ack(error_reply("Room not found")));
                assert(models(out@) == after.1);
                return out;
            },
            Some(room) => {
                if room.owner != me {
                    out.push(Action::Ack(error_reply("Only room owner can change controller")));
                    assert(models(out@) == after.1);
                    return out;
                }
                if !room.players.contains_key(&data.player_id) {
                    out.push(Action::Ack(error_reply("Player not found")));
                    assert(models(out@) == after.1);
                    return out;
                }
            },
        }
        proof {
            lemma_put(self.rooms@, session_id@, after.0.rooms[session_id@]);
        }
        match self.rooms.get_mut(&session_id) {
            None => {},
            Some(room) => {
                room.active_controller = data.player_id;
                out.push(broadcast_active_controller(&me, room));
            },
        }
        out.push(Action::Ack(ok_reply()));
        proof {
            assert(models(out@) =~= after.1);
            assert(self@ =~= after.0);
        }
        out
    }

    /// Tells whether the clock has not gone back since a socket last chatted.
    pub fn clock_ready(&self, sid: &str, now: u64) -> (r: bool)
        requires
            self.wf(),
        ensures
            r == clock_ok(self@, sid@, now),
    {
        match self.index.get(&sid.to_owned()) {
            Some(seat) => now >= seat.last_chat_at,
            None => true,
        }
    }

    /// Passes a chat message on: to one player if it names one, otherwise to the
    /// whole room. A socket may chat once in a while.
    pub fn chat_message(&mut self, sid: &str, data: serde_json::Value, now: u64) -> (r: Vec<
        Action,
    >)
        requires
            old(self).wf(),
            clock_ok(old(self)@, sid@, now),
        ensures
            final(self).wf(),
            (final(self)@, models(r@)) == chat_step(old(self)@, sid@, json_of(data), now),
    {
        let me: String = sid.to_owned();
        let mut out: Vec<Action> = Vec::new();
        let ghost after = chat_step(old(self)@, sid@, json_of(data), now);
        let (session_id, player_id): (String, String) = match self.index.get(&me) {
            None => {
                out.push(Action::Ack(error_reply("Not in a room")));
                assert(models(out@) == after.1);
                return out;
            },
            Some(seat) => {
                if now - seat.last_chat_at < CHAT_INTERVAL_MS {
                    out.push(Action::Ack(error_reply("Slow down")));
                    assert(models(out@) == after.1);
                    return out;
                }
                (seat.session_id.clone(), seat.player_id.clone())
            },
        };
        self.index.insert(
            me.clone(),
            SocketIndex {
                session_id: session_id.clone(),
                player_id: player_id.clone(),
                last_chat_at: now,
            },
        );
        assert(self@ =~= stamped(old(self)@, sid@, now));
        let message: String = read_message(&data);
        if message.as_str().is_empty() {
            out.push(Action::Ack(error_reply("Empty message")));
            assert(models(out@) == after.1);
            return out;
        }
        let to: String = read_address(&data);
        match self.rooms.get(&session_id) {
            None => {
                out.push(Action::Ack(error_reply("Room not found")));
                assert(models(out@) == after.1);
            },
            Some(room) => match room.players.get(&player_id) {
                None => {
                    out.push(Action::Ack(error_reply("Not in room")));
                    assert(models(out@) == after.1);
                },
                Some(from) => {
                    let name: String = text_or(v_to_string_lossy(from, "player_name"), "Unknown");
                    match room.private_target(&player_id, &to) {
                        Some(id) => {
                            let payload = chat_value(now, &to, &player_id, &name, &message);
                            let mut targets: Vec<Target> = Vec::new();
                            targets.push(Target::Me);
                            targets.push(Target::Socket(id));
                            assert(models(targets@) =~= seq![
                                TargetView::Me,
                                TargetView::Socket(id@),
                            ]);
                            out.push(
                                Action::Emit {
                                    targets,
                                    event: "chat-message".to_owned(),
                                    payload,
                                },
                            );
                        },
                        None => {
                            let all: String = "all".to_owned();
                            let payload = chat_value(now, &all, &player_id, &name, &message);
                            let ids: Vec<String> = collect_socket_ids(&room.players);
                            out.push(
                                emit_to_sockets_including_self(&me, &ids, "chat-message", payload),
                            );
                        },
                    }
                    out.push(Action::Ack(ok_reply()));
                    assert(models(out@) =~= after.1);
                },
            },
        }
        out
    }

    /// Passes a chat message on at the time that `now_ms` gives. If the clock has
    /// gone back since the socket last chatted, nothing is done and nothing
    /// returned.
    pub fn chat_message_now(&mut self, sid: &str, data: serde_json::Value) -> (r: Option<
        Vec<Action>,
    >)
        requires
            old(self).wf(),
        ensures
            final(self).wf(),
            exists|now: u64| #[trigger]
                clock_ok(old(self)@, sid@, now) == (r is Some) && call_ensures(now_ms, (), now)
                    && match r {
                        Some(acts) => (final(self)@, models(acts@)) == chat_step(
                            old(self)@,
                            sid@,
                            json_of(data),
                            now,
                        ),
                        None => final(self)@ == old(self)@,
                    },
            !old(self)@.index.contains_key(sid@) ==> r is Some,
    {
        let now: u64 = now_ms();
        if self.clock_ready(sid, now) {
            let acts = self.chat_message(sid, data, now);
            assert(clock_ok(old(self)@, sid@, now));
            Some(acts)
        } else {
            assert(!clock_ok(old(self)@, sid@, now));
            None
        }
    }

    /// Passes a signal on to the socket it names, and remembers an offer in the
    /// sender's room.
    pub fn webrtc_signal(&mut self, sid: &str, data: WebRtcSignalData) -> (r: Vec<Action>)
        requires
            old(self).wf(),
        ensures
            final(self).wf(),
            (final(self)@, models(r@)) == signal_step(old(self)@, sid@, data.model()),
    {
        let me: String = sid.to_owned();
        let mut out: Vec<Action> = Vec::new();
        let ghost after = signal_step(old(self)@, sid@, data.model());
        let request: bool = match data.request_renegotiate {
            Some(b) => b,
            None => false,
        };
        if !request && data.target.is_none() {
            assert(models(out@) =~= after.1);
            return out;
        }
        let target: String = match &data.target {
            Some(t) => t.clone(),
            None => String::new(),
        };
        if data.offer.is_some() {
            match self.index.get(&me) {
                None => {},
                Some(seat) => {
                    let session_id: String = seat.session_id.clone();
                    proof {
                        lemma_put(self.rooms@, session_id@, after.0.rooms[session_id@]);
                    }
                    match self.rooms.get_mut(&session_id) {
                        None => {},
                        Some(room) => {
                            room.link(&me, &target);
                        },
                    }
                },
            }
        }
        let mut payload = value_object();
        value_set(&mut payload, "sender", value_from_str(sid));
        if request {
            value_set(&mut payload, "requestRenegotiate", value_from_bool(true));
        } else {
            if let Some(c) = data.candidate {
                value_set(&mut payload, "candidate", c);
            }
            if let Some(o) = data.offer {
                value_set(&mut payload, "offer", o);
            }
            if let Some(a) = data.answer {
                value_set(&mut payload, "answer", a);
            }
        }
        let mut targets: Vec<Target> = Vec::new();
        targets.push(Target::Socket(target));
        assert(models(targets@) =~= seq![TargetView::Socket(target@)]);
        out.push(Action::Emit { targets, event: "webrtc-signal".to_owned(), payload });
        proof {
            assert(models(out@) =~= after.1);
            assert(self@ =~= after.0);
        }
        out
    }

    /// Passes a message on to the rest of the asking socket's room.
    fn relay(&self, sid: &str, event: &str, d: serde_json::Value) -> (r: Vec<Action>)
        requires
            self.wf(),
        ensures
            models(r@) == relay(self@, sid@, event@, json_of(d)),
    {
        let me: String = sid.to_owned();
        let mut out: Vec<Action> = Vec::new();
        match self.index.get(&me) {
            None => {},
            Some(seat) => {
                let ids: Vec<String> = match self.rooms.get(&seat.session_id) {
                    Some(room) => collect_socket_ids(&room.players),
                    None => Vec::new(),
                };
                assert(!self@.rooms.contains_key(seat.session_id@) ==> texts(ids@) =~= seq![]);
                out.push(emit_to_sockets_excluding_self(&me, &ids, event, d));
            },
        }
        assert(models(out@) =~= relay(self@, sid@, event@, json_of(d)));
        out
    }

    /// Passes data on to the rest of the room.
    pub fn data_message(&self, sid: &str, d: serde_json::Value) -> (r: Vec<Action>)
        requires
            self.wf(),
        ensures
            models(r@) == relay(self@, sid@, "data-message"@, json_of(d)),
    {
        self.relay(sid, "data-message", d)
    }

    /// Passes a snapshot of the game on to the rest of the room.
    pub fn snapshot(&self, sid: &str, d: serde_json::Value) -> (r: Vec<Action>)
        requires
            self.wf(),
        ensures
            models(r@) == relay(self@, sid@, "snapshot"@, json_of(d)),
    {
        self.relay(sid, "snapshot", d)
    }

    /// Passes a command on to the rest of the room, if it comes from the player
    /// who holds the controller.
    pub fn input(&self, sid: &str, d: serde_json::Value) -> (r: Vec<Action>)
        requires
            self.wf(),
        ensures
            models(r@) == input_relay(self@, sid@, json_of(d)),
    {
        let can_control: bool = match self.index.get(&sid.to_owned()) {
            None => false,
            Some(seat) => match self.rooms.get(&seat.session_id) {
                None => false,
                Some(room) => room.active_controller == seat.player_id,
            },
        };
        if can_control {
            self.relay(sid, "input", d)
        } else {
            let out: Vec<Action> = Vec::new();
            assert(models(out@) =~= seq![]);
            out
        }
    }

    /// The rooms on a domain that play a game; none if either is left out.
    pub fn list_rooms(&self, q: &ListQuery) -> (r: Table<RoomInfo>)
        requires
            self.wf(),
        ensures
            r.wf(),
            r.map() == listing(self@, text_of(q.domain), text_of(q.game_id)),
    {
        let mut out: Table<RoomInfo> = Table::new();
        let ghost wanted = listing(self@, text_of(q.domain), text_of(q.game_id));
        assert(out.map() =~= Map::empty());
        if let (Some(dom), Some(gid)) = (&q.domain, &q.game_id) {
            let mut i: usize = 0;
            while i < self.rooms.len()
                invariant
                    self.wf(),
                    out.wf(),
                    i <= self.rooms@.len(),
                    wanted == listing(self@, Some(dom@), Some(gid@)),
                    forall|k: Seq<char>| #[trigger]
                        out.map().contains_key(k) ==> wanted.contains_key(k) && out.map()[k]
                            == wanted[k],
                    forall|j: int|
                        0 <= j < i && wanted.contains_key((#[trigger] self.rooms@[j]).0)
                            ==> out.map().contains_key(self.rooms@[j].0),
                decreases self.rooms@.len() - i,
            {
                let room = self.rooms.value(i);
                proof {
                    lemma_place(self.rooms@, i as int);
                }
                if room.domain == *dom && room.game_id == *gid {
                    out.insert(self.rooms.name(i).clone(), room.info());
                }
                i += 1;
            }
            assert forall|k: Seq<char>| wanted.contains_key(k) implies out.map().contains_key(
                k,
            ) by {
                let j = place(self.rooms@, k);
                assert(self.rooms@[j].0 == k);
            }
        }
        assert(out.map() =~= wanted);
        out
    }

    /// The games on offer.
    pub fn games(&self) -> (r: Table<serde_json::Value>)
        requires
            self.wf(),
        ensures
            r.wf(),
            r.map() == self@.games,
    {
        let mut out: Table<serde_json::Value> = Table::new();
        let mut i: usize = 0;
        while i < self.games.len()
            invariant
                self.wf(),
                out.wf(),
                i <= self.games@.len(),
                out@ == self.games@.take(i as int),
            decreases self.games@.len() - i,
        {
            out.insert(self.games.name(i).clone(), value_clone(self.games.value(i)));
            proof {
                let name = self.games@[i as int].0;
                let before = self.games@.take(i as int);
                if listed(before, name) {
                    let k = place(before, name);
                    assert(before[k].0 == name);
                    assert(self.games@[k].0 != self.games@[i as int].0);
                }
            }
            i += 1;
            assert(out@ =~= self.games@.take(i as int));
        }
        assert(out@ =~= self.games@);
        out
    }

    /// Closes the rooms that nobody is in.
    pub fn sweep(&mut self)
        requires
            old(self).wf(),
        ensures
            final(self).wf(),
            final(self)@ == swept(old(self)@),
    {
        let ghost all = self.rooms.map();
        let mut i: usize = 0;
        while i < self.rooms.len()
            invariant
                self.wf(),
                i <= self.rooms@.len(),
                all == old(self)@.rooms,
                self@.index == old(self)@.index,
                self@.games == old(self)@.games,
                forall|k: Seq<char>| #[trigger]
                    self.rooms.map().contains_key(k) ==> all.contains_key(k)
                        && self.rooms.map()[k] == all[k],
                forall|k: Seq<char>| #[trigger]
                    all.contains_key(k) && !self.rooms.map().contains_key(k)
                        ==> all[k].players.len() == 0,
                forall|j: int| 0 <= j < i ==> (#[trigger] self.rooms@[j]).1.players.len() > 0,
            decreases self.rooms@.len() - i,
        {
            let ghost before = self.rooms@;
            proof {
                lemma_place(self.rooms@, i as int);
            }
            if self.rooms.value(i).players.len() == 0 {
                let name: String = self.rooms.name(i).clone();
                self.rooms.remove(&name);
                assert(self.rooms@ =~= before.remove(i as int));
            } else {
                i += 1;
            }
        }
        proof {
            assert forall|k: Seq<char>| #[trigger]
                self.rooms.map().contains_key(k) implies all[k].players.len() > 0 by {
                let j = place(self.rooms@, k);
                assert(self.rooms@[j].0 == k);
            }
            assert(self@.rooms =~= swept(old(self)@).rooms);
        }
    }
}

/// What a chat message says: its words, one space apart, cut to the limit.
fn read_message(d: &serde_json::Value) -> (r: String)
    ensures
        r@ == chat_text(json_of(*d)),
{
    let raw: String = match value_as_str(d) {
        Some(s) => s.to_owned(),
        None => match text_field(d, "message") {
            Some(s) => s.to_owned(),
            None => String::new(),
        },
    };
    assert(raw@ =~= chat_raw(json_of(*d)));
    clip(squash(raw.as_str()).as_str(), CHAT_LIMIT)
}

/// Whom a chat message is for.
fn read_address(d: &serde_json::Value) -> (r: String)
    ensures
        r@ == chat_address(json_of(*d)),
{
    let to: String = text_or(v_to_string_lossy(d, "to"), "all");
    let to: String = trim(to.as_str());
    if to.as_str().is_empty() {
        "all".to_owned()
    } else {
        to
    }
}

/// A chat message as the others see it.
fn chat_value(
    now: u64,
    to: &String,
    player_id: &String,
    player_name: &String,
    message: &String,
) -> (r: serde_json::Value)
    ensures
        json_of(r) == chat_payload(now, to@, player_id@, player_name@, message@),
{
    let mut v = value_object();
    value_set(&mut v, "ts", value_from_u64(now));
    value_set(&mut v, "to", value_from_str(to.as_str()));
    value_set(&mut v, "userid", value_from_str(player_id.as_str()));
    value_set(&mut v, "player_name", value_from_str(player_name.as_str()));
    value_set(&mut v, "message", value_from_str(message.as_str()));
    v
}

/// What a socket does when it connects: it joins the group of its own name.
pub fn on_connect(sid: &str) -> (r: Vec<Action>)
    ensures
        models(r@) == seq![ActionView::Join(sid@)],
{
    let mut out: Vec<Action> = Vec::new();
    out.push(Action::Join(sid.to_owned()));
    assert(models(out@) =~= seq![ActionView::Join(sid@)]);
    out
}

/// Whether a password opens a room: any does where the room has none.
fn password_fits(wanted: &Option<String>, given: &Option<String>) -> (r: bool)
    ensures
        r == (wanted is None || text_of(*given) == text_of(*wanted)),
{
    match wanted {
        None => true,
        Some(w) => match given {
            Some(g) => *g == *w,
            None => false,
        },
    }
}

/// A text, or another if there is none.
fn text_or(o: Option<String>, d: &str) -> (r: String)
    ensures
        r@ == or_else(text_of(o), d@),
{
    match o {
        Some(s) => s,
        None => d.to_owned(),
    }
}

/// What a player says about itself; anything but an object says nothing.
fn read_profile(extra: Option<serde_json::Value>) -> (r: serde_json::Value)
    ensures
        json_of(r) == profile(json_of_option(extra)),
        json_of(r) is Object,
{
    match extra {
        Some(v) => if value_is_object(&v) {
            v
        } else {
            value_object()
        },
        None => value_object(),
    }
}

/// The session id in a profile.
fn read_session(p: &serde_json::Value) -> (r: String)
    ensures
        r@ == session_named(json_of(*p)),
{
    let r: String = text_or(v_to_string_lossy(p, "sessionid"), "");
    proof {
        reveal_strlit("");
        assert(""@ =~= seq![]);
    }
    r
}

/// The player id in a profile.
fn read_player(p: &serde_json::Value) -> (r: String)
    ensures
        r@ == player_named(json_of(*p)),
{
    proof {
        reveal_strlit("");
        assert(""@ =~= seq![]);
    }
    match v_to_string_lossy(p, "userid") {
        Some(id) => id,
        None => text_or(v_to_string_lossy(p, "playerId"), ""),
    }
}

} // verus!

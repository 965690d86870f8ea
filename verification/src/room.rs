//! A room: its players in the order they came, who owns it, who holds the
//! controller, and which sockets offered each other a connection.

use crate::action::{
    controller_notice, controller_payload, emit_to_sockets_excluding_self,
    emit_to_sockets_including_self, everyone, everyone_else, models, texts, Action, ActionView,
    Target, TargetView,
};
use crate::json::{
    json_of, no_members, object_of, text_field, text_member, value_from_bool, value_from_str,
    value_object, value_set, with_member, Json,
};
use crate::table::{as_map, at, del, listed, Model, Table};
use crate::text::text_of;
use vstd::prelude::*;

verus! {

/// An offer of a connection from one socket to another.
pub struct Peer {
    pub source: String,
    pub target: String,
}

/// A room.
pub struct Room {
    /// The socket that owns the room.
    pub owner: String,
    /// What each player said about itself, by player id.
    pub players: Table<serde_json::Value>,
    /// The connections offered so far.
    pub peers: Vec<Peer>,
    pub room_name: String,
    pub game_id: String,
    pub domain: String,
    pub password: Option<String>,
    pub max_players: usize,
    /// The player whose commands reach the others.
    pub active_controller: String,
}

/// What the list of rooms says of one room.
pub struct RoomInfo {
    pub room_name: String,
    pub current: usize,
    pub max: usize,
    pub player_name: String,
    pub has_password: bool,
    pub game_id: String,
}

/// What a `Peer` stands for.
pub struct PeerView {
    pub source: Seq<char>,
    pub target: Seq<char>,
}

/// What a `Room` stands for.
pub struct RoomView {
    pub owner: Seq<char>,
    pub players: Seq<(Seq<char>, Json)>,
    pub peers: Seq<PeerView>,
    pub room_name: Seq<char>,
    pub game_id: Seq<char>,
    pub domain: Seq<char>,
    pub password: Option<Seq<char>>,
    pub max_players: nat,
    pub active_controller: Seq<char>,
}

/// What a `RoomInfo` stands for.
pub struct RoomInfoView {
    pub room_name: Seq<char>,
    pub current: nat,
    pub max: nat,
    pub player_name: Seq<char>,
    pub has_password: bool,
    pub game_id: Seq<char>,
}

impl Model for Peer {
    type M = PeerView;

    open spec fn model(&self) -> PeerView {
        PeerView { source: self.source@, target: self.target@ }
    }
}

impl Model for Room {
    type M = RoomView;

    open spec fn model(&self) -> RoomView {
        RoomView {
            owner: self.owner@,
            players: self.players@,
            peers: models(self.peers@),
            room_name: self.room_name@,
            game_id: self.game_id@,
            domain: self.domain@,
            password: text_of(self.password),
            max_players: self.max_players as nat,
            active_controller: self.active_controller@,
        }
    }
}

impl Model for RoomInfo {
    type M = RoomInfoView;

    open spec fn model(&self) -> RoomInfoView {
        RoomInfoView {
            room_name: self.room_name@,
            current: self.current as nat,
            max: self.max as nat,
            player_name: self.player_name@,
            has_password: self.has_password,
            game_id: self.game_id@,
        }
    }
}

/// The socket that a player's record names.
pub open spec fn socket_of(player: Json) -> Option<Seq<char>> {
    text_member(player, "socketId"@)
}

/// The sockets that the players' records name, in the players' order.
pub open spec fn socket_ids(players: Seq<(Seq<char>, Json)>) -> Seq<Seq<char>>
    decreases players.len(),
{
    if players.len() == 0 {
        seq![]
    } else {
        let before = socket_ids(players.drop_last());
        match socket_of(players.last().1) {
            Some(id) => before.push(id),
            None => before,
        }
    }
}

/// The sockets that the players' records name.
pub fn collect_socket_ids(players: &Table<serde_json::Value>) -> (r: Vec<String>)
    ensures
        texts(r@) == socket_ids(players@),
{
    let mut out: Vec<String> = Vec::new();
    let mut i: usize = 0;
    assert(texts(out@) == socket_ids(players@.take(0)));
    while i < players.len()
        invariant
            i <= players@.len(),
            texts(out@) == socket_ids(players@.take(i as int)),
        decreases players@.len() - i,
    {
        let ghost before = out@;
        let ghost seen = players@.take(i + 1);
        assert(seen.drop_last() == players@.take(i as int));
        match text_field(players.value(i), "socketId") {
            Some(id) => {
                let id = id.to_owned();
                out.push(id);
                assert(texts(out@) == texts(before).push(id@));
            },
            None => {},
        }
        i += 1;
    }
    assert(players@.take(i as int) == players@);
    out
}

/// The news of who holds the controller, for every socket in a room.
pub open spec fn controller_news(me: Seq<char>, room: RoomView) -> ActionView {
    ActionView::Emit {
        targets: everyone(me, socket_ids(room.players)),
        event: "active-controller-changed"@,
        payload: controller_notice(room.active_controller),
    }
}

/// Tells every socket in a room who holds the controller.
pub fn broadcast_active_controller(me: &String, room: &Room) -> (r: Action)
    ensures
        r.model() == controller_news(me@, room.model()),
{
    let ids: Vec<String> = collect_socket_ids(&room.players);
    let payload = controller_payload(room.active_controller.as_str());
    emit_to_sockets_including_self(me, &ids, "active-controller-changed", payload)
}

/// The news of who is in a room, for every socket in it.
pub open spec fn players_news(me: Seq<char>, room: RoomView) -> ActionView {
    ActionView::Emit {
        targets: everyone(me, socket_ids(room.players)),
        event: "users-updated"@,
        payload: Json::Object(as_map(room.players)),
    }
}

/// Tells every socket in a room who is in it.
pub fn broadcast_players(me: &String, room: &Room) -> (r: Action)
    requires
        room.players.wf(),
    ensures
        r.model() == players_news(me@, room.model()),
{
    let ids: Vec<String> = collect_socket_ids(&room.players);
    let payload = object_of(&room.players);
    emit_to_sockets_including_self(me, &ids, "users-updated", payload)
}

/// The first player, in order, whose record names a socket.
pub open spec fn first_on_socket(players: Seq<(Seq<char>, Json)>, id: Seq<char>) -> Option<Json>
    decreases players.len(),
{
    if players.len() == 0 {
        None
    } else if socket_of(players.first().1) == Some(id) {
        Some(players.first().1)
    } else {
        first_on_socket(players.drop_first(), id)
    }
}

/// The name of the player on the owner's socket.
pub open spec fn owner_name(room: RoomView) -> Seq<char> {
    match first_on_socket(room.players, room.owner) {
        Some(player) => match text_member(player, "player_name"@) {
            Some(name) => name,
            None => "Unknown"@,
        },
        None => "Unknown"@,
    }
}

/// What the list of rooms says of a room.
pub open spec fn info(room: RoomView) -> RoomInfoView {
    RoomInfoView {
        room_name: room.room_name,
        current: room.players.len(),
        max: room.max_players,
        player_name: owner_name(room),
        has_password: room.password is Some,
        game_id: room.game_id,
    }
}

/// The player who inherits what a leaving player held: the one who came first.
pub open spec fn heir(players: Seq<(Seq<char>, Json)>) -> Option<Seq<char>> {
    if players.len() > 0 {
        Some(players.first().0)
    } else {
        None
    }
}

/// The socket of that player.
pub open spec fn heir_socket(players: Seq<(Seq<char>, Json)>) -> Option<Seq<char>> {
    if players.len() > 0 {
        socket_of(players.first().1)
    } else {
        None
    }
}

/// A room after a socket has left it with a player.
pub open spec fn left_room(room: RoomView, sid: Seq<char>, player_id: Seq<char>) -> RoomView {
    let players = del(room.players, player_id);
    RoomView {
        players,
        peers: room.peers.filter(|p: PeerView| p.source != sid && p.target != sid),
        active_controller: if room.active_controller == player_id && heir(players) is Some {
            heir(players)->0
        } else {
            room.active_controller
        },
        owner: if room.owner == sid && heir_socket(players) is Some {
            heir_socket(players)->0
        } else {
            room.owner
        },
        ..room
    }
}

/// The request to a new owner to set up anew the first connection offered.
pub open spec fn renegotiation(target: Seq<char>) -> Json {
    with_member(
        with_member(no_members(), "target"@, Json::Str(target)),
        "requestRenegotiate"@,
        Json::Bool(true),
    )
}

/// What is sent when a socket has left a room with a player: a call to the new
/// owner, the players that are left, the new holder of the controller.
pub open spec fn farewell(room: RoomView, sid: Seq<char>, player_id: Seq<char>) -> Seq<
    ActionView,
> {
    let left = left_room(room, sid, player_id);
    let ids = socket_ids(left.players);
    let call = if room.owner == sid && heir_socket(left.players) is Some && left.peers.len() > 0 {
        seq![
            ActionView::Emit {
                targets: seq![TargetView::Socket(left.owner)],
                event: "webrtc-signal"@,
                payload: renegotiation(left.peers.first().target),
            },
        ]
    } else {
        seq![]
    };
    let players = if ids.len() > 0 {
        seq![
            ActionView::Emit {
                targets: everyone_else(sid, ids),
                event: "users-updated"@,
                payload: Json::Object(as_map(left.players)),
            },
        ]
    } else {
        seq![]
    };
    let controller = if room.active_controller == player_id && heir(left.players) is Some {
        seq![
            ActionView::Emit {
                targets: everyone_else(sid, ids),
                event: "active-controller-changed"@,
                payload: controller_notice(left.active_controller),
            },
        ]
    } else {
        seq![]
    };
    call + players + controller
}

/// A room after a socket has offered another a connection.
pub open spec fn linked_room(room: RoomView, source: Seq<char>, target: Seq<char>) -> RoomView {
    let peer = PeerView { source, target };
    RoomView {
        peers: if room.peers.contains(peer) {
            room.peers
        } else {
            room.peers.push(peer)
        },
        ..room
    }
}

/// The socket that a chat message is meant for alone: that of the player it
/// names, or the socket it names. A message to "all", to the sender or to
/// someone unknown is for the whole room.
pub open spec fn chat_target(room: RoomView, player_id: Seq<char>, to: Seq<char>) -> Option<
    Seq<char>,
> {
    if crate::text::alike(to, "all"@) || to == player_id {
        None
    } else if listed(room.players, to) {
        socket_of(at(room.players, to))
    } else if first_on_socket(room.players, to) is Some {
        Some(to)
    } else {
        None
    }
}

/// The first player, in order, whose record names a socket.
fn find_on_socket<'a>(players: &'a Table<serde_json::Value>, id: &String) -> (r: Option<
    &'a serde_json::Value,
>)
    ensures
        match r {
            Some(v) => first_on_socket(players@, id@) == Some(json_of(*v)),
            None => first_on_socket(players@, id@) is None,
        },
{
    let mut i: usize = 0;
    assert(players@.skip(0) == players@);
    while i < players.len()
        invariant
            i <= players@.len(),
            first_on_socket(players@, id@) == first_on_socket(players@.skip(i as int), id@),
        decreases players@.len() - i,
    {
        let ghost rest = players@.skip(i as int);
        assert(rest.drop_first() == players@.skip(i + 1));
        match text_field(players.value(i), "socketId") {
            Some(s) => {
                let s = s.to_owned();
                if s == *id {
                    return Some(players.value(i));
                }
            },
            None => {},
        }
        i += 1;
    }
    None
}

impl Room {
    /// What the list of rooms says of this room.
    pub fn info(&self) -> (r: RoomInfo)
        ensures
            r.model() == info(self.model()),
    {
        let player_name: String = match find_on_socket(&self.players, &self.owner) {
            Some(player) => match text_field(player, "player_name") {
                Some(name) => name.to_owned(),
                None => "Unknown".to_owned(),
            },
            None => "Unknown".to_owned(),
        };
        RoomInfo {
            room_name: self.room_name.clone(),
            current: self.players.len(),
            max: self.max_players,
            player_name,
            has_password: self.password.is_some(),
            game_id: self.game_id.clone(),
        }
    }

    /// Takes a socket and its player out of the room, hands on what they held,
    /// and says what to send.
    pub fn depart(&mut self, sid: &String, player_id: &String) -> (r: Vec<Action>)
        requires
            old(self).players.wf(),
        ensures
            final(self).players.wf(),
            final(self).model() == left_room(old(self).model(), sid@, player_id@),
            models(r@) == farewell(old(self).model(), sid@, player_id@),
    {
        let mut out: Vec<Action> = Vec::new();
        self.players.remove(player_id);
        self.drop_peers(sid);
        let mut controller_changed: bool = false;
        if self.active_controller == *player_id && self.players.len() > 0 {
            self.active_controller = self.players.name(0).clone();
            controller_changed = true;
        }
        if self.owner == *sid && self.players.len() > 0 {
            let next: Option<String> = match text_field(self.players.value(0), "socketId") {
                Some(id) => Some(id.to_owned()),
                None => None,
            };
            if let Some(id) = next {
                if self.peers.len() > 0 {
                    let mut payload = value_object();
                    value_set(
                        &mut payload,
                        "target",
                        value_from_str(self.peers[0].target.as_str()),
                    );
                    value_set(&mut payload, "requestRenegotiate", value_from_bool(true));
                    let mut targets: Vec<Target> = Vec::new();
                    targets.push(Target::Socket(id.clone()));
                    assert(models(targets@) == seq![TargetView::Socket(id@)]);
                    out.push(
                        Action::Emit { targets, event: "webrtc-signal".to_owned(), payload },
                    );
                }
                self.owner = id;
            }
        }
        let ids: Vec<String> = collect_socket_ids(&self.players);
        if ids.len() > 0 {
            let payload = object_of(&self.players);
            out.push(emit_to_sockets_excluding_self(sid, &ids, "users-updated", payload));
        }
        if controller_changed {
            let payload = controller_payload(self.active_controller.as_str());
            out.push(
                emit_to_sockets_excluding_self(sid, &ids, "active-controller-changed", payload),
            );
        }
        assert(models(out@) == farewell(old(self).model(), sid@, player_id@));
        out
    }

    /// Forgets the connections that a socket offered or was offered.
    fn drop_peers(&mut self, sid: &String)
        ensures
            final(self).model() == (RoomView {
                peers: old(self).model().peers.filter(
                    |p: PeerView| p.source != sid@ && p.target != sid@,
                ),
                ..old(self).model()
            }),
            final(self).players == old(self).players,
    {
        let ghost keep = |p: PeerView| p.source != sid@ && p.target != sid@;
        let ghost all = self.model().peers;
        let mut kept: Vec<Peer> = Vec::new();
        let mut i: usize = 0;
        reveal(Seq::filter);
        assert(models(kept@) == all.take(0).filter(keep));
        while i < self.peers.len()
            invariant
                i <= self.peers@.len(),
                all == models(self.peers@),
                *self == *old(self),
                keep == (|p: PeerView| p.source != sid@ && p.target != sid@),
                models(kept@) == all.take(i as int).filter(keep),
            decreases self.peers@.len() - i,
        {
            let ghost before = kept@;
            assert(all.take(i + 1).drop_last() == all.take(i as int));
            assert(all.take(i + 1).last() == self.peers@[i as int].model());
            reveal(Seq::filter);
            if self.peers[i].source != *sid && self.peers[i].target != *sid {
                let p = Peer {
                    source: self.peers[i].source.clone(),
                    target: self.peers[i].target.clone(),
                };
                kept.push(p);
                assert(models(kept@) == models(before).push(p.model()));
            }
            i += 1;
        }
        assert(all.take(i as int) == all);
        self.peers = kept;
    }

    /// Records that a socket has offered another a connection.
    pub fn link(&mut self, source: &String, target: &String)
        ensures
            final(self).model() == linked_room(old(self).model(), source@, target@),
            final(self).players == old(self).players,
    {
        let ghost peer = PeerView { source: source@, target: target@ };
        let mut i: usize = 0;
        while i < self.peers.len()
            invariant
                i <= self.peers@.len(),
                peer == (PeerView { source: source@, target: target@ }),
                *self == *old(self),
                forall|j: int| 0 <= j < i ==> #[trigger] models(self.peers@)[j] != peer,
            decreases self.peers@.len() - i,
        {
            if self.peers[i].source == *source && self.peers[i].target == *target {
                assert(models(self.peers@)[i as int] == peer);
                return ;
            }
            i += 1;
        }
        self.peers.push(Peer { source: source.clone(), target: target.clone() });
        assert(models(self.peers@) == models(old(self).peers@).push(peer));
    }

    /// The socket that a chat message is meant for alone, if there is one.
    pub fn private_target(&self, player_id: &String, to: &String) -> (r: Option<String>)
        requires
            self.players.wf(),
        ensures
            text_of(r) == chat_target(self.model(), player_id@, to@),
    {
        if crate::text::eq_ignore_case(to.as_str(), "all") || *to == *player_id {
            return None;
        }
        match self.players.get(to) {
            Some(player) => match text_field(player, "socketId") {
                Some(id) => Some(id.to_owned()),
                None => None,
            },
            None => match find_on_socket(&self.players, to) {
                Some(_) => Some(to.clone()),
                None => None,
            },
        }
    }
}

/// A room, an offer and a line of the list stand for what they hold, field by
/// field.
pub proof fn law_rooms_stand_for_what_they_hold(room: Room, peer: Peer, line: RoomInfo, i: int)
    ensures
        room.model().owner == room.owner@,
        room.model().players == room.players@,
        room.model().peers.len() == room.peers@.len(),
        0 <= i < room.peers@.len() ==> room.model().peers[i] == room.peers@[i].model(),
        room.model().room_name == room.room_name@,
        room.model().game_id == room.game_id@,
        room.model().domain == room.domain@,
        room.model().password is Some <==> room.password is Some,
        room.password is Some ==> room.model().password == Some(room.password->0@),
        room.model().max_players == room.max_players,
        room.model().active_controller == room.active_controller@,
        peer.model().source == peer.source@,
        peer.model().target == peer.target@,
        line.model().room_name == line.room_name@,
        line.model().current == line.current,
        line.model().max == line.max,
        line.model().player_name == line.player_name@,
        line.model().has_password == line.has_password,
        line.model().game_id == line.game_id@,
{
}

} // verus!

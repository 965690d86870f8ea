//! The requests that sockets make, and the seat that a socket has.

use crate::json::{json_of, json_of_option, Json};
use crate::table::Model;
use crate::text::text_of;
use vstd::prelude::*;

verus! {

/// Where a socket sits, and when it last said something.
pub struct SocketIndex {
    pub session_id: String,
    pub player_id: String,
    pub last_chat_at: u64,
}

/// A request to open a room.
pub struct OpenRoomData {
    /// What the player says about itself and about the room.
    pub extra: Option<serde_json::Value>,
    pub password: Option<String>,
    pub max_players: Option<usize>,
}

/// A request to join a room.
pub struct JoinRoomData {
    /// What the player says about itself, and the room's id.
    pub extra: Option<serde_json::Value>,
    pub password: Option<String>,
}

/// A message that helps two sockets to connect to each other.
pub struct WebRtcSignalData {
    pub target: Option<String>,
    pub candidate: Option<serde_json::Value>,
    pub offer: Option<serde_json::Value>,
    pub answer: Option<serde_json::Value>,
    pub request_renegotiate: Option<bool>,
}

/// A request to hand the controller to a player.
pub struct SetControllerData {
    pub player_id: String,
}

/// A question for the list of rooms.
pub struct ListQuery {
    pub domain: Option<String>,
    pub game_id: Option<String>,
}

/// What a `SocketIndex` stands for.
pub struct SeatView {
    pub session_id: Seq<char>,
    pub player_id: Seq<char>,
    pub last_chat_at: u64,
}

/// What an `OpenRoomData` stands for.
pub struct OpenView {
    pub extra: Option<Json>,
    pub password: Option<Seq<char>>,
    pub max_players: Option<nat>,
}

/// What a `JoinRoomData` stands for.
pub struct JoinView {
    pub extra: Option<Json>,
    pub password: Option<Seq<char>>,
}

/// What a `WebRtcSignalData` stands for.
pub struct SignalView {
    pub target: Option<Seq<char>>,
    pub candidate: Option<Json>,
    pub offer: Option<Json>,
    pub answer: Option<Json>,
    pub request_renegotiate: Option<bool>,
}

impl Model for SocketIndex {
    type M = SeatView;

    open spec fn model(&self) -> SeatView {
        SeatView {
            session_id: self.session_id@,
            player_id: self.player_id@,
            last_chat_at: self.last_chat_at,
        }
    }
}

impl Model for OpenRoomData {
    type M = OpenView;

    open spec fn model(&self) -> OpenView {
        OpenView {
            extra: json_of_option(self.extra),
            password: text_of(self.password),
            max_players: match self.max_players {
                Some(n) => Some(n as nat),
                None => None,
            },
        }
    }
}

impl Model for JoinRoomData {
    type M = JoinView;

    open spec fn model(&self) -> JoinView {
        JoinView { extra: json_of_option(self.extra), password: text_of(self.password) }
    }
}

impl Model for WebRtcSignalData {
    type M = SignalView;

    open spec fn model(&self) -> SignalView {
        SignalView {
            target: text_of(self.target),
            candidate: json_of_option(self.candidate),
            offer: json_of_option(self.offer),
            answer: json_of_option(self.answer),
            request_renegotiate: self.request_renegotiate,
        }
    }
}

/// A request stands for what it says, field by field: nothing is left out,
/// capped or changed on the way into the model.
pub proof fn law_requests_stand_for_what_they_say(
    seat: SocketIndex,
    open: OpenRoomData,
    join: JoinRoomData,
    signal: WebRtcSignalData,
)
    ensures
        seat.model().session_id == seat.session_id@,
        seat.model().player_id == seat.player_id@,
        seat.model().last_chat_at == seat.last_chat_at,
        open.extra is Some <==> open.model().extra is Some,
        open.extra is Some ==> open.model().extra == Some(json_of(open.extra->0)),
        open.password is Some <==> open.model().password is Some,
        open.password is Some ==> open.model().password == Some(open.password->0@),
        open.max_players is Some <==> open.model().max_players is Some,
        open.max_players is Some ==> open.model().max_players->0 == open.max_players->0,
        join.extra is Some <==> join.model().extra is Some,
        join.extra is Some ==> join.model().extra == Some(json_of(join.extra->0)),
        join.password is Some <==> join.model().password is Some,
        join.password is Some ==> join.model().password == Some(join.password->0@),
        signal.target is Some <==> signal.model().target is Some,
        signal.target is Some ==> signal.model().target == Some(signal.target->0@),
        signal.candidate is Some <==> signal.model().candidate is Some,
        signal.candidate is Some ==> signal.model().candidate == Some(
            json_of(signal.candidate->0),
        ),
        signal.offer is Some <==> signal.model().offer is Some,
        signal.offer is Some ==> signal.model().offer == Some(json_of(signal.offer->0)),
        signal.answer is Some <==> signal.model().answer is Some,
        signal.answer is Some ==> signal.model().answer == Some(json_of(signal.answer->0)),
        signal.model().request_renegotiate == signal.request_renegotiate,
{
}

} // verus!

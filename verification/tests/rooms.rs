use netplay::action::{
    emit_to_sockets_excluding_self, emit_to_sockets_including_self, Action, Target,
};
use netplay::request::{
    JoinRoomData, ListQuery, OpenRoomData, SetControllerData, WebRtcSignalData,
};
use netplay::room::{broadcast_active_controller, collect_socket_ids, Peer, Room};
use netplay::server::{on_connect, AppState};
use netplay::table::Table;
use serde_json::Value;

fn json(s: &str) -> Value {
    serde_json::from_str(s).unwrap()
}

/// An action as a line of text.
fn line(a: &Action) -> String {
    match a {
        Action::Join(g) => format!("join {}", g),
        Action::Leave(g) => format!("leave {}", g),
        Action::Ack(v) => format!("ack {}", v),
        Action::AckBoth(v, w) => format!("ack {} {}", v, w),
        Action::Emit { targets, event, payload } => {
            let to: Vec<String> = targets
                .iter()
                .map(|t| match t {
                    Target::Me => "me".to_string(),
                    Target::Socket(s) => s.clone(),
                })
                .collect();
            format!("{} to [{}]: {}", event, to.join(","), payload)
        }
    }
}

fn lines(v: &Vec<Action>) -> Vec<String> {
    v.iter().map(line).collect()
}

fn open(extra: &str, password: Option<&str>, max: Option<usize>) -> OpenRoomData {
    OpenRoomData {
        extra: Some(json(extra)),
        password: password.map(|s| s.to_string()),
        max_players: max,
    }
}

fn join(extra: &str, password: Option<&str>) -> JoinRoomData {
    JoinRoomData { extra: Some(json(extra)), password: password.map(|s| s.to_string()) }
}

fn set(p: &str) -> SetControllerData {
    SetControllerData { player_id: p.to_string() }
}

fn query(domain: &str, game: &str) -> ListQuery {
    ListQuery { domain: Some(domain.to_string()), game_id: Some(game.to_string()) }
}

fn signal(target: Option<&str>, offer: Option<&str>) -> WebRtcSignalData {
    WebRtcSignalData {
        target: target.map(|s| s.to_string()),
        candidate: None,
        offer: offer.map(json),
        answer: None,
        request_renegotiate: None,
    }
}

/// A room R with players p1 (socket A, the owner), p2 (B) and p3 (C).
fn three() -> AppState {
    let mut s = AppState::new();
    s.open_room("A", open(r#"{"sessionid":"R","userid":"p1","player_name":"Ann"}"#, None, None));
    s.join_room("B", join(r#"{"sessionid":"R","userid":"p2"}"#, None));
    s.join_room("C", join(r#"{"sessionid":"R","userid":"p3"}"#, None));
    s
}

#[test]
fn connecting_joins_the_own_group() {
    assert_eq!(lines(&on_connect("A")), vec!["join A"]);
}

#[test]
fn opening_a_room_answers_and_announces() {
    let mut s = AppState::new();
    let acts = s.open_room("A", open(r#"{"sessionid":"R","userid":"p1","x":[1]}"#, None, None));
    assert_eq!(
        lines(&acts),
        vec![
            "join R",
            "ack null",
            r#"users-updated to [me]: {"p1":{"sessionid":"R","socketId":"A","userid":"p1","x":[1]}}"#,
            r#"active-controller-changed to [me]: {"playerId":"p1"}"#,
        ]
    );
}

#[test]
fn opening_needs_a_session_and_a_player() {
    let refused = vec![r#"ack "Invalid data: sessionId and playerId required""#];
    let mut s = AppState::new();
    for extra in [
        "{}",
        r#"{"sessionid":"R"}"#,
        r#"{"userid":"p"}"#,
        r#"{"sessionid":"","userid":"p"}"#,
        r#"{"sessionid":"R","userid":"","playerId":"p"}"#,
        r#"{"sessionid":null,"userid":"p"}"#,
        r#"["sessionid"]"#,
        "null",
    ] {
        assert_eq!(lines(&s.open_room("A", open(extra, None, None))), refused, "{}", extra);
        assert_eq!(lines(&s.join_room("A", join(extra, None))), refused, "{}", extra);
    }
    let none = OpenRoomData { extra: None, password: None, max_players: None };
    assert_eq!(lines(&s.open_room("A", none)), refused);
    let none = JoinRoomData { extra: None, password: None };
    assert_eq!(lines(&s.join_room("A", none)), refused);
    assert!(s.leave_internal("A").is_empty());
}

#[test]
fn ids_may_be_numbers_and_players_may_use_either_name() {
    let mut s = AppState::new();
    let acts = s.open_room("A", open(r#"{"sessionid":7,"userid":null,"playerId":true}"#, None, None));
    assert_eq!(line(&acts[0]), "join 7");
    assert_eq!(line(&acts[3]), r#"active-controller-changed to [me]: {"playerId":"true"}"#);
    let acts = s.open_room("B", open(r#"{"sessionid":"8","userid":"u","playerId":"v"}"#, None, None));
    assert_eq!(line(&acts[3]), r#"active-controller-changed to [me]: {"playerId":"u"}"#);
}

#[test]
fn a_room_is_not_opened_twice() {
    let mut s = three();
    let acts = s.open_room("D", open(r#"{"sessionid":"R","userid":"q"}"#, None, None));
    assert_eq!(lines(&acts), vec![r#"ack "Room already exists""#]);
    assert_eq!(s.list_rooms(&query("unknown", "default")).value(0).current, 3);
    assert!(s.leave_internal("D").is_empty());
}

#[test]
fn joining_answers_and_announces() {
    let mut s = AppState::new();
    s.open_room("A", open(r#"{"sessionid":"R","userid":"p1"}"#, None, None));
    let acts = s.join_room("B", join(r#"{"sessionid":"R","userid":"p2","socketId":"fake"}"#, None));
    let players = concat(
        r#"{"p1":{"sessionid":"R","socketId":"A","userid":"p1"},"#,
        r#""p2":{"sessionid":"R","socketId":"B","userid":"p2"}}"#,
    );
    assert_eq!(
        lines(&acts),
        vec![
            "join R".to_string(),
            format!("ack null {}", players),
            format!("users-updated to [A,me]: {}", players),
            r#"active-controller-changed to [A,me]: {"playerId":"p1"}"#.to_string(),
        ]
    );
}

fn concat(a: &str, b: &str) -> String {
    format!("{}{}", a, b)
}

#[test]
fn joining_needs_an_existing_room() {
    let mut s = AppState::new();
    let acts = s.join_room("B", join(r#"{"sessionid":"R","userid":"p2"}"#, None));
    assert_eq!(lines(&acts), vec![r#"ack "Room not found""#]);
}

#[test]
fn the_password_is_asked_for() {
    let mut s = AppState::new();
    s.open_room("A", open(r#"{"sessionid":"R","userid":"p1"}"#, Some(" pw "), None));
    let j = r#"{"sessionid":"R","userid":"p2"}"#;
    for wrong in [None, Some("PW"), Some("none"), Some(""), Some("p w")] {
        assert_eq!(lines(&s.join_room("B", join(j, wrong))), vec![r#"ack "Incorrect password""#]);
    }
    assert_eq!(s.join_room("B", join(j, Some("pw"))).len(), 4);
    let mut t = AppState::new();
    t.open_room("A", open(r#"{"sessionid":"R","userid":"p1"}"#, Some(" pw "), None));
    assert_eq!(t.join_room("B", join(j, Some(" pw "))).len(), 4);
}

#[test]
fn a_room_without_password_takes_any() {
    for none in [None, Some("  "), Some("None")] {
        let mut s = AppState::new();
        s.open_room("A", open(r#"{"sessionid":"R","userid":"p1"}"#, none, None));
        let j = join(r#"{"sessionid":"R","userid":"p2"}"#, Some("anything"));
        assert_eq!(s.join_room("B", j).len(), 4);
        assert!(!s.list_rooms(&query("unknown", "default")).value(0).has_password);
    }
}

#[test]
fn a_full_room_takes_nobody() {
    let mut s = AppState::new();
    s.open_room("A", open(r#"{"sessionid":"R","userid":"p1"}"#, None, Some(2)));
    assert_eq!(s.join_room("B", join(r#"{"sessionid":"R","userid":"p2"}"#, None)).len(), 4);
    for p in ["p3", "p2"] {
        let j = format!(r#"{{"sessionid":"R","userid":"{}"}}"#, p);
        assert_eq!(lines(&s.join_room("C", join(&j, None))), vec![r#"ack "Room full""#]);
    }
    let mut t = AppState::new();
    t.open_room("A", open(r#"{"sessionid":"R","userid":"p1"}"#, None, Some(0)));
    let j = join(r#"{"sessionid":"R","userid":"p2"}"#, None);
    assert_eq!(lines(&t.join_room("B", j)), vec![r#"ack "Room full""#]);
}

#[test]
fn four_players_fit_by_default() {
    let mut s = three();
    assert_eq!(s.join_room("D", join(r#"{"sessionid":"R","userid":"p4"}"#, None)).len(), 4);
    assert_eq!(s.join_room("E", join(r#"{"sessionid":"R","userid":"p5"}"#, None)).len(), 1);
    let list = s.list_rooms(&query("unknown", "default"));
    assert_eq!((list.value(0).current, list.value(0).max), (4, 4));
}

#[test]
fn joining_again_replaces_the_record() {
    let mut s = three();
    let acts = s.join_room("X", join(r#"{"sessionid":"R","userid":"p2"}"#, None));
    assert!(line(&acts[2]).starts_with("users-updated to [A,me,C]: "));
    assert_eq!(s.list_rooms(&query("unknown", "default")).value(0).current, 3);
}

#[test]
fn leaving_tells_the_others() {
    let mut s = three();
    let acts = s.leave_internal("C");
    assert_eq!(acts.len(), 2);
    assert!(line(&acts[0]).starts_with("users-updated to [A,B]: "));
    assert!(!line(&acts[0]).contains("p3"));
    assert_eq!(line(&acts[1]), "leave R");
    assert!(s.leave_internal("C").is_empty());
}

#[test]
fn a_leaving_owner_passes_on_room_and_controller() {
    let mut s = three();
    let acts = s.leave_internal("A");
    assert_eq!(acts.len(), 3);
    assert!(line(&acts[0]).starts_with("users-updated to [B,C]: "));
    assert_eq!(line(&acts[1]), r#"active-controller-changed to [B,C]: {"playerId":"p2"}"#);
    assert_eq!(line(&acts[2]), "leave R");
    assert_eq!(s.input("B", json("1")).len(), 1);
    assert!(s.input("C", json("1")).is_empty());
    assert_eq!(s.set_active_controller("B", set("p3")).len(), 2);
    assert_eq!(
        lines(&s.set_active_controller("A", set("p3"))),
        vec![r#"ack {"error":"Not in a room","ok":false}"#]
    );
}

#[test]
fn a_new_owner_is_asked_to_renegotiate() {
    let mut s = three();
    s.webrtc_signal("A", signal(Some("B"), Some("1")));
    s.webrtc_signal("C", signal(Some("B"), Some("2")));
    s.webrtc_signal("B", signal(Some("C"), Some("3")));
    let acts = s.leave_internal("A");
    assert_eq!(acts.len(), 4);
    assert_eq!(
        line(&acts[0]),
        r#"webrtc-signal to [B]: {"requestRenegotiate":true,"target":"B"}"#
    );
    let acts = s.leave_internal("B");
    assert!(line(&acts[0]).starts_with("users-updated to [C]: "));
}

#[test]
fn the_last_player_closes_the_room() {
    let mut s = AppState::new();
    s.open_room("A", open(r#"{"sessionid":"R","userid":"p1"}"#, None, None));
    assert_eq!(s.list_rooms(&query("unknown", "default")).len(), 1);
    assert_eq!(lines(&s.leave_internal("A")), vec!["leave R"]);
    assert_eq!(s.list_rooms(&query("unknown", "default")).len(), 0);
    let j = join(r#"{"sessionid":"R","userid":"p2"}"#, None);
    assert_eq!(lines(&s.join_room("B", j)), vec![r#"ack "Room not found""#]);
}

#[test]
fn leaving_undoes_joining() {
    let mut s = three();
    let before = s.join_room("D", join(r#"{"sessionid":"R","userid":"q"}"#, None));
    s.leave_internal("D");
    let again = s.join_room("D", join(r#"{"sessionid":"R","userid":"q"}"#, None));
    assert_eq!(lines(&before), lines(&again));
}

#[test]
fn a_seat_outlives_its_room() {
    let mut s = AppState::new();
    s.open_room("A", open(r#"{"sessionid":"R","userid":"p"}"#, None, None));
    s.join_room("B", join(r#"{"sessionid":"R","userid":"p"}"#, None));
    assert_eq!(lines(&s.leave_internal("B")), vec!["leave R"]);
    assert_eq!(
        lines(&s.set_active_controller("A", set("p"))),
        vec![r#"ack {"error":"Room not found","ok":false}"#]
    );
    assert_eq!(lines(&s.data_message("A", json("1"))), vec!["data-message to []: 1"]);
    assert!(s.input("A", json("1")).is_empty());
    assert_eq!(lines(&s.leave_internal("A")), vec!["leave R"]);
}

#[test]
fn a_socket_with_two_players_keeps_the_room() {
    let mut s = AppState::new();
    s.open_room("A", open(r#"{"sessionid":"R","userid":"p"}"#, None, None));
    s.join_room("A", join(r#"{"sessionid":"R","userid":"q"}"#, None));
    let acts = s.leave_internal("A");
    assert!(line(&acts[0]).starts_with("users-updated to []: "));
    s.join_room("A", join(r#"{"sessionid":"R","userid":"q"}"#, None));
    assert_eq!(s.set_active_controller("A", set("q")).len(), 2);
}

#[test]
fn only_the_owner_hands_over_the_controller() {
    let mut s = three();
    assert_eq!(
        lines(&s.set_active_controller("B", set("p2"))),
        vec![r#"ack {"error":"Only room owner can change controller","ok":false}"#]
    );
    assert_eq!(
        lines(&s.set_active_controller("A", set("p9"))),
        vec![r#"ack {"error":"Player not found","ok":false}"#]
    );
    assert_eq!(
        lines(&s.set_active_controller("Z", set("p2"))),
        vec![r#"ack {"error":"Not in a room","ok":false}"#]
    );
    assert_eq!(s.input("A", json("1")).len(), 1);
    assert_eq!(
        lines(&s.set_active_controller("A", set("p2"))),
        vec![
            r#"active-controller-changed to [me,B,C]: {"playerId":"p2"}"#,
            r#"ack {"ok":true}"#,
        ]
    );
}

#[test]
fn only_the_holder_of_the_controller_is_heard() {
    let mut s = three();
    assert_eq!(lines(&s.input("A", json(r#"{"k":1}"#))), vec![r#"input to [B,C]: {"k":1}"#]);
    assert!(s.input("B", json("1")).is_empty());
    assert!(s.input("Z", json("1")).is_empty());
    s.set_active_controller("A", set("p3"));
    assert!(s.input("A", json("1")).is_empty());
    assert_eq!(lines(&s.input("C", json("1"))), vec!["input to [A,B]: 1"]);
}

#[test]
fn data_and_snapshots_reach_the_others() {
    let s = three();
    assert_eq!(lines(&s.data_message("B", json("[1]"))), vec!["data-message to [A,C]: [1]"]);
    assert_eq!(lines(&s.snapshot("C", json("\"x\""))), vec![r#"snapshot to [A,B]: "x""#]);
    assert!(s.data_message("Z", json("1")).is_empty());
    assert!(s.snapshot("Z", json("1")).is_empty());
}

#[test]
fn signals_are_passed_on() {
    let mut s = three();
    let mut d = signal(Some("B"), Some("{\"sdp\":1}"));
    d.candidate = Some(json("2"));
    d.answer = Some(json("3"));
    assert_eq!(
        lines(&s.webrtc_signal("A", d)),
        vec![r#"webrtc-signal to [B]: {"answer":3,"candidate":2,"offer":{"sdp":1},"sender":"A"}"#]
    );
    assert!(s.webrtc_signal("A", signal(None, Some("1"))).is_empty());
    let mut d = signal(None, Some("1"));
    d.request_renegotiate = Some(true);
    assert_eq!(
        lines(&s.webrtc_signal("A", d)),
        vec![r#"webrtc-signal to []: {"requestRenegotiate":true,"sender":"A"}"#]
    );
    let mut d = signal(Some("B"), None);
    d.request_renegotiate = Some(false);
    assert_eq!(lines(&s.webrtc_signal("Z", d)), vec![r#"webrtc-signal to [B]: {"sender":"Z"}"#]);
}

#[test]
fn an_offer_is_remembered_once() {
    let peer = |a: &str, b: &str| Peer { source: a.to_string(), target: b.to_string() };
    let mut room = room();
    room.link(&"A".to_string(), &"B".to_string());
    room.link(&"A".to_string(), &"B".to_string());
    room.link(&"B".to_string(), &"A".to_string());
    let seen: Vec<(String, String)> =
        room.peers.iter().map(|p| (p.source.clone(), p.target.clone())).collect();
    let expected: Vec<(String, String)> =
        [peer("A", "B"), peer("B", "A")].into_iter().map(|p| (p.source, p.target)).collect();
    assert_eq!(seen, expected);
}

fn room() -> Room {
    let mut players: Table<Value> = Table::new();
    players.insert("p1".to_string(), json(r#"{"socketId":"A","player_name":"Ann"}"#));
    players.insert("p2".to_string(), json(r#"{"socketId":5}"#));
    players.insert("p3".to_string(), json(r#"{"socketId":"C","player_name":3}"#));
    Room {
        owner: "A".to_string(),
        players,
        peers: vec![],
        room_name: "name".to_string(),
        game_id: "g".to_string(),
        domain: "d".to_string(),
        password: None,
        max_players: 4,
        active_controller: "p3".to_string(),
    }
}

#[test]
fn socket_ids_are_collected_from_string_members() {
    assert_eq!(collect_socket_ids(&room().players), vec!["A", "C"]);
}

#[test]
fn the_controller_is_announced_to_all() {
    let a = broadcast_active_controller(&"C".to_string(), &room());
    assert_eq!(line(&a), r#"active-controller-changed to [A,me]: {"playerId":"p3"}"#);
}

#[test]
fn a_departing_holder_hands_on() {
    let mut r = room();
    let acts = r.depart(&"C".to_string(), &"p3".to_string());
    assert_eq!(acts.len(), 2);
    assert_eq!(line(&acts[1]), r#"active-controller-changed to [A]: {"playerId":"p1"}"#);
    assert_eq!(r.owner, "A");
    assert_eq!(r.active_controller, "p1");
}

#[test]
fn messages_are_addressed_with_and_without_the_sender() {
    let ids = vec!["A".to_string(), "B".to_string(), "A".to_string()];
    let a = emit_to_sockets_including_self(&"A".to_string(), &ids, "e", json("1"));
    assert_eq!(line(&a), "e to [me,B,me]: 1");
    let a = emit_to_sockets_excluding_self(&"A".to_string(), &ids, "e", json("1"));
    assert_eq!(line(&a), "e to [B]: 1");
}

#[test]
fn the_list_names_rooms_of_a_domain_and_game() {
    let mut s = AppState::new();
    let e = r#"{"sessionid":"R1","userid":"p","player_name":"Ann","domain":"d","game_id":"g","room_name":"Den"}"#;
    s.open_room("A", open(e, Some("x"), Some(2)));
    s.open_room("B", open(r#"{"sessionid":"R2","userid":"q","domain":"d","game_id":"h"}"#, None, None));
    s.open_room("C", open(r#"{"sessionid":"R3","userid":"r","domain":"d","game_id":"g"}"#, None, None));
    let list = s.list_rooms(&query("d", "g"));
    assert_eq!(list.len(), 2);
    let i = list.get(&"R1".to_string()).unwrap();
    assert_eq!(
        (i.room_name.as_str(), i.current, i.max, i.player_name.as_str(), i.has_password, i.game_id.as_str()),
        ("Den", 1, 2, "Ann", true, "g")
    );
    let i = list.get(&"R3".to_string()).unwrap();
    assert_eq!(
        (i.room_name.as_str(), i.current, i.max, i.player_name.as_str(), i.has_password, i.game_id.as_str()),
        ("Room R3", 1, 4, "Unknown", false, "g")
    );
    assert_eq!(s.list_rooms(&query("d", "x")).len(), 0);
    assert_eq!(s.list_rooms(&query("D", "g")).len(), 0);
    let half = ListQuery { domain: Some("d".to_string()), game_id: None };
    assert_eq!(s.list_rooms(&half).len(), 0);
    let half = ListQuery { domain: None, game_id: Some("g".to_string()) };
    assert_eq!(s.list_rooms(&half).len(), 0);
}

#[test]
fn sweeping_and_games_find_nothing() {
    let mut s = three();
    s.sweep();
    assert_eq!(s.list_rooms(&query("unknown", "default")).len(), 1);
    assert_eq!(s.games().len(), 0);
}

use netplay::action::{Action, Target};
use netplay::request::{JoinRoomData, OpenRoomData};
use netplay::server::AppState;
use serde_json::Value;

fn json(s: &str) -> Value {
    serde_json::from_str(s).unwrap()
}

/// A room R with players p1 (socket A), p2 (B) and p3 (C).
fn table() -> AppState {
    let mut s = AppState::new();
    s.open_room(
        "A",
        OpenRoomData {
            extra: Some(json(r#"{"sessionid":"R","userid":"p1","player_name":"Ann"}"#)),
            password: None,
            max_players: None,
        },
    );
    for (sid, e) in [
        ("B", r#"{"sessionid":"R","userid":"p2","player_name":7}"#),
        ("C", r#"{"sessionid":"R","userid":"p3"}"#),
    ] {
        s.join_room(sid, JoinRoomData { extra: Some(json(e)), password: None });
    }
    s
}

fn answer(v: &Vec<Action>) -> Value {
    match v.last() {
        Some(Action::Ack(x)) => x.clone(),
        _ => panic!("no answer"),
    }
}

fn sent(v: &Vec<Action>) -> (Vec<String>, Value) {
    match &v[0] {
        Action::Emit { targets, event, payload } => {
            assert_eq!(event, "chat-message");
            let to = targets
                .iter()
                .map(|t| match t {
                    Target::Me => "me".to_string(),
                    Target::Socket(s) => s.clone(),
                })
                .collect();
            (to, payload.clone())
        }
        _ => panic!("nothing sent"),
    }
}

#[test]
fn a_bare_string_is_for_the_whole_room() {
    let mut s = table();
    let acts = s.chat_message("B", json("\"  hello \\n world \""), 1000);
    assert_eq!(acts.len(), 2);
    let (to, payload) = sent(&acts);
    assert_eq!(to, vec!["A", "me", "C"]);
    assert_eq!(
        payload,
        json(r#"{"ts":1000,"to":"all","userid":"p2","player_name":"7","message":"hello world"}"#)
    );
    assert_eq!(answer(&acts), json(r#"{"ok":true}"#));
}

#[test]
fn a_message_may_name_a_player() {
    let mut s = table();
    let acts = s.chat_message("A", json(r#"{"to":" p3 ","message":"psst"}"#), 1000);
    let (to, payload) = sent(&acts);
    assert_eq!(to, vec!["me", "C"]);
    assert_eq!(
        payload,
        json(r#"{"ts":1000,"to":"p3","userid":"p1","player_name":"Ann","message":"psst"}"#)
    );
}

#[test]
fn a_message_may_name_a_socket() {
    let mut s = table();
    let (to, payload) = sent(&s.chat_message("C", json(r#"{"to":"B","message":"x"}"#), 1000));
    assert_eq!(to, vec!["me", "B"]);
    assert_eq!(payload.get("to"), Some(&json("\"B\"")));
    assert_eq!(payload.get("player_name"), Some(&json("\"Unknown\"")));
}

#[test]
fn other_addresses_mean_the_whole_room() {
    for to in ["\"ALL\"", "\"  \"", "\"p1\"", "\"nobody\"", "5", "null", "[]"] {
        let mut s = table();
        let d = json(&format!(r#"{{"to":{},"message":"x"}}"#, to));
        let (targets, payload) = sent(&s.chat_message("A", d, 1000));
        assert_eq!(targets, vec!["me", "B", "C"], "{}", to);
        assert_eq!(payload.get("to"), Some(&json("\"all\"")));
    }
}

#[test]
fn chat_is_paced() {
    let mut s = table();
    let slow = json(r#"{"ok":false,"error":"Slow down"}"#);
    let ok = json(r#"{"ok":true}"#);
    assert_eq!(answer(&s.chat_message("A", json("\"x\""), 399)), slow);
    assert_eq!(answer(&s.chat_message("A", json("\"x\""), 400)), ok);
    assert_eq!(answer(&s.chat_message("A", json("\"x\""), 799)), slow);
    assert_eq!(answer(&s.chat_message("B", json("\"x\""), 799)), ok);
    assert_eq!(answer(&s.chat_message("A", json("\"x\""), 800)), ok);
    assert!(s.clock_ready("A", 800));
    assert!(!s.clock_ready("A", 799));
    assert!(s.clock_ready("Z", 0));
}

#[test]
fn an_empty_message_uses_up_the_turn() {
    for d in ["\"  \"", "{}", r#"{"message":5}"#, "null", "[\"x\"]", "12"] {
        let mut s = table();
        let empty = json(r#"{"ok":false,"error":"Empty message"}"#);
        assert_eq!(answer(&s.chat_message("A", json(d), 1000)), empty, "{}", d);
        let slow = json(r#"{"ok":false,"error":"Slow down"}"#);
        assert_eq!(answer(&s.chat_message("A", json("\"x\""), 1100)), slow);
    }
}

#[test]
fn long_messages_are_cut() {
    let mut s = table();
    let d = Value::String("é ".repeat(400));
    let (_, payload) = sent(&s.chat_message("A", d, 1000));
    let m = payload.get("message").unwrap().as_str().unwrap();
    assert_eq!(m.chars().count(), 300);
    assert_eq!(m, "é ".repeat(150));
}

#[test]
fn chat_needs_a_seat_a_room_and_a_player() {
    let mut s = table();
    assert_eq!(
        answer(&s.chat_message("Z", json("\"x\""), 1000)),
        json(r#"{"ok":false,"error":"Not in a room"}"#)
    );
    let e = json(r#"{"sessionid":"R","userid":"p1"}"#);
    s.join_room("X", JoinRoomData { extra: Some(e), password: None });
    s.leave_internal("X");
    assert_eq!(
        answer(&s.chat_message("A", json("\"x\""), 1000)),
        json(r#"{"ok":false,"error":"Not in room"}"#)
    );
    s.leave_internal("B");
    s.leave_internal("C");
    assert_eq!(
        answer(&s.chat_message("A", json("\"x\""), 2000)),
        json(r#"{"ok":false,"error":"Room not found"}"#)
    );
}

#[test]
fn chat_goes_by_the_clock() {
    let mut s = table();
    let acts = s.chat_message_now("A", json("\"x\"")).unwrap();
    let (_, payload) = sent(&acts);
    assert!(payload.get("ts").unwrap().as_u64().unwrap() > 1_600_000_000_000);
    s.chat_message("B", json("\"x\""), u64::MAX);
    assert!(s.chat_message_now("B", json("\"x\"")).is_none());
}

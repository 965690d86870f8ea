use netplay::action::{Action, Target};
use netplay::request::{
    JoinRoomData, ListQuery, OpenRoomData, SetControllerData, WebRtcSignalData,
};
use netplay::server::AppState;
use serde_json::Value;

fn json(s: &str) -> Value {
    serde_json::from_str(s).unwrap()
}

fn open(s: &mut AppState, sid: &str, room: &str, player: &str, max: Option<usize>) -> Vec<Action> {
    let e = format!(r#"{{"sessionid":"{}","userid":"{}"}}"#, room, player);
    s.open_room(sid, OpenRoomData { extra: Some(json(&e)), password: None, max_players: max })
}

fn join(s: &mut AppState, sid: &str, room: &str, player: &str) -> Vec<Action> {
    let e = format!(r#"{{"sessionid":"{}","userid":"{}"}}"#, room, player);
    s.join_room(sid, JoinRoomData { extra: Some(json(&e)), password: None })
}

fn hand(s: &mut AppState, sid: &str, player: &str) -> bool {
    let d = SetControllerData { player_id: player.to_string() };
    s.set_active_controller(sid, d).len() == 2
}

fn hears(s: &AppState, sid: &str) -> Vec<String> {
    targets(&s.data_message(sid, json("0")))
}

fn commands(s: &AppState, sid: &str) -> bool {
    !s.input(sid, json("0")).is_empty()
}

fn targets(acts: &Vec<Action>) -> Vec<String> {
    let mut out = vec![];
    for a in acts {
        if let Action::Emit { targets, .. } = a {
            for t in targets {
                out.push(match t {
                    Target::Me => "me".to_string(),
                    Target::Socket(id) => id.clone(),
                });
            }
        }
    }
    out
}

fn current(s: &AppState, room: &str) -> Option<usize> {
    let q = ListQuery {
        domain: Some("unknown".to_string()),
        game_id: Some("default".to_string()),
    };
    s.list_rooms(&q).get(&room.to_string()).map(|i| i.current)
}

#[test]
fn rooms_do_not_touch_each_other() {
    let mut s = AppState::new();
    open(&mut s, "A", "R", "p", None);
    join(&mut s, "B", "R", "q");
    open(&mut s, "C", "T", "p", None);
    join(&mut s, "D", "T", "q");
    assert!(hand(&mut s, "C", "q"));
    assert!(commands(&s, "A") && !commands(&s, "B"));
    assert!(!commands(&s, "C") && commands(&s, "D"));
    s.leave_internal("C");
    s.leave_internal("D");
    assert_eq!(current(&s, "T"), None);
    assert_eq!(current(&s, "R"), Some(2));
    assert_eq!(hears(&s, "A"), vec!["B"]);
    assert_eq!(hears(&s, "B"), vec!["A"]);
    assert_eq!(s.games().len(), 0);
}

#[test]
fn one_holder_of_the_controller_at_any_time() {
    let mut s = AppState::new();
    let sockets = ["A", "B", "C", "D"];
    let players = ["p", "q", "r", "t"];
    let holders = |s: &AppState| sockets.iter().filter(|x| commands(s, x)).count();
    open(&mut s, "A", "R", "p", None);
    for i in 1..4 {
        join(&mut s, sockets[i], "R", players[i]);
        assert_eq!(holders(&s), 1);
    }
    for p in players {
        assert!(hand(&mut s, "A", p));
        assert_eq!(holders(&s), 1);
    }
    assert!(commands(&s, "D"));
    for x in ["D", "A", "C"] {
        s.leave_internal(x);
        assert_eq!(holders(&s), 1);
    }
    assert!(commands(&s, "B"));
    assert!(hand(&mut s, "B", "q"));
    s.leave_internal("B");
    assert_eq!(holders(&s), 0);
    assert_eq!(current(&s, "R"), None);
}

#[test]
fn the_controller_follows_its_holder_out() {
    let mut s = AppState::new();
    open(&mut s, "A", "R", "p", None);
    join(&mut s, "B", "R", "q");
    join(&mut s, "C", "R", "r");
    assert!(hand(&mut s, "A", "q"));
    s.leave_internal("C");
    assert!(commands(&s, "B"));
    s.leave_internal("B");
    assert!(commands(&s, "A"));
    assert!(hand(&mut s, "A", "p"));
}

#[test]
fn a_refused_request_changes_nothing() {
    let mut s = AppState::new();
    open(&mut s, "A", "R", "p", Some(1));
    assert_eq!(open(&mut s, "B", "R", "q", None).len(), 1);
    assert_eq!(join(&mut s, "B", "R", "q").len(), 1);
    assert!(!hand(&mut s, "B", "q"));
    assert!(!hand(&mut s, "A", "q"));
    assert_eq!(current(&s, "R"), Some(1));
    assert!(commands(&s, "A"));
    assert!(s.leave_internal("B").is_empty());
}

#[test]
fn leaving_undoes_opening() {
    let mut s = AppState::new();
    open(&mut s, "A", "R", "p", None);
    open(&mut s, "B", "T", "p", None);
    s.leave_internal("B");
    assert_eq!(current(&s, "T"), None);
    assert_eq!(current(&s, "R"), Some(1));
    assert_eq!(open(&mut s, "C", "T", "q", None).len(), 4);
}

#[test]
fn whoever_left_is_forgotten() {
    let mut s = AppState::new();
    open(&mut s, "A", "R", "p", None);
    join(&mut s, "B", "R", "q");
    join(&mut s, "C", "R", "r");
    let offer = WebRtcSignalData {
        target: Some("C".to_string()),
        candidate: None,
        offer: Some(json("1")),
        answer: None,
        request_renegotiate: None,
    };
    s.webrtc_signal("B", offer);
    s.leave_internal("C");
    assert!(!hand(&mut s, "A", "r"));
    assert_eq!(hears(&s, "A"), vec!["B"]);
    let acts = s.leave_internal("A");
    assert_eq!(acts.len(), 3);
    assert_eq!(hears(&s, "B"), Vec::<String>::new());
}

#[test]
fn announcements_reach_everyone_in_the_room() {
    let mut s = AppState::new();
    open(&mut s, "A", "R", "p", None);
    open(&mut s, "Z", "T", "p", None);
    let acts = join(&mut s, "B", "R", "q");
    assert_eq!(targets(&acts), vec!["A", "me", "A", "me"]);
    let acts = s.leave_internal("A");
    assert_eq!(targets(&acts), vec!["B", "B"]);
}

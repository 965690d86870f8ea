use netplay::action::{controller_payload, error_reply, ok_reply};
use netplay::json::{object_of, text_field, v_to_string_lossy, value_to_string_lossy};
use netplay::table::Table;
use serde_json::Value;

fn json(s: &str) -> Value {
    serde_json::from_str(s).unwrap()
}

#[test]
fn strings_numbers_and_booleans_have_text() {
    assert_eq!(value_to_string_lossy(&json("\"abc\"")), Some("abc".to_string()));
    assert_eq!(value_to_string_lossy(&json("42")), Some("42".to_string()));
    assert_eq!(value_to_string_lossy(&json("-7")), Some("-7".to_string()));
    assert_eq!(value_to_string_lossy(&json("1.5")), Some("1.5".to_string()));
    assert_eq!(value_to_string_lossy(&json("true")), Some("true".to_string()));
    assert_eq!(value_to_string_lossy(&json("false")), Some("false".to_string()));
    assert_eq!(value_to_string_lossy(&json("null")), None);
    assert_eq!(value_to_string_lossy(&json("[1]")), None);
    assert_eq!(value_to_string_lossy(&json("{\"a\":1}")), None);
}

#[test]
fn members_have_text() {
    let v = json(r#"{"s":"x","n":3,"b":true,"z":null,"o":{},"e":""}"#);
    assert_eq!(v_to_string_lossy(&v, "s"), Some("x".to_string()));
    assert_eq!(v_to_string_lossy(&v, "n"), Some("3".to_string()));
    assert_eq!(v_to_string_lossy(&v, "b"), Some("true".to_string()));
    assert_eq!(v_to_string_lossy(&v, "e"), Some("".to_string()));
    assert_eq!(v_to_string_lossy(&v, "z"), None);
    assert_eq!(v_to_string_lossy(&v, "o"), None);
    assert_eq!(v_to_string_lossy(&v, "missing"), None);
    assert_eq!(v_to_string_lossy(&json("[1,2]"), "0"), None);
    assert_eq!(v_to_string_lossy(&json("\"s\""), "s"), None);
}

#[test]
fn only_string_members_are_text_fields() {
    let v = json(r#"{"s":"x","n":3}"#);
    assert_eq!(text_field(&v, "s"), Some("x"));
    assert_eq!(text_field(&v, "n"), None);
    assert_eq!(text_field(&v, "missing"), None);
    assert_eq!(text_field(&Value::Null, "s"), None);
}

#[test]
fn a_table_becomes_an_object() {
    let mut t: Table<Value> = Table::new();
    assert_eq!(object_of(&t), json("{}"));
    t.insert("b".to_string(), json("1"));
    t.insert("a".to_string(), json("{\"x\":[true,null]}"));
    t.insert("b".to_string(), json("2"));
    assert_eq!(object_of(&t), json(r#"{"a":{"x":[true,null]},"b":2}"#));
}

#[test]
fn replies_have_their_members() {
    assert_eq!(ok_reply(), json(r#"{"ok":true}"#));
    assert_eq!(error_reply("Slow down"), json(r#"{"ok":false,"error":"Slow down"}"#));
    assert_eq!(controller_payload("p1"), json(r#"{"playerId":"p1"}"#));
}

#[test]
fn a_table_keeps_names_once_and_in_order() {
    let mut t: Table<Value> = Table::new();
    for (k, v) in [("x", "1"), ("y", "2"), ("z", "3"), ("x", "4")] {
        t.insert(k.to_string(), json(v));
    }
    assert_eq!(t.len(), 3);
    assert_eq!(t.name(0), "x");
    assert_eq!(t.value(0), &json("4"));
    assert_eq!(t.name(2), "z");
    assert!(t.contains_key(&"y".to_string()));
    assert!(!t.contains_key(&"w".to_string()));
    assert_eq!(t.get(&"z".to_string()), Some(&json("3")));
    assert_eq!(t.get(&"w".to_string()), None);
    *t.get_mut(&"z".to_string()).unwrap() = json("9");
    assert!(t.get_mut(&"w".to_string()).is_none());
    t.remove(&"x".to_string());
    t.remove(&"w".to_string());
    assert_eq!(t.len(), 2);
    assert_eq!(t.name(0), "y");
    assert_eq!(t.get(&"z".to_string()), Some(&json("9")));
}

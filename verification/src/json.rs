//! JSON values: what they hold, and the few things the server asks of them.
//!
//! The values themselves are `serde_json`'s. The functions marked
//! `external_body` are the calls into it; their contracts are taken on trust.

use crate::table::{as_map, distinct, lemma_put, put, Model, Table};
use vstd::prelude::*;

verus! {

/// `serde_json::Value`, whose contents are known through `json_of` alone.
#[verifier::external_type_specification]
#[verifier::external_body]
pub struct ExValue(serde_json::Value);

/// What a JSON value holds. A number is known by the text it is written as.
pub enum Json {
    Null,
    Bool(bool),
    Number(Seq<char>),
    Str(Seq<char>),
    Array(Seq<Json>),
    Object(Map<Seq<char>, Json>),
}

/// The contents of a `serde_json::Value`.
pub uninterp spec fn json_of(v: serde_json::Value) -> Json;

impl Model for serde_json::Value {
    type M = Json;

    open spec fn model(&self) -> Json {
        json_of(*self)
    }
}

/// The contents of an optional value.
pub open spec fn json_of_option(o: Option<serde_json::Value>) -> Option<Json> {
    match o {
        None => None,
        Some(v) => Some(json_of(v)),
    }
}

/// A number in decimal digits.
pub open spec fn decimal(n: nat) -> Seq<char>
    decreases n,
{
    if n < 10 {
        seq![('0' as int + n) as char]
    } else {
        decimal(n / 10).push(('0' as int + n % 10) as char)
    }
}

/// The member of an object under a name.
pub open spec fn member(j: Json, name: Seq<char>) -> Option<Json> {
    match j {
        Json::Object(m) => if m.contains_key(name) {
            Some(m[name])
        } else {
            None
        },
        _ => None,
    }
}

/// The text of a string value.
pub open spec fn text(j: Json) -> Option<Seq<char>> {
    match j {
        Json::Str(s) => Some(s),
        _ => None,
    }
}

/// The text of a string, a number or a boolean; other values have none.
pub open spec fn loose_text(j: Json) -> Option<Seq<char>> {
    match j {
        Json::Str(s) => Some(s),
        Json::Number(s) => Some(s),
        Json::Bool(b) => Some(
            if b {
                "true"@
            } else {
                "false"@
            },
        ),
        _ => None,
    }
}

/// The text of an object's member, if the member is a string.
pub open spec fn text_member(j: Json, name: Seq<char>) -> Option<Seq<char>> {
    match member(j, name) {
        Some(x) => text(x),
        None => None,
    }
}

/// The text of an object's member, if the member is a string, a number or a
/// boolean.
pub open spec fn loose_member(j: Json, name: Seq<char>) -> Option<Seq<char>> {
    match member(j, name) {
        Some(x) => loose_text(x),
        None => None,
    }
}

/// An object with a member written under a name.
pub open spec fn with_member(j: Json, name: Seq<char>, x: Json) -> Json {
    Json::Object(j->Object_0.insert(name, x))
}

/// An object without members.
pub open spec fn no_members() -> Json {
    Json::Object(Map::empty())
}

/// `Value::get` with a string index: the member of an object under that name;
/// nothing for an unknown name or a value that is not an object.
#[verifier::external_body]
pub(crate) fn value_get<'a>(v: &'a serde_json::Value, name: &str) -> (r: Option<
    &'a serde_json::Value,
>)
    ensures
        match r {
            Some(x) => member(json_of(*v), name@) == Some(json_of(*x)),
            None => member(json_of(*v), name@) is None,
        },
{
    v.get(name)
}

/// `Value::as_str`: the text of a string; nothing for any other value.
#[verifier::external_body]
pub(crate) fn value_as_str(v: &serde_json::Value) -> (r: Option<&str>)
    ensures
        match r {
            Some(s) => text(json_of(*v)) == Some(s@),
            None => text(json_of(*v)) is None,
        },
{
    v.as_str()
}

/// `Value::is_number`: whether the value is a number.
#[verifier::external_body]
pub(crate) fn value_is_number(v: &serde_json::Value) -> (r: bool)
    ensures
        r == (json_of(*v) is Number),
{
    v.is_number()
}

/// `Value::is_boolean`: whether the value is a boolean.
#[verifier::external_body]
pub(crate) fn value_is_boolean(v: &serde_json::Value) -> (r: bool)
    ensures
        r == (json_of(*v) is Bool),
{
    v.is_boolean()
}

/// `Value::is_object`: whether the value is an object.
#[verifier::external_body]
pub(crate) fn value_is_object(v: &serde_json::Value) -> (r: bool)
    ensures
        r == (json_of(*v) is Object),
{
    v.is_object()
}

/// `Value`'s `Display`, on a number or a boolean: the number as it is written
/// in JSON, or `true` or `false`.
#[verifier::external_body]
pub(crate) fn value_to_string(v: &serde_json::Value) -> (r: String)
    requires
        json_of(*v) is Number || json_of(*v) is Bool,
    ensures
        loose_text(json_of(*v)) == Some(r@),
{
    v.to_string()
}

/// `Value`'s `Clone`: a value with the same contents.
#[verifier::external_body]
pub(crate) fn value_clone(v: &serde_json::Value) -> (r: serde_json::Value)
    ensures
        json_of(r) == json_of(*v),
{
    v.clone()
}

/// `Value::Null`: the value `null`.
#[verifier::external_body]
pub(crate) fn value_null() -> (r: serde_json::Value)
    ensures
        json_of(r) == Json::Null,
{
    serde_json::Value::Null
}

/// `Value::from` on a boolean: that boolean.
#[verifier::external_body]
pub(crate) fn value_from_bool(b: bool) -> (r: serde_json::Value)
    ensures
        json_of(r) == Json::Bool(b),
{
    serde_json::Value::from(b)
}

/// `Value::from` on a `u64`: that number, written in decimal digits.
#[verifier::external_body]
pub(crate) fn value_from_u64(n: u64) -> (r: serde_json::Value)
    ensures
        json_of(r) == Json::Number(decimal(n as nat)),
{
    serde_json::Value::from(n)
}

/// `Value::from` on a `&str`: a string with that text.
#[verifier::external_body]
pub(crate) fn value_from_str(s: &str) -> (r: serde_json::Value)
    ensures
        json_of(r) == Json::Str(s@),
{
    serde_json::Value::from(s)
}

/// `Map::new` as a value: an object without members.
#[verifier::external_body]
pub(crate) fn value_object() -> (r: serde_json::Value)
    ensures
        json_of(r) == no_members(),
{
    serde_json::Value::Object(serde_json::Map::new())
}

/// Assignment through `Value`'s `IndexMut` with a string index: the object gets
/// the member, in place of one of that name, and keeps the others. A value that
/// is neither an object nor `null` would panic; none such is passed.
#[verifier::external_body]
pub(crate) fn value_set(v: &mut serde_json::Value, name: &str, x: serde_json::Value)
    requires
        json_of(*old(v)) is Object,
    ensures
        json_of(*final(v)) == with_member(json_of(*old(v)), name@, json_of(x)),
{
    v[name] = x;
}

/// The text of a string, a number or a boolean.
pub fn value_to_string_lossy(x: &serde_json::Value) -> (r: Option<String>)
    ensures
        crate::text::text_of(r) == loose_text(json_of(*x)),
{
    match value_as_str(x) {
        Some(s) => Some(s.to_owned()),
        None => if value_is_number(x) || value_is_boolean(x) {
            Some(value_to_string(x))
        } else {
            None
        },
    }
}

/// The text of an object's member that is a string, a number or a boolean.
pub fn v_to_string_lossy(v: &serde_json::Value, k: &str) -> (r: Option<String>)
    ensures
        crate::text::text_of(r) == loose_member(json_of(*v), k@),
{
    match value_get(v, k) {
        Some(x) => value_to_string_lossy(x),
        None => None,
    }
}

/// The text of an object's member that is a string.
pub fn text_field<'a>(v: &'a serde_json::Value, k: &str) -> (r: Option<&'a str>)
    ensures
        match r {
            Some(s) => text_member(json_of(*v), k@) == Some(s@),
            None => text_member(json_of(*v), k@) is None,
        },
{
    match value_get(v, k) {
        Some(x) => value_as_str(x),
        None => None,
    }
}

/// The object whose members are the rows of a table.
pub fn object_of(rows: &Table<serde_json::Value>) -> (r: serde_json::Value)
    requires
        rows.wf(),
    ensures
        json_of(r) == Json::Object(rows.map()),
{
    let mut out = value_object();
    let mut i: usize = 0;
    assert(as_map(rows@.take(0)) =~= Map::<Seq<char>, Json>::empty());
    while i < rows.len()
        invariant
            rows.wf(),
            i <= rows@.len(),
            json_of(out) == Json::Object(as_map(rows@.take(i as int))),
        decreases rows@.len() - i,
    {
        value_set(&mut out, rows.name(i).as_str(), value_clone(rows.value(i)));
        proof {
            lemma_take_grows(rows@, i as int);
        }
        i += 1;
    }
    assert(rows@.take(i as int) == rows@);
    out
}

proof fn lemma_take_grows(rows: Seq<(Seq<char>, Json)>, i: int)
    requires
        distinct(rows),
        0 <= i < rows.len(),
    ensures
        as_map(rows.take(i + 1)) == as_map(rows.take(i)).insert(rows[i].0, rows[i].1),
{
    let before = rows.take(i);
    assert(distinct(before)) by {
        assert forall|a: int, b: int| 0 <= a < b < before.len() implies (#[trigger] before[a]).0
            != (#[trigger] before[b]).0 by {
            assert(rows[a].0 != rows[b].0);
        }
    }
    assert(!crate::table::listed(before, rows[i].0)) by {
        if crate::table::listed(before, rows[i].0) {
            let k = crate::table::place(before, rows[i].0);
            assert(before[k].0 == rows[i].0);
            assert(rows[k].0 != rows[i].0);
        }
    }
    lemma_put(before, rows[i].0, rows[i].1);
    assert(put(before, rows[i].0, rows[i].1) == rows.take(i + 1));
}

/// An object holds a member under a name, or, where none is meant, holds none.
pub open spec fn holds(j: Json, name: Seq<char>, x: Option<Json>) -> bool {
    &&& j is Object
    &&& match x {
        Some(v) => j->Object_0.contains_key(name) && j->Object_0[name] == v,
        None => !j->Object_0.contains_key(name),
    }
}

/// A member's text is that of a string, and of nothing else.
pub proof fn law_which_members_are_text(j: Json, name: Seq<char>, t: Seq<char>)
    ensures
        text_member(j, name) == Some(t) <==> holds(j, name, Some(Json::Str(t))),
{
}

/// A member's loose text is that of a string, a number as it is written, or the
/// words "true" and "false", and of nothing else.
pub proof fn law_which_members_have_loose_text(j: Json, name: Seq<char>, t: Seq<char>)
    ensures
        loose_member(j, name) == Some(t) <==> {
            ||| holds(j, name, Some(Json::Str(t)))
            ||| holds(j, name, Some(Json::Number(t)))
            ||| holds(j, name, Some(Json::Bool(true))) && t == "true"@
            ||| holds(j, name, Some(Json::Bool(false))) && t == "false"@
        },
        loose_text(Json::Str(t)) == Some(t),
        loose_text(Json::Number(t)) == Some(t),
        loose_text(Json::Bool(true)) == Some("true"@),
        loose_text(Json::Bool(false)) == Some("false"@),
        j is Null || j is Array || j is Object ==> loose_text(j) is None,
{
}

/// The last decimal digit of a number is what is left over by ten, and the
/// others are the digits of the tenth part.
pub proof fn law_decimal_digits(n: nat, digit: nat)
    requires
        digit < 10,
    ensures
        decimal(digit) == seq![(48 + digit) as char],
        n > 0 ==> decimal(10 * n + digit) == decimal(n) + decimal(digit),
{
    if n > 0 {
        assert((10 * n + digit) / 10 == n);
        assert((10 * n + digit) % 10 == digit);
        assert(decimal(10 * n + digit) =~= decimal(n) + decimal(digit));
    }
}

/// What it is for an object to hold a member, and to have a text.
pub proof fn law_what_a_member_is(j: Json, name: Seq<char>, x: Json, t: Seq<char>)
    ensures
        holds(j, name, Some(x)) <==> j is Object && j->Object_0.contains_key(name)
            && j->Object_0[name] == x,
        holds(j, name, None) <==> j is Object && !j->Object_0.contains_key(name),
        member(j, name) == Some(x) <==> j is Object && j->Object_0.contains_key(name)
            && j->Object_0[name] == x,
        text(j) == Some(t) <==> j == Json::Str(t),
        j is Object ==> with_member(j, name, x) == Json::Object(j->Object_0.insert(name, x)),
        no_members() == Json::Object(Map::empty()),
{
}

} // verus!

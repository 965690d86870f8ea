//! What the server does in answer to a request: the messages it sends and the
//! groups of sockets it joins, in order.

use crate::json::{
    json_of, no_members, value_from_bool, value_from_str, value_object, value_set, with_member,
    Json,
};
use crate::table::Model;
use vstd::prelude::*;

verus! {

/// Who gets a message.
pub enum Target {
    /// The socket whose request is being answered.
    Me,
    /// The sockets in the group of this name, but for the one whose request is
    /// being answered. Each socket is in a group named by its own id.
    Socket(String),
}

/// One thing to do for the socket whose request is being answered.
pub enum Action {
    /// Put the socket into a group.
    Join(String),
    /// Take the socket out of a group.
    Leave(String),
    /// Answer the request.
    Ack(serde_json::Value),
    /// Answer the request with two values.
    AckBoth(serde_json::Value, serde_json::Value),
    /// Send an event to each target in turn.
    Emit { targets: Vec<Target>, event: String, payload: serde_json::Value },
}

/// What a `Target` stands for.
pub enum TargetView {
    Me,
    Socket(Seq<char>),
}

/// What an `Action` stands for.
pub enum ActionView {
    Join(Seq<char>),
    Leave(Seq<char>),
    Ack(Json),
    AckBoth(Json, Json),
    Emit { targets: Seq<TargetView>, event: Seq<char>, payload: Json },
}

impl Model for Target {
    type M = TargetView;

    open spec fn model(&self) -> TargetView {
        match self {
            Target::Me => TargetView::Me,
            Target::Socket(s) => TargetView::Socket(s@),
        }
    }
}

impl Model for Action {
    type M = ActionView;

    open spec fn model(&self) -> ActionView {
        match self {
            Action::Join(s) => ActionView::Join(s@),
            Action::Leave(s) => ActionView::Leave(s@),
            Action::Ack(v) => ActionView::Ack(json_of(*v)),
            Action::AckBoth(v, w) => ActionView::AckBoth(json_of(*v), json_of(*w)),
            Action::Emit { targets, event, payload } => ActionView::Emit {
                targets: models(targets@),
                event: event@,
                payload: json_of(*payload),
            },
        }
    }
}

/// What each of a list of values stands for.
pub open spec fn models<V: Model>(s: Seq<V>) -> Seq<V::M> {
    Seq::new(s.len(), |i: int| s[i].model())
}

/// The texts of a list of strings.
pub open spec fn texts(s: Seq<String>) -> Seq<Seq<char>> {
    Seq::new(s.len(), |i: int| s[i]@)
}

/// The targets that reach every socket of a list, the asking one among them.
pub open spec fn everyone(me: Seq<char>, ids: Seq<Seq<char>>) -> Seq<TargetView> {
    Seq::new(
        ids.len(),
        |i: int|
            if ids[i] == me {
                TargetView::Me
            } else {
                TargetView::Socket(ids[i])
            },
    )
}

/// The targets that reach every socket of a list but the asking one.
pub open spec fn everyone_else(me: Seq<char>, ids: Seq<Seq<char>>) -> Seq<TargetView>
    decreases ids.len(),
{
    if ids.len() == 0 {
        seq![]
    } else if ids.last() == me {
        everyone_else(me, ids.drop_last())
    } else {
        everyone_else(me, ids.drop_last()).push(TargetView::Socket(ids.last()))
    }
}

/// An event for every socket of a list.
pub fn emit_to_sockets_including_self(
    me: &String,
    socket_ids: &Vec<String>,
    event: &str,
    payload: serde_json::Value,
) -> (r: Action)
    ensures
        r.model() == (ActionView::Emit {
            targets: everyone(me@, texts(socket_ids@)),
            event: event@,
            payload: json_of(payload),
        }),
{
    let mut targets: Vec<Target> = Vec::new();
    let mut i: usize = 0;
    while i < socket_ids.len()
        invariant
            i <= socket_ids@.len(),
            models(targets@) == everyone(me@, texts(socket_ids@).take(i as int)),
        decreases socket_ids@.len() - i,
    {
        let ghost before = targets@;
        let t = if socket_ids[i] == *me {
            Target::Me
        } else {
            Target::Socket(socket_ids[i].clone())
        };
        targets.push(t);
        i += 1;
        assert(models(targets@) == models(before).push(t.model()));
        assert(everyone(me@, texts(socket_ids@).take(i as int)) == everyone(
            me@,
            texts(socket_ids@).take(i - 1),
        ).push(t.model()));
    }
    assert(texts(socket_ids@).take(i as int) == texts(socket_ids@));
    Action::Emit { targets, event: event.to_owned(), payload }
}

/// An event for every socket of a list but the asking one.
pub fn emit_to_sockets_excluding_self(
    me: &String,
    socket_ids: &Vec<String>,
    event: &str,
    payload: serde_json::Value,
) -> (r: Action)
    ensures
        r.model() == (ActionView::Emit {
            targets: everyone_else(me@, texts(socket_ids@)),
            event: event@,
            payload: json_of(payload),
        }),
{
    let mut targets: Vec<Target> = Vec::new();
    let mut i: usize = 0;
    assert(models(targets@) == Seq::<TargetView>::empty());
    while i < socket_ids.len()
        invariant
            i <= socket_ids@.len(),
            models(targets@) == everyone_else(me@, texts(socket_ids@).take(i as int)),
        decreases socket_ids@.len() - i,
    {
        let ghost before = targets@;
        let ghost seen = texts(socket_ids@).take(i + 1);
        assert(seen.drop_last() == texts(socket_ids@).take(i as int));
        assert(seen.last() == socket_ids@[i as int]@);
        if socket_ids[i] != *me {
            let t = Target::Socket(socket_ids[i].clone());
            targets.push(t);
            assert(models(targets@) == models(before).push(t.model()));
        }
        i += 1;
    }
    assert(texts(socket_ids@).take(i as int) == texts(socket_ids@));
    Action::Emit { targets, event: event.to_owned(), payload }
}

/// The answer to a request that was granted.
pub open spec fn granted() -> Json {
    with_member(no_members(), "ok"@, Json::Bool(true))
}

/// The answer to a request that was refused.
pub open spec fn refused(error: Seq<char>) -> Json {
    with_member(
        with_member(no_members(), "ok"@, Json::Bool(false)),
        "error"@,
        Json::Str(error),
    )
}

/// The notice of who holds the controller.
pub open spec fn controller_notice(player_id: Seq<char>) -> Json {
    with_member(no_members(), "playerId"@, Json::Str(player_id))
}

/// The answer to a request that was granted.
pub fn ok_reply() -> (r: serde_json::Value)
    ensures
        json_of(r) == granted(),
{
    let mut v = value_object();
    value_set(&mut v, "ok", value_from_bool(true));
    v
}

/// The answer to a request that was refused.
pub fn error_reply(error: &str) -> (r: serde_json::Value)
    ensures
        json_of(r) == refused(error@),
{
    let mut v = value_object();
    value_set(&mut v, "ok", value_from_bool(false));
    value_set(&mut v, "error", value_from_str(error));
    v
}

/// The notice of who holds the controller.
pub fn controller_payload(player_id: &str) -> (r: serde_json::Value)
    ensures
        json_of(r) == controller_notice(player_id@),
{
    let mut v = value_object();
    value_set(&mut v, "playerId", value_from_str(player_id));
    v
}

/// An action stands for what is to be done, in every part.
pub proof fn law_actions_stand_for_what_is_done(
    group: String,
    v: serde_json::Value,
    w: serde_json::Value,
    targets: Vec<Target>,
    event: String,
    i: int,
)
    ensures
        Target::Me.model() == TargetView::Me,
        Target::Socket(group).model() == TargetView::Socket(group@),
        Action::Join(group).model() == ActionView::Join(group@),
        Action::Leave(group).model() == ActionView::Leave(group@),
        Action::Ack(v).model() == ActionView::Ack(json_of(v)),
        Action::AckBoth(v, w).model() == ActionView::AckBoth(json_of(v), json_of(w)),
        (Action::Emit { targets, event, payload: v }).model() == (ActionView::Emit {
            targets: models(targets@),
            event: event@,
            payload: json_of(v),
        }),
        models(targets@).len() == targets@.len(),
        0 <= i < targets@.len() ==> models(targets@)[i] == targets@[i].model(),
{
}

/// What a list stands for is what its items stand for, one by one.
pub proof fn law_lists_stand_for_their_items<V: Model>(s: Seq<V>, t: Seq<String>, i: int)
    ensures
        models(s).len() == s.len(),
        0 <= i < s.len() ==> models(s)[i] == s[i].model(),
        texts(t).len() == t.len(),
        0 <= i < t.len() ==> texts(t)[i] == t[i]@,
{
}

} // verus!

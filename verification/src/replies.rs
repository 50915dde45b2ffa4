//! The items that the API replies list, read from their JSON values: roles,
//! record cards, rewards, coin tasks and posts.

use vstd::prelude::*;

use crate::api::{
    array_items, post_items, post_items_spec, response_ok, response_ok_spec, scalar_i64, scalar_text, value_to_i64,
    value_to_string, CoinTask, GameRecordCard, GameRoleRaw, RecommendPost,
};
use crate::json::{json_get_spec, JsonValue};
use crate::runner::opt_view;
use crate::text::str_eq;

verus! {

/// The member `key` of `v` as text.
pub open spec fn text_field(v: JsonValue, key: Seq<char>) -> Option<Seq<char>> {
    match json_get_spec(v, key) {
        Some(x) => scalar_text(x),
        None => None,
    }
}

/// The member `key` of `v` as an `i64`, 0 where it is missing or not an
/// integer.
pub open spec fn int_field(v: JsonValue, key: Seq<char>) -> i64 {
    match json_get_spec(v, key) {
        Some(x) => match scalar_i64(x) {
            Some(i) => i,
            None => 0i64,
        },
        None => 0i64,
    }
}

/// The member `inner` of the member `outer` of `v` as text.
pub open spec fn nested_text(v: JsonValue, outer: Seq<char>, inner: Seq<char>) -> Option<Seq<char>> {
    match json_get_spec(v, outer) {
        Some(o) => text_field(o, inner),
        None => None,
    }
}

/// The first present member of `first` and `second`, as text.
pub open spec fn either_text(v: JsonValue, first: Seq<char>, second: Seq<char>) -> Option<Seq<char>> {
    match json_get_spec(v, first) {
        Some(x) => scalar_text(x),
        None => text_field(v, second),
    }
}

fn text_of(v: &JsonValue, key: &str) -> (r: Option<String>)
    ensures
        opt_view(r) == text_field(*v, key@),
{
    match v.get(key) {
        Some(x) => value_to_string(x),
        None => None,
    }
}

fn int_of(v: &JsonValue, key: &str) -> (r: i64)
    ensures
        r == int_field(*v, key@),
{
    match v.get(key) {
        Some(x) => match value_to_i64(x) {
            Some(i) => i,
            None => 0,
        },
        None => 0,
    }
}

fn either_of(v: &JsonValue, first: &str, second: &str) -> (r: Option<String>)
    ensures
        opt_view(r) == either_text(*v, first@, second@),
{
    match v.get(first) {
        Some(x) => value_to_string(x),
        None => text_of(v, second),
    }
}

fn nested_of(v: &JsonValue, outer: &str, inner: &str) -> (r: Option<String>)
    ensures
        opt_view(r) == nested_text(*v, outer@, inner@),
{
    match v.get(outer) {
        Some(o) => text_of(o, inner),
        None => None,
    }
}

// ---------------------------------------------------------------- roles

/// A role of the role list: its `roleId` (required) and `roleName`.
pub open spec fn role_item(v: JsonValue) -> Option<(Seq<char>, Option<Seq<char>>)> {
    match text_field(v, "roleId"@) {
        Some(id) => Some((id, text_field(v, "roleName"@))),
        None => None,
    }
}

/// The roles of a role list, in order, skipping items without a role id.
pub open spec fn role_items(items: Seq<JsonValue>) -> Seq<(Seq<char>, Option<Seq<char>>)>
    decreases items.len(),
{
    if items.len() == 0 {
        Seq::empty()
    } else {
        let p = role_items(items.drop_last());
        match role_item(items.last()) {
            Some(r) => p.push(r),
            None => p,
        }
    }
}

/// The view of a role.
pub open spec fn role_raw_view(r: GameRoleRaw) -> (Seq<char>, Option<Seq<char>>) {
    (r.role_id@, opt_view(r.role_name))
}

/// A role carries its own item's fields: where every item has a role id,
/// there is one role per item, in order, with that item's `roleId` and
/// `roleName`.
pub proof fn lemma_roles_follow_items(items: Seq<JsonValue>)
    requires
        forall|i: int| 0 <= i < items.len() ==> #[trigger] member_text(items[i], "roleId"@) is Some,
    ensures
        role_items(items).len() == items.len(),
        forall|i: int| 0 <= i < items.len() ==> #[trigger] role_items(items)[i] == (member_text(items[i], "roleId"@)->0, member_text(items[i], "roleName"@)),
    decreases items.len(),
{
    if items.len() > 0 {
        let p = items.drop_last();
        assert forall|i: int| 0 <= i < p.len() implies #[trigger] member_text(p[i], "roleId"@) is Some by {
            assert(p[i] == items[i]);
        }
        lemma_roles_follow_items(p);
        assert(member_text(items[items.len() - 1], "roleId"@) is Some);
        assert forall|i: int| 0 <= i < items.len() implies #[trigger] role_items(items)[i] == (member_text(items[i], "roleId"@)->0, member_text(items[i], "roleName"@)) by {
            if i < p.len() {
                assert(p[i] == items[i]);
            }
        }
    }
}

/// Reads the roles of a role list.
pub fn roles_from(items: &Vec<JsonValue>) -> (r: Vec<GameRoleRaw>)
    ensures
        r@.map_values(|x: GameRoleRaw| role_raw_view(x)) == role_items(items@),
        (forall|i: int| 0 <= i < items@.len() ==> #[trigger] member_text(items@[i], "roleId"@) is Some) ==> r@.len()
            == items@.len() && forall|i: int| 0 <= i < r@.len() ==> Some((#[trigger] r@[i]).role_id@) == member_text(items@[i], "roleId"@) && opt_view(r@[i].role_name) == member_text(items@[i], "roleName"@),
{
    let mut out: Vec<GameRoleRaw> = Vec::new();
    let mut i: usize = 0;
    while i < items.len()
        invariant
            i <= items@.len(),
            out@.map_values(|x: GameRoleRaw| role_raw_view(x)) == role_items(items@.take(i as int)),
        decreases items@.len() - i,
    {
        proof {
            assert(items@.take(i + 1).drop_last() =~= items@.take(i as int));
            assert(items@.take(i + 1).last() == items@[i as int]);
        }
        let v = &items[i];
        match text_of(v, "roleId") {
            Some(id) => {
                let name = text_of(v, "roleName");
                let ghost before = out@;
                out.push(GameRoleRaw { role_id: id, role_name: name });
                proof {
                    assert(out@.map_values(|x: GameRoleRaw| role_raw_view(x)) =~= before.map_values(
                        |x: GameRoleRaw| role_raw_view(x),
                    ).push(role_raw_view(out@.last())));
                }
            },
            None => {},
        }
        i = i + 1;
    }
    proof {
        assert(items@.take(items@.len() as int) =~= items@);
        if forall|i: int| 0 <= i < items@.len() ==> #[trigger] member_text(items@[i], "roleId"@) is Some {
            lemma_roles_follow_items(items@);
            assert forall|i: int| 0 <= i < out@.len() implies Some((#[trigger] out@[i]).role_id@) == member_text(items@[i], "roleId"@) && opt_view(out@[i].role_name) == member_text(items@[i], "roleName"@) by {
                assert(out@.map_values(|x: GameRoleRaw| role_raw_view(x))[i] == role_raw_view(out@[i]));
            }
        }
    }
    out
}

// ---------------------------------------------------------------- cards

/// A record card: its `gameId` (required), `gameName`, and the role id and
/// name of its `bindRoleInfo`.
pub open spec fn card_item(v: JsonValue) -> Option<
    (Seq<char>, Option<Seq<char>>, Option<Seq<char>>, Option<Seq<char>>),
> {
    match text_field(v, "gameId"@) {
        Some(g) => Some(
            (
                g,
                text_field(v, "gameName"@),
                nested_text(v, "bindRoleInfo"@, "roleId"@),
                nested_text(v, "bindRoleInfo"@, "roleName"@),
            ),
        ),
        None => None,
    }
}

/// The cards of a card list, in order, skipping items without a game id.
pub open spec fn card_items(items: Seq<JsonValue>) -> Seq<
    (Seq<char>, Option<Seq<char>>, Option<Seq<char>>, Option<Seq<char>>),
>
    decreases items.len(),
{
    if items.len() == 0 {
        Seq::empty()
    } else {
        let p = card_items(items.drop_last());
        match card_item(items.last()) {
            Some(c) => p.push(c),
            None => p,
        }
    }
}

/// The member `key` of `v` as text, read directly.
pub open spec fn member_text(v: JsonValue, key: Seq<char>) -> Option<Seq<char>> {
    match json_get_spec(v, key) {
        Some(x) => scalar_text(x),
        None => None,
    }
}

/// The member `key` of `v` as an `i64`, read directly; 0 where it is
/// missing or not an integer.
pub open spec fn member_int(v: JsonValue, key: Seq<char>) -> i64 {
    match json_get_spec(v, key) {
        Some(x) => match scalar_i64(x) {
            Some(n) => n,
            None => 0i64,
        },
        None => 0i64,
    }
}

/// The id of a post item, read directly: `postId` where present, else `id`.
pub open spec fn post_id_text(v: JsonValue) -> Option<Seq<char>> {
    match json_get_spec(v, "postId"@) {
        Some(x) => scalar_text(x),
        None => member_text(v, "id"@),
    }
}

/// Whether a post item says it is liked, read directly.
pub open spec fn liked_member(v: JsonValue) -> Option<bool> {
    match json_get_spec(v, "selfOperation"@) {
        Some(o) => match json_get_spec(o, "liked"@) {
            Some(JsonValue::Bool(b)) => Some(b),
            _ => None,
        },
        None => None,
    }
}

/// The code of a task item, read directly: `code` where present, else
/// `taskKey`.
pub open spec fn task_code_text(v: JsonValue) -> Option<Seq<char>> {
    match json_get_spec(v, "code"@) {
        Some(x) => scalar_text(x),
        None => member_text(v, "taskKey"@),
    }
}

/// A task item has a non-empty code.
pub open spec fn task_has_code(v: JsonValue) -> bool {
    match task_code_text(v) {
        Some(c) => c.len() > 0,
        None => false,
    }
}

/// A record card carries its own item's fields: where every item has a
/// game id, there is one card per item, in order, with that item's
/// `gameId`, top-level `gameName`, and the `roleId` and `roleName` of its
/// `bindRoleInfo`.
pub proof fn lemma_cards_follow_items(items: Seq<JsonValue>)
    requires
        forall|i: int| 0 <= i < items.len() ==> (#[trigger] member_text(items[i], "gameId"@)) is Some,
    ensures
        card_items(items).len() == items.len(),
        forall|i: int|
            0 <= i < items.len() ==> #[trigger] card_items(items)[i] == (
                member_text(items[i], "gameId"@)->0,
                member_text(items[i], "gameName"@),
                match json_get_spec(items[i], "bindRoleInfo"@) {
                    Some(b) => member_text(b, "roleId"@),
                    None => None,
                },
                match json_get_spec(items[i], "bindRoleInfo"@) {
                    Some(b) => member_text(b, "roleName"@),
                    None => None,
                },
            ),
    decreases items.len(),
{
    if items.len() > 0 {
        let p = items.drop_last();
        assert forall|i: int| 0 <= i < p.len() implies (#[trigger] member_text(p[i], "gameId"@)) is Some by {
            assert(p[i] == items[i]);
        }
        lemma_cards_follow_items(p);
        assert(member_text(items[items.len() - 1], "gameId"@) is Some);
        assert forall|i: int| 0 <= i < items.len() implies #[trigger] card_items(items)[i] == (
            member_text(items[i], "gameId"@)->0,
            member_text(items[i], "gameName"@),
            match json_get_spec(items[i], "bindRoleInfo"@) {
                Some(b) => member_text(b, "roleId"@),
                None => None,
            },
            match json_get_spec(items[i], "bindRoleInfo"@) {
                Some(b) => member_text(b, "roleName"@),
                None => None,
            },
        ) by {
            if i < p.len() {
                assert(p[i] == items[i]);
            }
        }
    }
}

/// The view of a card.
pub open spec fn card_view(c: GameRecordCard) -> (
    Seq<char>,
    Option<Seq<char>>,
    Option<Seq<char>>,
    Option<Seq<char>>,
) {
    (c.game_id@, opt_view(c.game_name), opt_view(c.role_id), opt_view(c.role_name))
}

/// Reads the cards of a record-card list.
pub fn cards_from(items: &Vec<JsonValue>) -> (r: Vec<GameRecordCard>)
    ensures
        r@.map_values(|x: GameRecordCard| card_view(x)) == card_items(items@),
        (forall|i: int| 0 <= i < items@.len() ==> (#[trigger] member_text(items@[i], "gameId"@)) is Some)
            ==> r@.len() == items@.len() && forall|i: int|
            0 <= i < r@.len() ==> {
                &&& Some((#[trigger] r@[i]).game_id@) == member_text(items@[i], "gameId"@)
                &&& opt_view(r@[i].game_name) == member_text(items@[i], "gameName"@)
                &&& opt_view(r@[i].role_id) == match json_get_spec(items@[i], "bindRoleInfo"@) {
                    Some(b) => member_text(b, "roleId"@),
                    None => None,
                }
                &&& opt_view(r@[i].role_name) == match json_get_spec(items@[i], "bindRoleInfo"@) {
                    Some(b) => member_text(b, "roleName"@),
                    None => None,
                }
            },
{
    let mut out: Vec<GameRecordCard> = Vec::new();
    let mut i: usize = 0;
    while i < items.len()
        invariant
            i <= items@.len(),
            out@.map_values(|x: GameRecordCard| card_view(x)) == card_items(items@.take(i as int)),
        decreases items@.len() - i,
    {
        proof {
            assert(items@.take(i + 1).drop_last() =~= items@.take(i as int));
            assert(items@.take(i + 1).last() == items@[i as int]);
        }
        let v = &items[i];
        match text_of(v, "gameId") {
            Some(game_id) => {
                let card = GameRecordCard {
                    game_id,
                    game_name: text_of(v, "gameName"),
                    role_id: nested_of(v, "bindRoleInfo", "roleId"),
                    role_name: nested_of(v, "bindRoleInfo", "roleName"),
                };
                let ghost before = out@;
                out.push(card);
                proof {
                    assert(out@.map_values(|x: GameRecordCard| card_view(x)) =~= before.map_values(
                        |x: GameRecordCard| card_view(x),
                    ).push(card_view(out@.last())));
                }
            },
            None => {},
        }
        i = i + 1;
    }
    proof {
        assert(items@.take(items@.len() as int) =~= items@);
        if forall|i: int| 0 <= i < items@.len() ==> (#[trigger] member_text(items@[i], "gameId"@)) is Some {
            lemma_cards_follow_items(items@);
            assert forall|i: int| 0 <= i < out@.len() implies {
                &&& Some((#[trigger] out@[i]).game_id@) == member_text(items@[i], "gameId"@)
                &&& opt_view(out@[i].game_name) == member_text(items@[i], "gameName"@)
                &&& opt_view(out@[i].role_id) == match json_get_spec(items@[i], "bindRoleInfo"@) {
                    Some(b) => member_text(b, "roleId"@),
                    None => None,
                }
                &&& opt_view(out@[i].role_name) == match json_get_spec(items@[i], "bindRoleInfo"@) {
                    Some(b) => member_text(b, "roleName"@),
                    None => None,
                }
            } by {
                assert(out@.map_values(|x: GameRecordCard| card_view(x))[i] == card_view(out@[i]));
            }
        }
    }
    out
}

// ---------------------------------------------------------------- rewards

/// A reward of the month's list: its `name` (empty where missing) and its
/// `num` (0 where missing).
pub open spec fn reward_item(v: JsonValue) -> (Seq<char>, i64) {
    (
        match text_field(v, "name"@) {
            Some(n) => n,
            None => Seq::empty(),
        },
        int_field(v, "num"@),
    )
}

/// Reads the month's rewards, one per item.
pub fn rewards_from(items: &Vec<JsonValue>) -> (r: Vec<(String, i64)>)
    ensures
        r@.len() == items@.len(),
        forall|i: int|
            0 <= i < r@.len() ==> ((#[trigger] r@[i]).0@, r@[i].1) == reward_item(items@[i]),        forall|i: int|
            0 <= i < r@.len() ==> (#[trigger] r@[i]).0@ == (match member_text(items@[i], "name"@) {
                Some(n) => n,
                None => Seq::<char>::empty(),
            }) && r@[i].1 == member_int(items@[i], "num"@),
{
    let mut out: Vec<(String, i64)> = Vec::new();
    let mut i: usize = 0;
    while i < items.len()
        invariant
            i <= items@.len(),
            out@.len() == i,
            forall|k: int| 0 <= k < i ==> ((#[trigger] out@[k]).0@, out@[k].1) == reward_item(items@[k]),
        decreases items@.len() - i,
    {
        let v = &items[i];
        let name = match text_of(v, "name") {
            Some(n) => n,
            None => String::new(),
        };
        out.push((name, int_of(v, "num")));
        i = i + 1;
    }
    out
}

// ---------------------------------------------------------------- tasks

/// A coin task: its `code` (else its `taskKey`), which must be non-empty,
/// and its `completeTimes` and `limitTimes` (0 where missing).
pub open spec fn task_item(v: JsonValue) -> Option<(Seq<char>, i64, i64)> {
    match either_text(v, "code"@, "taskKey"@) {
        Some(c) => if c.len() > 0 {
            Some((c, int_field(v, "completeTimes"@), int_field(v, "limitTimes"@)))
        } else {
            None
        },
        None => None,
    }
}

/// The tasks of a task list, in order, skipping items without a code.
pub open spec fn task_items(items: Seq<JsonValue>) -> Seq<(Seq<char>, i64, i64)>
    decreases items.len(),
{
    if items.len() == 0 {
        Seq::empty()
    } else {
        let p = task_items(items.drop_last());
        match task_item(items.last()) {
            Some(t) => p.push(t),
            None => p,
        }
    }
}

/// The view of a task.
pub open spec fn task_view(t: CoinTask) -> (Seq<char>, i64, i64) {
    (t.code@, t.complete_times, t.limit_times)
}

/// A task carries its own item's fields: where every item has a non-empty
/// code (`code`, else `taskKey`), there is one task per item, in order, with
/// that code and the item's `completeTimes` and `limitTimes` (0 where
/// missing).
pub proof fn lemma_tasks_follow_items(items: Seq<JsonValue>)
    requires
        forall|i: int| 0 <= i < items.len() ==> #[trigger] task_has_code(items[i]),
    ensures
        task_items(items).len() == items.len(),
        forall|i: int| 0 <= i < items.len() ==> #[trigger] task_items(items)[i] == (task_code_text(items[i])->0, member_int(items[i], "completeTimes"@), member_int(items[i], "limitTimes"@)),
    decreases items.len(),
{
    if items.len() > 0 {
        let p = items.drop_last();
        assert forall|i: int| 0 <= i < p.len() implies #[trigger] task_has_code(p[i]) by {
            assert(p[i] == items[i]);
        }
        lemma_tasks_follow_items(p);
        assert(task_has_code(items[items.len() - 1]));
        assert forall|i: int| 0 <= i < items.len() implies #[trigger] task_items(items)[i] == (task_code_text(items[i])->0, member_int(items[i], "completeTimes"@), member_int(items[i], "limitTimes"@)) by {
            if i < p.len() {
                assert(p[i] == items[i]);
            }
        }
    }
}

/// Reads the coin tasks of a task list.
pub fn tasks_from(items: &Vec<JsonValue>) -> (r: Vec<CoinTask>)
    ensures
        r@.map_values(|x: CoinTask| task_view(x)) == task_items(items@),
        (forall|i: int| 0 <= i < items@.len() ==> #[trigger] task_has_code(items@[i])) ==> r@.len()
            == items@.len() && forall|i: int| 0 <= i < r@.len() ==> Some((#[trigger] r@[i]).code@) == task_code_text(items@[i]) && r@[i].complete_times == member_int(items@[i], "completeTimes"@) && r@[i].limit_times == member_int(items@[i], "limitTimes"@),
{
    let mut out: Vec<CoinTask> = Vec::new();
    let mut i: usize = 0;
    while i < items.len()
        invariant
            i <= items@.len(),
            out@.map_values(|x: CoinTask| task_view(x)) == task_items(items@.take(i as int)),
        decreases items@.len() - i,
    {
        proof {
            assert(items@.take(i + 1).drop_last() =~= items@.take(i as int));
            assert(items@.take(i + 1).last() == items@[i as int]);
        }
        let v = &items[i];
        match either_of(v, "code", "taskKey") {
            Some(code) => {
                let blank = str_eq(code.as_str(), "");
                proof {
                    reveal_strlit("");
                    if code@.len() == 0 {
                        assert(code@ =~= ""@);
                    }
                }
                if !blank {
                    let t = CoinTask {
                        code,
                        complete_times: int_of(v, "completeTimes"),
                        limit_times: int_of(v, "limitTimes"),
                    };
                    let ghost before = out@;
                    out.push(t);
                    proof {
                        assert(out@.map_values(|x: CoinTask| task_view(x)) =~= before.map_values(
                            |x: CoinTask| task_view(x),
                        ).push(task_view(out@.last())));
                    }
                }
            },
            None => {},
        }
        i = i + 1;
    }
    proof {
        assert(items@.take(items@.len() as int) =~= items@);
        if forall|i: int| 0 <= i < items@.len() ==> #[trigger] task_has_code(items@[i]) {
            lemma_tasks_follow_items(items@);
            assert forall|i: int| 0 <= i < out@.len() implies Some((#[trigger] out@[i]).code@) == task_code_text(items@[i]) && out@[i].complete_times == member_int(items@[i], "completeTimes"@) && out@[i].limit_times == member_int(items@[i], "limitTimes"@) by {
                assert(out@.map_values(|x: CoinTask| task_view(x))[i] == task_view(out@[i]));
                assert(task_has_code(items@[i]));
            }
        }
    }
    out
}

// ---------------------------------------------------------------- posts

/// Whether the current user liked a post: `selfOperation.liked` where it
/// is a boolean.
pub open spec fn liked_of(v: JsonValue) -> Option<bool> {
    match json_get_spec(v, "selfOperation"@) {
        Some(o) => match json_get_spec(o, "liked"@) {
            Some(JsonValue::Bool(b)) => Some(b),
            _ => None,
        },
        None => None,
    }
}

/// A post: its `postId` (else its `id`), required, and whether it is
/// liked.
pub open spec fn post_item(v: JsonValue) -> Option<(Seq<char>, Option<bool>)> {
    match either_text(v, "postId"@, "id"@) {
        Some(id) => Some((id, liked_of(v))),
        None => None,
    }
}

/// The posts of a post list, in order, skipping items without an id.
pub open spec fn post_items_of(items: Seq<JsonValue>) -> Seq<(Seq<char>, Option<bool>)>
    decreases items.len(),
{
    if items.len() == 0 {
        Seq::empty()
    } else {
        let p = post_items_of(items.drop_last());
        match post_item(items.last()) {
            Some(x) => p.push(x),
            None => p,
        }
    }
}

/// The view of a post.
pub open spec fn post_view(p: RecommendPost) -> (Seq<char>, Option<bool>) {
    (p.post_id@, p.liked)
}

/// Reads whether the current user liked the post `v`.
pub fn liked(v: &JsonValue) -> (r: Option<bool>)
    ensures
        r == liked_of(*v),
{
    match v.get("selfOperation") {
        Some(o) => match o.get("liked") {
            Some(l) => l.as_bool(),
            None => None,
        },
        None => None,
    }
}

/// A post carries its own item's fields: where every item has an id
/// (`postId`, else `id`), there is one post per item, in order, with that
/// id and the item's `selfOperation.liked` where it is a boolean.
pub proof fn lemma_posts_follow_items(items: Seq<JsonValue>)
    requires
        forall|i: int| 0 <= i < items.len() ==> #[trigger] post_id_text(items[i]) is Some,
    ensures
        post_items_of(items).len() == items.len(),
        forall|i: int| 0 <= i < items.len() ==> #[trigger] post_items_of(items)[i] == (post_id_text(items[i])->0, liked_member(items[i])),
    decreases items.len(),
{
    if items.len() > 0 {
        let p = items.drop_last();
        assert forall|i: int| 0 <= i < p.len() implies #[trigger] post_id_text(p[i]) is Some by {
            assert(p[i] == items[i]);
        }
        lemma_posts_follow_items(p);
        assert(post_id_text(items[items.len() - 1]) is Some);
        assert forall|i: int| 0 <= i < items.len() implies #[trigger] post_items_of(items)[i] == (post_id_text(items[i])->0, liked_member(items[i])) by {
            if i < p.len() {
                assert(p[i] == items[i]);
            }
        }
    }
}

/// Reads the posts of a post list.
pub fn posts_from(items: &Vec<JsonValue>) -> (r: Vec<RecommendPost>)
    ensures
        r@.map_values(|x: RecommendPost| post_view(x)) == post_items_of(items@),
        (forall|i: int| 0 <= i < items@.len() ==> #[trigger] post_id_text(items@[i]) is Some) ==> r@.len()
            == items@.len() && forall|i: int| 0 <= i < r@.len() ==> Some((#[trigger] r@[i]).post_id@) == post_id_text(items@[i]) && r@[i].liked == liked_member(items@[i]),
{
    let mut out: Vec<RecommendPost> = Vec::new();
    let mut i: usize = 0;
    while i < items.len()
        invariant
            i <= items@.len(),
            out@.map_values(|x: RecommendPost| post_view(x)) == post_items_of(items@.take(i as int)),
        decreases items@.len() - i,
    {
        proof {
            assert(items@.take(i + 1).drop_last() =~= items@.take(i as int));
            assert(items@.take(i + 1).last() == items@[i as int]);
        }
        let v = &items[i];
        match either_of(v, "postId", "id") {
            Some(id) => {
                let p = RecommendPost { post_id: id, liked: liked(v) };
                let ghost before = out@;
                out.push(p);
                proof {
                    assert(out@.map_values(|x: RecommendPost| post_view(x)) =~= before.map_values(
                        |x: RecommendPost| post_view(x),
                    ).push(post_view(out@.last())));
                }
            },
            None => {},
        }
        i = i + 1;
    }
    proof {
        assert(items@.take(items@.len() as int) =~= items@);
        if forall|i: int| 0 <= i < items@.len() ==> #[trigger] post_id_text(items@[i]) is Some {
            lemma_posts_follow_items(items@);
            assert forall|i: int| 0 <= i < out@.len() implies Some((#[trigger] out@[i]).post_id@) == post_id_text(items@[i]) && out@[i].liked == liked_member(items@[i]) by {
                assert(out@.map_values(|x: RecommendPost| post_view(x))[i] == post_view(out@[i]));
            }
        }
    }
    out
}

// ---------------------------------------------------------------- replies

/// The items of the member `key` of `v`, where it is an array.
pub open spec fn array_at(v: JsonValue, key: Seq<char>) -> Option<Vec<JsonValue>> {
    array_items(json_get_spec(v, key))
}

/// The items of `v.outer.inner`, where it is an array.
pub open spec fn nested_array(v: JsonValue, outer: Seq<char>, inner: Seq<char>) -> Option<Vec<JsonValue>> {
    match json_get_spec(v, outer) {
        Some(o) => array_at(o, inner),
        None => None,
    }
}

fn array_of<'a>(v: &'a JsonValue, key: &str) -> (r: Option<&'a Vec<JsonValue>>)
    ensures
        match r {
            Some(a) => array_at(*v, key@) == Some(*a),
            None => array_at(*v, key@) is None,
        },
{
    match v.get(key) {
        Some(x) => x.as_array(),
        None => None,
    }
}

fn nested_array_of<'a>(v: &'a JsonValue, outer: &str, inner: &str) -> (r: Option<&'a Vec<JsonValue>>)
    ensures
        match r {
            Some(a) => nested_array(*v, outer@, inner@) == Some(*a),
            None => nested_array(*v, outer@, inner@) is None,
        },
{
    match v.get(outer) {
        Some(o) => array_of(o, inner),
        None => None,
    }
}

/// A password or SMS login reply: accepted (2xx, code 0) with
/// `result.token` and `result.userId`, or `None`.
pub fn login_reply(status: u16, code: i64, full: &JsonValue) -> (r: Option<(String, String)>)
    ensures
        match r {
            Some((t, u)) => response_ok_spec(status, code) && nested_text(*full, "result"@, "token"@)
                == Some(t@) && nested_text(*full, "result"@, "userId"@) == Some(u@),
            None => !response_ok_spec(status, code) || nested_text(*full, "result"@, "token"@) is None
                || nested_text(*full, "result"@, "userId"@) is None,
        },
{
    let token = nested_of(full, "result", "token");
    let user_id = nested_of(full, "result", "userId");
    match (response_ok(status, code), token, user_id) {
        (true, Some(t), Some(u)) => Some((t, u)),
        _ => None,
    }
}

/// A user-centre login reply: accepted with `data.accessToken`,
/// `data.refreshToken` and `data.uid`, or `None`.
pub fn center_reply(status: u16, code: i64, full: &JsonValue) -> (r: Option<(String, String, String)>)
    ensures
        match r {
            Some((a, f, u)) => response_ok_spec(status, code) && nested_text(*full, "data"@, "accessToken"@)
                == Some(a@) && nested_text(*full, "data"@, "refreshToken"@) == Some(f@) && nested_text(
                *full,
                "data"@,
                "uid"@,
            ) == Some(u@),
            None => !response_ok_spec(status, code) || nested_text(*full, "data"@, "accessToken"@) is None
                || nested_text(*full, "data"@, "refreshToken"@) is None || nested_text(
                *full,
                "data"@,
                "uid"@,
            ) is None,
        },
{
    let access = nested_of(full, "data", "accessToken");
    let refresh = nested_of(full, "data", "refreshToken");
    let uid = nested_of(full, "data", "uid");
    match (response_ok(status, code), access, refresh, uid) {
        (true, Some(a), Some(f), Some(u)) => Some((a, f, u)),
        _ => None,
    }
}

/// A refresh-token reply: accepted with `data.accessToken` and
/// `data.refreshToken`, and `data.uid` where present; or `None`.
pub fn refresh_reply(status: u16, code: i64, full: &JsonValue) -> (r: Option<(String, String, Option<String>)>)
    ensures
        match r {
            Some((a, f, u)) => response_ok_spec(status, code) && nested_text(*full, "data"@, "accessToken"@)
                == Some(a@) && nested_text(*full, "data"@, "refreshToken"@) == Some(f@) && opt_view(u)
                == nested_text(*full, "data"@, "uid"@),
            None => !response_ok_spec(status, code) || nested_text(*full, "data"@, "accessToken"@) is None
                || nested_text(*full, "data"@, "refreshToken"@) is None,
        },
{
    let access = nested_of(full, "data", "accessToken");
    let refresh = nested_of(full, "data", "refreshToken");
    let uid = nested_of(full, "data", "uid");
    match (response_ok(status, code), access, refresh) {
        (true, Some(a), Some(f)) => Some((a, f, uid)),
        _ => None,
    }
}

/// `data.days` read as an `i64`.
pub open spec fn days_of(full: JsonValue) -> Option<i64> {
    match json_get_spec(full, "data"@) {
        Some(d) => match json_get_spec(d, "days"@) {
            Some(x) => scalar_i64(x),
            None => None,
        },
        None => None,
    }
}

/// A check-in state reply: accepted with `data.days` as an integer, or
/// `None`.
pub fn days_reply(status: u16, code: i64, full: &JsonValue) -> (r: Option<i64>)
    ensures
        r == (if response_ok_spec(status, code) {
            days_of(*full)
        } else {
            None
        }),
{
    let days = match full.get("data") {
        Some(d) => match d.get("days") {
            Some(x) => value_to_i64(x),
            None => None,
        },
        None => None,
    };
    if response_ok(status, code) {
        days
    } else {
        None
    }
}

/// A role-list reply: accepted with `data.roles` an array, whose roles are
/// read; or `None`.
pub fn roles_reply(status: u16, code: i64, full: &JsonValue) -> (r: Option<Vec<GameRoleRaw>>)
    ensures
        match r {
            Some(v) => response_ok_spec(status, code) && (nested_array(*full, "data"@, "roles"@) matches Some(
                a,
            ) && v@.map_values(|x: GameRoleRaw| role_raw_view(x)) == role_items(a@)),
            None => !response_ok_spec(status, code) || nested_array(*full, "data"@, "roles"@) is None,
        },
{
    match nested_array_of(full, "data", "roles") {
        Some(a) if response_ok(status, code) => Some(roles_from(a)),
        _ => None,
    }
}

/// A record-card reply: accepted with `data` an array, whose cards are
/// read; or `None`.
pub fn cards_reply(status: u16, code: i64, full: &JsonValue) -> (r: Option<Vec<GameRecordCard>>)
    ensures
        match r {
            Some(v) => response_ok_spec(status, code) && (array_at(*full, "data"@) matches Some(a)
                && v@.map_values(|x: GameRecordCard| card_view(x)) == card_items(a@)),
            None => !response_ok_spec(status, code) || array_at(*full, "data"@) is None,
        },
{
    match array_of(full, "data") {
        Some(a) if response_ok(status, code) => Some(cards_from(a)),
        _ => None,
    }
}

/// A reward-list reply: accepted with `data` an array, whose rewards are
/// read; or `None`.
pub fn rewards_reply(status: u16, code: i64, full: &JsonValue) -> (r: Option<Vec<(String, i64)>>)
    ensures
        match r {
            Some(v) => response_ok_spec(status, code) && (array_at(*full, "data"@) matches Some(a)
                && v@.len() == a@.len() && forall|i: int|
                0 <= i < v@.len() ==> ((#[trigger] v@[i]).0@, v@[i].1) == reward_item(a@[i])),
            None => !response_ok_spec(status, code) || array_at(*full, "data"@) is None,
        },
{
    match array_of(full, "data") {
        Some(a) if response_ok(status, code) => Some(rewards_from(a)),
        _ => None,
    }
}

/// A task-list reply: accepted with `data.task_list1` an array, whose tasks
/// are read; or `None`.
pub fn tasks_reply(status: u16, code: i64, full: &JsonValue) -> (r: Option<Vec<CoinTask>>)
    ensures
        match r {
            Some(v) => response_ok_spec(status, code) && (nested_array(*full, "data"@, "task_list1"@) matches Some(
                a,
            ) && v@.map_values(|x: CoinTask| task_view(x)) == task_items(a@)),
            None => !response_ok_spec(status, code) || nested_array(*full, "data"@, "task_list1"@) is None,
        },
{
    match nested_array_of(full, "data", "task_list1") {
        Some(a) if response_ok(status, code) => Some(tasks_from(a)),
        _ => None,
    }
}

/// A recommended-post reply: accepted with a post list (see `post_items`),
/// whose posts are read; or `None`.
pub fn posts_reply(status: u16, code: i64, full: &JsonValue) -> (r: Option<Vec<RecommendPost>>)
    ensures
        match r {
            Some(v) => response_ok_spec(status, code) && (post_items_spec(*full) matches Some(a)
                && v@.map_values(|x: RecommendPost| post_view(x)) == post_items_of(a@)),
            None => !response_ok_spec(status, code) || post_items_spec(*full) is None,
        },
{
    match post_items(full) {
        Some(a) if response_ok(status, code) => Some(posts_from(a)),
        _ => None,
    }
}

} // verus!

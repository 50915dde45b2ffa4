use taygedo::api::parse_body;
use taygedo::json::JsonValue;
use taygedo::replies::{cards_from, liked, posts_from, rewards_from, roles_from, tasks_from};

fn items(text: &str) -> Vec<JsonValue> {
    let (_, _, v) = parse_body(text, "ep", 200).ok().unwrap();
    match v {
        JsonValue::Object(members) => match members.into_iter().find(|(k, _)| k == "data") {
            Some((_, JsonValue::Array(a))) => a,
            _ => panic!("no data array"),
        },
        _ => panic!("not an object"),
    }
}

#[test]
fn roles_need_an_id() {
    let list = items(r#"{"data":[{"roleId":5050,"roleName":"A"},{"roleName":"B"},{"roleId":"7"}]}"#);
    let r = roles_from(&list);
    assert_eq!(r.len(), 2);
    assert_eq!(r[0].role_id, "5050");
    assert_eq!(r[0].role_name.as_deref(), Some("A"));
    assert_eq!(r[1].role_id, "7");
    assert!(r[1].role_name.is_none());
}

#[test]
fn cards_read_the_bound_role() {
    let list = items(r#"{"data":[{"gameId":1256,"gameName":"异环","bindRoleInfo":{"roleId":"9","roleName":"Z"}},{"gameName":"x"}]}"#);
    let c = cards_from(&list);
    assert_eq!(c.len(), 1);
    assert_eq!(c[0].game_id, "1256");
    assert_eq!(c[0].role_id.as_deref(), Some("9"));
    assert_eq!(c[0].role_name.as_deref(), Some("Z"));
}

#[test]
fn rewards_default_missing_fields() {
    let list = items(r#"{"data":[{"name":"coin","num":"3"},{}]}"#);
    let r = rewards_from(&list);
    assert_eq!(r, vec![("coin".to_string(), 3), (String::new(), 0)]);
}

#[test]
fn tasks_fall_back_to_task_key_and_skip_blank_codes() {
    let list = items(r#"{"data":[{"code":"share","completeTimes":1,"limitTimes":2},{"taskKey":"like_post_c"},{"code":""},{"code":null,"taskKey":"x"}]}"#);
    let t = tasks_from(&list);
    assert_eq!(t.len(), 2);
    assert_eq!((t[0].code.as_str(), t[0].complete_times, t[0].limit_times), ("share", 1, 2));
    assert_eq!((t[1].code.as_str(), t[1].complete_times, t[1].limit_times), ("like_post_c", 0, 0));
}

#[test]
fn posts_read_id_and_like() {
    let list = items(r#"{"data":[{"postId":"1","selfOperation":{"liked":true}},{"id":2,"selfOperation":{"liked":1}},{"title":"none"}]}"#);
    let p = posts_from(&list);
    assert_eq!(p.len(), 2);
    assert_eq!((p[0].post_id.as_str(), p[0].liked), ("1", Some(true)));
    assert_eq!((p[1].post_id.as_str(), p[1].liked), ("2", None));
    assert_eq!(liked(&list[0]), Some(true));
}

use taygedo::replies::{center_reply, days_reply, login_reply, posts_reply, refresh_reply, tasks_reply};

fn reply(text: &str) -> (i64, JsonValue) {
    let (code, _, v) = parse_body(text, "ep", 200).ok().unwrap();
    (code, v)
}

#[test]
fn replies_need_status_code_and_fields() {
    let (c, v) = reply(r#"{"code":0,"result":{"token":"t","userId":12}}"#);
    assert_eq!(login_reply(200, c, &v), Some(("t".to_string(), "12".to_string())));
    assert_eq!(login_reply(500, c, &v), None);
    let (c, v) = reply(r#"{"code":0,"result":{"token":"t"}}"#);
    assert_eq!(login_reply(200, c, &v), None);
    let (c, v) = reply(r#"{"code":0,"data":{"accessToken":"a","refreshToken":"r","uid":"u"}}"#);
    assert_eq!(center_reply(200, c, &v), Some(("a".to_string(), "r".to_string(), "u".to_string())));
    assert_eq!(refresh_reply(200, c, &v), Some(("a".to_string(), "r".to_string(), Some("u".to_string()))));
    let (c, v) = reply(r#"{"code":0,"data":{"accessToken":"a","refreshToken":"r"}}"#);
    assert_eq!(center_reply(200, c, &v), None);
    assert_eq!(refresh_reply(200, c, &v), Some(("a".to_string(), "r".to_string(), None)));
    let (c, v) = reply(r#"{"code":0,"data":{"days":"5"}}"#);
    assert_eq!(days_reply(200, c, &v), Some(5));
    let (c, v) = reply(r#"{"code":3,"data":{"days":5}}"#);
    assert_eq!(days_reply(200, c, &v), None);
    let (c, v) = reply(r#"{"code":0,"data":{"task_list1":[{"code":"share"}]}}"#);
    assert_eq!(tasks_reply(200, c, &v).unwrap().len(), 1);
    let (c, v) = reply(r#"{"code":0,"data":{"posts":[{"postId":"1"}]}}"#);
    assert_eq!(posts_reply(200, c, &v).unwrap()[0].post_id, "1");
    let (c, v) = reply(r#"{"code":0,"data":{}}"#);
    assert!(posts_reply(200, c, &v).is_none());
}

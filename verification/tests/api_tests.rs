use taygedo::api::{
    api_error, body_is_blank, empty_body_error, invalid_json_error, is_ok, needs_compat_login,
    refresh_rejected, response_code, response_msg, response_ok, send_captcha_accepted, url_encode,
    parse_body, post_items, value_to_i64, value_to_string,
};
use taygedo::json::JsonValue;

#[test]
fn status_checks() {
    assert!(is_ok(200));
    assert!(is_ok(299));
    assert!(!is_ok(300));
    assert!(response_ok(204, 0));
    assert!(!response_ok(200, 1));
}

#[test]
fn api_error_messages() {
    assert_eq!(api_error("gameSignin", 200, 1, "  今日已签到 ").0, "gameSignin：今日已签到（HTTP 200，code=1）");
    assert_eq!(api_error("likePost", 500, -1, "OK").0, "likePost 请求失败（HTTP 500，code=-1，msg=OK）");
    assert_eq!(api_error("x", 401, -1, "").0, "x 请求失败（HTTP 401，code=-1，msg=）");
    assert_eq!(empty_body_error("e", 502).0, "e 返回了无效 JSON（HTTP 502，响应为空）");
    assert_eq!(invalid_json_error("e", 200).0, "e 返回了无效 JSON（HTTP 200）");
    assert_eq!(refresh_rejected().0, "REFRESH_REJECTED_402: refreshToken 已失效，请重新登录");
}

#[test]
fn captcha_and_login_decisions() {
    assert!(send_captcha_accepted(200, 0, ""));
    assert!(send_captcha_accepted(200, 1, "短信正在发送中"));
    assert!(!send_captcha_accepted(200, 1, "频繁"));
    assert!(!send_captcha_accepted(500, 0, ""));
    assert!(needs_compat_login(200, 1, " 系统错误 "));
    assert!(!needs_compat_login(200, 0, "系统错误"));
}

#[test]
fn url_encoding() {
    assert_eq!(url_encode("a b&c=d/é"), "a+b%26c%3Dd%2F%C3%A9");
}

#[test]
fn json_field_reading() {
    assert_eq!(value_to_i64(&JsonValue::Int(-3)), Some(-3));
    assert_eq!(value_to_i64(&JsonValue::UInt(u64::MAX)), None);
    assert_eq!(value_to_i64(&JsonValue::Str("-9223372036854775808".to_string())), Some(i64::MIN));
    assert_eq!(value_to_i64(&JsonValue::Str("9223372036854775808".to_string())), None);
    assert_eq!(value_to_i64(&JsonValue::Str("+12".to_string())), Some(12));
    assert_eq!(value_to_i64(&JsonValue::Str("-+12".to_string())), None);
    assert_eq!(value_to_i64(&JsonValue::Str(" 1".to_string())), None);
    assert_eq!(value_to_i64(&JsonValue::Float("1.5".to_string())), None);
    assert_eq!(value_to_i64(&JsonValue::Bool(true)), None);
    assert_eq!(value_to_string(&JsonValue::Int(-42)).as_deref(), Some("-42"));
    assert_eq!(value_to_string(&JsonValue::UInt(18446744073709551615)).as_deref(), Some("18446744073709551615"));
    assert_eq!(value_to_string(&JsonValue::Null), None);
    assert_eq!(value_to_string(&JsonValue::Array(vec![])), None);
}

#[test]
fn response_envelope_fields() {
    assert!(body_is_blank(" \n\t"));
    assert!(!body_is_blank(" {} "));
    assert_eq!(response_code(None), -1);
    assert_eq!(response_code(Some(&JsonValue::Str("7".to_string()))), 7);
    assert_eq!(response_code(Some(&JsonValue::Str("x".to_string()))), -1);
    assert_eq!(response_msg(Some(&JsonValue::Str("a".to_string())), Some(&JsonValue::Str("b".to_string()))), "a");
    assert_eq!(response_msg(None, Some(&JsonValue::Str("b".to_string()))), "b");
    assert_eq!(response_msg(Some(&JsonValue::Bool(true)), Some(&JsonValue::Str("b".to_string()))), "");
    assert_eq!(response_msg(None, None), "");
}

#[test]
fn parse_body_reads_code_and_message() {
    let (code, msg, v) = parse_body(r#"{"code":"3","message":"slow down","data":{"days":[1,2]}}"#, "ep", 200).ok().unwrap();
    assert_eq!(code, 3);
    assert_eq!(msg, "slow down");
    let days = v.get("data").and_then(|d| d.get("days")).and_then(|d| d.as_array()).unwrap();
    assert_eq!(days.len(), 2);
    assert_eq!(value_to_i64(&days[1]), Some(2));
    let (code, msg, _) = parse_body(r#"{"msg":7}"#, "ep", 200).ok().unwrap();
    assert_eq!(code, -1);
    assert_eq!(msg, "7");
    let (_, _, v) = parse_body(r#"{"ok":true,"n":-5,"f":1.5}"#, "ep", 200).ok().unwrap();
    assert_eq!(v.get("ok").and_then(|x| x.as_bool()), Some(true));
    assert_eq!(v.get("n").and_then(value_to_i64), Some(-5));
    assert_eq!(v.get("f").and_then(value_to_string).as_deref(), Some("1.5"));
    assert!(v.get("missing").is_none());
}

#[test]
fn parse_body_errors() {
    assert_eq!(parse_body(" \n ", "getX", 401).err().unwrap().0, "getX 返回了无效 JSON（HTTP 401，响应为空）");
    assert_eq!(parse_body("<html>", "getX", 502).err().unwrap().0, "getX 返回了无效 JSON（HTTP 502）");
    assert_eq!(parse_body("{\"code\":0", "getX", 200).err().unwrap().0, "getX 返回了无效 JSON（HTTP 200）");
}

#[test]
fn post_items_tries_list_then_posts_then_data() {
    let (_, _, v) = parse_body(r#"{"code":0,"data":{"hasMore":true,"posts":[{"postId":"9"}]}}"#, "ep", 200).ok().unwrap();
    let items = post_items(&v).unwrap();
    assert_eq!(items.len(), 1);
    assert_eq!(items[0].get("postId").and_then(value_to_string).as_deref(), Some("9"));
    let (_, _, v) = parse_body(r#"{"data":{"list":[1,2],"posts":[3]}}"#, "ep", 200).ok().unwrap();
    assert_eq!(post_items(&v).unwrap().len(), 2);
    let (_, _, v) = parse_body(r#"{"data":[1,2,3]}"#, "ep", 200).ok().unwrap();
    assert_eq!(post_items(&v).unwrap().len(), 3);
    let (_, _, v) = parse_body(r#"{"data":{"posts":{}}}"#, "ep", 200).ok().unwrap();
    assert!(post_items(&v).is_none());
}

#[test]
fn url_encode_matches_the_form_serializer() {
    for s in ["", "a b", "*-._~!'()", "é€𝄞", "k=v&x", "ABCxyz019"] {
        let expected: String = url::form_urlencoded::byte_serialize(s.as_bytes()).collect();
        assert_eq!(url_encode(s), expected);
    }
}

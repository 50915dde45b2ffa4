//! Platform API values and the checks and error texts the API client uses.

use vstd::prelude::*;

use crate::form::{form_component, form_component_spec};
use crate::primitives::{lowercase_spec, to_lowercase};
use crate::json::{json_get_spec, json_parse, json_parse_spec, JsonValue};
use crate::runner::opt_view;
use crate::text::{
    chars_of, contains_seq, decimal, parse_i64, parse_i64_chars, push_i64, push_str,
    push_zero_padded, signed_decimal, str_contains, str_eq, string_from_chars, trim, trim_chars,
};

verus! {

/// An API failure with its message.
pub struct ApiError(pub String);

/// A role as the role list returns it.
pub struct GameRoleRaw {
    pub role_id: String,
    pub role_name: Option<String>,
}

/// A game record card with its bound role.
pub struct GameRecordCard {
    pub game_id: String,
    pub game_name: Option<String>,
    pub role_id: Option<String>,
    pub role_name: Option<String>,
}

/// A coin task and its progress.
pub struct CoinTask {
    pub code: String,
    pub complete_times: i64,
    pub limit_times: i64,
}

/// A recommended post.
pub struct RecommendPost {
    pub post_id: String,
    pub liked: Option<bool>,
}

/// A 2xx HTTP status.
pub fn is_ok(status: u16) -> (b: bool)
    ensures
        b == (200 <= status < 300),
{
    200 <= status && status < 300
}

/// A 2xx status and code 0.
pub open spec fn response_ok_spec(status: u16, code: i64) -> bool {
    200 <= status < 300 && code == 0
}

/// The API answered with a 2xx status and code 0.
pub fn response_ok(status: u16, code: i64) -> (b: bool)
    ensures
        b == response_ok_spec(status, code),
{
    is_ok(status) && code == 0
}

/// The message of an API failure: `{endpoint}：{msg}（HTTP {status}，code={code}）`
/// when the trimmed message says something other than `ok` (in any case),
/// otherwise `{endpoint} 请求失败（HTTP {status}，code={code}，msg={msg}）`.
pub open spec fn api_error_spec(endpoint: Seq<char>, status: u16, code: i64, msg: Seq<char>) -> Seq<char> {
    let m = trim(msg);
    if m.len() > 0 && lowercase_spec(m) != "ok"@ {
        endpoint + "："@ + m + "（HTTP "@ + decimal(status as nat) + "，code="@ + signed_decimal(
            code as int,
        ) + "）"@
    } else {
        endpoint + " 请求失败（HTTP "@ + decimal(status as nat) + "，code="@ + signed_decimal(
            code as int,
        ) + "，msg="@ + m + "）"@
    }
}

/// Builds the error of a failed API call.
pub fn api_error(endpoint: &str, status: u16, code: i64, msg: &str) -> (e: ApiError)
    ensures
        e.0@ == api_error_spec(endpoint@, status, code, msg@),
{
    let mc = trim_chars(&chars_of(msg));
    let m = string_from_chars(&mc);
    let lower = to_lowercase(m.as_str());
    let mut out: Vec<char> = Vec::new();
    push_str(&mut out, endpoint);
    if mc.len() > 0 && !str_eq(lower.as_str(), "ok") {
        push_str(&mut out, "：");
        push_str(&mut out, m.as_str());
        push_str(&mut out, "（HTTP ");
        push_zero_padded(&mut out, status as u64, 0);
        push_str(&mut out, "，code=");
        push_i64(&mut out, code);
        push_str(&mut out, "）");
    } else {
        push_str(&mut out, " 请求失败（HTTP ");
        push_zero_padded(&mut out, status as u64, 0);
        push_str(&mut out, "，code=");
        push_i64(&mut out, code);
        push_str(&mut out, "，msg=");
        push_str(&mut out, m.as_str());
        push_str(&mut out, "）");
    }
    proof {
        assert(out@ =~= api_error_spec(endpoint@, status, code, msg@));
    }
    ApiError(string_from_chars(&out))
}

/// The SMS-code request was accepted: a 2xx status and code 0, or status
/// 200 with code 1 and a message saying the SMS is being sent.
pub fn send_captcha_accepted(status: u16, code: i64, msg: &str) -> (b: bool)
    ensures
        b == (200 <= status < 300 && (code == 0 || (status == 200 && code == 1 && contains_seq(
            msg@,
            "短信正在发送"@,
        )))),
{
    let sending_ok = status == 200 && code == 1 && str_contains(msg, "短信正在发送");
    !(!is_ok(status) || (code != 0 && !sending_ok))
}

/// The official user-centre login answered status 200, code 1 and
/// `系统错误` (trimmed): the compatible login profile is tried next.
pub fn needs_compat_login(status: u16, code: i64, msg: &str) -> (b: bool)
    ensures
        b == (status == 200 && code == 1 && trim(msg@) == "系统错误"@),
{
    if status == 200 && code == 1 {
        let m = string_from_chars(&trim_chars(&chars_of(msg)));
        str_eq(m.as_str(), "系统错误")
    } else {
        false
    }
}

/// The error of a refresh token the server rejected with HTTP 402.
pub fn refresh_rejected() -> (e: ApiError)
    ensures
        e.0@ == "REFRESH_REJECTED_402: refreshToken 已失效，请重新登录"@,
{
    ApiError("REFRESH_REJECTED_402: refreshToken 已失效，请重新登录".to_owned())
}

/// The message of an empty response body.
pub open spec fn empty_body_text(endpoint: Seq<char>, status: u16) -> Seq<char> {
    endpoint + " 返回了无效 JSON（HTTP "@ + decimal(status as nat) + "，响应为空）"@
}

/// The message of a response body that is not JSON.
pub open spec fn invalid_json_text(endpoint: Seq<char>, status: u16) -> Seq<char> {
    endpoint + " 返回了无效 JSON（HTTP "@ + decimal(status as nat) + "）"@
}

/// The error of an empty response body.
pub fn empty_body_error(endpoint: &str, status: u16) -> (e: ApiError)
    ensures
        e.0@ == empty_body_text(endpoint@, status),
{
    let mut out: Vec<char> = Vec::new();
    push_str(&mut out, endpoint);
    push_str(&mut out, " 返回了无效 JSON（HTTP ");
    push_zero_padded(&mut out, status as u64, 0);
    push_str(&mut out, "，响应为空）");
    ApiError(string_from_chars(&out))
}

/// The error of a response body that is not JSON.
pub fn invalid_json_error(endpoint: &str, status: u16) -> (e: ApiError)
    ensures
        e.0@ == invalid_json_text(endpoint@, status),
{
    let mut out: Vec<char> = Vec::new();
    push_str(&mut out, endpoint);
    push_str(&mut out, " 返回了无效 JSON（HTTP ");
    push_zero_padded(&mut out, status as u64, 0);
    push_str(&mut out, "）");
    ApiError(string_from_chars(&out))
}

/// Form-urlencodes one query value.
pub fn url_encode(s: &str) -> (r: String)
    ensures
        r@ == form_component_spec(s@),
{
    form_component(s)
}

/// A field as an `i64`: an integer that fits, or a string that parses as one.
pub open spec fn scalar_i64(v: JsonValue) -> Option<i64> {
    match v {
        JsonValue::Int(i) => Some(i),
        JsonValue::UInt(u) => if u <= i64::MAX {
            Some(u as i64)
        } else {
            None
        },
        JsonValue::Str(s) => parse_i64(s@),
        _ => None,
    }
}

/// A field as text: a string as it is, a number as its decimal text.
pub open spec fn scalar_text(v: JsonValue) -> Option<Seq<char>> {
    match v {
        JsonValue::Str(s) => Some(s@),
        JsonValue::Int(i) => Some(signed_decimal(i as int)),
        JsonValue::UInt(u) => Some(decimal(u as nat)),
        JsonValue::Float(t) => Some(t@),
        _ => None,
    }
}

/// Reads a field as an `i64`.
pub fn value_to_i64(v: &JsonValue) -> (r: Option<i64>)
    ensures
        r == scalar_i64(*v),
{
    match v {
        JsonValue::Int(i) => Some(*i),
        JsonValue::UInt(u) => if *u <= 0x7fff_ffff_ffff_ffffu64 {
            Some(*u as i64)
        } else {
            None
        },
        JsonValue::Str(s) => parse_i64_chars(&chars_of(s.as_str())),
        _ => None,
    }
}

/// Reads a field as text.
pub fn value_to_string(v: &JsonValue) -> (r: Option<String>)
    ensures
        opt_view(r) == scalar_text(*v),
{
    match v {
        JsonValue::Str(s) => Some(s.clone()),
        JsonValue::Int(i) => {
            let mut out: Vec<char> = Vec::new();
            push_i64(&mut out, *i);
            Some(string_from_chars(&out))
        },
        JsonValue::UInt(u) => {
            let mut out: Vec<char> = Vec::new();
            push_zero_padded(&mut out, *u, 0);
            Some(string_from_chars(&out))
        },
        JsonValue::Float(t) => Some(t.clone()),
        _ => None,
    }
}

/// A response body with nothing but whitespace.
pub fn body_is_blank(text: &str) -> (b: bool)
    ensures
        b == (trim(text@).len() == 0),
{
    trim_chars(&chars_of(text)).len() == 0
}

/// The response code: the `code` field as an `i64`, -1 where it is
/// missing or not an integer.
pub fn response_code(code: Option<&JsonValue>) -> (c: i64)
    ensures
        c == match code {
            Some(v) => match scalar_i64(*v) {
                Some(i) => i,
                None => -1i64,
            },
            None => -1i64,
        },
{
    match code {
        Some(v) => match value_to_i64(v) {
            Some(i) => i,
            None => -1,
        },
        None => -1,
    }
}

/// The response message: the `msg` field where there is one, else the
/// `message` field, as text; empty where neither gives text.
pub fn response_msg(msg: Option<&JsonValue>, message: Option<&JsonValue>) -> (m: String)
    ensures
        m@ == match (match msg {
            Some(v) => scalar_text(*v),
            None => match message {
                Some(v) => scalar_text(*v),
                None => None,
            },
        }) {
            Some(t) => t,
            None => Seq::<char>::empty(),
        },
{
    let picked = match msg {
        Some(v) => Some(v),
        None => message,
    };
    let text = match picked {
        Some(v) => value_to_string(v),
        None => None,
    };
    match text {
        Some(t) => t,
        None => {
            proof {
                reveal_strlit("");
            }
            "".to_owned()
        },
    }
}

/// The code of a response body: its `code` member read as an `i64`, -1
/// where it is missing or not an integer.
pub open spec fn body_code(v: JsonValue) -> i64 {
    match json_get_spec(v, "code"@) {
        Some(c) => match scalar_i64(c) {
            Some(i) => i,
            None => -1i64,
        },
        None => -1i64,
    }
}

/// The message of a response body: its `msg` member where there is one,
/// else its `message` member, as text; empty where neither gives text.
pub open spec fn body_msg(v: JsonValue) -> Seq<char> {
    match (match json_get_spec(v, "msg"@) {
        Some(m) => scalar_text(m),
        None => match json_get_spec(v, "message"@) {
            Some(m) => scalar_text(m),
            None => None,
        },
    }) {
        Some(t) => t,
        None => Seq::<char>::empty(),
    }
}

/// How the code and message of a reply are read: an integer `code` is the
/// code (a missing one gives -1, as does one that is not a number), a
/// numeric string `code` is its number; a string `msg` is the message, and
/// `message` is read only where there is no `msg`.
pub proof fn lemma_body_fields(v: JsonValue, i: i64, t: Seq<char>)
    ensures
        json_get_spec(v, "code"@) == Some(JsonValue::Int(i)) ==> body_code(v) == i,
        json_get_spec(v, "code"@) is None ==> body_code(v) == -1,
        json_get_spec(v, "code"@) matches Some(JsonValue::Bool(_)) ==> body_code(v) == -1,
        (json_get_spec(v, "code"@) matches Some(JsonValue::Str(c)) && parse_i64(c@) == Some(i)) ==> body_code(v) == i,
        (json_get_spec(v, "msg"@) matches Some(JsonValue::Str(m)) && m@ == t) ==> body_msg(v) == t,
        json_get_spec(v, "msg"@) is None ==> ((json_get_spec(v, "message"@) matches Some(
            JsonValue::Str(m),
        ) && m@ == t) ==> body_msg(v) == t),
        (json_get_spec(v, "msg"@) is None && json_get_spec(v, "message"@) is None) ==> body_msg(v)
            == Seq::<char>::empty(),
{
}

/// Reads the code and the message of a parsed response body.
pub fn body_fields(v: &JsonValue) -> (r: (i64, String))
    ensures
        r.0 == body_code(*v),
        r.1@ == body_msg(*v),
{
    let code = response_code(v.get("code"));
    let msg = response_msg(v.get("msg"), v.get("message"));
    (code, msg)
}

/// Reads a response body: a blank body and text that is not JSON are
/// errors naming the endpoint and the status; a JSON body gives its code,
/// its message and the whole value.
pub fn parse_body(text: &str, endpoint: &str, status: u16) -> (r: Result<(i64, String, JsonValue), ApiError>)
    ensures
        trim(text@).len() == 0 ==> (r matches Err(e) && e.0@ == empty_body_text(endpoint@, status)),
        trim(text@).len() > 0 ==> match json_parse_spec(text@) {
            None => r matches Err(e) && e.0@ == invalid_json_text(endpoint@, status),
            Some(v) => r matches Ok((c, m, w)) && w == v && c == body_code(v) && m@ == body_msg(v),
        },
{
    if body_is_blank(text) {
        return Err(empty_body_error(endpoint, status));
    }
    match json_parse(text) {
        None => Err(invalid_json_error(endpoint, status)),
        Some(v) => {
            let (code, msg) = body_fields(&v);
            Ok((code, msg, v))
        },
    }
}

/// The items of `v` where it is an array.
pub open spec fn array_items(v: Option<JsonValue>) -> Option<Vec<JsonValue>> {
    match v {
        Some(JsonValue::Array(a)) => Some(a),
        _ => None,
    }
}

/// The posts of a recommended-post reply: the first array among
/// `data.list`, `data.posts` and `data` itself.
pub open spec fn post_items_spec(full: JsonValue) -> Option<Vec<JsonValue>> {
    match json_get_spec(full, "data"@) {
        Some(d) => match array_items(json_get_spec(d, "list"@)) {
            Some(a) => Some(a),
            None => match array_items(json_get_spec(d, "posts"@)) {
                Some(a) => Some(a),
                None => array_items(Some(d)),
            },
        },
        None => None,
    }
}

/// Finds the post list in a recommended-post reply.
pub fn post_items(full: &JsonValue) -> (r: Option<&Vec<JsonValue>>)
    ensures
        match r {
            Some(a) => post_items_spec(*full) == Some(*a),
            None => post_items_spec(*full) is None,
        },
{
    match full.get("data") {
        Some(d) => {
            match d.get("list") {
                Some(l) => match l.as_array() {
                    Some(a) => return Some(a),
                    None => {},
                },
                None => {},
            }
            match d.get("posts") {
                Some(p) => match p.as_array() {
                    Some(a) => return Some(a),
                    None => {},
                },
                None => {},
            }
            d.as_array()
        },
        None => None,
    }
}

} // verus!

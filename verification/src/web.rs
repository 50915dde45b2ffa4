//! Decisions of the web layer: origins, tokens, identities, the encryption
//! route of a request, password and user name changes and configuration
//! updates.

use vstd::prelude::*;

use crate::login::{mask_phone_text, mask_spec, maskable, masked_phone};
use crate::models::{default_lan_cidrs, default_lan_cidrs_spec, Config};
use crate::protocol::{has_entry, ParamMap};
use crate::runner::{opt_str_view, opt_view};
use crate::service::{crypto_policy_spec, normalize_crypto_policy};
use crate::text::{
    chars_of, contains_seq, find_char, first_index_of, occurs_at, parse_u64, parse_u64_chars,
    str_eq, string_from_chars, sub_chars, trim, trim_chars,
};
use crate::time::{valid_hhmm, valid_hhmm_spec};

verus! {

/// The encryption handshake path.
pub fn handshake_path() -> (p: &'static str)
    ensures
        p@ == "/api/crypto/handshake"@,
{
    "/api/crypto/handshake"
}

/// The identity a request was admitted with.
#[derive(Clone, Debug)]
pub struct AuthIdentity {
    pub username: Option<String>,
    /// Admitted by the no-auth mode (then there is no user name).
    pub via_no_auth: bool,
    pub token: Option<String>,
}

impl AuthIdentity {
    /// Who acts: the user name, `anonymous` under the no-auth mode.
    pub fn actor(&self) -> (a: &str)
        ensures
            a@ == match self.username {
                Some(u) => u@,
                None => "anonymous"@,
            },
    {
        match &self.username {
            Some(u) => u.as_str(),
            None => "anonymous",
        }
    }
}

/// The encrypted session a request came through.
#[derive(Clone, Debug)]
pub struct CryptoSid(pub String);

/// The encrypted session of a request, where it came through one.
#[derive(Clone, Debug)]
pub struct CryptoCtx(pub Option<String>);

/// The user name a login request defaults to.
pub fn default_username() -> (s: String)
    ensures
        s@ == "admin"@,
{
    "admin".to_owned()
}

/// The first position where `needle` occurs in `hay`.
#[verifier::opaque]
pub open spec fn first_occurrence(hay: Seq<char>, needle: Seq<char>) -> Option<int> {
    if exists|i: int| occurs_at(hay, needle, i) {
        Some(choose|i: int| occurs_at(hay, needle, i) && forall|j: int| 0 <= j < i ==> !occurs_at(hay, needle, j))
    } else {
        None
    }
}

fn find_seq(hay: &Vec<char>, needle: &Vec<char>) -> (r: Option<usize>)
    requires
        needle@.len() > 0,
    ensures
        match r {
            Some(i) => first_occurrence(hay@, needle@) == Some(i as int) && i + needle@.len() <= hay@.len(),
            None => first_occurrence(hay@, needle@) is None,
        },
{
    reveal(first_occurrence);
    let n = needle.len();
    if hay.len() < n {
        proof {
            assert forall|j: int| !occurs_at(hay@, needle@, j) by {}
        }
        return None;
    }
    let mut i: usize = 0;
    let last = hay.len() - n;
    assert(hay@.len() == hay.len());
    while i <= last
        invariant
            n == needle@.len(),
            n > 0,
            last + n == hay@.len(),
            hay@.len() <= usize::MAX,
            i <= hay@.len(),
            forall|j: int| 0 <= j < i ==> !occurs_at(hay@, needle@, j),
        decreases hay@.len() - i,
    {
        let part = sub_chars(hay, i, i + n);
        if crate::text::chars_eq(&part, needle) {
            proof {
                reveal(first_occurrence);
                assert(occurs_at(hay@, needle@, i as int));
                let w = choose|w: int|
                    occurs_at(hay@, needle@, w) && forall|j: int| 0 <= j < w ==> !occurs_at(hay@, needle@, j);
                if w < i {
                    assert(!occurs_at(hay@, needle@, w));
                }
                if w > i {
                    assert(!occurs_at(hay@, needle@, i as int));
                }
            }
            return Some(i);
        }
        i = i + 1;
    }
    proof {
        reveal(first_occurrence);
        assert forall|j: int| !occurs_at(hay@, needle@, j) by {
            if j >= i && occurs_at(hay@, needle@, j) {
                assert(j + n <= hay@.len());
            }
        }
    }
    None
}

/// `s` up to the first `c` (all of it where there is none).
pub open spec fn before_char(s: Seq<char>, c: char) -> Seq<char> {
    match first_index_of(s, c) {
        Some(i) => s.subrange(0, i),
        None => s,
    }
}

fn before_char_exec(v: &Vec<char>, c: char) -> (r: Vec<char>)
    ensures
        r@ == before_char(v@, c),
{
    match find_char(v, c) {
        Some(i) => sub_chars(v, 0, i),
        None => sub_chars(v, 0, v.len()),
    }
}

/// The text after the first `://`, all of it where there is none.
pub open spec fn after_scheme(t: Seq<char>) -> Seq<char> {
    match first_occurrence(t, "://"@) {
        Some(i) => t.subrange(i + 3, t.len() as int),
        None => t,
    }
}

/// The host of a `host:port` text: inside the brackets of an IPv6
/// literal, else before the first `:`.
pub open spec fn host_of(host_port: Seq<char>) -> Seq<char> {
    if host_port.len() > 0 && host_port[0] == '[' {
        before_char(host_port.drop_first(), ']')
    } else {
        before_char(host_port, ':')
    }
}

/// The host of `http://host:port/...` or `host:port`: the trimmed text
/// after the first `://`, up to the first `/`; for a bracketed IPv6
/// literal the part inside the brackets, otherwise the part before the
/// first `:`. Blank text has none.
pub open spec fn host_spec(s: Seq<char>) -> Option<Seq<char>> {
    let t = trim(s);
    if t.len() == 0 {
        None
    } else {
        Some(host_of(before_char(after_scheme(t), '/')))
    }
}

fn strip_scheme(t: &Vec<char>) -> (r: Vec<char>)
    ensures
        r@ == after_scheme(t@),
{
    let sep = chars_of("://");
    proof {
        reveal_strlit("://");
        assert(sep@ == "://"@);
        assert(sep@.len() == 3);
    }
    assert(t@.len() == t.len());
    match find_seq(t, &sep) {
        Some(i) => sub_chars(t, i + 3, t.len()),
        None => sub_chars(t, 0, t.len()),
    }
}

fn host_part(host_port: &Vec<char>) -> (r: Vec<char>)
    ensures
        r@ == host_of(host_port@),
{
    if host_port.len() > 0 && host_port[0] == '[' {
        let inner = sub_chars(host_port, 1, host_port.len());
        proof {
            assert(inner@ =~= host_port@.drop_first());
        }
        before_char_exec(&inner, ']')
    } else {
        before_char_exec(host_port, ':')
    }
}

/// Extracts the host of an origin or a `Host` header.
pub fn extract_host(s: &str) -> (r: Option<String>)
    ensures
        opt_view(r) == host_spec(s@),
{
    let t = trim_chars(&chars_of(s));
    if t.len() == 0 {
        return None;
    }
    let rest = strip_scheme(&t);
    let host_port = before_char_exec(&rest, '/');
    let h = host_part(&host_port);
    Some(string_from_chars(&h))
}

/// ASCII letters in lower case, every other character as it is.
pub open spec fn ascii_lower(c: char) -> char {
    if 'A' <= c && c <= 'Z' {
        ((c as u32) + 32) as char
    } else {
        c
    }
}

/// Equal up to ASCII case.
pub open spec fn eq_ignore_ascii_case_spec(a: Seq<char>, b: Seq<char>) -> bool {
    a.len() == b.len() && forall|i: int| 0 <= i < a.len() ==> ascii_lower(a[i]) == ascii_lower(b[i])
}

fn lower_char(c: char) -> (r: char)
    ensures
        r == ascii_lower(c),
{
    if 'A' <= c && c <= 'Z' {
        let b: u8 = (c as u32) as u8;
        let r = (b + 32) as char;
        proof {
            assert((r as u32) == (c as u32) + 32);
        }
        r
    } else {
        c
    }
}

/// Compares two strings up to ASCII case.
pub fn eq_ignore_ascii_case(a: &str, b: &str) -> (r: bool)
    ensures
        r == eq_ignore_ascii_case_spec(a@, b@),
{
    let x = chars_of(a);
    let y = chars_of(b);
    if x.len() != y.len() {
        return false;
    }
    let mut i: usize = 0;
    while i < x.len()
        invariant
            i <= x@.len(),
            x@ == a@,
            y@ == b@,
            x@.len() == y@.len(),
            forall|k: int| 0 <= k < i ==> ascii_lower(x@[k]) == ascii_lower(y@[k]),
        decreases x@.len() - i,
    {
        if lower_char(x[i]) != lower_char(y[i]) {
            return false;
        }
        i = i + 1;
    }
    true
}

/// An origin is allowed where it is not `null` and is listed (up to ASCII
/// case), or its host equals (up to ASCII case) the host of the request.
pub open spec fn origin_allowed_spec(origin: Seq<char>, allowed: Seq<Seq<char>>, host: Option<Seq<char>>) -> bool {
    if origin == "null"@ {
        false
    } else if exists|i: int| 0 <= i < allowed.len() && eq_ignore_ascii_case_spec(allowed[i], origin) {
        true
    } else {
        match (host_spec(origin), match host {
            Some(h) => host_spec(h),
            None => None,
        }) {
            (Some(a), Some(b)) => eq_ignore_ascii_case_spec(a, b),
            _ => false,
        }
    }
}

/// Decides whether the CORS headers may name `origin`.
pub fn is_origin_allowed(origin: &str, allowed: &[String], host: Option<&str>) -> (b: bool)
    ensures
        b == origin_allowed_spec(origin@, crate::lan::string_views(allowed@), opt_str_view(host)),
{
    if str_eq(origin, "null") {
        return false;
    }
    let mut i: usize = 0;
    while i < allowed.len()
        invariant
            i <= allowed@.len(),
            origin@ != "null"@,
            forall|k: int| 0 <= k < i ==> !eq_ignore_ascii_case_spec(allowed@[k]@, origin@),
        decreases allowed@.len() - i,
    {
        if eq_ignore_ascii_case(allowed[i].as_str(), origin) {
            proof {
                assert(crate::lan::string_views(allowed@)[i as int] == allowed@[i as int]@);
                assert(eq_ignore_ascii_case_spec(crate::lan::string_views(allowed@)[i as int], origin@));
            }
            return true;
        }
        i = i + 1;
    }
    proof {
        assert forall|k: int| 0 <= k < allowed@.len() implies !eq_ignore_ascii_case_spec(
            crate::lan::string_views(allowed@)[k],
            origin@,
        ) by {
            assert(crate::lan::string_views(allowed@)[k] == allowed@[k]@);
        }
    }
    let oh = extract_host(origin);
    let rh = match host {
        Some(h) => extract_host(h),
        None => None,
    };
    match (oh, rh) {
        (Some(a), Some(b)) => eq_ignore_ascii_case(a.as_str(), b.as_str()),
        _ => false,
    }
}

/// The bearer token of an `Authorization` header, trimmed; empty where
/// there is none.
pub open spec fn token_spec(authorization: Option<Seq<char>>) -> Seq<char> {
    match authorization {
        Some(a) => if a.len() >= 7 && a.subrange(0, 7) == "Bearer "@ {
            trim(a.subrange(7, a.len() as int))
        } else {
            Seq::empty()
        },
        None => Seq::empty(),
    }
}

/// Extracts the bearer token of a request.
pub fn extract_token(authorization: Option<&str>) -> (t: String)
    ensures
        t@ == token_spec(opt_str_view(authorization)),
{
    match authorization {
        Some(a) => {
            let v = chars_of(a);
            let prefix = chars_of("Bearer ");
            proof {
                reveal_strlit("Bearer ");
            }
            if v.len() >= 7 && crate::text::chars_eq(&sub_chars(&v, 0, 7), &prefix) {
                let rest = trim_chars(&sub_chars(&v, 7, v.len()));
                string_from_chars(&rest)
            } else {
                proof {
                    reveal_strlit("");
                }
                "".to_owned()
            }
        },
        None => {
            proof {
                reveal_strlit("");
            }
            "".to_owned()
        },
    }
}

/// A phone number shown in the account list: masked where it has seven or
/// more bytes.
pub fn mask_phone(p: Option<&str>) -> (r: Option<String>)
    requires
        p matches Some(x) ==> maskable(x@),
    ensures
        match p {
            Some(x) => r matches Some(m) && exists|head: Seq<char>, tail: Seq<char>|
                masked_phone(x@, head, tail) && m@ == mask_spec(x@, head, tail),
            None => r is None,
        },
{
    match p {
        Some(x) => Some(mask_phone_text(x)),
        None => None,
    }
}

/// Checks a new password: at least eight bytes and different from the old
/// one.
pub fn check_new_password(old_password: &str, new_password: &str) -> (r: Result<(), String>)
    ensures
        crate::crypto::utf8(new_password@).len() < 8 ==> (r matches Err(m) && m@ == "新密码至少 8 位"@),
        crate::crypto::utf8(new_password@).len() >= 8 && new_password@ == old_password@ ==> (r matches Err(
            m,
        ) && m@ == "新密码不能与原密码相同"@),
        crate::crypto::utf8(new_password@).len() >= 8 && new_password@ != old_password@ ==> r is Ok,
{
    let bytes = new_password.as_bytes();
    let n = bytes.len();
    proof {
        broadcast use vstd::utf8::group_utf8_lib;
        assert(bytes@ == crate::crypto::utf8(new_password@));
    }
    if n < 8 {
        return Err("新密码至少 8 位".to_owned());
    }
    if str_eq(new_password, old_password) {
        return Err("新密码不能与原密码相同".to_owned());
    }
    Ok(())
}

/// A character allowed in a user name.
pub open spec fn username_char(c: char) -> bool {
    ('a' <= c && c <= 'z') || ('A' <= c && c <= 'Z') || ('0' <= c && c <= '9') || c == '_' || c
        == '-' || c == '.'
}

/// The account a password change applies to: the trimmed new user name
/// where one is given (3 to 32 characters of letters, digits, `_`, `-`
/// and `.`), else the acting user.
pub open spec fn target_user_spec(new_username: Option<Seq<char>>, actor: Seq<char>) -> Result<Seq<char>, Seq<char>> {
    match new_username {
        Some(u) => {
            let t = trim(u);
            if t.len() == 0 {
                Ok(actor)
            } else if t.len() < 3 || t.len() > 32 {
                Err("账号名长度需在 3-32 个字符之间"@)
            } else if !(forall|i: int| 0 <= i < t.len() ==> username_char(t[i])) {
                Err("账号名只能包含字母、数字、下划线、连字符与点号"@)
            } else {
                Ok(t)
            }
        },
        None => Ok(actor),
    }
}

/// Decides the target account of a password change.
pub fn target_username(new_username: Option<&str>, actor: &str) -> (r: Result<String, String>)
    ensures
        match r {
            Ok(u) => target_user_spec(opt_str_view(new_username), actor@) == Ok::<Seq<char>, Seq<char>>(u@),
            Err(m) => target_user_spec(opt_str_view(new_username), actor@) == Err::<Seq<char>, Seq<char>>(m@),
        },
{
    match new_username {
        Some(u) => {
            let t = trim_chars(&chars_of(u));
            if t.len() == 0 {
                return Ok(actor.to_owned());
            }
            if t.len() < 3 || t.len() > 32 {
                return Err("账号名长度需在 3-32 个字符之间".to_owned());
            }
            let mut i: usize = 0;
            while i < t.len()
                invariant
                    i <= t@.len(),
                    new_username == Some(u),
                    t@ == trim(u@),
                    3 <= t@.len() <= 32,
                    forall|k: int| 0 <= k < i ==> username_char(t@[k]),
                decreases t@.len() - i,
            {
                let c = t[i];
                let ok = ('a' <= c && c <= 'z') || ('A' <= c && c <= 'Z') || ('0' <= c && c <= '9')
                    || c == '_' || c == '-' || c == '.';
                if !ok {
                    assert(!username_char(t@[i as int]));
                    return Err("账号名只能包含字母、数字、下划线、连字符与点号".to_owned());
                }
                i = i + 1;
            }
            Ok(string_from_chars(&t))
        },
        None => Ok(actor.to_owned()),
    }
}

/// The acting user of a password change: the session's user, `admin`
/// where the request carries none.
pub fn change_actor(identity: Option<&AuthIdentity>) -> (a: String)
    ensures
        a@ == match identity {
            Some(i) => match i.username {
                Some(u) => u@,
                None => "admin"@,
            },
            None => "admin"@,
        },
{
    match identity {
        Some(i) => match &i.username {
            Some(u) => u.clone(),
            None => "admin".to_owned(),
        },
        None => "admin".to_owned(),
    }
}

/// The number of log lines a request gets: 200 by default, at most 500.
pub fn logs_limit(limit: Option<usize>) -> (n: usize)
    ensures
        n == (match limit {
            Some(l) => if l < 500 {
                l
            } else {
                500
            },
            None => 200,
        }),
{
    let l = match limit {
        Some(l) => l,
        None => 200,
    };
    if l < 500 {
        l
    } else {
        500
    }
}

/// The schedule shown for an account: its own, else the default.
pub fn account_schedule(schedules: &ParamMap, default_schedule: &str, id: &str) -> (s: String)
    requires
        schedules.wf(),
    ensures
        has_entry(schedules.pairs(), id@, s@) || ((forall|v: Seq<char>|
            !has_entry(schedules.pairs(), id@, v)) && s@ == default_schedule@),
{
    match schedules.get(id) {
        Some(s) => s,
        None => default_schedule.to_owned(),
    }
}

/// Checks an account login request: a non-blank phone number and the mode
/// `password` or `captcha`.
pub fn check_login_request(phone: &str, mode: &str) -> (r: Result<(), String>)
    ensures
        trim(phone@).len() == 0 ==> (r matches Err(m) && m@ == "手机号不能为空"@),
        trim(phone@).len() > 0 && mode@ != "password"@ && mode@ != "captcha"@ ==> (r matches Err(m)
            && m@ == "mode 必须是 password 或 captcha"@),
        trim(phone@).len() > 0 && (mode@ == "password"@ || mode@ == "captcha"@) ==> r is Ok,
{
    if trim_chars(&chars_of(phone)).len() == 0 {
        return Err("手机号不能为空".to_owned());
    }
    if !str_eq(mode, "password") && !str_eq(mode, "captcha") {
        return Err("mode 必须是 password 或 captcha".to_owned());
    }
    Ok(())
}

/// A schedule request's time: a blank one means the default.
pub fn schedule_time(time: Option<&str>) -> (r: Option<&str>)
    ensures
        match time {
            Some(t) => if trim(t@).len() > 0 {
                r == Some(t)
            } else {
                r is None
            },
            None => r is None,
        },
{
    match time {
        Some(t) => if trim_chars(&chars_of(t)).len() > 0 {
            Some(t)
        } else {
            None
        },
        None => None,
    }
}

/// How the encryption layer treats a request path.
#[derive(PartialEq, Eq, Structural, Clone, Copy, Debug)]
pub enum CryptoRoute {
    /// The handshake, the page and static files: passed through.
    PassThrough,
    /// An API call: encrypted or plain by policy.
    Api,
}

/// Routes a request path through the encryption layer.
pub fn crypto_route(path: &str) -> (r: CryptoRoute)
    ensures
        r == (if path@ == "/api/crypto/handshake"@ || !(path@.len() >= 5 && path@.subrange(0, 5) == "/api/"@) {
            CryptoRoute::PassThrough
        } else {
            CryptoRoute::Api
        }),
{
    let v = chars_of(path);
    if str_eq(path, handshake_path()) {
        return CryptoRoute::PassThrough;
    }
    let prefix = chars_of("/api/");
    proof {
        reveal_strlit("/api/");
    }
    if v.len() >= 5 && crate::text::chars_eq(&sub_chars(&v, 0, 5), &prefix) {
        CryptoRoute::Api
    } else {
        CryptoRoute::PassThrough
    }
}

/// What happens to an API request in the encryption layer.
#[derive(PartialEq, Eq, Structural, Clone, Copy, Debug)]
pub enum PlainDecision {
    /// It carries a session and a sequence number: decrypted.
    Encrypted,
    /// Plain text is allowed here.
    Plain,
    /// Encryption is required: refused with 428.
    Refused,
}

/// Decides how an API request is handled: with a session id and a
/// sequence number it is decrypted; without, it is refused where the
/// policy requires encryption (a probe excepted) and passed plain
/// otherwise.
pub fn plaintext_decision(require_encryption: bool, has_session: bool, has_seq: bool, is_probe: bool) -> (d: PlainDecision)
    ensures
        d == (if has_session && has_seq {
            PlainDecision::Encrypted
        } else if require_encryption && !is_probe {
            PlainDecision::Refused
        } else {
            PlainDecision::Plain
        }),
{
    if has_session && has_seq {
        PlainDecision::Encrypted
    } else if require_encryption && !is_probe {
        PlainDecision::Refused
    } else {
        PlainDecision::Plain
    }
}

/// The request sequence number header: a decimal `u64`.
pub fn parse_seq(header: &str) -> (r: Option<u64>)
    ensures
        r == parse_u64(header@),
{
    parse_u64_chars(&chars_of(header))
}

/// A configuration change request.
pub struct ConfigUpdate {
    pub default_schedule: Option<String>,
    pub coin_tasks: Option<bool>,
    pub cloud_duration: Option<bool>,
    pub share_platform: Option<String>,
    pub crypto_policy: Option<String>,
    pub lan_cidrs: Option<String>,
    pub lan_no_auth: Option<bool>,
}

/// What a configuration change did beyond the stored fields.
pub struct ConfigChange {
    /// The encryption policy changed: the encrypted sessions are dropped.
    pub policy_changed: bool,
    /// The new LAN list, to apply to the running matcher.
    pub lan_cidrs: Option<String>,
}

/// The refusal of a configuration change, if any, in the order the checks
/// run: the policy, the LAN list (`lan_cidrs_ok` says whether its
/// networks parsed), the default schedule.
pub open spec fn config_update_error(u: ConfigUpdate, lan_cidrs_ok: bool) -> Option<Seq<char>> {
    if u.crypto_policy matches Some(p) && crypto_policy_spec(p@) is None {
        Some("crypto_policy 只能是 auto / always / never"@)
    } else if u.lan_cidrs matches Some(c) && trim(c@).len() > 0 && !lan_cidrs_ok {
        Some("lan_cidrs 含非法网段，应形如 192.168.0.0/16,10.0.0.0/8"@)
    } else if u.default_schedule matches Some(t) && !valid_hhmm_spec(t@) {
        Some("default_schedule 格式应为 HH:MM"@)
    } else {
        None
    }
}

/// Applies a configuration change; a refused change leaves the
/// configuration as it was. An empty LAN list restores the default one.
pub fn apply_config_update(config: &mut Config, update: ConfigUpdate, lan_cidrs_ok: bool) -> (r: Result<ConfigChange, String>)
    ensures
        match config_update_error(update, lan_cidrs_ok) {
            Some(e) => r matches Err(m) && m@ == e && *final(config) == *old(config),
            None => r matches Ok(ch) && {
                &&& final(config).default_schedule@ == (match update.default_schedule {
                    Some(t) => t@,
                    None => old(config).default_schedule@,
                })
                &&& final(config).coin_tasks == (match update.coin_tasks {
                    Some(v) => v,
                    None => old(config).coin_tasks,
                })
                &&& final(config).cloud_duration == (match update.cloud_duration {
                    Some(v) => v,
                    None => old(config).cloud_duration,
                })
                &&& final(config).share_platform@ == (match update.share_platform {
                    Some(v) => v@,
                    None => old(config).share_platform@,
                })
                &&& final(config).crypto_policy@ == (match update.crypto_policy {
                    Some(p) => crypto_policy_spec(p@)->0,
                    None => old(config).crypto_policy@,
                })
                &&& ch.policy_changed == (final(config).crypto_policy@ != old(config).crypto_policy@)
                &&& final(config).lan_cidrs@ == (match update.lan_cidrs {
                    Some(c) => if trim(c@).len() > 0 {
                        trim(c@)
                    } else {
                        default_lan_cidrs_spec()
                    },
                    None => old(config).lan_cidrs@,
                })
                &&& opt_view(ch.lan_cidrs) == (match update.lan_cidrs {
                    Some(_) => Some(final(config).lan_cidrs@),
                    None => None,
                })
                &&& final(config).lan_no_auth == (match update.lan_no_auth {
                    Some(v) => v,
                    None => old(config).lan_no_auth,
                })
                &&& final(config).schedules == old(config).schedules
                &&& final(config).web_username == old(config).web_username
                &&& final(config).web_password_hash == old(config).web_password_hash
                &&& final(config).web_password_salt == old(config).web_password_salt
                &&& final(config).web_password_version == old(config).web_password_version
                &&& final(config).web_password_must_change == old(config).web_password_must_change
                &&& final(config).credential_key == old(config).credential_key
                &&& final(config).max_retries == old(config).max_retries
                &&& final(config).initial_password_announced == old(config).initial_password_announced
            },
        },
{
    let mut new_policy: Option<String> = None;
    match &update.crypto_policy {
        Some(p) => match normalize_crypto_policy(p.as_str()) {
            Some(n) => {
                new_policy = Some(n);
            },
            None => {
                return Err("crypto_policy 只能是 auto / always / never".to_owned());
            },
        },
        None => {},
    }
    let mut new_cidrs: Option<String> = None;
    match &update.lan_cidrs {
        Some(c) => {
            let t = trim_chars(&chars_of(c.as_str()));
            if t.len() > 0 && !lan_cidrs_ok {
                return Err("lan_cidrs 含非法网段，应形如 192.168.0.0/16,10.0.0.0/8".to_owned());
            }
            new_cidrs = Some(string_from_chars(&t));
        },
        None => {},
    }
    match &update.default_schedule {
        Some(t) => {
            if !valid_hhmm(t.as_str()) {
                return Err("default_schedule 格式应为 HH:MM".to_owned());
            }
        },
        None => {},
    }
    let ConfigUpdate {
        default_schedule,
        coin_tasks,
        cloud_duration,
        share_platform,
        crypto_policy: _,
        lan_cidrs: _,
        lan_no_auth,
    } = update;
    match default_schedule {
        Some(t) => {
            config.default_schedule = t;
        },
        None => {},
    }
    match coin_tasks {
        Some(v) => {
            config.coin_tasks = v;
        },
        None => {},
    }
    match cloud_duration {
        Some(v) => {
            config.cloud_duration = v;
        },
        None => {},
    }
    match share_platform {
        Some(v) => {
            config.share_platform = v;
        },
        None => {},
    }
    let policy_changed = match new_policy {
        Some(p) => {
            let changed = !str_eq(config.crypto_policy.as_str(), p.as_str());
            config.crypto_policy = p;
            changed
        },
        None => false,
    };
    let mut applied: Option<String> = None;
    match new_cidrs {
        Some(c) => {
            if chars_of(c.as_str()).len() == 0 {
                config.lan_cidrs = default_lan_cidrs();
            } else {
                config.lan_cidrs = c;
            }
            applied = Some(config.lan_cidrs.clone());
        },
        None => {},
    }
    match lan_no_auth {
        Some(v) => {
            config.lan_no_auth = v;
        },
        None => {},
    }
    Ok(ConfigChange { policy_changed, lan_cidrs: applied })
}

} // verus!

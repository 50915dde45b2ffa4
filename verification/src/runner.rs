//! Check-in decisions: how a failure message is classified, which roles
//! and posts are worked on, how an account's session fields are replaced,
//! and how a run's outcome is summed up.

use vstd::prelude::*;

use crate::api::{ApiError, CoinTask, GameRecordCard, GameRoleRaw, RecommendPost};
use crate::crypto::{decrypt_password_checked, decrypt_password_spec, nonce_misfits};
use crate::models::{clone_opt, Account, EncryptedPassword, GameRole, GameSigninResult, Reward};
use crate::primitives::{lowercase_spec, to_lowercase};
use crate::text::{chars_of, contains_seq, push_str, str_contains, str_eq, string_from_chars};
use crate::time::{datetime_spec, shanghai_datetime, ShanghaiTime};

verus! {

/// Which optional parts of a check-in run.
pub struct RunOptions {
    pub coin_tasks: bool,
    pub cloud_duration: bool,
    pub share_platform: String,
}

impl Default for RunOptions {
    /// Coin tasks and cloud time on, posts shared to `qq`.
    fn default() -> (r: Self)
        ensures
            r.coin_tasks,
            r.cloud_duration,
            r.share_platform@ == "qq"@,
    {
        RunOptions { coin_tasks: true, cloud_duration: true, share_platform: "qq".to_owned() }
    }
}

/// The view of an optional string.
pub open spec fn opt_view(s: Option<String>) -> Option<Seq<char>> {
    match s {
        Some(x) => Some(x@),
        None => None,
    }
}

/// The view of an optional string slice.
pub open spec fn opt_str_view(s: Option<&str>) -> Option<Seq<char>> {
    match s {
        Some(x) => Some(x@),
        None => None,
    }
}

/// A game shown by name: `name(id)` where the name is set and differs from
/// the id, else the id alone.
pub open spec fn game_label_spec(game_id: Seq<char>, game_name: Option<Seq<char>>) -> Seq<char> {
    match game_name {
        Some(n) => if n.len() > 0 && n != game_id {
            n + "("@ + game_id + ")"@
        } else {
            game_id
        },
        None => game_id,
    }
}

/// The label of a game in logs and summaries.
pub fn game_label(game_id: &str, game_name: Option<&str>) -> (r: String)
    ensures
        r@ == game_label_spec(game_id@, opt_str_view(game_name)),
{
    match game_name {
        Some(n) => {
            let nc = chars_of(n);
            if nc.len() > 0 && !str_eq(n, game_id) {
                let mut out: Vec<char> = Vec::new();
                push_str(&mut out, n);
                push_str(&mut out, "(");
                push_str(&mut out, game_id);
                push_str(&mut out, ")");
                string_from_chars(&out)
            } else {
                game_id.to_owned()
            }
        },
        None => game_id.to_owned(),
    }
}

/// A failure message that says the check-in was already done today.
pub open spec fn already_signed_spec(msg: Seq<char>) -> bool {
    let lower = lowercase_spec(msg);
    ||| contains_seq(msg, "已签到"@)
    ||| contains_seq(msg, "签到过"@)
    ||| contains_seq(msg, "重复签到"@)
    ||| contains_seq(msg, "已经签到"@)
    ||| (contains_seq(lower, "already"@) && contains_seq(lower, "sign"@))
}

/// Whether a failure message says the check-in was already done.
pub fn is_already_signed(msg: &str) -> (b: bool)
    ensures
        b == already_signed_spec(msg@),
{
    let lower = to_lowercase(msg);
    str_contains(msg, "已签到") || str_contains(msg, "签到过") || str_contains(msg, "重复签到")
        || str_contains(msg, "已经签到") || (str_contains(lower.as_str(), "already")
        && str_contains(lower.as_str(), "sign"))
}

/// A failure message that says the session is no longer valid (checked on
/// the lower-cased message).
pub open spec fn auth_error_spec(msg: Seq<char>) -> bool {
    let l = lowercase_spec(msg);
    ||| contains_seq(l, "auth_expired"@)
    ||| contains_seq(l, "http 401"@)
    ||| contains_seq(l, "http 402"@)
    ||| contains_seq(l, "http 403"@)
    ||| contains_seq(l, "登录"@)
    ||| contains_seq(l, "token"@)
    ||| contains_seq(l, "未授权"@)
    ||| contains_seq(l, "请先"@)
    ||| contains_seq(l, "过期"@)
    ||| contains_seq(l, "失效"@)
    ||| contains_seq(l, "invalid_token"@)
}

/// Whether a failure message says the session is no longer valid.
pub fn is_auth_error(msg: &str) -> (b: bool)
    ensures
        b == auth_error_spec(msg@),
{
    let lower = to_lowercase(msg);
    let l = lower.as_str();
    str_contains(l, "auth_expired") || str_contains(l, "http 401") || str_contains(l, "http 402")
        || str_contains(l, "http 403") || str_contains(l, "登录") || str_contains(l, "token")
        || str_contains(l, "未授权") || str_contains(l, "请先") || str_contains(l, "过期")
        || str_contains(l, "失效") || str_contains(l, "invalid_token")
}

/// How a failed game check-in is treated.
#[derive(PartialEq, Eq, Structural, Clone, Copy, Debug)]
pub enum SigninFailure {
    /// Done earlier today: counts as success.
    AlreadySigned,
    /// The session is gone: the whole run is retried with a new session.
    SessionExpired,
    /// Any other failure: recorded for this game, the run goes on.
    Failed,
}

/// The class of a check-in failure message; "already signed" wins over a
/// session failure.
pub open spec fn signin_failure_spec(msg: Seq<char>) -> SigninFailure {
    if already_signed_spec(msg) {
        SigninFailure::AlreadySigned
    } else if auth_error_spec(msg) {
        SigninFailure::SessionExpired
    } else {
        SigninFailure::Failed
    }
}

/// Classifies a check-in failure message.
pub fn classify_signin_failure(msg: &str) -> (k: SigninFailure)
    ensures
        k == signin_failure_spec(msg@),
{
    if is_already_signed(msg) {
        SigninFailure::AlreadySigned
    } else if is_auth_error(msg) {
        SigninFailure::SessionExpired
    } else {
        SigninFailure::Failed
    }
}

/// The stored password of an account, where there is one and a credential
/// key, it fits the cipher and it decrypts.
pub open spec fn resolve_password_spec(e: Option<EncryptedPassword>, key: Option<Seq<char>>) -> Option<
    Seq<char>,
> {
    match (e, key) {
        (Some(e), Some(k)) => if nonce_misfits(e, k) {
            None
        } else {
            match decrypt_password_spec(e, k) {
                Ok(p) => Some(p),
                Err(_) => None,
            }
        },
        _ => None,
    }
}

/// Decrypts the stored password of `account` with `credential_key`.
pub fn resolve_password(account: &Account, credential_key: Option<&str>) -> (r: Option<String>)
    ensures
        opt_view(r) == resolve_password_spec(account.encrypted_password, opt_str_view(credential_key)),
{
    match (&account.encrypted_password, credential_key) {
        (Some(ep), Some(ck)) => match decrypt_password_checked(ep, ck) {
            Some(Ok(p)) => Some(p),
            _ => None,
        },
        _ => None,
    }
}

/// `account` with a new session: the access and refresh tokens replaced,
/// the uid and the Laohu credentials replaced where given, and the token
/// time set to now.
pub fn with_session(
    account: &Account,
    at: &str,
    rt: &str,
    uid: Option<&str>,
    laohu_token: Option<&str>,
    laohu_user_id: Option<&str>,
) -> (r: Account)
    ensures
        r.uid@ == (match uid {
            Some(u) => u@,
            None => account.uid@,
        }),
        opt_view(r.access_token) == Some(at@),
        r.refresh_token@ == rt@,
        opt_view(r.laohu_token) == (match laohu_token {
            Some(t) => Some(t@),
            None => opt_view(account.laohu_token),
        }),
        opt_view(r.laohu_user_id) == (match laohu_user_id {
            Some(u) => Some(u@),
            None => opt_view(account.laohu_user_id),
        }),
        r.token_updated_at matches Some(t) && exists|n: ShanghaiTime| n.wf() && t@ == datetime_spec(n),
        r.id == account.id,
        r.name == account.name,
        r.device_id == account.device_id,
        r.openudid == account.openudid,
        r.vendorid == account.vendorid,
        r.phone == account.phone,
        r.encrypted_password == account.encrypted_password,
        r.role_id == account.role_id,
        r.role_name == account.role_name,
        r.laohu_token == (match laohu_token {
            Some(_) => r.laohu_token,
            None => account.laohu_token,
        }),
        r.laohu_user_id == (match laohu_user_id {
            Some(_) => r.laohu_user_id,
            None => account.laohu_user_id,
        }),
{
    let mut acc = account.duplicate();
    match uid {
        Some(u) => {
            acc.uid = u.to_owned();
        },
        None => {},
    }
    acc.access_token = Some(at.to_owned());
    acc.refresh_token = rt.to_owned();
    acc.token_updated_at = Some(shanghai_datetime());
    match laohu_token {
        Some(t) => {
            acc.laohu_token = Some(t.to_owned());
        },
        None => {},
    }
    match laohu_user_id {
        Some(u) => {
            acc.laohu_user_id = Some(u.to_owned());
        },
        None => {},
    }
    acc
}

/// After a failed refresh the password login is tried (and the refresh
/// error returned where that fails too) unless the refresh token was
/// rejected with 402 and the Laohu credentials are both present; in that
/// case the session is rebuilt from the Laohu token.
pub fn refresh_falls_back_to_password(
    refresh_error: &str,
    has_laohu_token: bool,
    has_laohu_user_id: bool,
) -> (b: bool)
    ensures
        b == (!contains_seq(refresh_error@, "REFRESH_REJECTED_402"@) || !has_laohu_token
            || !has_laohu_user_id),
{
    !str_contains(refresh_error, "REFRESH_REJECTED_402") || !has_laohu_token || !has_laohu_user_id
}

/// Why the cloud-time task is skipped when no Laohu session is stored:
/// no phone number, or no usable password.
pub fn cloud_skip_reason(has_phone: bool, has_password: bool) -> (r: Option<String>)
    ensures
        !has_phone ==> opt_view(r) == Some("账号缺少手机号"@),
        has_phone && !has_password ==> opt_view(r) == Some("缺少密码或密码解密失败"@),
        has_phone && has_password ==> r is None,
{
    if !has_phone {
        Some("账号缺少手机号".to_owned())
    } else if !has_password {
        Some("缺少密码或密码解密失败".to_owned())
    } else {
        None
    }
}

/// Where the cloud-time task stands: the call it waits on, or done. While
/// it waits on the user info it holds the account updated by a login, if
/// one was needed.
pub enum CloudStep {
    Start,
    AwaitLogin,
    AwaitInfo(Option<Account>),
    Done,
}

/// What a call of the cloud-time task answered.
pub enum CloudEvent {
    Begin,
    /// The password login gave this Laohu token and user id, at this
    /// Shanghai time.
    LoggedIn { token: String, user_id: String, at: String },
    LoginFailed(String),
    /// The cloud user info was read (its amounts stay with the caller).
    Info,
    InfoFailed(String),
}

/// What the caller of the cloud-time task does next.
pub enum CloudAction {
    /// The task is skipped for this reason.
    Skip(String),
    CallLogin { phone: String, password: String },
    CallInfo { token: String, user_id: String },
    /// The task failed with this message.
    Fail(String),
    /// The task succeeded with the info read.
    Succeed,
    /// The event does not answer the call the step waits on; nothing
    /// changes.
    Ignored,
}

/// `account` with the Laohu token and user id of a login at time `at`.
pub open spec fn with_laohu(account: Account, token: String, user_id: String, at: String) -> Account {
    Account {
        laohu_token: Some(token),
        laohu_user_id: Some(user_id),
        token_updated_at: Some(at),
        ..account
    }
}

/// One step of the cloud-time task of `account`, whose stored password
/// decrypts to `password` where it does: the next step, the action, and
/// the account to store if the task ends here (`None`: keep it as it is).
pub open spec fn cloud_spec(
    account: Account,
    password: Option<String>,
    step: CloudStep,
    event: CloudEvent,
    next: CloudStep,
    act: CloudAction,
    keep: Option<Account>,
) -> bool {
    match (step, event) {
        (CloudStep::Start, CloudEvent::Begin) => match (account.laohu_token, account.laohu_user_id) {
            (Some(t), Some(u)) => next == CloudStep::AwaitInfo(None) && act == CloudAction::CallInfo {
                token: t,
                user_id: u,
            } && keep is None,
            _ => if account.phone is None {
                next == CloudStep::Done && (act matches CloudAction::Skip(r) && r@ == "账号缺少手机号"@)
                    && keep is None
            } else if password is None {
                next == CloudStep::Done && (act matches CloudAction::Skip(r) && r@
                    == "缺少密码或密码解密失败"@) && keep is None
            } else {
                next == CloudStep::AwaitLogin && act == CloudAction::CallLogin {
                    phone: account.phone.unwrap(),
                    password: password.unwrap(),
                } && keep is None
            },
        },
        (CloudStep::AwaitLogin, CloudEvent::LoggedIn { token, user_id, at }) => {
            let updated = with_laohu(account, token, user_id, at);
            next == CloudStep::AwaitInfo(Some(updated)) && act == CloudAction::CallInfo {
                token,
                user_id,
            } && keep == Some(updated)
        },
        (CloudStep::AwaitLogin, CloudEvent::LoginFailed(e)) => next == CloudStep::Done && (act matches CloudAction::Fail(
            m,
        ) && m@ == "老虎登录失败："@ + e@) && keep is None,
        (CloudStep::AwaitInfo(u), CloudEvent::Info) => next == CloudStep::Done && act
            == CloudAction::Succeed && keep == u,
        (CloudStep::AwaitInfo(u), CloudEvent::InfoFailed(e)) => next == CloudStep::Done && act
            == CloudAction::Fail(e) && keep == u,
        _ => next == step && act == CloudAction::Ignored && keep is None,
    }
}

/// The cloud-time task keeps what it was given: a stored Laohu session is
/// used as it is; a login uses the account's phone and password; the token
/// and user id a login gives are the ones the user info is asked with and
/// the ones stored, with the login time, in an otherwise unchanged account;
/// a failed login fails the task with `老虎登录失败：` and its error and
/// stores nothing; a failed info call fails the task with its error.
pub proof fn lemma_cloud_keeps_answers(
    account: Account,
    password: Option<String>,
    step: CloudStep,
    event: CloudEvent,
    next: CloudStep,
    act: CloudAction,
    keep: Option<Account>,
)
    requires
        cloud_spec(account, password, step, event, next, act, keep),
    ensures
        (match (step, event) {
            (CloudStep::Start, CloudEvent::Begin) => match (account.laohu_token, account.laohu_user_id) {
                (Some(t), Some(u)) => act == CloudAction::CallInfo { token: t, user_id: u } && keep is None,
                _ => act is Skip || (act matches CloudAction::CallLogin { phone, password: w } && account.phone
                    == Some(phone) && password == Some(w)),
            },
            (CloudStep::AwaitLogin, CloudEvent::LoggedIn { token, user_id, at }) => act
                == CloudAction::CallInfo { token, user_id } && (keep matches Some(k) && k.laohu_token
                == Some(token) && k.laohu_user_id == Some(user_id) && k.token_updated_at == Some(at) && k.id
                == account.id && k.phone == account.phone && k.access_token == account.access_token && k.refresh_token
                == account.refresh_token && k.uid == account.uid && k.device_id == account.device_id),
            (CloudStep::AwaitLogin, CloudEvent::LoginFailed(e)) => (act matches CloudAction::Fail(m) && m@
                == "老虎登录失败："@ + e@) && keep is None,
            (CloudStep::AwaitInfo(_), CloudEvent::InfoFailed(e)) => act == CloudAction::Fail(e),
            (CloudStep::AwaitInfo(_), CloudEvent::Info) => act == CloudAction::Succeed,
            _ => true,
        }),
{
}

/// Takes one step of the cloud-time task of `account`, given the password
/// that its stored password decrypts to (where it does).
pub fn cloud_step(
    account: &Account,
    password: &Option<String>,
    step: CloudStep,
    event: CloudEvent,
) -> (r: (CloudStep, CloudAction, Option<Account>))
    ensures
        cloud_spec(*account, *password, step, event, r.0, r.1, r.2),        (match (step, event) {
            (CloudStep::Start, CloudEvent::Begin) => match (account.laohu_token, account.laohu_user_id) {
                (Some(t), Some(u)) => r.1 == CloudAction::CallInfo { token: t, user_id: u } && r.2 is None,
                _ => r.1 is Skip || (r.1 matches CloudAction::CallLogin { phone, password: w } && account.phone
                    == Some(phone) && *password == Some(w)),
            },
            (CloudStep::AwaitLogin, CloudEvent::LoggedIn { token, user_id, at }) => r.1
                == CloudAction::CallInfo { token, user_id } && (r.2 matches Some(k) && k.laohu_token
                == Some(token) && k.laohu_user_id == Some(user_id) && k.token_updated_at == Some(at) && k.id
                == account.id && k.phone == account.phone && k.access_token == account.access_token && k.refresh_token
                == account.refresh_token && k.uid == account.uid && k.device_id == account.device_id),
            (CloudStep::AwaitLogin, CloudEvent::LoginFailed(e)) => (r.1 matches CloudAction::Fail(m) && m@
                == "老虎登录失败："@ + e@) && r.2 is None,
            (CloudStep::AwaitInfo(_), CloudEvent::InfoFailed(e)) => r.1 == CloudAction::Fail(e),
            (CloudStep::AwaitInfo(_), CloudEvent::Info) => r.1 == CloudAction::Succeed,
            _ => true,
        }),
{
    match (step, event) {
        (CloudStep::Start, CloudEvent::Begin) => match (&account.laohu_token, &account.laohu_user_id) {
            (Some(t), Some(u)) => (
                CloudStep::AwaitInfo(None),
                CloudAction::CallInfo { token: t.clone(), user_id: u.clone() },
                None,
            ),
            _ => match cloud_skip_reason(account.phone.is_some(), password.is_some()) {
                Some(reason) => (CloudStep::Done, CloudAction::Skip(reason), None),
                None => match (&account.phone, password) {
                    (Some(p), Some(w)) => (
                        CloudStep::AwaitLogin,
                        CloudAction::CallLogin { phone: p.clone(), password: w.clone() },
                        None,
                    ),
                    _ => (CloudStep::Start, CloudAction::Ignored, None),
                },
            },
        },
        (CloudStep::AwaitLogin, CloudEvent::LoggedIn { token, user_id, at }) => {
            let mut updated = account.duplicate();
            updated.laohu_token = Some(token.clone());
            updated.laohu_user_id = Some(user_id.clone());
            updated.token_updated_at = Some(at);
            let kept = updated.duplicate();
            (CloudStep::AwaitInfo(Some(updated)), CloudAction::CallInfo { token, user_id }, Some(kept))
        },
        (CloudStep::AwaitLogin, CloudEvent::LoginFailed(e)) => {
            let mut out: Vec<char> = Vec::new();
            push_str(&mut out, "老虎登录失败：");
            push_str(&mut out, e.as_str());
            (CloudStep::Done, CloudAction::Fail(string_from_chars(&out)), None)
        },
        (CloudStep::AwaitInfo(u), CloudEvent::Info) => (CloudStep::Done, CloudAction::Succeed, u),
        (CloudStep::AwaitInfo(u), CloudEvent::InfoFailed(e)) => (CloudStep::Done, CloudAction::Fail(e), u),
        (step, _) => (step, CloudAction::Ignored, None),
    }
}

/// The first index of a task with `code`.
pub open spec fn first_task_with(tasks: Seq<CoinTask>, code: Seq<char>) -> Option<int> {
    if exists|i: int| 0 <= i < tasks.len() && tasks[i].code@ == code {
        Some(
            choose|i: int|
                0 <= i < tasks.len() && tasks[i].code@ == code && forall|j: int|
                    0 <= j < i ==> tasks[j].code@ != code,
        )
    } else {
        None
    }
}

/// Runs of a coin task still to do: for the first task with `code`, its
/// limit minus its completions, at least 0; `fallback` where there is none.
pub open spec fn remaining_spec(tasks: Seq<CoinTask>, code: Seq<char>, fallback: i64) -> int {
    match first_task_with(tasks, code) {
        Some(i) => {
            let d = tasks[i].limit_times - tasks[i].complete_times;
            if d > 0 {
                d
            } else {
                0
            }
        },
        None => fallback as int,
    }
}

/// The subtraction of the first task with `code` stays in range.
pub open spec fn remaining_defined(tasks: Seq<CoinTask>, code: Seq<char>) -> bool {
    match first_task_with(tasks, code) {
        Some(i) => i64::MIN <= tasks[i].limit_times - tasks[i].complete_times <= i64::MAX,
        None => true,
    }
}

fn first_with_code(tasks: &[CoinTask], code: &str) -> (r: Option<usize>)
    ensures
        match r {
            Some(i) => first_task_with(tasks@, code@) == Some(i as int) && i < tasks@.len(),
            None => first_task_with(tasks@, code@) is None,
        },
{
    let mut i: usize = 0;
    while i < tasks.len()
        invariant
            i <= tasks@.len(),
            forall|j: int| 0 <= j < i ==> tasks@[j].code@ != code@,
        decreases tasks@.len() - i,
    {
        if str_eq(tasks[i].code.as_str(), code) {
            proof {
                let w = choose|k: int|
                    0 <= k < tasks@.len() && tasks@[k].code@ == code@ && forall|j: int|
                        0 <= j < k ==> tasks@[j].code@ != code@;
                assert(0 <= i < tasks@.len() && tasks@[i as int].code@ == code@ && forall|j: int|
                    0 <= j < i ==> tasks@[j].code@ != code@);
                assert(w == i) by {
                    if w < i {
                        assert(tasks@[w].code@ != code@);
                    }
                    if w > i {
                        assert(tasks@[i as int].code@ != code@);
                    }
                }
            }
            return Some(i);
        }
        i = i + 1;
    }
    None
}

/// Whether `remaining` is defined for `code` (its subtraction stays in range).
pub fn remaining_fits(tasks: &[CoinTask], code: &str) -> (b: bool)
    ensures
        b == remaining_defined(tasks@, code@),
{
    match first_with_code(tasks, code) {
        Some(i) => {
            let l = tasks[i].limit_times as i128;
            let c = tasks[i].complete_times as i128;
            let d = l - c;
            -0x8000_0000_0000_0000i128 <= d && d <= 0x7fff_ffff_ffff_ffffi128
        },
        None => true,
    }
}

/// The runs still to do of the coin task `code`.
pub fn remaining(tasks: &[CoinTask], code: &str, fallback: i64) -> (r: i64)
    requires
        remaining_defined(tasks@, code@),
    ensures
        r == remaining_spec(tasks@, code@, fallback),
{
    match first_with_code(tasks, code) {
        Some(i) => {
            let d = tasks[i].limit_times - tasks[i].complete_times;
            if d > 0 {
                d
            } else {
                0
            }
        },
        None => fallback,
    }
}

/// Appends a failure to an optional message, joined by `；`.
pub fn push_error(error: &mut Option<String>, msg: &str)
    ensures
        opt_view(*final(error)) == Some(
            match *old(error) {
                Some(e) => e@ + "；"@ + msg@,
                None => msg@,
            },
        ),
{
    match error {
        Some(e) => {
            let mut out: Vec<char> = Vec::new();
            push_str(&mut out, e.as_str());
            push_str(&mut out, "；");
            push_str(&mut out, msg);
            *error = Some(string_from_chars(&out));
        },
        None => {
            *error = Some(msg.to_owned());
        },
    }
}

/// The role ids of `roles`, in order.
pub open spec fn role_ids(roles: Seq<GameRole>) -> Seq<Seq<char>> {
    Seq::new(roles.len(), |k: int| roles[k].role_id@)
}

/// A role of the per-game fallback list is taken where its id is
/// non-empty, not among the roles already collected, and not seen earlier
/// in the list.
pub open spec fn keep_role(prior: Seq<Seq<char>>, list: Seq<GameRoleRaw>, i: int) -> bool {
    let id = list[i].role_id@;
    &&& id.len() > 0
    &&& !prior.contains(id)
    &&& forall|j: int| 0 <= j < i ==> list[j].role_id@ != id
}

/// The (role id, role name) of the roles taken from the first `n` entries.
pub open spec fn kept_roles(prior: Seq<Seq<char>>, list: Seq<GameRoleRaw>, n: nat) -> Seq<
    (Seq<char>, Option<Seq<char>>),
>
    decreases n,
{
    if n == 0 {
        Seq::empty()
    } else {
        let p = kept_roles(prior, list, (n - 1) as nat);
        if keep_role(prior, list, n - 1) {
            p.push((list[n - 1].role_id@, opt_view(list[n - 1].role_name)))
        } else {
            p
        }
    }
}

proof fn lemma_kept_roles_from(prior: Seq<Seq<char>>, list: Seq<GameRoleRaw>, n: nat, k: int)
    requires
        n <= list.len(),
        0 <= k < kept_roles(prior, list, n).len(),
    ensures
        exists|j: int|
            0 <= j < n && list[j].role_id@ == kept_roles(prior, list, n)[k].0 && keep_role(prior, list, j),
    decreases n,
{
    let p = kept_roles(prior, list, (n - 1) as nat);
    if k < p.len() {
        lemma_kept_roles_from(prior, list, (n - 1) as nat, k);
        let j = choose|j: int|
            0 <= j < n - 1 && list[j].role_id@ == p[k].0 && keep_role(prior, list, j);
        assert(list[j].role_id@ == kept_roles(prior, list, n)[k].0);
    } else {
        assert(list[n - 1].role_id@ == kept_roles(prior, list, n)[k].0);
    }
}

/// The fallback roles never repeat a role id, among themselves or with the
/// roles already collected, and none has an empty id.
pub proof fn lemma_fallback_roles_distinct(prior: Seq<Seq<char>>, list: Seq<GameRoleRaw>, n: nat)
    requires
        n <= list.len(),
    ensures
        forall|a: int, b: int|
            0 <= a < b < kept_roles(prior, list, n).len() ==> kept_roles(prior, list, n)[a].0
                != kept_roles(prior, list, n)[b].0,
        forall|a: int|
            0 <= a < kept_roles(prior, list, n).len() ==> !prior.contains(
                #[trigger] kept_roles(prior, list, n)[a].0,
            ) && kept_roles(prior, list, n)[a].0.len() > 0,
    decreases n,
{
    if n > 0 {
        lemma_fallback_roles_distinct(prior, list, (n - 1) as nat);
        let p = kept_roles(prior, list, (n - 1) as nat);
        let q = kept_roles(prior, list, n);
        assert forall|a: int, b: int| 0 <= a < b < q.len() implies q[a].0 != q[b].0 by {
            if b == p.len() {
                lemma_kept_roles_from(prior, list, (n - 1) as nat, a);
                let j = choose|j: int|
                    0 <= j < n - 1 && list[j].role_id@ == p[a].0 && keep_role(prior, list, j);
                assert(list[j].role_id@ != list[n - 1].role_id@);
            } else {
                assert(q[a] == p[a]);
                assert(q[b] == p[b]);
            }
        }
        assert forall|a: int| 0 <= a < q.len() implies !prior.contains(#[trigger] q[a].0) && q[a].0.len()
            > 0 by {
            if a < p.len() {
                assert(q[a] == p[a]);
            }
        }
    }
}

fn id_in_roles(roles: &Vec<GameRole>, upto: usize, id: &str) -> (b: bool)
    requires
        upto <= roles@.len(),
    ensures
        b == role_ids(roles@.take(upto as int)).contains(id@),
{
    let mut k: usize = 0;
    while k < upto
        invariant
            k <= upto <= roles@.len(),
            forall|j: int| 0 <= j < k ==> roles@[j].role_id@ != id@,
        decreases upto - k,
    {
        if str_eq(roles[k].role_id.as_str(), id) {
            proof {
                assert(role_ids(roles@.take(upto as int))[k as int] == id@);
            }
            return true;
        }
        k = k + 1;
    }
    proof {
        if role_ids(roles@.take(upto as int)).contains(id@) {
            let w = choose|w: int|
                0 <= w < role_ids(roles@.take(upto as int)).len() && role_ids(
                    roles@.take(upto as int),
                )[w] == id@;
            assert(roles@[w].role_id@ == id@);
        }
    }
    false
}

fn id_earlier(list: &[GameRoleRaw], i: usize) -> (b: bool)
    requires
        i < list@.len(),
    ensures
        b == exists|j: int| 0 <= j < i && list@[j].role_id@ == list@[i as int].role_id@,
{
    let mut j: usize = 0;
    while j < i
        invariant
            j <= i < list@.len(),
            forall|k: int| 0 <= k < j ==> list@[k].role_id@ != list@[i as int].role_id@,
        decreases i - j,
    {
        if str_eq(list[j].role_id.as_str(), list[i].role_id.as_str()) {
            return true;
        }
        j = j + 1;
    }
    false
}

/// Adds the roles of one game's role list to `roles`, skipping empty ids
/// and ids already collected or seen earlier in the list; the new roles
/// carry `game_id` and no game name.
pub fn add_fallback_roles(roles: &mut Vec<GameRole>, game_id: &str, list: &[GameRoleRaw])
    ensures
        ({
            let kept = kept_roles(role_ids(old(roles)@), list@, list@.len());
            &&& final(roles)@.len() == old(roles)@.len() + kept.len()
            &&& forall|k: int| 0 <= k < old(roles)@.len() ==> final(roles)@[k] == old(roles)@[k]
            &&& forall|k: int|
                0 <= k < kept.len() ==> {
                    let r = #[trigger] final(roles)@[old(roles)@.len() + k];
                    &&& r.game_id@ == game_id@
                    &&& r.role_id@ == kept[k].0
                    &&& opt_view(r.role_name) == kept[k].1
                    &&& r.game_name is None
                }
        }),
{
    let ghost old_roles = roles@;
    let ghost prior = role_ids(roles@);
    let old_len = roles.len();
    let mut i: usize = 0;
    while i < list.len()
        invariant
            old_len == old_roles.len(),
            prior == role_ids(old_roles),
            i <= list@.len(),
            roles@.len() == old_len + kept_roles(prior, list@, i as nat).len(),
            forall|k: int| 0 <= k < old_len ==> roles@[k] == old_roles[k],
            forall|k: int|
                0 <= k < kept_roles(prior, list@, i as nat).len() ==> {
                    let r = #[trigger] roles@[old_len + k];
                    &&& r.game_id@ == game_id@
                    &&& r.role_id@ == kept_roles(prior, list@, i as nat)[k].0
                    &&& opt_view(r.role_name) == kept_roles(prior, list@, i as nat)[k].1
                    &&& r.game_name is None
                },
        decreases list@.len() - i,
    {
        let id = list[i].role_id.as_str();
        let nonempty = chars_of(id).len() > 0;
        proof {
            assert(roles@.take(old_len as int) =~= old_roles);
        }
        let take = nonempty && !id_in_roles(roles, old_len, id) && !id_earlier(list, i);
        assert(take == keep_role(prior, list@, i as int));
        if take {
            roles.push(
                GameRole {
                    game_id: game_id.to_owned(),
                    role_id: list[i].role_id.clone(),
                    role_name: clone_opt(&list[i].role_name),
                    game_name: None,
                },
            );
        }
        i = i + 1;
    }
}

/// The roles of the game record cards that have a bound role, in card
/// order: the role name falls back to the game name.
pub open spec fn card_roles(cards: Seq<GameRecordCard>) -> Seq<GameRole>
    decreases cards.len(),
{
    if cards.len() == 0 {
        Seq::empty()
    } else {
        let p = card_roles(cards.drop_last());
        let c = cards.last();
        match c.role_id {
            Some(rid) => p.push(
                GameRole {
                    game_id: c.game_id,
                    role_id: rid,
                    role_name: match c.role_name {
                        Some(n) => Some(n),
                        None => c.game_name,
                    },
                    game_name: c.game_name,
                },
            ),
            None => p,
        }
    }
}

/// The roles taken from the game record cards.
pub fn roles_from_cards(cards: &[GameRecordCard]) -> (r: Vec<GameRole>)
    ensures
        r@ == card_roles(cards@),
{
    let mut out: Vec<GameRole> = Vec::new();
    let mut i: usize = 0;
    while i < cards.len()
        invariant
            i <= cards@.len(),
            out@ == card_roles(cards@.take(i as int)),
        decreases cards@.len() - i,
    {
        proof {
            assert(cards@.take(i + 1).drop_last() =~= cards@.take(i as int));
        }
        let c = &cards[i];
        match &c.role_id {
            Some(rid) => {
                out.push(
                    GameRole {
                        game_id: c.game_id.clone(),
                        role_id: rid.clone(),
                        role_name: match &c.role_name {
                            Some(n) => Some(n.clone()),
                            None => clone_opt(&c.game_name),
                        },
                        game_name: clone_opt(&c.game_name),
                    },
                );
            },
            None => {},
        }
        i = i + 1;
    }
    proof {
        assert(cards@.take(cards@.len() as int) =~= cards@);
    }
    out
}

/// The roles of a run given the answer of the record-card call: the cards'
/// roles where the call succeeded with at least one card, which map each
/// game to its bound role; `None` where the roles are read game by game.
pub fn roles_by_cards(cards: &Result<Vec<GameRecordCard>, ApiError>) -> (r: Option<Vec<GameRole>>)
    ensures
        match cards {
            Ok(c) => if c@.len() > 0 {
                r matches Some(v) && v@ == card_roles(c@)
            } else {
                r is None
            },
            Err(_) => r is None,
        },
{
    match cards {
        Ok(c) => if c.len() > 0 {
            Some(roles_from_cards(c.as_slice()))
        } else {
            None
        },
        Err(_) => None,
    }
}

/// A role becomes the account's role: the first role found, with its name
/// where it has one.
pub fn adopt_first_role(account: &mut Account, roles: &[GameRole])
    ensures
        roles@.len() == 0 ==> *final(account) == *old(account),
        roles@.len() > 0 ==> {
            &&& final(account).role_id == Some(roles@[0].role_id)
            &&& final(account).role_name == (match roles@[0].role_name {
                Some(n) => Some(n),
                None => old(account).role_name,
            })
            &&& final(account).id == old(account).id
            &&& final(account).uid == old(account).uid
            &&& final(account).access_token == old(account).access_token
            &&& final(account).refresh_token == old(account).refresh_token
            &&& final(account).laohu_token == old(account).laohu_token
            &&& final(account).laohu_user_id == old(account).laohu_user_id
            &&& final(account).phone == old(account).phone
            &&& final(account).name == old(account).name
            &&& final(account).device_id == old(account).device_id
            &&& final(account).openudid == old(account).openudid
            &&& final(account).vendorid == old(account).vendorid
            &&& final(account).token_updated_at == old(account).token_updated_at
            &&& final(account).encrypted_password == old(account).encrypted_password
        },
{
    if roles.len() > 0 {
        account.role_id = Some(roles[0].role_id.clone());
        match &roles[0].role_name {
            Some(n) => {
                account.role_name = Some(n.clone());
            },
            None => {},
        }
    }
}

/// A post is a like candidate at position `i` of the browsed-then-listed
/// posts where its id did not occur before and it is not liked already.
pub open spec fn like_candidate(items: Seq<RecommendPost>, i: int) -> bool {
    &&& items[i].liked != Some(true)
    &&& forall|j: int| 0 <= j < i ==> items[j].post_id@ != items[i].post_id@
}

/// The ids of the like candidates among the first `n` posts, in order.
pub open spec fn like_plan(items: Seq<RecommendPost>, n: nat) -> Seq<Seq<char>>
    decreases n,
{
    if n == 0 {
        Seq::empty()
    } else {
        let p = like_plan(items, (n - 1) as nat);
        if like_candidate(items, n - 1) {
            p.push(items[n - 1].post_id@)
        } else {
            p
        }
    }
}

proof fn lemma_like_plan_from(items: Seq<RecommendPost>, n: nat, k: int)
    requires
        n <= items.len(),
        0 <= k < like_plan(items, n).len(),
    ensures
        exists|j: int| 0 <= j < n && items[j].post_id@ == like_plan(items, n)[k],
    decreases n,
{
    let p = like_plan(items, (n - 1) as nat);
    if k < p.len() {
        lemma_like_plan_from(items, (n - 1) as nat, k);
        let j = choose|j: int| 0 <= j < n - 1 && items[j].post_id@ == p[k];
        assert(items[j].post_id@ == like_plan(items, n)[k]);
    } else {
        assert(items[n - 1].post_id@ == like_plan(items, n)[k]);
    }
}

/// No post is liked twice in a run: the like candidates are distinct.
pub proof fn lemma_like_plan_distinct(items: Seq<RecommendPost>, n: nat)
    requires
        n <= items.len(),
    ensures
        forall|a: int, b: int|
            0 <= a < b < like_plan(items, n).len() ==> like_plan(items, n)[a] != like_plan(items, n)[b],
    decreases n,
{
    if n > 0 {
        lemma_like_plan_distinct(items, (n - 1) as nat);
        let p = like_plan(items, (n - 1) as nat);
        if like_candidate(items, n - 1) {
            assert forall|a: int, b: int|
                0 <= a < b < like_plan(items, n).len() implies like_plan(items, n)[a] != like_plan(
                items,
                n,
            )[b] by {
                if b == p.len() {
                    lemma_like_plan_from(items, (n - 1) as nat, a);
                    let j = choose|j: int| 0 <= j < n - 1 && items[j].post_id@ == p[a];
                    assert(items[j].post_id@ != items[n - 1].post_id@);
                } else {
                    assert(like_plan(items, n)[a] == p[a]);
                    assert(like_plan(items, n)[b] == p[b]);
                }
            }
        }
    }
}

fn post_seen_earlier(items: &Vec<&RecommendPost>, i: usize) -> (b: bool)
    requires
        i < items@.len(),
    ensures
        b == exists|j: int| 0 <= j < i && items@[j].post_id@ == items@[i as int].post_id@,
{
    let mut j: usize = 0;
    while j < i
        invariant
            j <= i < items@.len(),
            forall|k: int| 0 <= k < j ==> items@[k].post_id@ != items@[i as int].post_id@,
        decreases i - j,
    {
        if str_eq(items[j].post_id.as_str(), items[i].post_id.as_str()) {
            return true;
        }
        j = j + 1;
    }
    false
}

/// The posts to like, in order: the browsed posts, then the listed ones,
/// each id once, leaving out posts already liked. Likes stop once the
/// target is reached.
pub fn like_candidates(browsed: &[RecommendPost], posts: &[RecommendPost]) -> (r: Vec<String>)
    ensures
        r@.len() == like_plan(browsed@ + posts@, (browsed@.len() + posts@.len()) as nat).len(),
        forall|k: int|
            0 <= k < r@.len() ==> #[trigger] r@[k]@ == like_plan(
                browsed@ + posts@,
                (browsed@.len() + posts@.len()) as nat,
            )[k],
{
    let ghost all = browsed@ + posts@;
    let mut items: Vec<&RecommendPost> = Vec::new();
    let mut b: usize = 0;
    while b < browsed.len()
        invariant
            b <= browsed@.len(),
            items@.len() == b,
            forall|k: int| 0 <= k < b ==> *items@[k] == browsed@[k],
        decreases browsed@.len() - b,
    {
        items.push(&browsed[b]);
        b = b + 1;
    }
    let mut p: usize = 0;
    while p < posts.len()
        invariant
            p <= posts@.len(),
            items@.len() == browsed@.len() + p,
            forall|k: int| 0 <= k < browsed@.len() ==> *items@[k] == browsed@[k],
            forall|k: int| 0 <= k < p ==> *items@[browsed@.len() + k] == posts@[k],
        decreases posts@.len() - p,
    {
        items.push(&posts[p]);
        p = p + 1;
    }
    assert forall|k: int| 0 <= k < items@.len() implies *items@[k] == all[k] by {
        if k >= browsed@.len() {
            assert(*items@[browsed@.len() + (k - browsed@.len())] == posts@[k - browsed@.len()]);
        }
    }
    let mut out: Vec<String> = Vec::new();
    let mut i: usize = 0;
    while i < items.len()
        invariant
            i <= items@.len(),
            items@.len() == all.len(),
            forall|k: int| 0 <= k < items@.len() ==> *items@[k] == all[k],
            out@.len() == like_plan(all, i as nat).len(),
            forall|k: int| 0 <= k < out@.len() ==> #[trigger] out@[k]@ == like_plan(all, i as nat)[k],
        decreases items@.len() - i,
    {
        let seen = post_seen_earlier(&items, i);
        let liked = match items[i].liked {
            Some(v) => v,
            None => false,
        };
        proof {
            assert(!seen <==> forall|j: int| 0 <= j < i ==> all[j].post_id@ != all[i as int].post_id@)
                by {
                if seen {
                    let j = choose|j: int|
                        0 <= j < i && items@[j].post_id@ == items@[i as int].post_id@;
                    assert(all[j].post_id@ == all[i as int].post_id@);
                }
                if !seen {
                    assert forall|j: int| 0 <= j < i implies all[j].post_id@ != all[
                        i as int
                    ].post_id@ by {
                        assert(items@[j].post_id@ != items@[i as int].post_id@);
                    }
                }
            }
            assert(liked <==> all[i as int].liked == Some(true));
        }
        if !seen && !liked {
            out.push(items[i].post_id.clone());
        }
        i = i + 1;
    }
    out
}

/// The reward of the check-in day: the `days`-th reward of the month
/// (the first one for zero or fewer days), where the list has it.
pub open spec fn reward_index(days: i64) -> int {
    if days - 1 > 0 {
        days - 1
    } else {
        0
    }
}

/// Picks the reward of day `days` from the month's `(name, count)` list.
pub fn pick_reward(rewards: &[(String, i64)], days: i64) -> (r: Option<Reward>)
    requires
        days > i64::MIN,
    ensures
        reward_index(days) < rewards@.len() ==> (r matches Some(w) && w.name == rewards@[reward_index(
            days,
        )].0 && w.num == rewards@[reward_index(days)].1),
        reward_index(days) >= rewards@.len() ==> r is None,
{
    let d = days - 1;
    let idx: i64 = if d > 0 {
        d
    } else {
        0
    };
    if (idx as u64) < (rewards.len() as u64) {
        let k = idx as usize;
        Some(Reward { name: rewards[k].0.clone(), num: rewards[k].1 })
    } else {
        None
    }
}

/// An account run failed where every game check-in failed (and there was
/// at least one), or the app check-in failed and no game succeeded.
pub open spec fn run_failed(games: Seq<GameSigninResult>, app_failed: bool) -> bool {
    let none_succeeded = forall|i: int| 0 <= i < games.len() ==> !games[i].success;
    (games.len() > 0 && none_succeeded) || (app_failed && none_succeeded)
}

/// The status of an account run: `failed` or `success`.
pub fn account_status(games: &[GameSigninResult], app_failed: bool) -> (s: String)
    ensures
        s@ == (if run_failed(games@, app_failed) {
            "failed"@
        } else {
            "success"@
        }),
{
    let mut any_success = false;
    let mut i: usize = 0;
    while i < games.len()
        invariant
            i <= games@.len(),
            any_success == exists|k: int| 0 <= k < i && games@[k].success,
        decreases games@.len() - i,
    {
        if games[i].success {
            any_success = true;
        }
        i = i + 1;
    }
    if !any_success && (games.len() > 0 || app_failed) {
        "failed".to_owned()
    } else {
        "success".to_owned()
    }
}

/// `parts` joined by `sep`.
pub open spec fn join(parts: Seq<Seq<char>>, sep: Seq<char>) -> Seq<char>
    decreases parts.len(),
{
    if parts.len() == 0 {
        Seq::empty()
    } else if parts.len() == 1 {
        parts[0]
    } else {
        join(parts.drop_last(), sep) + sep + parts.last()
    }
}

/// The views of a list of strings.
pub open spec fn views(v: Seq<String>) -> Seq<Seq<char>> {
    Seq::new(v.len(), |i: int| v[i]@)
}

/// Joins strings with a separator.
pub fn join_strings(parts: &[String], sep: &str) -> (r: String)
    ensures
        r@ == join(views(parts@), sep@),
{
    let mut out: Vec<char> = Vec::new();
    let mut i: usize = 0;
    while i < parts.len()
        invariant
            i <= parts@.len(),
            out@ == join(views(parts@.take(i as int)), sep@),
        decreases parts@.len() - i,
    {
        proof {
            assert(views(parts@.take(i + 1)).drop_last() =~= views(parts@.take(i as int)));
        }
        if i > 0 {
            push_str(&mut out, sep);
        }
        push_str(&mut out, parts[i].as_str());
        proof {
            if i == 0 {
                assert(out@ =~= views(parts@.take(1))[0]);
            }
        }
        i = i + 1;
    }
    proof {
        assert(parts@.take(parts@.len() as int) =~= parts@);
    }
    string_from_chars(&out)
}

/// The failure of one game: `label: error`.
pub fn game_failure_entry(label: &str, error: &str) -> (r: String)
    ensures
        r@ == label@ + ": "@ + error@,
{
    let mut out: Vec<char> = Vec::new();
    push_str(&mut out, label);
    push_str(&mut out, ": ");
    push_str(&mut out, error);
    string_from_chars(&out)
}

/// The failures of an account run, joined by `；`: the app check-in's as
/// `APP签到：…`, the games' as `游戏签到：…` (each joined by `；`); none
/// where there are none.
pub open spec fn failure_summary_spec(app_error: Option<Seq<char>>, game_failures: Seq<Seq<char>>) -> Option<
    Seq<char>,
> {
    let a: Seq<Seq<char>> = match app_error {
        Some(e) => seq!["APP签到："@ + e],
        None => Seq::empty(),
    };
    let parts = if game_failures.len() > 0 {
        a.push("游戏签到："@ + join(game_failures, "；"@))
    } else {
        a
    };
    if parts.len() == 0 {
        None
    } else {
        Some(join(parts, "；"@))
    }
}

/// Sums up the failures of an account run.
pub fn failure_summary(app_error: &Option<String>, game_failures: &[String]) -> (r: Option<String>)
    ensures
        opt_view(r) == failure_summary_spec(opt_view(*app_error), views(game_failures@)),
{
    let mut parts: Vec<String> = Vec::new();
    match app_error {
        Some(e) => {
            let mut out: Vec<char> = Vec::new();
            push_str(&mut out, "APP签到：");
            push_str(&mut out, e.as_str());
            parts.push(string_from_chars(&out));
        },
        None => {},
    }
    if game_failures.len() > 0 {
        let joined = join_strings(game_failures, "；");
        let mut out: Vec<char> = Vec::new();
        push_str(&mut out, "游戏签到：");
        push_str(&mut out, joined.as_str());
        parts.push(string_from_chars(&out));
    }
    if parts.len() == 0 {
        None
    } else {
        let r = join_strings(parts.as_slice(), "；");
        proof {
            let a: Seq<Seq<char>> = match opt_view(*app_error) {
                Some(e) => seq!["APP签到："@ + e],
                None => Seq::empty(),
            };
            let expect = if game_failures@.len() > 0 {
                a.push("游戏签到："@ + join(views(game_failures@), "；"@))
            } else {
                a
            };
            assert(views(parts@) =~= expect);
        }
        Some(r)
    }
}

/// The progress of the coin tasks of one run (the coin amounts are read
/// separately).
pub struct CoinProgress {
    pub bbs_signin: Option<bool>,
    pub browse_done: i64,
    pub browse_target: i64,
    pub like_done: i64,
    pub like_target: i64,
    pub share_done: i64,
    pub share_target: i64,
    pub platform: String,
    pub error: Option<String>,
}

impl CoinProgress {
    /// No step counts past its target (nor below zero).
    pub open spec fn wf(&self) -> bool {
        &&& 0 <= self.browse_done
        &&& (self.browse_target >= 0 ==> self.browse_done <= self.browse_target)
        &&& (self.browse_target < 0 ==> self.browse_done == 0)
        &&& 0 <= self.like_done
        &&& (self.like_target >= 0 ==> self.like_done <= self.like_target)
        &&& (self.like_target < 0 ==> self.like_done == 0)
        &&& 0 <= self.share_done <= 1
    }

    /// The targets of the day's coin tasks: one forum check-in, five
    /// browsed posts, five likes and one share where the task list does
    /// not say otherwise.
    /// Also returns the forum check-ins still to do.
    pub fn from_tasks(tasks: &[CoinTask], platform: &str) -> (r: (CoinProgress, i64))
        requires
            remaining_defined(tasks@, "signin_c"@),
            remaining_defined(tasks@, "browse_post_c"@),
            remaining_defined(tasks@, "like_post_c"@),
            remaining_defined(tasks@, "share"@),
        ensures
            r.0.wf(),
            r.0.bbs_signin is None,
            r.0.browse_done == 0 && r.0.like_done == 0 && r.0.share_done == 0,
            r.0.browse_target == remaining_spec(tasks@, "browse_post_c"@, 5),
            r.0.like_target == remaining_spec(tasks@, "like_post_c"@, 5),
            r.0.share_target == remaining_spec(tasks@, "share"@, 1),
            r.0.platform@ == platform@,
            r.0.error is None,
            r.1 == remaining_spec(tasks@, "signin_c"@, 1),
    {
        let bbs = remaining(tasks, "signin_c", 1);
        let p = CoinProgress {
            bbs_signin: None,
            browse_done: 0,
            browse_target: remaining(tasks, "browse_post_c", 5),
            like_done: 0,
            like_target: remaining(tasks, "like_post_c", 5),
            share_done: 0,
            share_target: remaining(tasks, "share", 1),
            platform: platform.to_owned(),
            error: None,
        };
        (p, bbs)
    }

    /// Whether another post is to be browsed.
    pub fn wants_browse(&self) -> (b: bool)
        ensures
            b == (self.browse_done < self.browse_target),
    {
        self.browse_done < self.browse_target
    }

    /// Counts a browsed post.
    pub fn record_browse(&mut self)
        requires
            old(self).wf(),
            old(self).browse_done < old(self).browse_target,
        ensures
            final(self).wf(),
            final(self).browse_done == old(self).browse_done + 1,
            final(self).like_done == old(self).like_done,
            final(self).share_done == old(self).share_done,
    {
        self.browse_done = self.browse_done + 1;
    }

    /// Whether another post is to be liked.
    pub fn wants_like(&self) -> (b: bool)
        ensures
            b == (self.like_done < self.like_target),
    {
        self.like_done < self.like_target
    }

    /// Counts a liked post.
    pub fn record_like(&mut self)
        requires
            old(self).wf(),
            old(self).like_done < old(self).like_target,
        ensures
            final(self).wf(),
            final(self).like_done == old(self).like_done + 1,
            final(self).browse_done == old(self).browse_done,
            final(self).share_done == old(self).share_done,
    {
        self.like_done = self.like_done + 1;
    }

    /// Counts the share.
    pub fn record_share(&mut self)
        requires
            old(self).wf(),
        ensures
            final(self).wf(),
            final(self).share_done == 1,
            final(self).browse_done == old(self).browse_done,
            final(self).like_done == old(self).like_done,
    {
        self.share_done = 1;
    }

    /// The post list is fetched where any post task remains.
    pub fn needs_posts(&self) -> (b: bool)
        ensures
            b == (self.browse_target > 0 || self.like_target > 0 || self.share_target > 0),
    {
        self.browse_target > 0 || self.like_target > 0 || self.share_target > 0
    }

    /// Records the forum check-in: done where it succeeded or had already
    /// been done; otherwise its failure is added to the errors.
    pub fn record_bbs_signin(&mut self, failure: Option<&str>)
        ensures
            match failure {
                None => final(self).bbs_signin == Some(true) && final(self).error == old(self).error,
                Some(m) => if already_signed_spec(m@) {
                    final(self).bbs_signin == Some(true) && final(self).error == old(self).error
                } else {
                    final(self).bbs_signin == old(self).bbs_signin && opt_view(final(self).error)
                        == Some(
                        match old(self).error {
                            Some(e) => e@ + "；"@ + ("BBS 签到失败："@ + m@),
                            None => "BBS 签到失败："@ + m@,
                        },
                    )
                },
            },
            final(self).browse_done == old(self).browse_done,
            final(self).like_done == old(self).like_done,
            final(self).share_done == old(self).share_done,
            final(self).browse_target == old(self).browse_target,
            final(self).like_target == old(self).like_target,
            final(self).share_target == old(self).share_target,
    {
        match failure {
            None => {
                self.bbs_signin = Some(true);
            },
            Some(m) => {
                if is_already_signed(m) {
                    self.bbs_signin = Some(true);
                } else {
                    let mut out: Vec<char> = Vec::new();
                    push_str(&mut out, "BBS 签到失败：");
                    push_str(&mut out, m);
                    let text = string_from_chars(&out);
                    push_error(&mut self.error, text.as_str());
                }
            },
        }
    }
}

/// The post to share: the first browsed one, else the first listed one.
pub fn share_choice(browsed: &[RecommendPost], posts: &[RecommendPost]) -> (r: Option<String>)
    ensures
        opt_view(r) == (if browsed@.len() > 0 {
            Some(browsed@[0].post_id@)
        } else if posts@.len() > 0 {
            Some(posts@[0].post_id@)
        } else {
            None
        }),
{
    if browsed.len() > 0 {
        Some(browsed[0].post_id.clone())
    } else if posts.len() > 0 {
        Some(posts[0].post_id.clone())
    } else {
        None
    }
}

} // verus!

//! Session renewal of an account as a sequence of API calls: the refresh
//! token first; after a refresh rejected with 402 the Laohu token rebuilds
//! the session; the password login comes last. The caller performs each
//! call that an action asks for and hands its answer back as an event.

use vstd::prelude::*;

use crate::api::ApiError;
use crate::models::Account;
use crate::runner::refresh_falls_back_to_password;
use crate::text::contains_seq;

verus! {

/// Where a renewal stands: the call it waits on, or done.
pub enum RenewStep {
    Start,
    /// Waiting on the refresh-token call.
    AwaitRefresh,
    /// Waiting on the password login tried after the refresh failed with
    /// this error.
    AwaitPasswordAfterRefresh(String),
    /// Waiting on the user-centre login with the Laohu token.
    AwaitRebuild,
    /// Waiting on the password login tried after the rebuild failed.
    AwaitPasswordAfterRebuild,
    /// Waiting on the user-centre login with the token that the password
    /// login gave.
    AwaitCenter { token: String, user_id: String },
    Done,
}

/// What a call answered.
pub enum RenewEvent {
    /// Starts the renewal.
    Begin,
    /// A new session: access token, refresh token and, where the answer
    /// carries one, the uid.
    Session { access: String, refresh: String, uid: Option<String> },
    /// A password login's Laohu token and user id.
    LoggedIn { token: String, user_id: String },
    /// The call failed with this error.
    Failed(String),
}

/// The new session fields of an account; `login` holds the Laohu token
/// and user id where a password login gave them.
pub struct SessionUpdate {
    pub access: String,
    pub refresh: String,
    pub uid: Option<String>,
    pub login: Option<(String, String)>,
}

/// What the caller does next.
pub enum RenewAction {
    /// Call the refresh-token API with the account's refresh token.
    CallRefresh,
    /// Log in with phone number and password.
    CallPasswordLogin { phone: String, password: String },
    /// Log in to the user centre with a Laohu token and user id.
    CallUserCenter { token: String, user_id: String },
    /// The renewal ends with a new session or an error.
    Finish(Result<SessionUpdate, String>),
    /// The event does not answer the call the step waits on; nothing more
    /// is asked.
    Ignored,
}

/// The password login where the account has a phone number and a usable
/// password, going on at `next`; otherwise the renewal ends with `error`.
pub open spec fn password_or(
    account: Account,
    password: Option<String>,
    next: RenewStep,
    error: String,
) -> (RenewStep, RenewAction) {
    match (account.phone, password) {
        (Some(phone), Some(password)) => (next, RenewAction::CallPasswordLogin { phone, password }),
        _ => (RenewStep::Done, RenewAction::Finish(Err(error))),
    }
}

/// One step of the renewal of `account`, whose stored password decrypts
/// to `password` where it does.
pub open spec fn renew_spec(
    account: Account,
    password: Option<String>,
    step: RenewStep,
    event: RenewEvent,
) -> (RenewStep, RenewAction) {
    match (step, event) {
        (RenewStep::Start, RenewEvent::Begin) => (RenewStep::AwaitRefresh, RenewAction::CallRefresh),
        (RenewStep::AwaitRefresh, RenewEvent::Session { access, refresh, uid }) => (
            RenewStep::Done,
            RenewAction::Finish(Ok(SessionUpdate { access, refresh, uid, login: None })),
        ),
        (RenewStep::AwaitRefresh, RenewEvent::Failed(e)) => if !contains_seq(
            e@,
            "REFRESH_REJECTED_402"@,
        ) || account.laohu_token is None || account.laohu_user_id is None {
            password_or(account, password, RenewStep::AwaitPasswordAfterRefresh(e), e)
        } else {
            (
                RenewStep::AwaitRebuild,
                RenewAction::CallUserCenter {
                    token: account.laohu_token.unwrap(),
                    user_id: account.laohu_user_id.unwrap(),
                },
            )
        },
        (RenewStep::AwaitPasswordAfterRefresh(_), RenewEvent::LoggedIn { token, user_id }) => (
            RenewStep::AwaitCenter { token, user_id },
            RenewAction::CallUserCenter { token, user_id },
        ),
        (RenewStep::AwaitPasswordAfterRefresh(e), RenewEvent::Failed(_)) => (
            RenewStep::Done,
            RenewAction::Finish(Err(e)),
        ),
        (RenewStep::AwaitRebuild, RenewEvent::Session { access, refresh, uid }) => (
            RenewStep::Done,
            RenewAction::Finish(Ok(SessionUpdate { access, refresh, uid, login: None })),
        ),
        (RenewStep::AwaitRebuild, RenewEvent::Failed(e)) => password_or(
            account,
            password,
            RenewStep::AwaitPasswordAfterRebuild,
            e,
        ),
        (RenewStep::AwaitPasswordAfterRebuild, RenewEvent::LoggedIn { token, user_id }) => (
            RenewStep::AwaitCenter { token, user_id },
            RenewAction::CallUserCenter { token, user_id },
        ),
        (RenewStep::AwaitPasswordAfterRebuild, RenewEvent::Failed(e)) => (
            RenewStep::Done,
            RenewAction::Finish(Err(e)),
        ),
        (RenewStep::AwaitCenter { token, user_id }, RenewEvent::Session { access, refresh, uid }) => (
            RenewStep::Done,
            RenewAction::Finish(Ok(SessionUpdate { access, refresh, uid, login: Some((token, user_id)) })),
        ),
        (RenewStep::AwaitCenter { .. }, RenewEvent::Failed(e)) => (
            RenewStep::Done,
            RenewAction::Finish(Err(e)),
        ),
        _ => (RenewStep::Done, RenewAction::Ignored),
    }
}

/// The renewal keeps what the calls answered: a new session carries the
/// access token, refresh token and uid of the answer that gave it (and the
/// Laohu login only after a password login); the password login uses the
/// account's phone and password; the user-centre login uses the token of
/// the password login just made, or else the account's Laohu credentials.
pub proof fn lemma_renewal_keeps_answers(
    account: Account,
    password: Option<String>,
    step: RenewStep,
    event: RenewEvent,
)
    ensures
        (match event {
            RenewEvent::Session { access, refresh, uid } => (renew_spec(account, password, step, event).1 matches RenewAction::Finish(Ok(u))
                ==> u.access == access && u.refresh == refresh && u.uid == uid && u.login == (match step {
                RenewStep::AwaitCenter { token, user_id } => Some((token, user_id)),
                _ => None,
            })),
            _ => !(renew_spec(account, password, step, event).1 matches RenewAction::Finish(Ok(_))),
        }),
        (match renew_spec(account, password, step, event).1 {
            RenewAction::CallPasswordLogin { phone, password: w } => account.phone == Some(phone)
                && password == Some(w),
            RenewAction::CallUserCenter { token, user_id } => match event {
                RenewEvent::LoggedIn { token: t, user_id: u } => token == t && user_id == u,
                _ => account.laohu_token == Some(token) && account.laohu_user_id == Some(user_id),
            },
            _ => true,
        }),
{
}

fn password_login_or(
    account: &Account,
    password: &Option<String>,
    next: RenewStep,
    error: String,
) -> (r: (RenewStep, RenewAction))
    ensures
        r == password_or(*account, *password, next, error),
{
    match (&account.phone, password) {
        (Some(phone), Some(pwd)) => (
            next,
            RenewAction::CallPasswordLogin { phone: phone.clone(), password: pwd.clone() },
        ),
        _ => (RenewStep::Done, RenewAction::Finish(Err(error))),
    }
}

/// Takes one step of the renewal of `account`, given the password that
/// its stored password decrypts to (where it does) and the answer to the
/// last call.
pub fn renew_step(
    account: &Account,
    password: &Option<String>,
    step: RenewStep,
    event: RenewEvent,
) -> (r: (RenewStep, RenewAction))
    ensures
        r == renew_spec(*account, *password, step, event),
        (match event {
            RenewEvent::Session { access, refresh, uid } => (r.1 matches RenewAction::Finish(Ok(u))
                ==> u.access == access && u.refresh == refresh && u.uid == uid && u.login == (match step {
                RenewStep::AwaitCenter { token, user_id } => Some((token, user_id)),
                _ => None,
            })),
            _ => !(r.1 matches RenewAction::Finish(Ok(_))),
        }),
        (match r.1 {
            RenewAction::CallPasswordLogin { phone, password: w } => account.phone == Some(phone)
                && *password == Some(w),
            RenewAction::CallUserCenter { token, user_id } => match event {
                RenewEvent::LoggedIn { token: t, user_id: u } => token == t && user_id == u,
                _ => account.laohu_token == Some(token) && account.laohu_user_id == Some(user_id),
            },
            _ => true,
        }),
{
    match (step, event) {
        (RenewStep::Start, RenewEvent::Begin) => (RenewStep::AwaitRefresh, RenewAction::CallRefresh),
        (RenewStep::AwaitRefresh, RenewEvent::Session { access, refresh, uid }) => (
            RenewStep::Done,
            RenewAction::Finish(Ok(SessionUpdate { access, refresh, uid, login: None })),
        ),
        (RenewStep::AwaitRefresh, RenewEvent::Failed(e)) => {
            let to_password = refresh_falls_back_to_password(
                e.as_str(),
                account.laohu_token.is_some(),
                account.laohu_user_id.is_some(),
            );
            if to_password {
                let next = RenewStep::AwaitPasswordAfterRefresh(e.clone());
                password_login_or(account, password, next, e)
            } else {
                match (&account.laohu_token, &account.laohu_user_id) {
                    (Some(t), Some(u)) => (
                        RenewStep::AwaitRebuild,
                        RenewAction::CallUserCenter { token: t.clone(), user_id: u.clone() },
                    ),
                    _ => (RenewStep::Done, RenewAction::Ignored),
                }
            }
        },
        (RenewStep::AwaitPasswordAfterRefresh(_), RenewEvent::LoggedIn { token, user_id }) => (
            RenewStep::AwaitCenter { token: token.clone(), user_id: user_id.clone() },
            RenewAction::CallUserCenter { token, user_id },
        ),
        (RenewStep::AwaitPasswordAfterRefresh(e), RenewEvent::Failed(_)) => (
            RenewStep::Done,
            RenewAction::Finish(Err(e)),
        ),
        (RenewStep::AwaitRebuild, RenewEvent::Session { access, refresh, uid }) => (
            RenewStep::Done,
            RenewAction::Finish(Ok(SessionUpdate { access, refresh, uid, login: None })),
        ),
        (RenewStep::AwaitRebuild, RenewEvent::Failed(e)) => password_login_or(
            account,
            password,
            RenewStep::AwaitPasswordAfterRebuild,
            e,
        ),
        (RenewStep::AwaitPasswordAfterRebuild, RenewEvent::LoggedIn { token, user_id }) => (
            RenewStep::AwaitCenter { token: token.clone(), user_id: user_id.clone() },
            RenewAction::CallUserCenter { token, user_id },
        ),
        (RenewStep::AwaitPasswordAfterRebuild, RenewEvent::Failed(e)) => (
            RenewStep::Done,
            RenewAction::Finish(Err(e)),
        ),
        (RenewStep::AwaitCenter { token, user_id }, RenewEvent::Session { access, refresh, uid }) => (
            RenewStep::Done,
            RenewAction::Finish(Ok(SessionUpdate { access, refresh, uid, login: Some((token, user_id)) })),
        ),
        (RenewStep::AwaitCenter { .. }, RenewEvent::Failed(e)) => (
            RenewStep::Done,
            RenewAction::Finish(Err(e)),
        ),
        _ => (RenewStep::Done, RenewAction::Ignored),
    }
}

/// The session a check-in run starts with: the renewed one, or, where the
/// renewal failed and the account holds an access token, the account as it
/// is with that token; otherwise the renewal's error.
pub fn starting_session(
    account: &Account,
    renewed: Result<(Account, String), ApiError>,
) -> (r: Result<(Account, String), ApiError>)
    ensures
        match renewed {
            Ok(v) => r == Ok::<(Account, String), ApiError>(v),
            Err(e) => match account.access_token {
                Some(at) => r == Ok::<(Account, String), ApiError>((*account, at)),
                None => r == Err::<(Account, String), ApiError>(e),
            },
        },
{
    match renewed {
        Ok(v) => Ok(v),
        Err(e) => match &account.access_token {
            Some(at) => Ok((account.duplicate(), at.clone())),
            None => Err(e),
        },
    }
}

} // verus!

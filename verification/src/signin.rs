//! The check-in sequence of one account as a sequence of API calls: the app
//! check-in first, whose failure does not stop the run, then each role's
//! game check-in with its day count and the month's rewards. An expired
//! session, or a failure to read the day count or the rewards, aborts the
//! run; any other failed game check-in is recorded and the next role comes.
//! The caller performs each call an action asks for and hands its answer
//! back as an event.

use vstd::prelude::*;

use crate::models::{clone_opt, GameRole, GameSigninResult, Reward};
use crate::runner::{
    already_signed_spec, auth_error_spec, classify_signin_failure, game_failure_entry, game_label,
    game_label_spec, is_already_signed, opt_view, pick_reward, reward_index, signin_failure_spec,
    views, SigninFailure,
};

verus! {

/// How the app check-in went.
pub enum AppOutcome {
    Pending,
    /// Checked in; `already` where it had been done earlier today.
    Signed { already: bool },
    /// Failed with this error.
    Failed(String),
}

/// The call a check-in run waits on.
pub enum SigninStage {
    Start,
    AwaitApp,
    AwaitGame,
    /// Waiting on the day count of the current role's game.
    AwaitDays { already: bool },
    /// Waiting on the month's rewards of the current role's game.
    AwaitRewards { already: bool, days: i64 },
    Done,
}

/// A check-in run: the roles, the index of the current one, the stage, and
/// what has been recorded so far.
pub struct SigninState {
    pub roles: Vec<GameRole>,
    pub next: usize,
    pub stage: SigninStage,
    pub app: AppOutcome,
    pub games: Vec<GameSigninResult>,
    /// The failures of game check-ins as `label: error`.
    pub failures: Vec<String>,
}

/// What a call answered.
pub enum SigninEvent {
    Begin,
    /// The app check-in succeeded.
    AppSigned,
    /// The current role's game check-in succeeded.
    GameSigned,
    /// The day count of the current role's game.
    DaysRead(i64),
    /// The month's rewards (name and count) of the current role's game.
    RewardsRead(Vec<(String, i64)>),
    /// The call failed with this error.
    Failed(String),
}

/// What the caller does next.
pub enum SigninAction {
    CallAppSignin,
    CallGameSignin { role_id: String, game_id: String },
    CallSigninState { game_id: String },
    CallSigninRewards { game_id: String },
    /// The run ends with this error.
    Abort(String),
    /// All roles are done; the results are in the state.
    Finish,
    /// The event does not answer the call the stage waits on; nothing
    /// changes.
    Ignored,
}

impl SigninState {
    /// A current role exists wherever the stage waits on a role's call.
    pub open spec fn wf(&self) -> bool {
        &&& self.next <= self.roles@.len()
        &&& (self.stage is AwaitGame || self.stage is AwaitDays || self.stage is AwaitRewards)
            ==> self.next < self.roles@.len()
    }

    /// A run over `roles` that has not begun.
    pub fn new(roles: Vec<GameRole>) -> (s: SigninState)
        ensures
            s.wf(),
            s.roles == roles,
            s.next == 0,
            s.stage == SigninStage::Start,
            s.app == AppOutcome::Pending,
            s.games@.len() == 0,
            s.failures@.len() == 0,
    {
        SigninState {
            roles,
            next: 0,
            stage: SigninStage::Start,
            app: AppOutcome::Pending,
            games: Vec::new(),
            failures: Vec::new(),
        }
    }
}

/// The role's name as shown in results: its name, else its id.
pub open spec fn role_shown(r: GameRole) -> String {
    match r.role_name {
        Some(n) => n,
        None => r.role_id,
    }
}

/// The result of a role whose game check-in failed with `e`.
pub open spec fn failed_entry(r: GameRole, e: String) -> GameSigninResult {
    GameSigninResult {
        game_id: r.game_id,
        game_name: r.game_name,
        role_name: role_shown(r),
        days: None,
        reward: None,
        already_signed: Some(false),
        success: false,
        error: Some(e),
    }
}

/// The reward of day `days` from the month's list.
pub open spec fn reward_of(rewards: Seq<(String, i64)>, days: i64) -> Option<Reward> {
    if reward_index(days) < rewards.len() {
        Some(Reward { name: rewards[reward_index(days)].0, num: rewards[reward_index(days)].1 })
    } else {
        None
    }
}

/// The result of a role checked in (`already` where that was done earlier
/// today) on day `days` of the month.
pub open spec fn signed_entry(
    r: GameRole,
    days: i64,
    rewards: Seq<(String, i64)>,
    already: bool,
) -> GameSigninResult {
    GameSigninResult {
        game_id: r.game_id,
        game_name: r.game_name,
        role_name: role_shown(r),
        days: Some(days),
        reward: reward_of(rewards, days),
        already_signed: Some(already),
        success: true,
        error: None,
    }
}

/// The stage and action that follow once the role at `next` is up: its
/// game check-in, or the end of the run after the last role.
pub open spec fn next_call(roles: Seq<GameRole>, next: int) -> (SigninStage, SigninAction) {
    if next < roles.len() {
        (
            SigninStage::AwaitGame,
            SigninAction::CallGameSignin { role_id: roles[next].role_id, game_id: roles[next].game_id },
        )
    } else {
        (SigninStage::Done, SigninAction::Finish)
    }
}

/// `t` records what `s` recorded, on the same roles and role index.
pub open spec fn same_records(s: SigninState, t: SigninState) -> bool {
    t.roles == s.roles && t.next == s.next && t.app == s.app && t.games == s.games && t.failures
        == s.failures
}

/// `t` is `s` with the current role's result `entry` recorded and the next
/// role up.
pub open spec fn recorded(s: SigninState, t: SigninState, entry: GameSigninResult) -> bool {
    &&& t.roles == s.roles
    &&& t.app == s.app
    &&& t.next == s.next + 1
    &&& t.games@ == s.games@.push(entry)
}

/// One step of a check-in run: the state `t` and the action `act` that
/// follow `s` on `ev`.
pub open spec fn signin_spec(s: SigninState, ev: SigninEvent, t: SigninState, act: SigninAction) -> bool {
    let role = s.roles@[s.next as int];
    match (s.stage, ev) {
        (SigninStage::Start, SigninEvent::Begin) => same_records(s, t) && t.stage
            == SigninStage::AwaitApp && act == SigninAction::CallAppSignin,
        (SigninStage::AwaitApp, SigninEvent::AppSigned) => {
            &&& t.roles == s.roles && t.next == s.next && t.games == s.games && t.failures
                == s.failures
            &&& t.app == AppOutcome::Signed { already: false }
            &&& (t.stage, act) == next_call(s.roles@, s.next as int)
        },
        (SigninStage::AwaitApp, SigninEvent::Failed(e)) => {
            &&& t.roles == s.roles && t.next == s.next && t.games == s.games && t.failures
                == s.failures
            &&& t.app == (if already_signed_spec(e@) {
                AppOutcome::Signed { already: true }
            } else {
                AppOutcome::Failed(e)
            })
            &&& (t.stage, act) == next_call(s.roles@, s.next as int)
        },
        (SigninStage::AwaitGame, SigninEvent::GameSigned) => same_records(s, t) && t.stage
            == SigninStage::AwaitDays { already: false } && act == SigninAction::CallSigninState {
            game_id: role.game_id,
        },
        (SigninStage::AwaitGame, SigninEvent::Failed(e)) => match signin_failure_spec(e@) {
            SigninFailure::AlreadySigned => same_records(s, t) && t.stage == SigninStage::AwaitDays {
                already: true,
            } && act == SigninAction::CallSigninState { game_id: role.game_id },
            SigninFailure::SessionExpired => same_records(s, t) && t.stage == SigninStage::Done
                && act == SigninAction::Abort(e),
            SigninFailure::Failed => {
                &&& recorded(s, t, failed_entry(role, e))
                &&& views(t.failures@) == views(s.failures@).push(
                    game_label_spec(role.game_id@, opt_view(role.game_name)) + ": "@ + e@,
                )
                &&& (t.stage, act) == next_call(s.roles@, s.next + 1)
            },
        },
        (SigninStage::AwaitDays { already }, SigninEvent::DaysRead(days)) => same_records(s, t)
            && t.stage == SigninStage::AwaitRewards { already, days } && act
            == SigninAction::CallSigninRewards { game_id: role.game_id },
        (SigninStage::AwaitRewards { already, days }, SigninEvent::RewardsRead(list)) => {
            &&& recorded(s, t, signed_entry(role, days, list@, already))
            &&& t.failures == s.failures
            &&& (t.stage, act) == next_call(s.roles@, s.next + 1)
        },
        (SigninStage::AwaitDays { .. }, SigninEvent::Failed(e)) => same_records(s, t) && t.stage
            == SigninStage::Done && act == SigninAction::Abort(e),
        (SigninStage::AwaitRewards { .. }, SigninEvent::Failed(e)) => same_records(s, t) && t.stage
            == SigninStage::Done && act == SigninAction::Abort(e),
        _ => t == s && act == SigninAction::Ignored,
    }
}

/// A fresh check-in is not reported as done earlier: when the game
/// check-in call succeeds, and the day count and rewards are then read, the
/// result recorded for the role is a success on that day, with
/// `already_signed` false.
pub proof fn lemma_fresh_checkin_not_already(
    s0: SigninState,
    s1: SigninState,
    s2: SigninState,
    s3: SigninState,
    a1: SigninAction,
    a2: SigninAction,
    a3: SigninAction,
    days: i64,
    list: Vec<(String, i64)>,
)
    requires
        s0.stage is AwaitGame,
        signin_spec(s0, SigninEvent::GameSigned, s1, a1),
        signin_spec(s1, SigninEvent::DaysRead(days), s2, a2),
        signin_spec(s2, SigninEvent::RewardsRead(list), s3, a3),
    ensures
        s3.games@.len() == s0.games@.len() + 1,
        s3.games@.last().already_signed == Some(false),
        s3.games@.last().success,
        s3.games@.last().days == Some(days),
        s3.games@.last().error is None,
{
}

/// How each answer is recorded: the app check-in's outcome never stops the
/// run; a game check-in failure is "already done" exactly when its message
/// says so, aborts the run exactly when it otherwise says the session is
/// gone, and otherwise is recorded as a failed game with that error and no
/// day or reward; a read of the day count or rewards that fails aborts the
/// run with its error.
pub proof fn lemma_signin_records(s0: SigninState, ev: SigninEvent, s1: SigninState, a1: SigninAction)
    requires
        s0.wf(),
        signin_spec(s0, ev, s1, a1),
    ensures
        (match (s0.stage, ev) {
            (SigninStage::AwaitApp, SigninEvent::AppSigned) => s1.app == (AppOutcome::Signed {
                already: false,
            }) && !(a1 is Abort),
            (SigninStage::AwaitApp, SigninEvent::Failed(e)) => s1.app == (if already_signed_spec(e@) {
                AppOutcome::Signed { already: true }
            } else {
                AppOutcome::Failed(e)
            }) && !(a1 is Abort),
            (SigninStage::AwaitGame, SigninEvent::Failed(e)) => {
                &&& s1.stage == (SigninStage::AwaitDays { already: true }) <==> already_signed_spec(e@)
                &&& (!already_signed_spec(e@) && auth_error_spec(e@)) <==> a1 == SigninAction::Abort(e)
                &&& (!already_signed_spec(e@) && !auth_error_spec(e@)) ==> {
                    &&& s1.games@.len() == s0.games@.len() + 1
                    &&& s1.games@.last().success == false
                    &&& s1.games@.last().error == Some(e)
                    &&& s1.games@.last().days is None
                    &&& s1.games@.last().reward is None
                    &&& s1.games@.last().already_signed == Some(false)
                    &&& s1.failures@.len() == s0.failures@.len() + 1
                }
            },
            (SigninStage::AwaitRewards { already, days }, SigninEvent::RewardsRead(_)) => {
                &&& s1.games@.len() == s0.games@.len() + 1
                &&& s1.games@.last().already_signed == Some(already)
                &&& s1.games@.last().success
                &&& s1.games@.last().days == Some(days)
                &&& s1.games@.last().error is None
            },
            (SigninStage::AwaitDays { .. }, SigninEvent::Failed(e)) => a1 == SigninAction::Abort(e),
            (SigninStage::AwaitRewards { .. }, SigninEvent::Failed(e)) => a1 == SigninAction::Abort(e),
            _ => true,
        }),
{
    assert(views(s1.failures@).len() == s1.failures@.len());
    assert(views(s0.failures@).len() == s0.failures@.len());
}

/// "Already signed" comes only from the server saying so: a role's game
/// check-in is taken as done earlier today only after a failure whose
/// message says the check-in was already done.
pub proof fn lemma_already_needs_message(s0: SigninState, ev: SigninEvent, s1: SigninState, a1: SigninAction)
    requires
        s0.stage is AwaitGame,
        signin_spec(s0, ev, s1, a1),
        s1.stage == (SigninStage::AwaitDays { already: true }),
    ensures
        ev matches SigninEvent::Failed(e) && already_signed_spec(e@),
{
}

/// The stage and action for the role at `next`.
fn call_for(roles: &Vec<GameRole>, next: usize) -> (r: (SigninStage, SigninAction))
    requires
        next <= roles@.len(),
    ensures
        r == next_call(roles@, next as int),
{
    if next < roles.len() {
        (
            SigninStage::AwaitGame,
            SigninAction::CallGameSignin {
                role_id: roles[next].role_id.clone(),
                game_id: roles[next].game_id.clone(),
            },
        )
    } else {
        (SigninStage::Done, SigninAction::Finish)
    }
}

/// The name of a role as results show it.
fn shown_name(r: &GameRole) -> (s: String)
    ensures
        s == role_shown(*r),
{
    match &r.role_name {
        Some(n) => n.clone(),
        None => r.role_id.clone(),
    }
}

/// Takes one step of a check-in run.
pub fn signin_step(state: SigninState, event: SigninEvent) -> (r: (SigninState, SigninAction))
    requires
        state.wf(),
        event is RewardsRead ==> match state.stage {
            SigninStage::AwaitRewards { days, .. } => days > i64::MIN,
            _ => true,
        },
    ensures
        r.0.wf(),
        signin_spec(state, event, r.0, r.1),
        state.stage is AwaitGame && event is GameSigned ==> r.0.stage == (SigninStage::AwaitDays {
            already: false,
        }),
        (match (state.stage, event) {
            (SigninStage::AwaitApp, SigninEvent::AppSigned) => r.0.app == (AppOutcome::Signed {
                already: false,
            }) && !(r.1 is Abort),
            (SigninStage::AwaitApp, SigninEvent::Failed(e)) => r.0.app == (if already_signed_spec(e@) {
                AppOutcome::Signed { already: true }
            } else {
                AppOutcome::Failed(e)
            }) && !(r.1 is Abort),
            (SigninStage::AwaitGame, SigninEvent::Failed(e)) => {
                &&& r.0.stage == (SigninStage::AwaitDays { already: true }) <==> already_signed_spec(e@)
                &&& (!already_signed_spec(e@) && auth_error_spec(e@)) <==> r.1 == SigninAction::Abort(e)
                &&& (!already_signed_spec(e@) && !auth_error_spec(e@)) ==> {
                    &&& r.0.games@.len() == state.games@.len() + 1
                    &&& r.0.games@.last().success == false
                    &&& r.0.games@.last().error == Some(e)
                    &&& r.0.games@.last().days is None
                    &&& r.0.games@.last().reward is None
                    &&& r.0.games@.last().already_signed == Some(false)
                    &&& r.0.failures@.len() == state.failures@.len() + 1
                }
            },
            (SigninStage::AwaitRewards { already, days }, SigninEvent::RewardsRead(_)) => {
                &&& r.0.games@.len() == state.games@.len() + 1
                &&& r.0.games@.last().already_signed == Some(already)
                &&& r.0.games@.last().success
                &&& r.0.games@.last().days == Some(days)
                &&& r.0.games@.last().error is None
            },
            (SigninStage::AwaitDays { .. }, SigninEvent::Failed(e)) => r.1 == SigninAction::Abort(e),
            (SigninStage::AwaitRewards { .. }, SigninEvent::Failed(e)) => r.1 == SigninAction::Abort(e),
            _ => true,
        }),
{
    let ghost s = state;
    let mut st = state;
    match (&st.stage, event) {
        (SigninStage::Start, SigninEvent::Begin) => {
            st.stage = SigninStage::AwaitApp;
            (st, SigninAction::CallAppSignin)
        },
        (SigninStage::AwaitApp, SigninEvent::AppSigned) => {
            st.app = AppOutcome::Signed { already: false };
            let (stage, act) = call_for(&st.roles, st.next);
            st.stage = stage;
            (st, act)
        },
        (SigninStage::AwaitApp, SigninEvent::Failed(e)) => {
            if is_already_signed(e.as_str()) {
                st.app = AppOutcome::Signed { already: true };
            } else {
                st.app = AppOutcome::Failed(e);
            }
            let (stage, act) = call_for(&st.roles, st.next);
            st.stage = stage;
            (st, act)
        },
        (SigninStage::AwaitGame, SigninEvent::GameSigned) => {
            let game_id = st.roles[st.next].game_id.clone();
            st.stage = SigninStage::AwaitDays { already: false };
            (st, SigninAction::CallSigninState { game_id })
        },
        (SigninStage::AwaitGame, SigninEvent::Failed(e)) => {
            match classify_signin_failure(e.as_str()) {
                SigninFailure::AlreadySigned => {
                    let game_id = st.roles[st.next].game_id.clone();
                    st.stage = SigninStage::AwaitDays { already: true };
                    (st, SigninAction::CallSigninState { game_id })
                },
                SigninFailure::SessionExpired => {
                    st.stage = SigninStage::Done;
                    (st, SigninAction::Abort(e))
                },
                SigninFailure::Failed => {
                    let i = st.next;
                    proof {
                        assert(i < st.roles.len());
                    }
                    let label = game_label(
                        st.roles[i].game_id.as_str(),
                        match &st.roles[i].game_name {
                            Some(n) => Some(n.as_str()),
                            None => None,
                        },
                    );
                    let entry_text = game_failure_entry(label.as_str(), e.as_str());
                    let entry = GameSigninResult {
                        game_id: st.roles[i].game_id.clone(),
                        game_name: clone_opt(&st.roles[i].game_name),
                        role_name: shown_name(&st.roles[i]),
                        days: None,
                        reward: None,
                        already_signed: Some(false),
                        success: false,
                        error: Some(e),
                    };
                    st.games.push(entry);
                    st.failures.push(entry_text);
                    st.next = i + 1;
                    let (stage, act) = call_for(&st.roles, st.next);
                    st.stage = stage;
                    proof {
                        assert(views(st.failures@) =~= views(s.failures@).push(
                            game_label_spec(s.roles@[i as int].game_id@, opt_view(s.roles@[i as int].game_name))
                                + ": "@ + e@,
                        ));
                    }
                    (st, act)
                },
            }
        },
        (SigninStage::AwaitDays { already }, SigninEvent::DaysRead(days)) => {
            let already = *already;
            let game_id = st.roles[st.next].game_id.clone();
            st.stage = SigninStage::AwaitRewards { already, days };
            (st, SigninAction::CallSigninRewards { game_id })
        },
        (SigninStage::AwaitRewards { already, days }, SigninEvent::RewardsRead(list)) => {
            let already = *already;
            let days = *days;
            let i = st.next;
                    proof {
                        assert(i < st.roles.len());
                    }
            let reward = pick_reward(list.as_slice(), days);
            let entry = GameSigninResult {
                game_id: st.roles[i].game_id.clone(),
                game_name: clone_opt(&st.roles[i].game_name),
                role_name: shown_name(&st.roles[i]),
                days: Some(days),
                reward,
                already_signed: Some(already),
                success: true,
                error: None,
            };
            st.games.push(entry);
            st.next = i + 1;
            let (stage, act) = call_for(&st.roles, st.next);
            st.stage = stage;
            (st, act)
        },
        (SigninStage::AwaitDays { .. }, SigninEvent::Failed(e)) => {
            st.stage = SigninStage::Done;
            (st, SigninAction::Abort(e))
        },
        (SigninStage::AwaitRewards { .. }, SigninEvent::Failed(e)) => {
            st.stage = SigninStage::Done;
            (st, SigninAction::Abort(e))
        },
        _ => (st, SigninAction::Ignored),
    }
}

} // verus!

use taygedo::api::{ApiError, GameRecordCard};
use taygedo::models::{Account, GameRole};
use taygedo::renew::{renew_step, starting_session, RenewAction, RenewEvent, RenewStep};
use taygedo::runner::roles_by_cards;
use taygedo::signin::{signin_step, AppOutcome, SigninAction, SigninEvent, SigninStage, SigninState};

fn account(laohu: bool, phone: bool) -> Account {
    Account {
        id: "acc1".to_string(),
        name: "n".to_string(),
        uid: "u1".to_string(),
        device_id: "d".to_string(),
        openudid: None,
        vendorid: None,
        access_token: Some("old".to_string()),
        refresh_token: "rt0".to_string(),
        laohu_token: if laohu { Some("lt".to_string()) } else { None },
        laohu_user_id: if laohu { Some("lu".to_string()) } else { None },
        token_updated_at: None,
        phone: if phone { Some("138".to_string()) } else { None },
        encrypted_password: None,
        role_id: None,
        role_name: None,
    }
}

fn failed(e: &str) -> RenewEvent {
    RenewEvent::Failed(e.to_string())
}

#[test]
fn renewal_starts_with_refresh_and_ends_with_its_session() {
    let a = account(true, true);
    let pwd = Some("pw".to_string());
    let (step, act) = renew_step(&a, &pwd, RenewStep::Start, RenewEvent::Begin);
    assert!(matches!(act, RenewAction::CallRefresh));
    let ev = RenewEvent::Session { access: "at".to_string(), refresh: "rt".to_string(), uid: None };
    let (step, act) = renew_step(&a, &pwd, step, ev);
    assert!(matches!(step, RenewStep::Done));
    match act {
        RenewAction::Finish(Ok(u)) => {
            assert_eq!(u.access, "at");
            assert_eq!(u.refresh, "rt");
            assert!(u.uid.is_none() && u.login.is_none());
        }
        _ => panic!("expected a new session"),
    }
}

#[test]
fn rejected_refresh_rebuilds_with_laohu_then_falls_back_to_password() {
    let a = account(true, true);
    let pwd = Some("pw".to_string());
    let (step, _) = renew_step(&a, &pwd, RenewStep::Start, RenewEvent::Begin);
    let (step, act) = renew_step(&a, &pwd, step, failed("REFRESH_REJECTED_402: x"));
    match &act {
        RenewAction::CallUserCenter { token, user_id } => assert_eq!((token.as_str(), user_id.as_str()), ("lt", "lu")),
        _ => panic!("expected the Laohu rebuild"),
    }
    let (step, act) = renew_step(&a, &pwd, step, failed("userCenterLogin：bad"));
    match &act {
        RenewAction::CallPasswordLogin { phone, password } => assert_eq!((phone.as_str(), password.as_str()), ("138", "pw")),
        _ => panic!("expected the password login"),
    }
    let ev = RenewEvent::LoggedIn { token: "t2".to_string(), user_id: "id2".to_string() };
    let (step, act) = renew_step(&a, &pwd, step, ev);
    assert!(matches!(&act, RenewAction::CallUserCenter { token, .. } if token == "t2"));
    let ev = RenewEvent::Session { access: "a3".to_string(), refresh: "r3".to_string(), uid: Some("u3".to_string()) };
    let (_, act) = renew_step(&a, &pwd, step, ev);
    match act {
        RenewAction::Finish(Ok(u)) => {
            assert_eq!(u.access, "a3");
            assert_eq!(u.uid.as_deref(), Some("u3"));
            assert_eq!(u.login, Some(("t2".to_string(), "id2".to_string())));
        }
        _ => panic!("expected a new session"),
    }
}

#[test]
fn failed_password_login_after_refresh_keeps_the_refresh_error() {
    let a = account(false, true);
    let pwd = Some("pw".to_string());
    let (step, _) = renew_step(&a, &pwd, RenewStep::Start, RenewEvent::Begin);
    let (step, act) = renew_step(&a, &pwd, step, failed("refreshToken：boom"));
    assert!(matches!(act, RenewAction::CallPasswordLogin { .. }));
    let (step, act) = renew_step(&a, &pwd, step, failed("loginWithPassword：wrong"));
    assert!(matches!(step, RenewStep::Done));
    assert!(matches!(act, RenewAction::Finish(Err(e)) if e == "refreshToken：boom"));
}

#[test]
fn failed_rebuild_without_password_ends_with_its_error() {
    let a = account(true, false);
    let (step, _) = renew_step(&a, &None, RenewStep::Start, RenewEvent::Begin);
    let (step, _) = renew_step(&a, &None, step, failed("REFRESH_REJECTED_402"));
    let (_, act) = renew_step(&a, &None, step, failed("rebuild failed"));
    assert!(matches!(act, RenewAction::Finish(Err(e)) if e == "rebuild failed"));
    let (_, act) = renew_step(&a, &None, RenewStep::AwaitRebuild, RenewEvent::Begin);
    assert!(matches!(act, RenewAction::Ignored));
}

#[test]
fn starting_session_falls_back_to_the_stored_token() {
    let a = account(true, true);
    let (acc, token) = starting_session(&a, Err(ApiError("x".to_string()))).ok().unwrap();
    assert_eq!(token, "old");
    assert_eq!(acc.id, "acc1");
    let mut b = account(true, true);
    b.access_token = None;
    assert_eq!(starting_session(&b, Err(ApiError("x".to_string()))).err().unwrap().0, "x");
}

fn role(game: &str, id: &str, name: Option<&str>) -> GameRole {
    GameRole { game_id: game.to_string(), role_id: id.to_string(), role_name: name.map(str::to_string), game_name: None }
}

#[test]
fn signin_sequence_continues_after_app_failure_and_records_games() {
    let roles = vec![role("1256", "r1", Some("A")), role("1289", "r2", None)];
    let (s, act) = signin_step(SigninState::new(roles), SigninEvent::Begin);
    assert!(matches!(act, SigninAction::CallAppSignin));
    let (s, act) = signin_step(s, SigninEvent::Failed("appSignin：网络错误".to_string()));
    assert!(matches!(&s.app, AppOutcome::Failed(e) if e == "appSignin：网络错误"));
    assert!(matches!(&act, SigninAction::CallGameSignin { role_id, game_id } if role_id == "r1" && game_id == "1256"));
    let (s, act) = signin_step(s, SigninEvent::GameSigned);
    assert!(matches!(&act, SigninAction::CallSigninState { game_id } if game_id == "1256"));
    let (s, act) = signin_step(s, SigninEvent::DaysRead(2));
    assert!(matches!(act, SigninAction::CallSigninRewards { .. }));
    let list = vec![("a".to_string(), 1), ("b".to_string(), 2)];
    let (s, act) = signin_step(s, SigninEvent::RewardsRead(list));
    assert_eq!(s.games.len(), 1);
    assert!(s.games[0].success);
    assert_eq!(s.games[0].days, Some(2));
    assert_eq!(s.games[0].reward.as_ref().map(|r| r.name.as_str()), Some("b"));
    assert_eq!(s.games[0].role_name, "A");
    assert!(matches!(&act, SigninAction::CallGameSignin { role_id, .. } if role_id == "r2"));
    let (s, act) = signin_step(s, SigninEvent::Failed("gameSignin：维护中".to_string()));
    assert!(matches!(act, SigninAction::Finish));
    assert!(matches!(s.stage, SigninStage::Done));
    assert_eq!(s.games.len(), 2);
    assert!(!s.games[1].success && s.games[1].days.is_none() && s.games[1].reward.is_none());
    assert_eq!(s.games[1].role_name, "r2");
    assert_eq!(s.failures, vec!["1289: gameSignin：维护中".to_string()]);
}

#[test]
fn signin_sequence_aborts_on_expired_session_and_read_errors() {
    let (s, _) = signin_step(SigninState::new(vec![role("1256", "r1", None)]), SigninEvent::Begin);
    let (s, _) = signin_step(s, SigninEvent::Failed("今日已签到".to_string()));
    assert!(matches!(s.app, AppOutcome::Signed { already: true }));
    let (s2, act) = signin_step(s, SigninEvent::Failed("HTTP 401 unauthorized".to_string()));
    assert!(matches!(&act, SigninAction::Abort(e) if e == "HTTP 401 unauthorized"));
    assert!(s2.games.is_empty());

    let (s, _) = signin_step(SigninState::new(vec![role("1256", "r1", None)]), SigninEvent::Begin);
    let (s, _) = signin_step(s, SigninEvent::AppSigned);
    let (s, act) = signin_step(s, SigninEvent::Failed("已经签到过了".to_string()));
    assert!(matches!(act, SigninAction::CallSigninState { .. }));
    assert!(matches!(s.stage, SigninStage::AwaitDays { already: true }));
    let (_, act) = signin_step(s, SigninEvent::Failed("getSigninState：失败".to_string()));
    assert!(matches!(act, SigninAction::Abort(_)));

    let (s, act) = signin_step(SigninState::new(vec![]), SigninEvent::GameSigned);
    assert!(matches!(act, SigninAction::Ignored));
    assert!(matches!(s.stage, SigninStage::Start));
}

#[test]
fn record_cards_win_when_present() {
    let card = GameRecordCard {
        game_id: "1256".to_string(),
        game_name: Some("异环".to_string()),
        role_id: Some("5051".to_string()),
        role_name: None,
    };
    let roles = roles_by_cards(&Ok(vec![card])).unwrap();
    assert_eq!(roles.len(), 1);
    assert_eq!(roles[0].role_id, "5051");
    assert_eq!(roles[0].role_name.as_deref(), Some("异环"));
    assert!(roles_by_cards(&Ok(vec![])).is_none());
    assert!(roles_by_cards(&Err(ApiError("x".to_string()))).is_none());
}

use taygedo::runner::{cloud_step, CloudAction, CloudEvent, CloudStep};

#[test]
fn cloud_task_uses_stored_laohu_session() {
    let a = account(true, true);
    let (step, act, keep) = cloud_step(&a, &None, CloudStep::Start, CloudEvent::Begin);
    assert!(matches!(&act, CloudAction::CallInfo { token, user_id } if token == "lt" && user_id == "lu"));
    assert!(keep.is_none());
    let (step, act, keep) = cloud_step(&a, &None, step, CloudEvent::InfoFailed("cloud：x".to_string()));
    assert!(matches!(step, CloudStep::Done));
    assert!(matches!(&act, CloudAction::Fail(m) if m == "cloud：x"));
    assert!(keep.is_none());
}

#[test]
fn cloud_task_skips_without_phone_or_password() {
    let a = account(false, false);
    let (_, act, _) = cloud_step(&a, &Some("pw".to_string()), CloudStep::Start, CloudEvent::Begin);
    assert!(matches!(&act, CloudAction::Skip(r) if r == "账号缺少手机号"));
    let b = account(false, true);
    let (_, act, _) = cloud_step(&b, &None, CloudStep::Start, CloudEvent::Begin);
    assert!(matches!(&act, CloudAction::Skip(r) if r == "缺少密码或密码解密失败"));
}

#[test]
fn cloud_task_logs_in_and_keeps_the_new_session() {
    let a = account(false, true);
    let pwd = Some("pw".to_string());
    let (step, act, _) = cloud_step(&a, &pwd, CloudStep::Start, CloudEvent::Begin);
    assert!(matches!(&act, CloudAction::CallLogin { phone, password } if phone == "138" && password == "pw"));
    let (_, act, keep) = cloud_step(&a, &pwd, CloudStep::AwaitLogin, CloudEvent::LoginFailed("wrong".to_string()));
    assert!(matches!(&act, CloudAction::Fail(m) if m == "老虎登录失败：wrong"));
    assert!(keep.is_none());
    let ev = CloudEvent::LoggedIn { token: "t".to_string(), user_id: "u".to_string(), at: "2026-01-01 06:10:00".to_string() };
    let (step, act, keep) = cloud_step(&a, &pwd, step, ev);
    assert!(matches!(&act, CloudAction::CallInfo { token, .. } if token == "t"));
    let k = keep.unwrap();
    assert_eq!(k.laohu_token.as_deref(), Some("t"));
    assert_eq!(k.token_updated_at.as_deref(), Some("2026-01-01 06:10:00"));
    let (_, act, keep) = cloud_step(&a, &pwd, step, CloudEvent::Info);
    assert!(matches!(act, CloudAction::Succeed));
    assert_eq!(keep.unwrap().laohu_user_id.as_deref(), Some("u"));
}

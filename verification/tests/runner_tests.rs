use taygedo::api::{CoinTask, GameRecordCard, GameRoleRaw, RecommendPost};
use taygedo::crypto::{encrypt_password, generate_credential_key};
use taygedo::models::{Account, GameRole, GameSigninResult};
use taygedo::runner::{
    account_status, add_fallback_roles, adopt_first_role, classify_signin_failure, cloud_skip_reason,
    failure_summary, game_failure_entry, game_label, is_already_signed, is_auth_error, join_strings,
    like_candidates, pick_reward, push_error, refresh_falls_back_to_password, remaining, remaining_fits,
    share_choice, CoinProgress,
    resolve_password, roles_from_cards, with_session, RunOptions, SigninFailure,
};

fn account() -> Account {
    Account {
        id: "acc1".to_string(),
        name: "n".to_string(),
        uid: "u1".to_string(),
        device_id: "d".to_string(),
        openudid: None,
        vendorid: None,
        access_token: Some("old".to_string()),
        refresh_token: "rt0".to_string(),
        laohu_token: Some("lt".to_string()),
        laohu_user_id: Some("lu".to_string()),
        token_updated_at: None,
        phone: Some("13800000000".to_string()),
        encrypted_password: None,
        role_id: None,
        role_name: None,
    }
}

fn game(success: bool) -> GameSigninResult {
    GameSigninResult {
        game_id: "1256".to_string(),
        game_name: None,
        role_name: "r".to_string(),
        days: None,
        reward: None,
        already_signed: Some(false),
        success,
        error: None,
    }
}

fn post(id: &str, liked: Option<bool>) -> RecommendPost {
    RecommendPost { post_id: id.to_string(), liked }
}

#[test]
fn run_options_default() {
    let o = RunOptions::default();
    assert!(o.coin_tasks && o.cloud_duration);
    assert_eq!(o.share_platform, "qq");
}

#[test]
fn game_label_prefers_distinct_name() {
    assert_eq!(game_label("1256", Some("异环")), "异环(1256)");
    assert_eq!(game_label("1256", Some("")), "1256");
    assert_eq!(game_label("1256", Some("1256")), "1256");
    assert_eq!(game_label("1256", None), "1256");
}

#[test]
fn already_signed_messages() {
    assert!(is_already_signed("今天已签到"));
    assert!(is_already_signed("请勿重复签到"));
    assert!(is_already_signed("User ALREADY Signed"));
    assert!(!is_already_signed("already"));
    assert!(!is_already_signed("签到失败"));
}

#[test]
fn auth_error_messages() {
    assert!(is_auth_error("getUserTasks 请求失败（HTTP 401，code=-1，msg=）"));
    assert!(is_auth_error("Token expired"));
    assert!(is_auth_error("登录已过期"));
    assert!(!is_auth_error("服务器繁忙"));
}

#[test]
fn signin_failure_classes() {
    assert_eq!(classify_signin_failure("已签到 token"), SigninFailure::AlreadySigned);
    assert_eq!(classify_signin_failure("invalid_token"), SigninFailure::SessionExpired);
    assert_eq!(classify_signin_failure("奖励发放失败"), SigninFailure::Failed);
}

#[test]
fn resolve_password_decrypts_with_key() {
    let key = generate_credential_key();
    let mut a = account();
    assert_eq!(resolve_password(&a, Some(&key)), None);
    a.encrypted_password = Some(encrypt_password("pw123456", &key));
    assert_eq!(resolve_password(&a, Some(&key)), Some("pw123456".to_string()));
    assert_eq!(resolve_password(&a, None), None);
    let other = generate_credential_key();
    assert_eq!(resolve_password(&a, Some(&other)), None);
}

#[test]
fn with_session_replaces_tokens() {
    let a = account();
    let b = with_session(&a, "at", "rt", Some("u2"), None, Some("lu2"));
    assert_eq!(b.access_token.as_deref(), Some("at"));
    assert_eq!(b.refresh_token, "rt");
    assert_eq!(b.uid, "u2");
    assert_eq!(b.laohu_token.as_deref(), Some("lt"));
    assert_eq!(b.laohu_user_id.as_deref(), Some("lu2"));
    assert!(b.token_updated_at.unwrap().ends_with("+08:00"));
    let c = with_session(&a, "at", "rt", None, None, None);
    assert_eq!(c.uid, "u1");
}

#[test]
fn refresh_fallback_decision() {
    assert!(refresh_falls_back_to_password("timeout", true, true));
    assert!(!refresh_falls_back_to_password("REFRESH_REJECTED_402: x", true, true));
    assert!(refresh_falls_back_to_password("REFRESH_REJECTED_402: x", false, true));
}

#[test]
fn cloud_skip_reasons() {
    assert_eq!(cloud_skip_reason(false, true).as_deref(), Some("账号缺少手机号"));
    assert_eq!(cloud_skip_reason(true, false).as_deref(), Some("缺少密码或密码解密失败"));
    assert_eq!(cloud_skip_reason(true, true), None);
}

#[test]
fn remaining_coin_task_runs() {
    let tasks = vec![
        CoinTask { code: "like_post_c".to_string(), complete_times: 2, limit_times: 5 },
        CoinTask { code: "share".to_string(), complete_times: 3, limit_times: 1 },
        CoinTask { code: "like_post_c".to_string(), complete_times: 0, limit_times: 9 },
    ];
    assert_eq!(remaining(&tasks, "like_post_c", 5), 3);
    assert_eq!(remaining(&tasks, "share", 1), 0);
    assert_eq!(remaining(&tasks, "browse_post_c", 5), 5);
}

#[test]
fn push_error_joins_messages() {
    let mut e: Option<String> = None;
    push_error(&mut e, "a");
    push_error(&mut e, "b");
    assert_eq!(e.as_deref(), Some("a；b"));
}

#[test]
fn record_cards_give_roles() {
    let cards = vec![
        GameRecordCard {
            game_id: "1256".to_string(),
            game_name: Some("异环".to_string()),
            role_id: Some("r1".to_string()),
            role_name: None,
        },
        GameRecordCard { game_id: "1289".to_string(), game_name: None, role_id: None, role_name: None },
    ];
    let roles = roles_from_cards(&cards);
    assert_eq!(roles.len(), 1);
    assert_eq!(roles[0].role_id, "r1");
    assert_eq!(roles[0].role_name.as_deref(), Some("异环"));
    assert_eq!(roles[0].game_name.as_deref(), Some("异环"));
}

#[test]
fn fallback_roles_skip_empty_and_duplicates() {
    let mut roles: Vec<GameRole> = Vec::new();
    let list = vec![
        GameRoleRaw { role_id: "a".to_string(), role_name: Some("A".to_string()) },
        GameRoleRaw { role_id: "".to_string(), role_name: None },
        GameRoleRaw { role_id: "a".to_string(), role_name: Some("A2".to_string()) },
        GameRoleRaw { role_id: "b".to_string(), role_name: None },
    ];
    add_fallback_roles(&mut roles, "1256", &list);
    assert_eq!(roles.len(), 2);
    assert_eq!(roles[0].role_name.as_deref(), Some("A"));
    add_fallback_roles(&mut roles, "1289", &list);
    assert_eq!(roles.len(), 2);
    assert_eq!(roles[1].game_id, "1256");
}

#[test]
fn adopt_first_role_sets_account_role() {
    let mut a = account();
    adopt_first_role(&mut a, &[]);
    assert_eq!(a.role_id, None);
    let roles = vec![GameRole {
        game_id: "g".to_string(),
        role_id: "r".to_string(),
        role_name: Some("名".to_string()),
        game_name: None,
    }];
    adopt_first_role(&mut a, &roles);
    assert_eq!(a.role_id.as_deref(), Some("r"));
    assert_eq!(a.role_name.as_deref(), Some("名"));
}

#[test]
fn like_candidates_dedupe_and_skip_liked() {
    let browsed = vec![post("1", Some(true)), post("2", None)];
    let listed = vec![post("1", Some(false)), post("3", Some(false)), post("2", None)];
    assert_eq!(like_candidates(&browsed, &listed), vec!["2".to_string(), "3".to_string()]);
}

#[test]
fn reward_of_the_day() {
    let rewards = vec![("金币".to_string(), 10), ("经验".to_string(), 20)];
    let r = pick_reward(&rewards, 2).unwrap();
    assert_eq!(r.name, "经验");
    assert_eq!(r.num, 20);
    assert_eq!(pick_reward(&rewards, 0).unwrap().num, 10);
    assert!(pick_reward(&rewards, 3).is_none());
}

#[test]
fn account_status_rules() {
    assert_eq!(account_status(&[game(false), game(false)], false), "failed");
    assert_eq!(account_status(&[game(false), game(true)], true), "success");
    assert_eq!(account_status(&[], true), "failed");
    assert_eq!(account_status(&[], false), "success");
}

#[test]
fn failure_summary_text() {
    let games = vec![game_failure_entry("异环(1256)", "boom"), "x: y".to_string()];
    assert_eq!(
        failure_summary(&Some("网络错误".to_string()), &games).as_deref(),
        Some("APP签到：网络错误；游戏签到：异环(1256): boom；x: y")
    );
    assert_eq!(failure_summary(&None, &[]), None);
    assert_eq!(join_strings(&["a".to_string()], ","), "a");
}

#[test]
fn remaining_is_defined_by_the_first_match() {
    let tasks = vec![
        CoinTask { code: "x".to_string(), complete_times: 1, limit_times: 2 },
        CoinTask { code: "x".to_string(), complete_times: -1, limit_times: i64::MAX },
    ];
    assert!(remaining_fits(&tasks, "x"));
    assert_eq!(remaining(&tasks, "x", 0), 1);
    let bad = vec![CoinTask { code: "x".to_string(), complete_times: -1, limit_times: i64::MAX }];
    assert!(!remaining_fits(&bad, "x"));
    assert!(remaining_fits(&bad, "y"));
}

#[test]
fn coin_progress_counts_to_targets() {
    let tasks = vec![
        CoinTask { code: "browse_post_c".to_string(), complete_times: 4, limit_times: 5 },
        CoinTask { code: "signin_c".to_string(), complete_times: 1, limit_times: 1 },
    ];
    let (mut p, bbs) = CoinProgress::from_tasks(&tasks, "wx");
    assert_eq!(bbs, 0);
    assert_eq!((p.browse_target, p.like_target, p.share_target), (1, 5, 1));
    assert!(p.needs_posts());
    assert!(p.wants_browse());
    p.record_browse();
    assert!(!p.wants_browse());
    p.record_like();
    assert_eq!(p.like_done, 1);
    p.record_share();
    assert_eq!(p.share_done, 1);
    p.record_bbs_signin(Some("今日已签到"));
    assert_eq!(p.bbs_signin, Some(true));
    assert_eq!(p.error, None);
    p.bbs_signin = None;
    p.record_bbs_signin(Some("网络错误"));
    assert_eq!(p.bbs_signin, None);
    assert_eq!(p.error.as_deref(), Some("BBS 签到失败：网络错误"));
    assert_eq!(p.platform, "wx");
}

#[test]
fn share_goes_to_the_first_browsed_post() {
    let browsed = vec![post("9", None)];
    let listed = vec![post("1", None)];
    assert_eq!(share_choice(&browsed, &listed).as_deref(), Some("9"));
    assert_eq!(share_choice(&[], &listed).as_deref(), Some("1"));
    assert_eq!(share_choice(&[], &[]), None);
}

use taygedo::login::DeviceIdentity;
use taygedo::models::{Account, Config, LogEntry};
use taygedo::protocol::ParamMap;
use taygedo::service::{
    account_from_login, apply_env_overrides, change_credentials, count_status, delete_account,
    ensure_defaults, init_credentials, must_change_password, no_auth_allows, normalize_crypto_policy,
    parse_bool_env, record_successes, replace_account, require_encryption, selected, set_credentials,
    set_schedule, signed_today, upgrade_password_hash_if_legacy, upsert_account, verify_login,
    LogBuffer, LoginLimiter, TokenStore, LOG_CAPACITY, LOGIN_LOCK_SECS, MAX_LOGIN_FAILURES,
    TOKEN_TTL_SECS,
};
use taygedo::session::CryptoManager;

fn acc(id: &str, phone: &str) -> Account {
    Account {
        id: id.to_string(),
        name: format!("name-{id}"),
        uid: "u".to_string(),
        device_id: "d".to_string(),
        openudid: None,
        vendorid: None,
        access_token: None,
        refresh_token: "rt".to_string(),
        laohu_token: None,
        laohu_user_id: None,
        token_updated_at: None,
        phone: Some(phone.to_string()),
        encrypted_password: None,
        role_id: None,
        role_name: None,
    }
}

#[test]
fn log_buffer_keeps_the_newest_entries() {
    let mut b = LogBuffer::new();
    for i in 0..(LOG_CAPACITY + 3) {
        b.push_log("info", format!("m{i}"));
    }
    let all = b.recent_logs(usize::MAX);
    assert_eq!(all.len(), LOG_CAPACITY);
    assert_eq!(all[0].message, "m3");
    let recent = b.recent_logs(2);
    assert_eq!(recent.len(), 2);
    assert_eq!(recent[1].message, format!("m{}", LOG_CAPACITY + 2));
    assert_eq!(b.recent_logs(10_000).len(), LOG_CAPACITY);
    b.push_entry(LogEntry { ts: "t".to_string(), level: "warn".to_string(), message: "x".to_string() });
    assert_eq!(b.recent_logs(1)[0].level, "warn");
}

#[test]
fn token_valid_for_seven_days() {
    let mut t = TokenStore::new();
    let tok = t.issue_at("admin", 1000);
    assert_eq!(tok.len(), 64);
    assert_eq!(t.validate_at(&tok, 1000 + TOKEN_TTL_SECS - 1).as_deref(), Some("admin"));
    assert_eq!(t.validate_at(&tok, 1000 + TOKEN_TTL_SECS), None);
    assert_eq!(t.revoke_all(), 0);
}

#[test]
fn token_revocation() {
    let mut t = TokenStore::new();
    let a = t.issue_at("admin", 0);
    let b = t.issue_at("admin", 0);
    assert!(t.revoke(&a));
    assert!(!t.revoke(&a));
    assert_eq!(t.validate_at(&a, 1), None);
    assert_eq!(t.validate_at(&b, 1).as_deref(), Some("admin"));
    assert_eq!(t.validate_at("", 1), None);
    assert_eq!(t.revoke_all(), 1);
    assert_eq!(t.validate_at(&b, 1), None);
}

#[test]
fn login_lock_after_repeated_failures() {
    let mut l = LoginLimiter::new();
    for _ in 0..(MAX_LOGIN_FAILURES - 1) {
        l.record_login_fail("admin", 100);
        assert_eq!(l.login_lock_remaining("admin", 100), None);
    }
    l.record_login_fail("admin", 100);
    assert_eq!(l.login_lock_remaining("admin", 100), Some(LOGIN_LOCK_SECS));
    assert_eq!(l.login_lock_remaining("admin", 100 + LOGIN_LOCK_SECS), None);
    assert_eq!(l.login_lock_remaining("other", 100), None);
    l.reset_login_fails("admin");
    assert_eq!(l.login_lock_remaining("admin", 101), None);
}

#[test]
fn credentials_set_and_verified() {
    let mut c = Config::new_default();
    assert!(!verify_login(&c, "admin", "x"));
    set_credentials(&mut c, "  boss  ", "new-password");
    assert_eq!(c.web_username.as_deref(), Some("boss"));
    assert_eq!(c.web_password_version, Some(2));
    assert_eq!(c.web_password_salt.as_ref().unwrap().len(), 32);
    assert!(verify_login(&c, "boss", "new-password"));
    assert!(!verify_login(&c, "boss", "new-passwore"));
    assert!(!verify_login(&c, "admin", "new-password"));
    set_credentials(&mut c, "   ", "other-password");
    assert_eq!(c.web_username.as_deref(), Some("boss"));
}

#[test]
fn legacy_hash_is_upgraded() {
    let mut c = Config::new_default();
    c.web_password_salt = Some("abcd".to_string());
    c.web_password_hash = Some(taygedo::crypto::hash_password("old-pass", "abcd"));
    assert!(verify_login(&c, "admin", "old-pass"));
    assert!(upgrade_password_hash_if_legacy(&mut c, "old-pass"));
    assert_eq!(c.web_password_version, Some(2));
    assert!(verify_login(&c, "admin", "old-pass"));
    assert!(!upgrade_password_hash_if_legacy(&mut c, "old-pass"));
}

#[test]
fn changing_credentials_revokes_everything() {
    let mut c = Config::new_default();
    let mut t = TokenStore::new();
    let mut m = CryptoManager::new(taygedo::protocol::x25519_generate_secret());
    let cs = taygedo::protocol::x25519_generate_secret();
    let cpub = taygedo::protocol::x25519_public_from_secret(&cs);
    m.handshake(&cpub, &[1u8; 16], "p").unwrap();
    let tok = t.issue_at("admin", 10);
    c.web_password_must_change = true;
    let (a, b) = change_credentials(&mut c, &mut t, &mut m, "", "brand-new-pw");
    assert_eq!((a, b), (1, 1));
    assert!(!must_change_password(&c));
    assert_eq!(t.validate_at(&tok, 11), None);
    assert_eq!(m.active_sessions(), 0);
}

#[test]
fn initial_password_generated_once() {
    let mut c = Config::new_default();
    let p = init_credentials(&mut c, None).unwrap();
    assert_eq!(p.chars().count(), 16);
    assert!(c.web_password_must_change);
    assert!(verify_login(&c, "admin", &p));
    assert!(init_credentials(&mut c, None).is_none());
    let mut d = Config::new_default();
    let q = init_credentials(&mut d, Some("given-pass")).unwrap();
    assert_eq!(q, "given-pass");
    assert!(!d.web_password_must_change);
    let mut e = Config::new_default();
    let r = init_credentials(&mut e, Some("   ")).unwrap();
    assert_eq!(r.chars().count(), 16);
}

#[test]
fn defaults_fill_missing_fields() {
    let mut c = Config::new_default();
    c.credential_key = String::new();
    c.web_username = Some("  ".to_string());
    ensure_defaults(&mut c);
    assert!(!c.credential_key.is_empty());
    assert_eq!(c.web_username.as_deref(), Some("admin"));
}

#[test]
fn environment_values() {
    assert!(parse_bool_env(" ON "));
    assert!(parse_bool_env("1"));
    assert!(parse_bool_env("Yes"));
    assert!(!parse_bool_env("0"));
    assert!(!parse_bool_env("enabled"));
    let mut c = Config::new_default();
    apply_env_overrides(&mut c, Some(" 07:30 "), Some("off"), None, Some(" "));
    assert_eq!(c.default_schedule, "07:30");
    assert!(!c.coin_tasks);
    assert!(c.cloud_duration);
    assert_eq!(c.share_platform, "qq");
}

#[test]
fn crypto_policy_and_lan_decisions() {
    assert_eq!(normalize_crypto_policy(" Always ").as_deref(), Some("always"));
    assert_eq!(normalize_crypto_policy("sometimes"), None);
    assert!(require_encryption("always", Some(true)));
    assert!(!require_encryption("never", Some(false)));
    assert!(!require_encryption("auto", Some(true)));
    assert!(require_encryption("auto", Some(false)));
    assert!(require_encryption("auto", None));
    assert!(no_auth_allows(true, true, Some(true)));
    assert!(!no_auth_allows(true, true, Some(false)));
    assert!(no_auth_allows(true, false, None));
    assert!(!no_auth_allows(false, false, Some(true)));
}

#[test]
fn schedule_updates() {
    let mut c = Config::new_default();
    assert_eq!(set_schedule(&mut c, "acc1", Some("6:5")).unwrap_err(), "时间格式应为 HH:MM");
    set_schedule(&mut c, "acc1", Some("07:15")).unwrap();
    assert_eq!(c.schedules.get("acc1").as_deref(), Some("07:15"));
    set_schedule(&mut c, "acc1", None).unwrap();
    assert_eq!(c.schedules.get("acc1"), None);
}

#[test]
fn account_list_operations() {
    let mut v = vec![acc("a", "1"), acc("b", "2"), acc("a", "3")];
    assert!(delete_account(&mut v, "a"));
    assert_eq!(v.len(), 1);
    assert!(!delete_account(&mut v, "zz"));

    let mut new_b = acc("fresh", "2");
    new_b.name = "ignored".to_string();
    let stored = upsert_account(&mut v, new_b, false);
    assert_eq!(stored.id, "b");
    assert_eq!(stored.name, "name-b");
    assert_eq!(v.len(), 1);
    let stored2 = upsert_account(&mut v, acc("c", "9"), true);
    assert_eq!(stored2.id, "c");
    assert_eq!(v.len(), 2);

    let mut upd = acc("c", "9");
    upd.uid = "changed".to_string();
    assert!(replace_account(&mut v, upd));
    assert_eq!(v[1].uid, "changed");
    assert!(!replace_account(&mut v, acc("nope", "0")));
}

#[test]
fn login_account_construction() {
    let ident = DeviceIdentity {
        device_id: "dev".to_string(),
        openudid: "O".to_string(),
        vendorid: "V".to_string(),
    };
    let a = account_from_login(
        ident,
        "13812345678",
        Some("  "),
        "uid".to_string(),
        "at".to_string(),
        "rt".to_string(),
        "lt".to_string(),
        "lu".to_string(),
        Some(("r".to_string(), Some("名".to_string()))),
    );
    assert_eq!(a.name, "账号 138****5678");
    assert_eq!(a.role_id.as_deref(), Some("r"));
    assert_eq!(a.phone.as_deref(), Some("13812345678"));
    assert!(a.id.starts_with("acc"));
}

#[test]
fn run_bookkeeping() {
    let mut state = ParamMap::new();
    state.set("a", "2026-01-01");
    assert!(signed_today(&state, "a", "2026-01-01"));
    assert!(!signed_today(&state, "a", "2026-01-02"));
    let outcomes = vec![
        ("a".to_string(), "success".to_string()),
        ("b".to_string(), "failed".to_string()),
        ("c".to_string(), "success".to_string()),
    ];
    record_successes(&mut state, &outcomes, "2026-01-02");
    assert!(signed_today(&state, "a", "2026-01-02"));
    assert!(!signed_today(&state, "b", "2026-01-02"));
    assert!(signed_today(&state, "c", "2026-01-02"));
    let statuses: Vec<String> = outcomes.iter().map(|o| o.1.clone()).collect();
    assert_eq!(count_status(&statuses, "success"), 2);
    assert_eq!(count_status(&statuses, "skipped"), 0);
    let only = vec!["b".to_string()];
    assert!(selected(Some(&only), "b"));
    assert!(!selected(Some(&only), "a"));
    assert!(selected(None, "a"));
}

use taygedo::lan::{cidr_parts, lan_matcher_from, network, normalize_ip, split_list, Cidr, IpAddress};
use taygedo::models::Config;
use taygedo::protocol::ParamMap;
use taygedo::scheduler::{due_accounts, mark_fired, prune_fired, scheduler_tick};
use taygedo::web::{
    account_schedule, apply_config_update, change_actor, check_login_request, check_new_password,
    crypto_route, default_username, extract_host, extract_token, handshake_path, is_origin_allowed,
    logs_limit, mask_phone, parse_seq, plaintext_decision, schedule_time, target_username,
    AuthIdentity, ConfigUpdate, CryptoRoute, PlainDecision,
};

fn v4(a: u8, b: u8, c: u8, d: u8) -> IpAddress {
    IpAddress::V4(u32::from_be_bytes([a, b, c, d]))
}

#[test]
fn host_extraction() {
    assert_eq!(extract_host("http://Example.com:8787/x").as_deref(), Some("Example.com"));
    assert_eq!(extract_host("192.168.1.1:80").as_deref(), Some("192.168.1.1"));
    assert_eq!(extract_host("http://[::1]:8080").as_deref(), Some("::1"));
    assert_eq!(extract_host("   "), None);
}

#[test]
fn origin_rules() {
    let allowed = vec!["https://Panel.Example".to_string()];
    assert!(!is_origin_allowed("null", &allowed, Some("x")));
    assert!(is_origin_allowed("https://panel.example", &allowed, None));
    assert!(is_origin_allowed("http://router.lan:80", &[], Some("ROUTER.lan:8787")));
    assert!(!is_origin_allowed("http://evil.example", &[], Some("router.lan:8787")));
    assert!(!is_origin_allowed("http://router.lan", &[], None));
}

#[test]
fn bearer_token_extraction() {
    assert_eq!(extract_token(Some("Bearer  abc ")), "abc");
    assert_eq!(extract_token(Some("bearer abc")), "");
    assert_eq!(extract_token(None), "");
}

#[test]
fn identities_and_defaults() {
    let anon = AuthIdentity { username: None, via_no_auth: true, token: None };
    assert_eq!(anon.actor(), "anonymous");
    let user = AuthIdentity { username: Some("boss".to_string()), via_no_auth: false, token: None };
    assert_eq!(user.actor(), "boss");
    assert_eq!(change_actor(Some(&anon)), "admin");
    assert_eq!(change_actor(Some(&user)), "boss");
    assert_eq!(default_username(), "admin");
    assert_eq!(handshake_path(), "/api/crypto/handshake");
}

#[test]
fn password_change_checks() {
    assert_eq!(check_new_password("a", "short").unwrap_err(), "新密码至少 8 位");
    assert_eq!(check_new_password("same-pass", "same-pass").unwrap_err(), "新密码不能与原密码相同");
    assert!(check_new_password("old-pass", "new-pass").is_ok());
    assert_eq!(target_username(None, "admin").unwrap(), "admin");
    assert_eq!(target_username(Some("  "), "admin").unwrap(), "admin");
    assert_eq!(target_username(Some(" new.user "), "admin").unwrap(), "new.user");
    assert_eq!(target_username(Some("ab"), "admin").unwrap_err(), "账号名长度需在 3-32 个字符之间");
    assert_eq!(
        target_username(Some("bad user"), "admin").unwrap_err(),
        "账号名只能包含字母、数字、下划线、连字符与点号"
    );
}

#[test]
fn request_helpers() {
    assert_eq!(logs_limit(None), 200);
    assert_eq!(logs_limit(Some(9999)), 500);
    assert_eq!(logs_limit(Some(3)), 3);
    assert_eq!(mask_phone(Some("13812345678")).as_deref(), Some("138****5678"));
    assert_eq!(mask_phone(None), None);
    assert_eq!(check_login_request(" ", "password").unwrap_err(), "手机号不能为空");
    assert_eq!(check_login_request("1", "sms").unwrap_err(), "mode 必须是 password 或 captcha");
    assert!(check_login_request("1", "captcha").is_ok());
    assert_eq!(schedule_time(Some("  ")), None);
    assert_eq!(schedule_time(Some("06:00")), Some("06:00"));
    assert_eq!(parse_seq("42"), Some(42));
    assert_eq!(parse_seq("-1"), None);
    assert_eq!(parse_seq("18446744073709551616"), None);
    let mut s = ParamMap::new();
    s.set("a", "08:00");
    assert_eq!(account_schedule(&s, "06:10", "a"), "08:00");
    assert_eq!(account_schedule(&s, "06:10", "b"), "06:10");
}

#[test]
fn crypto_routing() {
    assert_eq!(crypto_route("/api/crypto/handshake"), CryptoRoute::PassThrough);
    assert_eq!(crypto_route("/"), CryptoRoute::PassThrough);
    assert_eq!(crypto_route("/api/accounts"), CryptoRoute::Api);
    assert_eq!(plaintext_decision(true, true, true, false), PlainDecision::Encrypted);
    assert_eq!(plaintext_decision(true, true, false, false), PlainDecision::Refused);
    assert_eq!(plaintext_decision(true, false, false, true), PlainDecision::Plain);
    assert_eq!(plaintext_decision(false, false, false, false), PlainDecision::Plain);
}

fn update() -> ConfigUpdate {
    ConfigUpdate {
        default_schedule: None,
        coin_tasks: None,
        cloud_duration: None,
        share_platform: None,
        crypto_policy: None,
        lan_cidrs: None,
        lan_no_auth: None,
    }
}

#[test]
fn config_updates() {
    let mut c = Config::new_default();
    let mut u = update();
    u.crypto_policy = Some("bogus".to_string());
    u.default_schedule = Some("bad".to_string());
    assert_eq!(
        apply_config_update(&mut c, u, true).err().unwrap(),
        "crypto_policy 只能是 auto / always / never"
    );
    let mut u = update();
    u.lan_cidrs = Some("x".to_string());
    assert!(apply_config_update(&mut c, u, false).is_err());
    let mut u = update();
    u.default_schedule = Some("7:00".to_string());
    assert_eq!(apply_config_update(&mut c, u, true).err().unwrap(), "default_schedule 格式应为 HH:MM");
    assert_eq!(c.default_schedule, "06:10");

    let mut u = update();
    u.crypto_policy = Some("ALWAYS".to_string());
    u.lan_cidrs = Some("  ".to_string());
    u.coin_tasks = Some(false);
    let ch = apply_config_update(&mut c, u, false).ok().unwrap();
    assert!(ch.policy_changed);
    assert_eq!(c.crypto_policy, "always");
    assert_eq!(ch.lan_cidrs.as_deref(), Some(c.lan_cidrs.as_str()));
    assert!(!c.coin_tasks);
    let mut u = update();
    u.crypto_policy = Some("always".to_string());
    assert!(!apply_config_update(&mut c, u, true).ok().unwrap().policy_changed);
}

#[test]
fn cidr_list_parsing_and_matching() {
    assert_eq!(split_list(" a, ,b ,"), vec!["a".to_string(), "b".to_string()]);
    assert_eq!(cidr_parts(" 10.0.0.0 / 8 "), ("10.0.0.0".to_string(), Some("8".to_string())));
    assert_eq!(cidr_parts("::1"), ("::1".to_string(), None));
    assert_eq!(network(v4(10, 0, 0, 0), Some("33")), None);
    assert_eq!(network(v4(10, 0, 0, 0), None).unwrap().prefix, 32);
    let items = vec![
        (Some(v4(192, 168, 0, 0)), Some("16".to_string())),
        (Some(IpAddress::V6(1)), Some("128".to_string())),
    ];
    let m = lan_matcher_from(&items).unwrap();
    assert!(m.lan_matches(v4(192, 168, 3, 4)));
    assert!(!m.lan_matches(v4(192, 169, 0, 1)));
    assert!(m.lan_matches(IpAddress::V6(1)));
    let mapped = IpAddress::V6((0xffffu128 << 32) | u32::from_be_bytes([192, 168, 9, 9]) as u128);
    assert_eq!(normalize_ip(mapped), v4(192, 168, 9, 9));
    assert!(m.lan_matches(mapped));
    assert!(lan_matcher_from(&[(None, None)]).is_none());
    let all = Cidr::new(v4(0, 0, 0, 0), 0).unwrap();
    assert!(all.contains(v4(8, 8, 8, 8)));
    assert!(!all.contains(IpAddress::V6(5)));
}

#[test]
fn scheduler_fires_once_per_day() {
    let ids = vec!["a".to_string(), "b".to_string(), "c".to_string()];
    let mut schedules = ParamMap::new();
    schedules.set("b", "9:00");
    schedules.set("c", "bogus");
    let mut fired = ParamMap::new();
    fired.set("old", "2026-01-01");
    prune_fired(&mut fired, "2026-01-02");
    assert_eq!(fired.len(), 0);
    let due = due_accounts(&ids, &schedules, "06:10", &fired, "2026-01-02", "08:00");
    assert_eq!(due, vec!["a".to_string()]);
    let due2 = due_accounts(&ids, &schedules, "06:10", &fired, "2026-01-02", "09:00");
    assert_eq!(due2, vec!["a".to_string(), "b".to_string()]);
    mark_fired(&mut fired, &due2, "2026-01-02");
    let due3 = due_accounts(&ids, &schedules, "06:10", &fired, "2026-01-02", "23:59");
    assert!(due3.is_empty());
    let due4 = due_accounts(&ids, &schedules, "06:10", &fired, "2026-01-03", "06:10");
    assert_eq!(due4, vec!["a".to_string()]);
}

#[test]
fn scheduler_tick_marks_and_forgets() {
    let ids = vec!["a".to_string(), "b".to_string()];
    let mut schedules = ParamMap::new();
    schedules.set("b", "10:00");
    let mut fired = ParamMap::new();
    fired.set("a", "2026-01-01");
    let due = scheduler_tick(&mut fired, &ids, &schedules, "06:10", "2026-01-02", "07:00");
    assert_eq!(due, vec!["a".to_string()]);
    assert_eq!(fired.get("a").as_deref(), Some("2026-01-02"));
    assert!(scheduler_tick(&mut fired, &ids, &schedules, "06:10", "2026-01-02", "09:00").is_empty());
    let due = scheduler_tick(&mut fired, &ids, &schedules, "06:10", "2026-01-02", "10:00");
    assert_eq!(due, vec!["b".to_string()]);
    assert!(scheduler_tick(&mut fired, &ids, &schedules, "06:10", "2026-01-02", "23:59").is_empty());
    let due = scheduler_tick(&mut fired, &ids, &schedules, "06:10", "2026-01-03", "23:59");
    assert_eq!(due.len(), 2);
}
